//! Process control blocks.
use vstd::prelude::*;

verus! {

/// Whether a process is eligible to run or waits for a resource.
#[derive(Debug, Clone, Copy, PartialEq, Eq, Structural)]
pub enum PCBState {
    READY,
    BLOCKED,
}

/// One grant: `units` units of resource class `rid`.
#[derive(Debug, Clone, Copy, PartialEq, Eq, Structural)]
pub struct PCBResource {
    pub rid: usize,
    pub units: usize,
}

/// The record of one process.
#[derive(Debug, PartialEq, Eq)]
pub struct PCB {
    pub state: PCBState,
    pub priority: usize,
    pub parent: Option<usize>,
    pub children: Vec<usize>,
    pub resources: Vec<PCBResource>,
}

/// The mathematical content of a [`PCB`].
pub struct ProcessView {
    pub state: PCBState,
    pub priority: usize,
    pub parent: Option<usize>,
    /// Children in the order of their creation.
    pub children: Seq<usize>,
    /// Grants in the order in which they were made; equal grants are kept apart.
    pub resources: Seq<PCBResource>,
}

impl ProcessView {
    /// A process as it is right after creation: ready, childless, holding nothing.
    pub open spec fn fresh(priority: usize, parent: Option<usize>) -> ProcessView {
        ProcessView {
            state: PCBState::READY,
            priority,
            parent,
            children: Seq::empty(),
            resources: Seq::empty(),
        }
    }

    /// Units of class `rid` that this process holds, over all its grants.
    pub open spec fn units_held(self, rid: int) -> nat {
        units_in(self.resources, rid)
    }
}

/// Sum of the units of the grants in `grants` that are of class `rid`.
pub open spec fn units_in(grants: Seq<PCBResource>, rid: int) -> nat
    decreases grants.len(),
{
    if grants.len() == 0 {
        0
    } else {
        let last = grants.last();
        units_in(grants.drop_last(), rid) + if last.rid == rid {
            last.units as nat
        } else {
            0
        }
    }
}

impl View for PCB {
    type V = ProcessView;

    open spec fn view(&self) -> ProcessView {
        ProcessView {
            state: self.state,
            priority: self.priority,
            parent: self.parent,
            children: self.children@,
            resources: self.resources@,
        }
    }
}

impl PCB {
    #[must_use]
    pub fn new(priority: usize, parent: Option<usize>) -> (pcb: Self)
        ensures
            pcb@ == ProcessView::fresh(priority, parent),
    {
        Self {
            priority,
            parent,
            state: PCBState::READY,
            children: Vec::new(),
            resources: Vec::new(),
        }
    }
}

} // verus!
