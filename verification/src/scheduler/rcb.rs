//! Resource control blocks.
use vstd::prelude::*;

verus! {

/// One pending request: process `pid` waits for `units` units.
#[derive(Debug, Clone, Copy, PartialEq, Eq, Structural)]
pub struct RCBResource {
    pub pid: usize,
    pub units: usize,
}

/// The record of one resource class.
#[derive(Debug, PartialEq, Eq)]
pub struct RCB {
    pub inventory: usize,
    pub units_available: usize,
    pub waitlist: Vec<RCBResource>,
}

/// The mathematical content of an [`RCB`].
pub struct ResourceView {
    /// Total units of the class.
    pub inventory: usize,
    /// Units that no process holds.
    pub units_available: usize,
    /// Pending requests, oldest first.
    pub waitlist: Seq<RCBResource>,
}

impl ResourceView {
    /// A class with all of its `inventory` units available and nobody waiting.
    pub open spec fn full(inventory: usize) -> ResourceView {
        ResourceView { inventory, units_available: inventory, waitlist: Seq::empty() }
    }

    /// Units asked for by the requests still on the waitlist.
    pub open spec fn units_waiting(self) -> nat {
        units_requested(self.waitlist)
    }
}

/// Sum of the units of the requests in `waitlist`.
pub open spec fn units_requested(waitlist: Seq<RCBResource>) -> nat
    decreases waitlist.len(),
{
    if waitlist.len() == 0 {
        0
    } else {
        units_requested(waitlist.drop_last()) + waitlist.last().units as nat
    }
}

impl View for RCB {
    type V = ResourceView;

    open spec fn view(&self) -> ResourceView {
        ResourceView {
            inventory: self.inventory,
            units_available: self.units_available,
            waitlist: self.waitlist@,
        }
    }
}

impl RCB {
    #[must_use]
    pub fn new(inventory: usize) -> (rcb: Self)
        ensures
            rcb@ == ResourceView::full(inventory),
    {
        Self { inventory, units_available: inventory, waitlist: Vec::new() }
    }
}

} // verus!
