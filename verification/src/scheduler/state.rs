//! The mathematical state of the scheduler and the elementary updates from
//! which the operations are composed.
use vstd::prelude::*;

use crate::scheduler::defaults::{initial_pcbs, initial_rcbs};
use crate::scheduler::pcb::{PCBResource, PCBState, ProcessView};
use crate::scheduler::rcb::{RCBResource, ResourceView};

verus! {

/// The requests of `waitlist` that were not made by process `pid`, in their order.
pub open spec fn waiters_besides(waitlist: Seq<RCBResource>, pid: usize) -> Seq<RCBResource> {
    waitlist.filter(|e: RCBResource| e.pid != pid)
}

/// The whole state of a scheduler as plain mathematical values.
#[verifier::ext_equal]
pub struct SchedulerView {
    /// The process that is running.
    pub running_pid: usize,
    /// The process table: slot `p` holds process `p` or is free.
    pub pcbs: Seq<Option<ProcessView>>,
    /// The resource classes.
    pub rcbs: Seq<ResourceView>,
    /// The ready queues, one for each priority; the head of each comes first.
    pub ready: Seq<Seq<usize>>,
}

impl SchedulerView {
    /// The state after a reset: only the root process, which runs; every
    /// resource class full; the root alone in the queue of priority 0.
    pub open spec fn initial() -> SchedulerView {
        SchedulerView {
            running_pid: 0,
            pcbs: initial_pcbs(),
            rcbs: initial_rcbs(),
            ready: seq![seq![0usize], Seq::empty(), Seq::empty()],
        }
    }

    /// Slot `p` exists and holds a process.
    #[verifier::inline]
    pub open spec fn live(self, p: int) -> bool {
        0 <= p < self.pcbs.len() && self.pcbs[p] is Some
    }

    /// The process in slot `p`.
    #[verifier::inline]
    pub open spec fn pcb(self, p: int) -> ProcessView
        recommends
            self.live(p),
    {
        self.pcbs[p]->0
    }

    /// Process `p` holds a grant equal to `grant`.
    pub open spec fn holds(self, p: int, grant: PCBResource) -> bool {
        self.live(p) && self.pcb(p).resources.contains(grant)
    }

    /// Puts `pcb` into slot `p`.
    pub open spec fn with_pcb(self, p: int, pcb: ProcessView) -> SchedulerView {
        SchedulerView { pcbs: self.pcbs.update(p, Some(pcb)), ..self }
    }

    /// Frees slot `p`.
    pub open spec fn free_slot(self, p: int) -> SchedulerView {
        SchedulerView { pcbs: self.pcbs.update(p, None), ..self }
    }

    /// Sets the state of process `p`.
    pub open spec fn set_state(self, p: int, state: PCBState) -> SchedulerView {
        self.with_pcb(p, ProcessView { state, ..self.pcb(p) })
    }

    /// Appends `c` to the children of process `p`.
    pub open spec fn add_child(self, p: int, c: usize) -> SchedulerView {
        self.with_pcb(p, ProcessView { children: self.pcb(p).children.push(c), ..self.pcb(p) })
    }

    /// Takes `c` out of the children of process `p`.
    pub open spec fn drop_child(self, p: int, c: usize) -> SchedulerView {
        self.with_pcb(
            p,
            ProcessView { children: self.pcb(p).children.remove_value(c), ..self.pcb(p) },
        )
    }

    /// Appends `grant` to what process `p` holds.
    pub open spec fn add_grant(self, p: int, grant: PCBResource) -> SchedulerView {
        self.with_pcb(
            p,
            ProcessView { resources: self.pcb(p).resources.push(grant), ..self.pcb(p) },
        )
    }

    /// Takes the first grant equal to `grant` away from process `p`.
    pub open spec fn drop_grant(self, p: int, grant: PCBResource) -> SchedulerView {
        self.with_pcb(
            p,
            ProcessView { resources: self.pcb(p).resources.remove_value(grant), ..self.pcb(p) },
        )
    }

    /// Puts `rcb` in the place of resource class `r`.
    pub open spec fn with_rcb(self, r: int, rcb: ResourceView) -> SchedulerView {
        SchedulerView { rcbs: self.rcbs.update(r, rcb), ..self }
    }

    /// Sets the number of available units of class `r`.
    pub open spec fn set_available(self, r: int, units: usize) -> SchedulerView {
        self.with_rcb(r, ResourceView { units_available: units, ..self.rcbs[r] })
    }

    /// Appends `request` to the waitlist of class `r`.
    pub open spec fn add_waiter(self, r: int, request: RCBResource) -> SchedulerView {
        self.with_rcb(
            r,
            ResourceView { waitlist: self.rcbs[r].waitlist.push(request), ..self.rcbs[r] },
        )
    }

    /// Takes the request at position `i` out of the waitlist of class `r`.
    pub open spec fn remove_waiter(self, r: int, i: int) -> SchedulerView {
        self.with_rcb(
            r,
            ResourceView { waitlist: self.rcbs[r].waitlist.remove(i), ..self.rcbs[r] },
        )
    }

    /// Takes every request of process `pid` out of the waitlist of class `r`.
    pub open spec fn drop_waiters(self, r: int, pid: usize) -> SchedulerView {
        self.with_rcb(
            r,
            ResourceView {
                waitlist: waiters_besides(self.rcbs[r].waitlist, pid),
                ..self.rcbs[r]
            },
        )
    }

    /// Puts `queue` in the place of the ready queue of priority `k`.
    pub open spec fn with_queue(self, k: int, queue: Seq<usize>) -> SchedulerView {
        SchedulerView { ready: self.ready.update(k, queue), ..self }
    }

    /// Appends `p` to the ready queue of priority `k`.
    pub open spec fn enqueue(self, k: int, p: usize) -> SchedulerView {
        self.with_queue(k, self.ready[k].push(p))
    }

    /// Takes `p` out of the ready queue of priority `k`, if it is there.
    pub open spec fn dequeue(self, k: int, p: usize) -> SchedulerView {
        self.with_queue(k, self.ready[k].remove_value(p))
    }

    /// The head of the non-empty ready queue of highest priority; the
    /// running process itself if all queues are empty.
    pub open spec fn selected(self) -> usize {
        if self.ready[2].len() > 0 {
            self.ready[2][0]
        } else if self.ready[1].len() > 0 {
            self.ready[1][0]
        } else if self.ready[0].len() > 0 {
            self.ready[0][0]
        } else {
            self.running_pid
        }
    }

    /// Makes the selected process the running one.
    pub open spec fn reselect(self) -> SchedulerView {
        SchedulerView { running_pid: self.selected(), ..self }
    }
}

} // verus!
