//! Why an operation is rejected.
use vstd::prelude::*;

use crate::scheduler::pcb::PCBResource;
use crate::scheduler::state::SchedulerView;

verus! {

/// The reasons for which an operation fails and changes nothing.
#[derive(Debug, Clone, Copy, PartialEq, Eq, Structural)]
pub enum Rejection {
    /// A priority, a process id, a resource class or a number of units
    /// outside its range.
    ArgumentOutOfRange,
    /// The root process was to be destroyed or asked for units, or a
    /// process was to be destroyed that is neither the running
    /// process nor one of its descendants.
    StructuralViolation,
    /// More units were asked for than the class has in all.
    PermanentInfeasibility,
    /// No slot of the process table is free.
    ResourceExhausted,
    /// The running process holds no grant of exactly the class and
    /// number of units that it was to release.
    ResourceNotHeld,
}

impl SchedulerView {
    /// Why `create` fails, if it does.
    pub open spec fn create_rejection(self, priority: int) -> Option<Rejection> {
        if !(0 <= priority < 3) {
            Some(Rejection::ArgumentOutOfRange)
        } else if !self.has_free_slot() {
            Some(Rejection::ResourceExhausted)
        } else {
            None
        }
    }

    /// Why `destroy` fails, if it does.
    pub open spec fn destroy_rejection(self, pid: int) -> Option<Rejection> {
        if !(0 <= pid < self.pcbs.len()) {
            Some(Rejection::ArgumentOutOfRange)
        } else if pid == 0 || !self.live(pid) || !self.descends_from(
            pid,
            self.running_pid as int,
            16,
        ) {
            Some(Rejection::StructuralViolation)
        } else {
            None
        }
    }

    /// Why `request` fails, if it does.
    pub open spec fn request_rejection(self, rid: int, units: int) -> Option<Rejection> {
        if !(0 <= rid < self.rcbs.len()) || units < 1 {
            Some(Rejection::ArgumentOutOfRange)
        } else if self.running_pid == 0 {
            Some(Rejection::StructuralViolation)
        } else if units > self.rcbs[rid].inventory {
            Some(Rejection::PermanentInfeasibility)
        } else {
            None
        }
    }

    /// Why `release` fails, if it does.
    pub open spec fn release_rejection(self, rid: int, units: int) -> Option<Rejection> {
        if !(0 <= rid < self.rcbs.len()) || !(1 <= units <= usize::MAX) {
            Some(Rejection::ArgumentOutOfRange)
        } else if !self.holds(
            self.running_pid as int,
            PCBResource { rid: rid as usize, units: units as usize },
        ) {
            Some(Rejection::ResourceNotHeld)
        } else {
            None
        }
    }
}

/// An operation is accepted exactly if there is no reason to reject it.
pub proof fn law_accepted_unless_rejected(s: SchedulerView, a: int, b: int)
    ensures
        s.create_accepts(a) <==> s.create_rejection(a) is None,
        s.destroy_accepts(a) <==> s.destroy_rejection(a) is None,
        s.request_accepts(a, b) <==> s.request_rejection(a, b) is None,
        s.release_accepts(a, b) <==> s.release_rejection(a, b) is None,
{
}

} // verus!
