//! What holds of every state that the operations can reach.
use vstd::prelude::*;

use crate::scheduler::defaults::initial_rcbs;
use crate::scheduler::pcb::{PCBResource, PCBState, ProcessView};
use crate::scheduler::rcb::{RCBResource, ResourceView};
use crate::scheduler::state::SchedulerView;

verus! {

/// Going from process `p` to its parent and on, the root is reached
/// after at most `fuel` steps, through occupied slots only.
pub open spec fn rooted_within(pcbs: Seq<Option<ProcessView>>, p: int, fuel: nat) -> bool
    decreases fuel,
{
    p == 0 || (fuel > 0 && 0 <= p < pcbs.len() && pcbs[p] is Some && pcbs[p]->0.parent is Some
        && rooted_within(pcbs, pcbs[p]->0.parent->0 as int, (fuel - 1) as nat))
}

/// Units of class `rid` held by the process in `slot`, if there is one.
pub open spec fn slot_units(slot: Option<ProcessView>, rid: int) -> nat {
    match slot {
        Some(pcb) => pcb.units_held(rid),
        None => 0,
    }
}

/// Units of class `rid` held by the processes in the slots below `n`.
pub open spec fn units_held_below(pcbs: Seq<Option<ProcessView>>, rid: int, n: int) -> nat
    decreases n,
{
    if n <= 0 {
        0
    } else {
        units_held_below(pcbs, rid, n - 1) + slot_units(pcbs[n - 1], rid)
    }
}

/// Some waitlist holds a request of process `pid`.
pub open spec fn is_waiting(rcbs: Seq<ResourceView>, pid: usize) -> bool {
    exists|r: int, i: int|
        0 <= r < rcbs.len() && 0 <= i < rcbs[r].waitlist.len() && (
        #[trigger] rcbs[r].waitlist[i]).pid == pid
}

/// A grant names an existing class and at least one unit.
pub open spec fn grant_valid(grant: PCBResource) -> bool {
    grant.rid < 4 && grant.units >= 1
}

impl SchedulerView {
    /// The tables have their fixed sizes.
    pub open spec fn shaped(self) -> bool {
        self.pcbs.len() == 16 && self.rcbs.len() == 4 && self.ready.len() == 3
    }

    // ----- the process tree -----
    /// `c` is a process whose parent is `p`.
    pub open spec fn is_child_of(self, c: usize, p: int) -> bool {
        self.live(c as int) && self.pcb(c as int).parent == Some(p as usize)
    }

    /// Process `p` is tied into the tree: the root has no parent, any
    /// other process is among the children of its parent, which exists;
    /// its children are distinct processes that name it as their parent;
    /// and its chain of parents ends at the root.
    pub open spec fn linked(self, p: int) -> bool {
        let pcb = self.pcb(p);
        &&& p == 0 ==> pcb.parent is None
        &&& p != 0 ==> pcb.parent is Some && self.live(pcb.parent->0 as int) && self.pcb(
            pcb.parent->0 as int,
        ).children.contains(p as usize)
        &&& pcb.children.no_duplicates()
        &&& forall|i: int|
            0 <= i < pcb.children.len() ==> self.is_child_of(#[trigger] pcb.children[i], p)
        &&& rooted_within(self.pcbs, p, 15)
    }

    /// The processes form a tree under the root process 0.
    pub open spec fn tree_sound(self) -> bool {
        &&& self.shaped()
        &&& self.live(0)
        &&& forall|p: int| 0 <= p < 16 && (#[trigger] self.pcbs[p]) is Some ==> self.linked(p)
    }

    /// `other` has the same processes as `self`, each with the same
    /// parent, children and priority.
    pub open spec fn same_tree(self, other: SchedulerView) -> bool {
        forall|p: int|
            0 <= p < 16 ==> {
                &&& (#[trigger] other.pcbs[p]) is Some <==> self.pcbs[p] is Some
                &&& other.pcbs[p] is Some ==> {
                    &&& other.pcbs[p]->0.parent == self.pcbs[p]->0.parent
                    &&& other.pcbs[p]->0.children == self.pcbs[p]->0.children
                    &&& other.pcbs[p]->0.priority == self.pcbs[p]->0.priority
                }
            }
    }

    // ----- ready queues, waitlists, holdings -----
    /// `p` is a ready process of priority `k`.
    pub open spec fn runs_at(self, p: usize, k: int) -> bool {
        &&& self.live(p as int)
        &&& self.pcb(p as int).state == PCBState::READY
        &&& self.pcb(p as int).priority == k
    }

    /// The ready queue of priority `k` holds ready processes of that
    /// priority, none of them twice.
    pub open spec fn queue_sound(self, k: int) -> bool {
        &&& self.ready[k].no_duplicates()
        &&& forall|i: int|
            0 <= i < self.ready[k].len() ==> self.runs_at(#[trigger] self.ready[k][i], k)
    }

    /// `request` comes from a blocked process and asks for at least one
    /// unit and no more than class `r` has in all.
    pub open spec fn waits(self, request: RCBResource, r: int) -> bool {
        &&& self.live(request.pid as int)
        &&& self.pcb(request.pid as int).state == PCBState::BLOCKED
        &&& 1 <= request.units <= self.rcbs[r].inventory
    }

    /// Every request on the waitlist of class `r` is a proper one.
    pub open spec fn waitlist_sound(self, r: int) -> bool {
        forall|i: int|
            0 <= i < self.rcbs[r].waitlist.len() ==> self.waits(
                #[trigger] self.rcbs[r].waitlist[i],
                r,
            )
    }

    /// No process has two pending requests, in one waitlist or in two.
    pub open spec fn waiters_distinct(self) -> bool {
        forall|r1: int, i1: int, r2: int, i2: int|
            0 <= r1 < 4 && 0 <= i1 < self.rcbs[r1].waitlist.len() && 0 <= r2 < 4 && 0 <= i2
                < self.rcbs[r2].waitlist.len() && (#[trigger] self.rcbs[r1].waitlist[i1]).pid == (
            #[trigger] self.rcbs[r2].waitlist[i2]).pid ==> r1 == r2 && i1 == i2
    }

    /// Process `p` has one of the three priorities, and every grant
    /// it holds is a valid one.
    pub open spec fn holdings_sound(self, p: int) -> bool {
        &&& self.pcb(p).priority < 3
        &&& forall|j: int|
            0 <= j < self.pcb(p).resources.len() ==> grant_valid(
                #[trigger] self.pcb(p).resources[j],
            )
    }

    /// Units of class `rid` held by all processes together.
    pub open spec fn units_held(self, rid: int) -> nat {
        units_held_below(self.pcbs, rid, 16)
    }

    /// Class `r` has its fixed inventory, and each of its units is
    /// either available or held by a process.
    pub open spec fn conserved(self, r: int) -> bool {
        &&& self.rcbs[r].inventory == initial_rcbs()[r].inventory
        &&& self.rcbs[r].units_available + self.units_held(r) == self.rcbs[r].inventory
    }

    /// Queues, waitlists and holdings agree with the process table.
    pub open spec fn accounts_sound(self) -> bool {
        &&& self.shaped()
        &&& self.live(0)
        &&& self.pcb(0).state == PCBState::READY
        &&& self.pcb(0).priority == 0
        &&& self.pcb(0).resources.len() == 0
        &&& forall|k: int| #![trigger self.ready[k]] 0 <= k < 3 ==> self.queue_sound(k)
        &&& forall|r: int|
            #![trigger self.rcbs[r]]
            0 <= r < 4 ==> self.waitlist_sound(r) && self.conserved(r)
        &&& forall|p: int|
            0 <= p < 16 && (#[trigger] self.pcbs[p]) is Some ==> self.holdings_sound(p)
        &&& self.waiters_distinct()
    }

    // ----- nothing is lost -----
    /// Process `p` is where its state says: in the ready queue of its
    /// priority if it is ready, on a waitlist if it is blocked.
    pub open spec fn accounted(self, p: int) -> bool {
        match self.pcb(p).state {
            PCBState::READY => self.ready[self.pcb(p).priority as int].contains(p as usize),
            PCBState::BLOCKED => is_waiting(self.rcbs, p as usize),
        }
    }

    /// Every process but `x` is where its state says.
    pub open spec fn complete_besides(self, x: int) -> bool {
        forall|p: int|
            0 <= p < 16 && (#[trigger] self.pcbs[p]) is Some && p != x ==> self.accounted(p)
    }

    /// Every process is where its state says.
    pub open spec fn complete(self) -> bool {
        forall|p: int| 0 <= p < 16 && (#[trigger] self.pcbs[p]) is Some ==> self.accounted(p)
    }

    // ----- nobody waits without need -----
    /// The requests of class `r` before position `n` each ask for more
    /// than is available.
    pub open spec fn settled_before(self, r: int, n: int) -> bool {
        forall|i: int|
            0 <= i < n && i < self.rcbs[r].waitlist.len() ==> (
            #[trigger] self.rcbs[r].waitlist[i]).units > self.rcbs[r].units_available
    }

    /// No request on the waitlist of class `r` could be granted now.
    pub open spec fn settled(self, r: int) -> bool {
        self.settled_before(r, self.rcbs[r].waitlist.len() as int)
    }

    // ----- all of it -----
    /// The tree and the accounts are both in order.
    pub open spec fn coherent(self) -> bool {
        self.tree_sound() && self.accounts_sound()
    }

    /// The state is one that the operations can leave behind: coherent,
    /// complete, settled, and the running process is the selected one.
    pub open spec fn wf(self) -> bool {
        &&& self.coherent()
        &&& self.complete()
        &&& forall|r: int| #![trigger self.rcbs[r]] 0 <= r < 4 ==> self.settled(r)
        &&& self.running_pid == self.selected()
    }
}

} // verus!
