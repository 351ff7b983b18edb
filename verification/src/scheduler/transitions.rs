//! What each operation of the scheduler does, as functions on
//! [`SchedulerView`]: for every operation the inputs it accepts and the
//! state it leads to.
use vstd::prelude::*;

use crate::scheduler::pcb::{PCBResource, PCBState, ProcessView};
use crate::scheduler::rcb::RCBResource;
use crate::scheduler::state::SchedulerView;

verus! {

impl SchedulerView {
    // ----- create -----
    /// Some slot of the process table is free.
    pub open spec fn has_free_slot(self) -> bool {
        exists|c: int| 0 <= c < self.pcbs.len() && self.pcbs[c] is None
    }

    /// Slot `c` is free and every slot below it is taken.
    pub open spec fn is_lowest_free(self, c: int) -> bool {
        &&& 0 <= c < self.pcbs.len()
        &&& self.pcbs[c] is None
        &&& forall|j: int| 0 <= j < c ==> self.pcbs[j] is Some
    }

    /// The free slot of lowest index.
    pub open spec fn lowest_free(self) -> int {
        choose|c: int| self.is_lowest_free(c)
    }

    /// `create` succeeds for a priority of 0, 1 or 2 while a slot is free.
    pub open spec fn create_accepts(self, priority: int) -> bool {
        0 <= priority < 3 && self.has_free_slot()
    }

    /// The new process takes slot `c` as a child of the running process
    /// and joins the tail of the ready queue of its priority.
    pub open spec fn spawn(self, c: int, priority: usize) -> SchedulerView {
        self.with_pcb(c, ProcessView::fresh(priority, Some(self.running_pid))).add_child(
            self.running_pid as int,
            c as usize,
        ).enqueue(priority as int, c as usize)
    }

    /// The state after an accepted `create`.
    pub open spec fn create_next(self, priority: int) -> SchedulerView {
        self.spawn(self.lowest_free(), priority as usize).reselect()
    }

    // ----- request -----
    /// `request` succeeds for an existing class and at least one unit, no
    /// more than the class has in all, unless the root process is running.
    pub open spec fn request_accepts(self, rid: int, units: int) -> bool {
        &&& 0 <= rid < self.rcbs.len()
        &&& 1 <= units <= self.rcbs[rid].inventory
        &&& self.running_pid != 0
    }

    /// The running process is given `units` units of class `rid` at once.
    pub open spec fn allocate(self, rid: int, units: usize) -> SchedulerView {
        self.add_grant(self.running_pid as int, PCBResource { rid: rid as usize, units })
            .set_available(rid, (self.rcbs[rid].units_available - units) as usize)
    }

    /// The running process becomes blocked, leaves its ready queue and
    /// joins the tail of the waitlist of class `rid`.
    pub open spec fn block(self, rid: int, units: usize) -> SchedulerView {
        let p = self.running_pid;
        self.set_state(p as int, PCBState::BLOCKED).dequeue(self.pcb(p as int).priority as int, p)
            .add_waiter(rid, RCBResource { pid: p, units })
    }

    /// The state after an accepted `request`.
    pub open spec fn request_next(self, rid: int, units: int) -> SchedulerView {
        if self.rcbs[rid].units_available >= units {
            self.allocate(rid, units as usize).reselect()
        } else {
            self.block(rid, units as usize).reselect()
        }
    }

    // ----- release -----
    /// The request at position `i` of the waitlist of class `rid` is
    /// granted: its process holds the units, is ready again and joins the
    /// tail of the ready queue of its priority; the request leaves the
    /// waitlist.
    pub open spec fn grant(self, rid: int, i: int) -> SchedulerView {
        let request = self.rcbs[rid].waitlist[i];
        let p = request.pid;
        self.set_state(p as int, PCBState::READY).add_grant(
            p as int,
            PCBResource { rid: rid as usize, units: request.units },
        ).set_available(rid, (self.rcbs[rid].units_available - request.units) as usize)
            .remove_waiter(rid, i).enqueue(self.pcb(p as int).priority as int, p)
    }

    /// Serves the waitlist of class `rid` from position `i` on: every
    /// request that fits into what is available when its turn comes is
    /// granted, the others are passed over and stay where they are.
    pub open spec fn service(self, rid: int, i: int) -> SchedulerView
        decreases self.rcbs[rid].waitlist.len() - i,
    {
        let rcb = self.rcbs[rid];
        if !(0 <= rid < self.rcbs.len() && 0 <= i < rcb.waitlist.len()) || rcb.units_available
            == 0 {
            self
        } else if rcb.waitlist[i].units <= rcb.units_available {
            self.grant(rid, i).service(rid, i)
        } else {
            self.service(rid, i + 1)
        }
    }

    /// Process `p` gives back its first grant equal to `grant`; the
    /// waitlist of that class is then served from its head.
    pub open spec fn give_back(self, p: int, grant: PCBResource) -> SchedulerView {
        let rid = grant.rid as int;
        self.drop_grant(p, grant).set_available(
            rid,
            (self.rcbs[rid].units_available + grant.units) as usize,
        ).service(rid, 0)
    }

    /// `release` succeeds for an existing class and at least one unit if
    /// the running process holds a grant of exactly that class and size.
    pub open spec fn release_accepts(self, rid: int, units: int) -> bool {
        &&& 0 <= rid < self.rcbs.len()
        &&& 1 <= units <= usize::MAX
        &&& self.holds(self.running_pid as int, PCBResource { rid: rid as usize, units: units as usize })
    }

    /// The state after an accepted `release`.
    pub open spec fn release_next(self, rid: int, units: int) -> SchedulerView {
        self.give_back(
            self.running_pid as int,
            PCBResource { rid: rid as usize, units: units as usize },
        ).reselect()
    }

    // ----- destroy -----
    /// Process `p` is process `a` or is reached from `a` by going from
    /// parent to child at most `fuel` times.
    pub open spec fn descends_from(self, p: int, a: int, fuel: nat) -> bool
        decreases fuel,
    {
        p == a || (fuel > 0 && self.live(p) && self.pcb(p).parent is Some && self.descends_from(
            self.pcb(p).parent->0 as int,
            a,
            (fuel - 1) as nat,
        ))
    }

    /// `destroy` succeeds for a process other than the root that is the
    /// running process or one of its descendants.
    pub open spec fn destroy_accepts(self, pid: int) -> bool {
        &&& 0 < pid < self.pcbs.len()
        &&& self.live(pid)
        &&& self.descends_from(pid, self.running_pid as int, 16)
    }

    /// The childless process reached from `p` by going to the first
    /// child at most `fuel` times.
    pub open spec fn first_leaf(self, p: int, fuel: nat) -> int
        decreases fuel,
    {
        if fuel == 0 || !self.live(p) || self.pcb(p).children.len() == 0 {
            p
        } else {
            self.first_leaf(self.pcb(p).children[0] as int, (fuel - 1) as nat)
        }
    }

    /// Process `p` gives back each of `grants`, in their order.
    pub open spec fn give_back_each(self, p: int, grants: Seq<PCBResource>) -> SchedulerView
        decreases grants.len(),
    {
        if grants.len() == 0 {
            self
        } else {
            self.give_back(p, grants[0]).give_back_each(p, grants.drop_first())
        }
    }

    /// Takes every request of process `pid` out of the waitlists of
    /// the classes below `n`.
    pub open spec fn drop_waiters_below(self, n: int, pid: usize) -> SchedulerView
        decreases n,
    {
        if n <= 0 {
            self
        } else {
            self.drop_waiters_below(n - 1, pid).drop_waiters(n - 1, pid)
        }
    }

    /// Takes every request of process `pid` out of all waitlists.
    pub open spec fn drop_all_waiters(self, pid: usize) -> SchedulerView {
        self.drop_waiters_below(4, pid)
    }

    /// Process `x` leaves its ready queue, the children of its parent,
    /// and all waitlists.
    pub open spec fn detach(self, x: int) -> SchedulerView {
        self.dequeue(self.pcb(x).priority as int, x as usize).drop_child(
            self.pcb(x).parent->0 as int,
            x as usize,
        ).drop_all_waiters(x as usize)
    }

    /// Removes the childless process `x`: it leaves its ready queue and
    /// the children of its parent, its pending requests are dropped, each
    /// of its grants is given back as if it had released it, and its slot
    /// is freed.
    pub open spec fn remove_process(self, x: int) -> SchedulerView {
        self.detach(x).give_back_each(x, self.pcb(x).resources).free_slot(x)
    }

    /// Removes process `pid` and all its descendants, children before
    /// their parent and the children of one process in the order of
    /// their creation: the process removed next is always the first leaf
    /// under `pid`. At most `fuel` processes are removed.
    pub open spec fn remove_subtree(self, pid: int, fuel: nat) -> SchedulerView
        decreases fuel,
    {
        if fuel == 0 {
            self
        } else {
            let leaf = self.first_leaf(pid, 16);
            let next = self.remove_process(leaf);
            if leaf == pid {
                next
            } else {
                next.remove_subtree(pid, (fuel - 1) as nat)
            }
        }
    }

    /// The state after an accepted `destroy`.
    pub open spec fn destroy_next(self, pid: int) -> SchedulerView {
        self.remove_subtree(pid, 16).reselect()
    }

    // ----- timeout -----
    /// The running process moves from the head to the tail of its ready queue.
    pub open spec fn rotate(self) -> SchedulerView {
        let p = self.running_pid;
        let k = self.pcb(p as int).priority as int;
        self.with_queue(k, self.ready[k].remove(0).push(p))
    }

    /// The state after `timeout`.
    pub open spec fn timeout_next(self) -> SchedulerView {
        self.rotate().reselect()
    }
}

} // verus!
