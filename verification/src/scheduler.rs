//! The scheduler engine: the process table, the resource classes, the
//! ready queues, and the six operations on them.
use vstd::prelude::*;

pub mod accounting;
pub mod defaults;
pub mod laws;
pub mod pcb;
pub mod preservation;
pub mod rcb;
pub mod rejections;
pub mod removal;
pub mod sequences;
pub mod servicing;
pub mod state;
pub mod subtree;
pub mod transitions;
pub mod tree;
pub mod vectors;
pub mod wellformed;

use crate::scheduler::defaults::{pcb_list_default, pcbs_view, rcb_list_default, rcbs_view};
use crate::scheduler::pcb::{PCBResource, PCBState, PCB};
use crate::scheduler::preservation::{
    lemma_create_wf, lemma_initial_wf, lemma_release_wf, lemma_request_wf, lemma_rotate_wf,
};
use crate::scheduler::rcb::{RCBResource, RCB};
use crate::scheduler::removal::{
    lemma_destroy_wf, lemma_detach, lemma_first_child, lemma_give_back_own, lemma_occupied_bound,
    lemma_occupied_freed, lemma_occupied_two, lemma_remove_process, occupied_below,
};
use crate::scheduler::servicing::{lemma_grant, lemma_hand_back};
use crate::scheduler::state::SchedulerView;
use crate::scheduler::tree::{depth, lemma_depth_bound};
use crate::scheduler::vectors::{position_of_grant, remove_requests_of, remove_value};
use crate::scheduler::wellformed::rooted_within;

verus! {

/// The scheduler: sixteen process slots, of which slot 0 holds the
/// root process; four resource classes; and a ready queue for each of
/// the three priorities, 2 being the highest.
pub struct Scheduler {
    /// The process that is running.
    pub running_pid: usize,
    /// The process table; the index of a slot is the id of its process.
    pub pcb_list: [Option<PCB>; 16],
    /// The resource classes; the index is the id of the class.
    pub rcb_list: [RCB; 4],
    /// The ready queues; the index is the priority, the head comes first.
    pub ready_list: [Vec<usize>; 3],
}

/// What the ready queues hold, priority by priority.
pub open spec fn ready_view(ready_list: [Vec<usize>; 3]) -> Seq<Seq<usize>> {
    Seq::new(3, |k: int| ready_list@[k]@)
}

/// The ready queues after a reset: the root alone, at priority 0.
fn ready_list_default() -> (ready_list: [Vec<usize>; 3])
    ensures
        ready_view(ready_list) == SchedulerView::initial().ready,
{
    let ready_list = [vec![0], Vec::new(), Vec::new()];
    assert(ready_list@[0]@ =~= seq![0usize]);
    ready_list
}

impl View for Scheduler {
    type V = SchedulerView;

    open spec fn view(&self) -> SchedulerView {
        SchedulerView {
            running_pid: self.running_pid,
            pcbs: pcbs_view(self.pcb_list),
            rcbs: rcbs_view(self.rcb_list),
            ready: ready_view(self.ready_list),
        }
    }
}

impl Scheduler {
    /// The state is one that the operations can leave behind.
    pub open spec fn wf(&self) -> bool {
        self@.wf()
    }

    /// A scheduler in the state after a reset.
    pub fn new() -> (scheduler: Scheduler)
        ensures
            scheduler@ == SchedulerView::initial(),
            scheduler.wf(),
    {
        proof {
            lemma_initial_wf();
        }
        Scheduler {
            running_pid: 0,
            pcb_list: pcb_list_default(),
            rcb_list: rcb_list_default(),
            ready_list: ready_list_default(),
        }
    }

    /// Resets the scheduler; the root process runs.
    pub fn init(&mut self) -> (result: Option<usize>)
        ensures
            final(self)@ == SchedulerView::initial(),
            final(self).wf(),
            result == Some(0usize),
    {
        self.running_pid = 0;
        self.pcb_list = pcb_list_default();
        self.rcb_list = rcb_list_default();
        self.ready_list = ready_list_default();
        proof {
            lemma_initial_wf();
        }
        Some(self.running_pid)
    }

    /// Selects the process to run: the head of the non-empty ready
    /// queue of highest priority.
    pub fn scheduler(&mut self) -> (running: usize)
        requires
            old(self)@.ready[0].len() > 0 || old(self)@.ready[1].len() > 0 || old(
                self,
            )@.ready[2].len() > 0,
        ensures
            final(self)@ == old(self)@.reselect(),
            running == old(self)@.selected(),
    {
        if self.ready_list[2].len() > 0 {
            self.running_pid = self.ready_list[2][0];
        } else if self.ready_list[1].len() > 0 {
            self.running_pid = self.ready_list[1][0];
        } else {
            self.running_pid = self.ready_list[0][0];
        }
        self.running_pid
    }

    /// The free slot of lowest index, if any slot is free.
    fn lowest_free_slot(&self) -> (found: Option<usize>)
        ensures
            match found {
                Some(c) => self@.is_lowest_free(c as int),
                None => !self@.has_free_slot(),
            },
    {
        let mut c: usize = 0;
        while c < 16
            invariant
                c <= 16,
                forall|j: int| 0 <= j < c ==> self@.pcbs[j] is Some,
            decreases 16 - c,
        {
            if self.pcb_list[c].is_none() {
                return Some(c);
            }
            c += 1;
        }
        None
    }

    /// Creates a process of the given priority as a child of the
    /// running process, in the free slot of lowest index, and selects
    /// anew. Fails, changing nothing, if the priority is not 0, 1 or 2
    /// or no slot is free.
    pub fn create(&mut self, priority: i32) -> (result: Option<usize>)
        requires
            old(self).wf(),
        ensures
            final(self).wf(),
            match result {
                Some(running) => {
                    &&& old(self)@.create_accepts(priority as int)
                    &&& final(self)@ == old(self)@.create_next(priority as int)
                    &&& running == final(self)@.running_pid
                },
                None => {
                    &&& !old(self)@.create_accepts(priority as int)
                    &&& old(self)@.create_rejection(priority as int) is Some
                    &&& final(self)@ == old(self)@
                },
            },
    {
        if priority < 0 || priority >= 3 {
            return None;
        }
        let priority = priority as usize;
        let empty_pid = match self.lowest_free_slot() {
            Some(pos) => pos,
            None => {
                return None;
            },
        };
        proof {
            lemma_create_wf(self@, priority as int);
        }
        self.put(empty_pid, PCB::new(priority, Some(self.running_pid)));
        self.add_child(self.running_pid, empty_pid);
        self.enqueue(priority, empty_pid);
        Some(self.scheduler())
    }

    /// The running process asks for `units` units of class `rid`. It
    /// gets them at once if that many are available; otherwise it is
    /// blocked and waits for them. Either way the process to run is
    /// selected anew. Fails, changing nothing, if there is no such
    /// class, if `units` is less than one or more than the class has
    /// in all, or if the root process is running.
    pub fn request(&mut self, rid: i32, units: i32) -> (result: Option<usize>)
        requires
            old(self).wf(),
        ensures
            final(self).wf(),
            match result {
                Some(running) => {
                    &&& old(self)@.request_accepts(rid as int, units as int)
                    &&& final(self)@ == old(self)@.request_next(rid as int, units as int)
                    &&& running == final(self)@.running_pid
                },
                None => {
                    &&& !old(self)@.request_accepts(rid as int, units as int)
                    &&& old(self)@.request_rejection(rid as int, units as int) is Some
                    &&& final(self)@ == old(self)@
                },
            },
    {
        if rid < 0 || units < 0 {
            return None;
        }
        let rid = rid as usize;
        let units = units as usize;
        if rid >= 4 {
            return None;
        }
        if units == 0 {
            return None;
        }
        if self.running_pid == 0 {
            return None;
        }
        if self.rcb_list[rid].inventory < units {
            return None;
        }
        proof {
            lemma_request_wf(self@, rid as int, units as int);
        }
        let pid = self.running_pid;
        if self.rcb_list[rid].units_available < units {
            let priority = self.pcb_list[pid].as_ref().expect(
                "Running PCB should exist",
            ).priority;
            self.set_state(pid, PCBState::BLOCKED);
            self.dequeue(priority, pid);
            self.add_waiter(rid, RCBResource { pid, units });
            return Some(self.scheduler());
        }
        let available = self.rcb_list[rid].units_available;
        self.add_grant(pid, PCBResource { rid, units });
        self.set_available(rid, available - units);
        Some(self.scheduler())
    }

    /// Process `p` gives back its first grant equal to `grant`, and the
    /// waitlist of that class is served from its head.
    fn give_back(&mut self, p: usize, grant: PCBResource, Ghost(x): Ghost<int>)
        requires
            old(self)@.at_rest(x),
            old(self)@.holds(p as int, grant),
        ensures
            final(self)@ == old(self)@.give_back(p as int, grant),
    {
        proof {
            lemma_hand_back(self@, p as int, grant, x);
        }
        let rid = grant.rid;
        let available = self.rcb_list[rid].units_available;
        self.drop_grant(p, grant);
        self.set_available(rid, available + grant.units);
        let ghost handed = self@;
        let mut i: usize = 0;
        while i < self.rcb_list[rid].waitlist.len() && self.rcb_list[rid].units_available > 0
            invariant
                rid < 4,
                self@.serving(rid as int, i as int, x),
                self@.service(rid as int, i as int) == handed.service(rid as int, 0),
            decreases self@.rcbs[rid as int].waitlist.len() - i,
        {
            let request = self.rcb_list[rid].waitlist[i];
            let available = self.rcb_list[rid].units_available;
            if request.units <= available {
                proof {
                    lemma_grant(self@, rid as int, i as int, x);
                }
                let pid = request.pid;
                let priority = self.pcb_list[pid].as_ref().expect("PCB should exist").priority;
                self.set_state(pid, PCBState::READY);
                self.add_grant(pid, PCBResource { rid, units: request.units });
                self.set_available(rid, available - request.units);
                self.remove_waiter(rid, i);
                self.enqueue(priority, pid);
            } else {
                i += 1;
            }
        }
    }

    /// Process `pid` gives back one grant of exactly `units` units of
    /// class `rid`; requests that waited for the class are granted as
    /// far as the units reach, and the process to run is selected
    /// anew. Fails, changing nothing, if the process does not exist
    /// or holds no such grant.
    pub fn release_helper(&mut self, pid: usize, rid: usize, units: usize) -> (result: Option<
        usize,
    >)
        requires
            old(self).wf(),
        ensures
            final(self).wf(),
            match result {
                Some(running) => {
                    &&& old(self)@.holds(pid as int, PCBResource { rid, units })
                    &&& final(self)@ == old(self)@.give_back(
                        pid as int,
                        PCBResource { rid, units },
                    ).reselect()
                    &&& running == final(self)@.running_pid
                },
                None => {
                    &&& !old(self)@.holds(pid as int, PCBResource { rid, units })
                    &&& final(self)@ == old(self)@
                },
            },
    {
        if pid >= 16 {
            return None;
        }
        let grant = PCBResource { rid, units };
        let held = match &self.pcb_list[pid] {
            Some(pcb) => position_of_grant(&pcb.resources, grant).is_some(),
            None => false,
        };
        if !held {
            return None;
        }
        proof {
            lemma_release_wf(self@, pid as int, grant);
        }
        self.give_back(pid, grant, Ghost(-1));
        Some(self.scheduler())
    }

    /// The running process gives back one grant of exactly `units`
    /// units of class `rid`; requests that waited for the class are
    /// granted as far as the units reach, and the process to run is
    /// selected anew. Fails, changing nothing, if there is no such
    /// class, if `units` is less than one, or if the running process
    /// holds no grant of exactly that class and size.
    pub fn release(&mut self, rid: i32, units: i32) -> (result: Option<usize>)
        requires
            old(self).wf(),
        ensures
            final(self).wf(),
            match result {
                Some(running) => {
                    &&& old(self)@.release_accepts(rid as int, units as int)
                    &&& final(self)@ == old(self)@.release_next(rid as int, units as int)
                    &&& running == final(self)@.running_pid
                },
                None => {
                    &&& !old(self)@.release_accepts(rid as int, units as int)
                    &&& old(self)@.release_rejection(rid as int, units as int) is Some
                    &&& final(self)@ == old(self)@
                },
            },
    {
        if rid < 0 || units < 0 {
            return None;
        }
        let rid = rid as usize;
        let units = units as usize;
        if rid >= 4 {
            return None;
        }
        if units == 0 {
            return None;
        }
        self.release_helper(self.running_pid, rid, units)
    }

    /// Whether process `pid` is the running process or one of its
    /// descendants, found by going from `pid` to its parent and on.
    pub fn is_child_of_current_process(&self, pid: usize) -> (is_child: bool)
        requires
            self.wf(),
        ensures
            is_child == self@.descends_from(pid as int, self@.running_pid as int, 16),
    {
        if pid >= 16 {
            return false;
        }
        let mut cur = pid;
        let ghost mut fuel: nat = 16;
        loop
            invariant
                self.wf(),
                cur < 16,
                1 <= fuel <= 16,
                self@.live(cur as int) ==> rooted_within(self@.pcbs, cur as int, (fuel - 1) as nat),
                self@.descends_from(cur as int, self@.running_pid as int, fuel)
                    == self@.descends_from(pid as int, self@.running_pid as int, 16),
            decreases fuel,
        {
            if cur == self.running_pid {
                return true;
            }
            match &self.pcb_list[cur] {
                Some(pcb) => match pcb.parent {
                    Some(parent) => {
                        proof {
                            fuel = (fuel - 1) as nat;
                        }
                        cur = parent;
                    },
                    None => {
                        return false;
                    },
                },
                None => {
                    return false;
                },
            }
        }
    }

    /// The childless process reached from `pid` by going to the first
    /// child again and again.
    fn first_leaf(&self, pid: usize) -> (leaf: usize)
        requires
            self@.tree_sound(),
            0 < pid < 16,
            self@.live(pid as int),
        ensures
            leaf == self@.first_leaf(pid as int, 16),
            0 < leaf < 16,
            self@.live(leaf as int),
            self@.pcb(leaf as int).children.len() == 0,
    {
        let mut cur = pid;
        let ghost mut fuel: nat = 16;
        loop
            invariant
                self@.tree_sound(),
                0 < cur < 16,
                self@.live(cur as int),
                fuel <= 16,
                fuel + depth(self@.pcbs, cur as int, 15) >= 16,
                self@.first_leaf(cur as int, fuel) == self@.first_leaf(pid as int, 16),
            decreases fuel,
        {
            proof {
                lemma_depth_bound(self@.pcbs, cur as int, 15);
            }
            let first = match &self.pcb_list[cur] {
                Some(pcb) => if pcb.children.len() == 0 {
                    None
                } else {
                    Some(pcb.children[0])
                },
                None => None,
            };
            match first {
                Some(child) => {
                    proof {
                        lemma_first_child(self@, cur as int);
                        fuel = (fuel - 1) as nat;
                    }
                    cur = child;
                },
                None => {
                    return cur;
                },
            }
        }
    }

    /// Removes the childless process `x`: it leaves its ready queue
    /// and the children of its parent, its pending requests are
    /// dropped, each of its grants is given back, and its slot is freed.
    fn remove_process(&mut self, x: usize)
        requires
            old(self)@.tree_sound(),
            old(self)@.at_rest(-1),
            0 < x < 16,
            old(self)@.live(x as int),
            old(self)@.pcb(x as int).children.len() == 0,
        ensures
            final(self)@ == old(self)@.remove_process(x as int),
    {
        proof {
            lemma_detach(self@, x as int);
        }
        let pcb = self.pcb_list[x].as_ref().expect("DESTROY: Current PCB should exist.");
        let priority = pcb.priority;
        let parent = pcb.parent.expect(
            "DESTROY: All processes should have a parent except process 0.",
        );
        self.dequeue(priority, x);
        self.drop_child(parent, x);
        let ghost unlinked = self@;
        let mut rid: usize = 0;
        while rid < 4
            invariant
                rid <= 4,
                self@ == unlinked.drop_waiters_below(rid as int, x),
            decreases 4 - rid,
        {
            self.drop_waiters(rid, x);
            rid += 1;
        }
        let ghost detached = self@;
        let ghost grants = old(self)@.pcb(x as int).resources;
        loop
            invariant_except_break
                self@.at_rest(x as int),
                self@.detached(x as int),
                0 < x < 16,
                self@.live(x as int),
                self@.give_back_each(x as int, self@.pcb(x as int).resources)
                    == detached.give_back_each(x as int, grants),
            ensures
                0 < x < 16,
                self@ == detached.give_back_each(x as int, grants),
            decreases self@.pcb(x as int).resources.len(),
        {
            let next = match &self.pcb_list[x] {
                Some(pcb) => if pcb.resources.len() == 0 {
                    None
                } else {
                    Some(pcb.resources[0])
                },
                None => None,
            };
            match next {
                Some(grant) => {
                    proof {
                        lemma_give_back_own(self@, x as int);
                    }
                    self.give_back(x, grant, Ghost(x as int));
                },
                None => {
                    break ;
                },
            }
        }
        self.free_slot(x);
    }

    /// Destroys process `pid` and all its descendants, children before
    /// their parent. Each of them leaves its ready queue and the
    /// waitlists, and gives back what it holds, which may unblock
    /// other processes. Then the process to run is selected anew.
    /// Fails, changing nothing, if `pid` names no process, names the
    /// root, or names a process that is neither the running process
    /// nor one of its descendants.
    pub fn destroy(&mut self, pid: i32) -> (result: Option<usize>)
        requires
            old(self).wf(),
        ensures
            final(self).wf(),
            match result {
                Some(running) => {
                    &&& old(self)@.destroy_accepts(pid as int)
                    &&& final(self)@ == old(self)@.destroy_next(pid as int)
                    &&& running == final(self)@.running_pid
                    &&& forall|q: int|
                        0 <= q < 16 ==> ((#[trigger] final(self)@.pcbs[q]) is Some <==> old(
                            self,
                        )@.live(q) && !old(self)@.descends_from(q, pid as int, 16))
                },
                None => {
                    &&& !old(self)@.destroy_accepts(pid as int)
                    &&& old(self)@.destroy_rejection(pid as int) is Some
                    &&& final(self)@ == old(self)@
                },
            },
    {
        if pid < 0 {
            return None;
        }
        let pid = pid as usize;
        if pid >= 16 {
            return None;
        }
        if pid == 0 {
            return None;
        }
        if !self.is_child_of_current_process(pid) {
            return None;
        }
        if self.pcb_list[pid].is_none() {
            return None;
        }
        proof {
            lemma_destroy_wf(self@, pid as int);
            lemma_occupied_bound(self@.pcbs, 16);
        }
        let ghost mut fuel: nat = 16;
        loop
            invariant_except_break
                self@.tree_sound(),
                self@.at_rest(-1),
                0 < pid < 16,
                self@.live(pid as int),
                fuel + 1 >= occupied_below(self@.pcbs, 16),
                self@.remove_subtree(pid as int, fuel) == old(self)@.remove_subtree(pid as int, 16),
            ensures
                self@ == old(self)@.remove_subtree(pid as int, 16),
            decreases fuel,
        {
            let leaf = self.first_leaf(pid);
            proof {
                lemma_occupied_two(self@.pcbs, 0, pid as int, 16);
                lemma_remove_process(self@, leaf as int);
                lemma_occupied_freed(
                    self@.pcbs,
                    self@.remove_process(leaf as int).pcbs,
                    leaf as int,
                    16,
                );
                fuel = (fuel - 1) as nat;
            }
            self.remove_process(leaf);
            if leaf == pid {
                break ;
            }
        }
        Some(self.scheduler())
    }

    /// Moves the running process to the tail of its ready queue and
    /// selects anew.
    pub fn timeout(&mut self) -> (result: Option<usize>)
        requires
            old(self).wf(),
        ensures
            final(self).wf(),
            final(self)@ == old(self)@.timeout_next(),
            result == Some(final(self)@.running_pid),
    {
        proof {
            lemma_rotate_wf(self@);
        }
        let priority = self.pcb_list[self.running_pid].as_ref().expect(
            "Running PCB should exist",
        ).priority;
        self.ready_list[priority].remove(0);
        self.ready_list[priority].push(self.running_pid);
        Some(self.scheduler())
    }
}

// The elementary updates, each the executable twin of the update of the
// same name on `SchedulerView`.
impl Scheduler {
    fn enqueue(&mut self, k: usize, p: usize)
        requires
            k < 3,
        ensures
            final(self)@ == old(self)@.enqueue(k as int, p),
    {
        self.ready_list[k].push(p);
    }

    fn dequeue(&mut self, k: usize, p: usize)
        requires
            k < 3,
        ensures
            final(self)@ == old(self)@.dequeue(k as int, p),
    {
        remove_value(&mut self.ready_list[k], p);
    }

    fn set_state(&mut self, p: usize, state: PCBState)
        requires
            old(self)@.live(p as int),
        ensures
            final(self)@ == old(self)@.set_state(p as int, state),
    {
        match &mut self.pcb_list[p] {
            Some(pcb) => {
                pcb.state = state;
            },
            None => {},
        }
    }

    fn add_child(&mut self, p: usize, c: usize)
        requires
            old(self)@.live(p as int),
        ensures
            final(self)@ == old(self)@.add_child(p as int, c),
    {
        match &mut self.pcb_list[p] {
            Some(pcb) => {
                pcb.children.push(c);
            },
            None => {},
        }
    }

    fn drop_child(&mut self, p: usize, c: usize)
        requires
            old(self)@.live(p as int),
        ensures
            final(self)@ == old(self)@.drop_child(p as int, c),
    {
        match &mut self.pcb_list[p] {
            Some(pcb) => {
                remove_value(&mut pcb.children, c);
            },
            None => {},
        }
    }

    fn add_grant(&mut self, p: usize, grant: PCBResource)
        requires
            old(self)@.live(p as int),
        ensures
            final(self)@ == old(self)@.add_grant(p as int, grant),
    {
        match &mut self.pcb_list[p] {
            Some(pcb) => {
                pcb.resources.push(grant);
            },
            None => {},
        }
    }

    /// Takes the first grant equal to `grant` away from process `p`;
    /// says whether there was one.
    fn drop_grant(&mut self, p: usize, grant: PCBResource) -> (held: bool)
        requires
            old(self)@.live(p as int),
        ensures
            held == old(self)@.holds(p as int, grant),
            final(self)@ == old(self)@.drop_grant(p as int, grant),
    {
        let mut held = false;
        match &mut self.pcb_list[p] {
            Some(pcb) => {
                match position_of_grant(&pcb.resources, grant) {
                    Some(i) => {
                        pcb.resources.remove(i);
                        held = true;
                    },
                    None => {},
                }
            },
            None => {},
        }
        held
    }

    fn put(&mut self, p: usize, pcb: PCB)
        requires
            p < 16,
        ensures
            final(self)@ == old(self)@.with_pcb(p as int, pcb@),
    {
        self.pcb_list[p] = Some(pcb);
    }

    fn free_slot(&mut self, p: usize)
        requires
            p < 16,
        ensures
            final(self)@ == old(self)@.free_slot(p as int),
    {
        self.pcb_list[p] = None;
    }

    fn set_available(&mut self, r: usize, units: usize)
        requires
            r < 4,
        ensures
            final(self)@ == old(self)@.set_available(r as int, units),
    {
        self.rcb_list[r].units_available = units;
    }

    fn add_waiter(&mut self, r: usize, request: RCBResource)
        requires
            r < 4,
        ensures
            final(self)@ == old(self)@.add_waiter(r as int, request),
    {
        self.rcb_list[r].waitlist.push(request);
    }

    fn remove_waiter(&mut self, r: usize, i: usize)
        requires
            r < 4,
            i < old(self)@.rcbs[r as int].waitlist.len(),
        ensures
            final(self)@ == old(self)@.remove_waiter(r as int, i as int),
    {
        self.rcb_list[r].waitlist.remove(i);
    }

    fn drop_waiters(&mut self, r: usize, pid: usize)
        requires
            r < 4,
        ensures
            final(self)@ == old(self)@.drop_waiters(r as int, pid),
    {
        remove_requests_of(&mut self.rcb_list[r].waitlist, pid);
    }
}

} // verus!
