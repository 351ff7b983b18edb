//! Every operation leads from a well-formed state to a well-formed state.
use vstd::prelude::*;

use crate::scheduler::accounting::{lemma_held_update, lemma_nothing_held, lemma_units_in_push};
use crate::scheduler::pcb::{PCBResource, PCBState, ProcessView};
use crate::scheduler::sequences::{lemma_push_contains, lemma_remove_value_unique, lemma_rotate};
use crate::scheduler::servicing::lemma_give_back;
use crate::scheduler::state::SchedulerView;
use crate::scheduler::tree::{lemma_depth_leaves_room, lemma_rooted_frame};
use crate::scheduler::wellformed::is_waiting;

verus! {

/// The state after a reset is well formed.
pub proof fn lemma_initial_wf()
    ensures
        SchedulerView::initial().wf(),
{
    let s = SchedulerView::initial();
    assert forall|r: int| 0 <= r < 4 implies s.conserved(r) by {
        lemma_nothing_held(s.pcbs, r, 16);
    }
    assert(s.ready[0][0] == 0);
}

/// Which process runs has no bearing on anything but the selection.
pub proof fn lemma_reselect_wf(s: SchedulerView)
    requires
        s.coherent(),
        s.complete(),
        forall|r: int| #![trigger s.rcbs[r]] 0 <= r < 4 ==> s.settled(r),
    ensures
        s.reselect().wf(),
{
}

/// Moving the running process to the tail of its queue keeps the state in order.
pub proof fn lemma_rotate_wf(s: SchedulerView)
    requires
        s.wf(),
    ensures
        s.timeout_next().wf(),
{
    let p = s.running_pid;
    let k = s.pcb(p as int).priority as int;
    lemma_rotate(s.ready[k]);
}

/// Below a free slot there is a lowest free slot.
pub proof fn lemma_lowest_free_below(s: SchedulerView, free: int) -> (c: int)
    requires
        0 <= free < s.pcbs.len(),
        s.pcbs[free] is None,
    ensures
        s.is_lowest_free(c),
        c <= free,
    decreases free,
{
    if forall|j: int| 0 <= j < free ==> s.pcbs[j] is Some {
        free
    } else {
        let j = choose|j: int| 0 <= j < free && !(s.pcbs[j] is Some);
        lemma_lowest_free_below(s, j)
    }
}

/// A process created in the lowest free slot under the running process
/// leaves the state well formed.
pub proof fn lemma_create_wf(s: SchedulerView, priority: int)
    requires
        s.wf(),
        s.create_accepts(priority),
    ensures
        s.create_next(priority).wf(),
        s.is_lowest_free(s.lowest_free()),
{
    let free = choose|c: int| 0 <= c < s.pcbs.len() && s.pcbs[c] is None;
    let c0 = lemma_lowest_free_below(s, free);
    let c = s.lowest_free();
    let r = s.running_pid as int;
    let k = priority;
    let t = s.spawn(c, k as usize);
    assert(s.linked(r));
    assert(t.pcbs[c] == Some(ProcessView::fresh(k as usize, Some(r as usize))));

    // the tree
    lemma_depth_leaves_room(s.pcbs, r, c);
    assert forall|p: int| 0 <= p < 16 && (#[trigger] t.pcbs[p]) is Some implies t.linked(p) by {
        if p == c {
            lemma_rooted_frame(s.pcbs, t.pcbs, -1, r, 14);
            assert(t.pcbs[r]->0.children[s.pcbs[r]->0.children.len() as int] == c as usize);
        } else {
            assert(s.pcbs[p] is Some);
            lemma_rooted_frame(s.pcbs, t.pcbs, -1, p, 15);
            if p != 0 {
                let q = s.pcbs[p]->0.parent->0 as int;
                lemma_push_contains(s.pcbs[q]->0.children, c as usize, p as usize);
            }
        }
    }

    // the accounts
    assert forall|x: int| #![trigger t.rcbs[x]] 0 <= x < 4 implies t.waitlist_sound(x)
        && t.conserved(x) by {
        let mid = s.pcbs.update(c, Some(ProcessView::fresh(k as usize, Some(r as usize))));
        lemma_held_update(s.pcbs, c, mid[c], x, 16);
        lemma_held_update(mid, r, t.pcbs[r], x, 16);
    }

    // nothing lost
    assert forall|p: int| 0 <= p < 16 && (#[trigger] t.pcbs[p]) is Some implies t.accounted(p) by {
        if p == c {
            lemma_push_contains(s.ready[k], c as usize, c as usize);
        } else {
            let j = s.pcbs[p]->0.priority as int;
            lemma_push_contains(s.ready[j], c as usize, p as usize);
        }
    }
    lemma_reselect_wf(t);
}

/// Changes to what a process holds or to its state leave the tree as it is.
pub proof fn lemma_tree_frame(s: SchedulerView, t: SchedulerView)
    requires
        s.tree_sound(),
        t.shaped(),
        s.same_tree(t),
    ensures
        t.tree_sound(),
{
    assert forall|p: int| 0 <= p < 16 && (#[trigger] t.pcbs[p]) is Some implies t.linked(p) by {
        lemma_rooted_frame(s.pcbs, t.pcbs, -1, p, 15);
    }
}

/// Granting a request of the running process at once leaves the state well formed.
pub proof fn lemma_allocate_wf(s: SchedulerView, rid: int, units: int)
    requires
        s.wf(),
        s.request_accepts(rid, units),
        s.rcbs[rid].units_available >= units,
    ensures
        s.allocate(rid, units as usize).reselect().wf(),
{
    let p = s.running_pid as int;
    let grant = PCBResource { rid: rid as usize, units: units as usize };
    let t = s.allocate(rid, units as usize);
    lemma_tree_frame(s, t);
    assert forall|x: int| #![trigger t.rcbs[x]] 0 <= x < 4 implies t.waitlist_sound(x)
        && t.conserved(x) && t.settled(x) by {
        lemma_held_update(s.pcbs, p, t.pcbs[p], x, 16);
        lemma_units_in_push(s.pcbs[p]->0.resources, grant, x);
    }
    assert forall|q: int| 0 <= q < 16 && (#[trigger] t.pcbs[q]) is Some implies t.holdings_sound(
        q,
    ) && t.accounted(q) by {
        if s.pcbs[q]->0.state == PCBState::BLOCKED {
            lemma_waiting_frame(s, t, q as usize);
        }
    }
}

/// Who waits depends on the waitlists alone.
pub proof fn lemma_waiting_frame(s: SchedulerView, t: SchedulerView, pid: usize)
    requires
        is_waiting(s.rcbs, pid),
        s.rcbs.len() == t.rcbs.len(),
        forall|r: int| 0 <= r < s.rcbs.len() ==> (#[trigger] s.rcbs[r]).waitlist == t.rcbs[r].waitlist,
    ensures
        is_waiting(t.rcbs, pid),
{
}

/// Blocking the running process on a request that cannot be granted
/// leaves the state well formed.
pub proof fn lemma_block_wf(s: SchedulerView, rid: int, units: int)
    requires
        s.wf(),
        s.request_accepts(rid, units),
        s.rcbs[rid].units_available < units,
    ensures
        s.block(rid, units as usize).reselect().wf(),
{
    let p = s.running_pid as int;
    let k = s.pcbs[p]->0.priority as int;
    let t = s.block(rid, units as usize);
    lemma_tree_frame(s, t);
    lemma_remove_value_unique(s.ready[k], p as usize);
    assert forall|x: int| #![trigger t.rcbs[x]] 0 <= x < 4 implies t.waitlist_sound(x)
        && t.conserved(x) && t.settled(x) by {
        lemma_held_update(s.pcbs, p, t.pcbs[p], x, 16);
    }
    assert forall|q: int| 0 <= q < 16 && (#[trigger] t.pcbs[q]) is Some implies t.holdings_sound(
        q,
    ) && t.accounted(q) by {
        if q == p {
            assert(t.rcbs[rid].waitlist[s.rcbs[rid].waitlist.len() as int].pid == p);
        } else if s.pcbs[q]->0.state == PCBState::BLOCKED {
            let (r, i) = choose|r: int, i: int|
                0 <= r < s.rcbs.len() && 0 <= i < s.rcbs[r].waitlist.len() && (
                #[trigger] s.rcbs[r].waitlist[i]).pid == q as usize;
            assert(t.rcbs[r].waitlist[i].pid == q as usize);
        }
    }
}

/// An accepted request leaves the state well formed.
pub proof fn lemma_request_wf(s: SchedulerView, rid: int, units: int)
    requires
        s.wf(),
        s.request_accepts(rid, units),
    ensures
        s.request_next(rid, units).wf(),
{
    if s.rcbs[rid].units_available >= units {
        lemma_allocate_wf(s, rid, units);
    } else {
        lemma_block_wf(s, rid, units);
    }
}

/// A grant given back by any process leaves a well-formed state well formed.
pub proof fn lemma_release_wf(s: SchedulerView, p: int, grant: PCBResource)
    requires
        s.wf(),
        s.holds(p, grant),
    ensures
        s.give_back(p, grant).reselect().wf(),
        s.at_rest(-1),
{
    lemma_give_back(s, p, grant, -1);
    let t = s.give_back(p, grant);
    lemma_tree_frame(s, t);
}

} // verus!
