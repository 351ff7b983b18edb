//! Removing a process, and a whole subtree: what each step keeps in order.
use vstd::prelude::*;

use crate::scheduler::accounting::lemma_held_update;
use crate::scheduler::pcb::{PCBResource, PCBState, ProcessView};
use crate::scheduler::sequences::{
    lemma_remove_value_unique, lemma_waiters_besides_none, lemma_waiters_besides_one,
};
use crate::scheduler::servicing::{lemma_give_back, lemma_waiting_after_remove};
use crate::scheduler::state::{waiters_besides, SchedulerView};
use crate::scheduler::tree::{depth, lemma_depth_bound, lemma_rooted_frame, lemma_rooted_more_fuel};
use crate::scheduler::vectors::lemma_first_index;
use crate::scheduler::wellformed::is_waiting;

verus! {

/// Number of occupied slots below `n`.
pub open spec fn occupied_below(pcbs: Seq<Option<ProcessView>>, n: int) -> nat
    decreases n,
{
    if n <= 0 {
        0
    } else {
        occupied_below(pcbs, n - 1) + if pcbs[n - 1] is Some {
            1nat
        } else {
            0nat
        }
    }
}

/// No more slots are occupied than there are.
pub proof fn lemma_occupied_bound(pcbs: Seq<Option<ProcessView>>, n: int)
    requires
        0 <= n,
    ensures
        occupied_below(pcbs, n) <= n,
    decreases n,
{
    if n > 0 {
        lemma_occupied_bound(pcbs, n - 1);
    }
}

/// Two tables with the same occupied slots but for `x`, which is
/// occupied in the first and free in the second: the second has one
/// occupied slot less.
pub proof fn lemma_occupied_freed(
    a: Seq<Option<ProcessView>>,
    b: Seq<Option<ProcessView>>,
    x: int,
    n: int,
)
    requires
        0 <= x < n <= a.len(),
        a.len() == b.len(),
        a[x] is Some,
        b[x] is None,
        forall|p: int| 0 <= p < n && p != x ==> ((#[trigger] b[p]) is Some <==> a[p] is Some),
    ensures
        occupied_below(b, n) + 1 == occupied_below(a, n),
    decreases n,
{
    if x < n - 1 {
        lemma_occupied_freed(a, b, x, n - 1);
    } else {
        lemma_occupied_same(a, b, n - 1);
    }
}

/// Two tables with the same occupied slots have equally many of them.
pub proof fn lemma_occupied_same(a: Seq<Option<ProcessView>>, b: Seq<Option<ProcessView>>, n: int)
    requires
        0 <= n <= a.len(),
        a.len() == b.len(),
        forall|p: int| 0 <= p < n ==> ((#[trigger] b[p]) is Some <==> a[p] is Some),
    ensures
        occupied_below(b, n) == occupied_below(a, n),
    decreases n,
{
    if n > 0 {
        lemma_occupied_same(a, b, n - 1);
    }
}

/// Two different occupied slots make at least two.
pub proof fn lemma_occupied_two(pcbs: Seq<Option<ProcessView>>, x: int, y: int, n: int)
    requires
        0 <= x < y < n <= pcbs.len(),
        pcbs[x] is Some,
        pcbs[y] is Some,
    ensures
        occupied_below(pcbs, n) >= 2,
    decreases n,
{
    if y < n - 1 {
        lemma_occupied_two(pcbs, x, y, n - 1);
    } else {
        lemma_occupied_one(pcbs, x, n - 1);
    }
}

/// An occupied slot makes at least one.
pub proof fn lemma_occupied_one(pcbs: Seq<Option<ProcessView>>, x: int, n: int)
    requires
        0 <= x < n <= pcbs.len(),
        pcbs[x] is Some,
    ensures
        occupied_below(pcbs, n) >= 1,
    decreases n,
{
    if x < n - 1 {
        lemma_occupied_one(pcbs, x, n - 1);
    }
}

/// Dropping the requests of process `x` from all waitlists takes out
/// its one request, if it has one, and nothing else. Returns where
/// that request stood.
pub proof fn lemma_drop_all_waiters(s: SchedulerView, x: usize) -> (at: Option<(int, int)>)
    requires
        s.rcbs.len() == 4,
        s.waiters_distinct(),
    ensures
        match at {
            Some((r, i)) => {
                &&& 0 <= r < 4
                &&& 0 <= i < s.rcbs[r].waitlist.len()
                &&& s.rcbs[r].waitlist[i].pid == x
                &&& s.drop_all_waiters(x) == s.remove_waiter(r, i)
            },
            None => !is_waiting(s.rcbs, x) && s.drop_all_waiters(x) == s,
        },
{
    let t = s.drop_all_waiters(x);
    reveal_with_fuel(SchedulerView::drop_waiters_below, 5);
    if is_waiting(s.rcbs, x) {
        let (r, i) = choose|r: int, i: int|
            0 <= r < s.rcbs.len() && 0 <= i < s.rcbs[r].waitlist.len() && (
            #[trigger] s.rcbs[r].waitlist[i]).pid == x;
        assert forall|c: int| 0 <= c < 4 implies #[trigger] t.rcbs[c] == s.remove_waiter(
            r,
            i,
        ).rcbs[c] by {
            let w = s.rcbs[c].waitlist;
            assert(t.rcbs[c].waitlist == waiters_besides(w, x));
            if c == r {
                assert forall|j: int| 0 <= j < w.len() && j != i implies (#[trigger] w[j]).pid
                    != x by {
                    assert(s.rcbs[c].waitlist[j].pid != s.rcbs[r].waitlist[i].pid);
                }
                lemma_waiters_besides_one(w, x, i);
            } else {
                assert forall|j: int| 0 <= j < w.len() implies (#[trigger] w[j]).pid != x by {}
                lemma_waiters_besides_none(w, x);
            }
        }
        Some((r, i))
    } else {
        assert forall|c: int| 0 <= c < 4 implies #[trigger] t.rcbs[c] == s.rcbs[c] by {
            let w = s.rcbs[c].waitlist;
            lemma_waiters_besides_none(w, x);
        }
        assert(t.rcbs =~= s.rcbs);
        None
    }
}

impl SchedulerView {
    /// `next` is `self` without the childless process `x`, as far as
    /// the tree goes: every other process is there with its parent
    /// and its children, but that the parent of `x` has lost `x`.
    pub open spec fn pruned_to(self, next: SchedulerView, x: int) -> bool {
        &&& next.pcbs.len() == 16
        &&& next.pcbs[x] is None
        &&& forall|p: int|
            0 <= p < 16 && p != x ==> {
                &&& (#[trigger] next.pcbs[p]) is Some <==> self.pcbs[p] is Some
                &&& next.pcbs[p] is Some ==> {
                    &&& next.pcbs[p]->0.parent == self.pcbs[p]->0.parent
                    &&& next.pcbs[p]->0.children == if p == self.pcbs[x]->0.parent->0 {
                        self.pcbs[p]->0.children.remove_value(x as usize)
                    } else {
                        self.pcbs[p]->0.children
                    }
                }
            }
    }
}

/// A process detached: the accounts are in order but for that process,
/// which is in no queue and on no waitlist.
pub proof fn lemma_detach(s: SchedulerView, x: int)
    requires
        s.tree_sound(),
        s.at_rest(-1),
        0 < x < 16,
        s.live(x),
        s.pcb(x).children.len() == 0,
    ensures
        s.detach(x).at_rest(x),
        s.detach(x).detached(x),
        s.detach(x).shaped(),
        s.detach(x).pcbs == s.drop_child(s.pcb(x).parent->0 as int, x as usize).pcbs,
        s.detach(x).pcbs[x] == s.pcbs[x],
{
    let k = s.pcbs[x]->0.priority as int;
    let q = s.pcbs[x]->0.parent->0 as int;
    assert(s.linked(x));
    let s1 = s.dequeue(k, x as usize);
    let s2 = s1.drop_child(q, x as usize);
    let t = s2.drop_all_waiters(x as usize);
    assert(s2.waiters_distinct()) by {
        assert forall|r1: int, i1: int, r2: int, i2: int|
            0 <= r1 < 4 && 0 <= i1 < s2.rcbs[r1].waitlist.len() && 0 <= r2 < 4 && 0 <= i2
                < s2.rcbs[r2].waitlist.len() && (#[trigger] s2.rcbs[r1].waitlist[i1]).pid == (
            #[trigger] s2.rcbs[r2].waitlist[i2]).pid implies r1 == r2 && i1 == i2 by {
            assert(s.rcbs[r1].waitlist[i1].pid == s.rcbs[r2].waitlist[i2].pid);
        }
    }
    let at = lemma_drop_all_waiters(s2, x as usize);
    assert(t.ready == s1.ready);
    lemma_remove_value_unique(s.ready[k], x as usize);
    assert forall|r: int| #![trigger t.rcbs[r]] 0 <= r < 4 implies t.waitlist_sound(r)
        && t.conserved(r) && t.settled(r) by {
        lemma_held_update(s.pcbs, q, t.pcbs[q], r, 16);
    }
    assert forall|p: int| 0 <= p < 16 && (#[trigger] t.pcbs[p]) is Some && p != x implies t.accounted(
        p,
    ) by {
        if s.pcbs[p]->0.state == PCBState::BLOCKED {
            match at {
                Some((r, i)) => {
                    lemma_waiting_after_remove(s2, t, r, i, p as usize);
                },
                None => {},
            }
        }
    }
}

/// A detached process gives back all it holds: the accounts stay in
/// order, the tree is as it was, and the process holds nothing.
pub proof fn lemma_give_back_each(s: SchedulerView, x: int, grants: Seq<PCBResource>)
    requires
        s.at_rest(x),
        s.detached(x),
        0 <= x < 16,
        s.live(x),
        s.pcb(x).resources == grants,
    ensures
        s.give_back_each(x, grants).at_rest(x),
        s.give_back_each(x, grants).detached(x),
        s.same_tree(s.give_back_each(x, grants)),
        s.give_back_each(x, grants).pcbs[x] is Some,
        s.give_back_each(x, grants).pcbs[x]->0.resources.len() == 0,
    decreases grants.len(),
{
    if grants.len() > 0 {
        let u = s.give_back(x, grants[0]);
        lemma_give_back_own(s, x);
        lemma_give_back_each(u, x, grants.drop_first());
    }
}

/// A detached process gives back the first of its grants: the
/// accounts stay in order, the tree is as it was, and the process
/// holds the rest of its grants.
pub proof fn lemma_give_back_own(s: SchedulerView, x: int)
    requires
        s.at_rest(x),
        s.detached(x),
        0 <= x < 16,
        s.live(x),
        s.pcb(x).resources.len() > 0,
    ensures
        s.holds(x, s.pcb(x).resources[0]),
        s.give_back(x, s.pcb(x).resources[0]).at_rest(x),
        s.give_back(x, s.pcb(x).resources[0]).detached(x),
        s.same_tree(s.give_back(x, s.pcb(x).resources[0])),
        s.give_back(x, s.pcb(x).resources[0]).pcbs[x] is Some,
        s.give_back(x, s.pcb(x).resources[0]).pcbs[x]->0.resources == s.pcb(
            x,
        ).resources.drop_first(),
{
    let grants = s.pcbs[x]->0.resources;
    let grant = grants[0];
    lemma_first_index(grants, grant, 0);
    lemma_give_back(s, x, grant, x);
}

/// Without the childless process `x` the tree is still a tree.
pub proof fn lemma_pruned_tree(s: SchedulerView, t: SchedulerView, x: int)
    requires
        s.tree_sound(),
        0 < x < 16,
        s.live(x),
        s.pcb(x).children.len() == 0,
        s.pruned_to(t, x),
        t.shaped(),
    ensures
        t.tree_sound(),
{
    assert forall|p: int| 0 <= p < 16 && (#[trigger] t.pcbs[p]) is Some implies t.linked(p) by {
        lemma_rooted_frame(s.pcbs, t.pcbs, x, p, 15);
        let old_children = s.pcbs[p]->0.children;
        lemma_remove_value_unique(old_children, x as usize);
        if p != 0 {
            let pp = s.pcbs[p]->0.parent->0 as int;
            lemma_remove_value_unique(s.pcbs[pp]->0.children, x as usize);
        }
    }
}

/// The slot of a detached process that holds nothing is freed: the
/// accounts are in order, for every process.
pub proof fn lemma_forget(s: SchedulerView, x: int)
    requires
        s.at_rest(x),
        s.detached(x),
        0 < x < 16,
        s.live(x),
        s.pcb(x).resources.len() == 0,
    ensures
        s.free_slot(x).at_rest(-1),
{
    let t = s.free_slot(x);
    assert forall|r: int| #![trigger t.rcbs[r]] 0 <= r < 4 implies t.waitlist_sound(r)
        && t.conserved(r) && t.settled(r) by {
        lemma_held_update(s.pcbs, x, None, r, 16);
    }
}

/// A childless process removed: the state is in order again, and the
/// table has lost exactly that process.
pub proof fn lemma_remove_process(s: SchedulerView, x: int)
    requires
        s.tree_sound(),
        s.at_rest(-1),
        0 < x < 16,
        s.live(x),
        s.pcb(x).children.len() == 0,
    ensures
        s.remove_process(x).tree_sound(),
        s.remove_process(x).at_rest(-1),
        s.pruned_to(s.remove_process(x), x),
{
    let d = s.detach(x);
    lemma_detach(s, x);
    let grants = s.pcbs[x]->0.resources;
    let g = d.give_back_each(x, grants);
    lemma_give_back_each(d, x, grants);
    let t = g.free_slot(x);
    lemma_forget(g, x);
    lemma_pruned_tree(s, t, x);
}

/// Going down from a process by first children ends at a childless
/// process other than the root, if the steps allowed reach the bottom
/// of the table.
pub proof fn lemma_first_leaf(s: SchedulerView, p: int, fuel: nat)
    requires
        s.tree_sound(),
        0 < p < 16,
        s.live(p),
        fuel + depth(s.pcbs, p, 15) >= 16,
    ensures
        0 < s.first_leaf(p, fuel) < 16,
        s.live(s.first_leaf(p, fuel)),
        s.pcb(s.first_leaf(p, fuel)).children.len() == 0,
    decreases fuel,
{
    lemma_depth_bound(s.pcbs, p, 15);
    if s.pcbs[p]->0.children.len() > 0 {
        lemma_first_child(s, p);
        lemma_first_leaf(s, s.pcbs[p]->0.children[0] as int, (fuel - 1) as nat);
    }
}

/// The first child of a process is a process other than the root, one
/// step deeper than its parent.
pub proof fn lemma_first_child(s: SchedulerView, p: int)
    requires
        s.tree_sound(),
        0 <= p < 16,
        s.live(p),
        s.pcb(p).children.len() > 0,
    ensures
        0 < s.pcb(p).children[0] < 16,
        s.live(s.pcb(p).children[0] as int),
        depth(s.pcbs, s.pcb(p).children[0] as int, 15) == depth(s.pcbs, p, 15) + 1,
{
    lemma_rooted_more_fuel(s.pcbs, p, 14, 15);
}

/// What descends from a child descends from its parent, one step further.
pub proof fn lemma_descends_through(s: SchedulerView, p: int, c: int, a: int, f: nat)
    requires
        s.descends_from(p, c, f),
        s.live(c),
        s.pcb(c).parent == Some(a as usize),
        0 <= a < 16,
    ensures
        s.descends_from(p, a, f + 1),
    decreases f,
{
    if p == c {
        assert(s.descends_from(a, a, f));
    } else {
        lemma_descends_through(s, s.pcbs[p]->0.parent->0 as int, c, a, (f - 1) as nat);
    }
}

/// Nothing but a childless process itself descends from it.
pub proof fn lemma_descends_from_leaf(s: SchedulerView, p: int, x: int, f: nat)
    requires
        s.tree_sound(),
        0 <= x < 16,
        s.live(x),
        s.pcb(x).children.len() == 0,
        s.descends_from(p, x, f),
    ensures
        p == x,
    decreases f,
{
    if p != x {
        let q = s.pcbs[p]->0.parent->0 as int;
        lemma_descends_from_leaf(s, q, x, (f - 1) as nat);
    }
}

/// The first leaf under a process descends from it.
pub proof fn lemma_first_leaf_descends(s: SchedulerView, p: int, fuel: nat)
    requires
        s.tree_sound(),
        0 < p < 16,
        s.live(p),
    ensures
        s.descends_from(s.first_leaf(p, fuel), p, fuel),
    decreases fuel,
{
    if fuel > 0 && s.pcbs[p]->0.children.len() > 0 {
        let c = s.pcbs[p]->0.children[0] as int;
        lemma_first_leaf_descends(s, c, (fuel - 1) as nat);
        lemma_descends_through(s, s.first_leaf(c, (fuel - 1) as nat), c, p, (fuel - 1) as nat);
    }
}

/// Whether a process descends from another is not changed by the
/// removal of a childless third.
pub proof fn lemma_descends_pruned(
    s: SchedulerView,
    t: SchedulerView,
    x: int,
    p: int,
    a: int,
    f: nat,
)
    requires
        s.tree_sound(),
        0 < x < 16,
        s.live(x),
        s.pcb(x).children.len() == 0,
        s.pruned_to(t, x),
        p != x,
        0 <= p < 16,
    ensures
        t.descends_from(p, a, f) <==> s.descends_from(p, a, f),
    decreases f,
{
    if p != a && f > 0 && s.pcbs[p] is Some && s.pcbs[p]->0.parent is Some {
        let q = s.pcbs[p]->0.parent->0 as int;
        lemma_descends_pruned(s, t, x, q, a, (f - 1) as nat);
    }
}

/// A subtree removed leaf by leaf: the state stays in order, and the
/// processes that are gone are those that descended from the top of
/// the subtree, the top itself among them.
pub proof fn lemma_remove_subtree(s: SchedulerView, pid: int, fuel: nat)
    requires
        s.tree_sound(),
        s.at_rest(-1),
        0 < pid < 16,
        s.live(pid),
        fuel + 1 >= occupied_below(s.pcbs, 16),
    ensures
        s.remove_subtree(pid, fuel).tree_sound(),
        s.remove_subtree(pid, fuel).at_rest(-1),
        s.remove_subtree(pid, fuel).pcbs[pid] is None,
        forall|q: int|
            0 <= q < 16 ==> ((#[trigger] s.remove_subtree(pid, fuel).pcbs[q]) is Some <==> s.live(q)
                && !s.descends_from(q, pid, 16)),
    decreases fuel,
{
    lemma_occupied_two(s.pcbs, 0, pid, 16);
    let leaf = s.first_leaf(pid, 16);
    lemma_first_leaf(s, pid, 16);
    lemma_first_leaf_descends(s, pid, 16);
    let next = s.remove_process(leaf);
    lemma_remove_process(s, leaf);
    let t = s.remove_subtree(pid, fuel);
    if leaf != pid {
        lemma_occupied_freed(s.pcbs, next.pcbs, leaf, 16);
        lemma_remove_subtree(next, pid, (fuel - 1) as nat);
        assert forall|q: int| 0 <= q < 16 implies ((#[trigger] t.pcbs[q]) is Some <==> s.live(q)
            && !s.descends_from(q, pid, 16)) by {
            if q != leaf {
                lemma_descends_pruned(s, next, leaf, q, pid, 16);
            }
        }
    } else {
        assert forall|q: int| 0 <= q < 16 implies ((#[trigger] t.pcbs[q]) is Some <==> s.live(q)
            && !s.descends_from(q, pid, 16)) by {
            if q != pid {
                if s.descends_from(q, pid, 16) {
                    lemma_descends_from_leaf(s, q, pid, 16);
                }
            }
        }
    }
}

/// An accepted `destroy` leaves the state well formed, and the
/// processes that it removes are the destroyed one and its descendants.
pub proof fn lemma_destroy_wf(s: SchedulerView, pid: int)
    requires
        s.wf(),
        s.destroy_accepts(pid),
    ensures
        s.destroy_next(pid).wf(),
        forall|q: int|
            0 <= q < 16 ==> ((#[trigger] s.destroy_next(pid).pcbs[q]) is Some <==> s.live(q)
                && !s.descends_from(q, pid, 16)),
{
    lemma_occupied_bound(s.pcbs, 16);
    lemma_remove_subtree(s, pid, 16);
}

} // verus!
