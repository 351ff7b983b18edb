//! Giving units back and serving a waitlist: what each step keeps in order.
use vstd::prelude::*;

use crate::scheduler::accounting::{
    lemma_held_covers, lemma_held_update, lemma_units_in_covers, lemma_units_in_push,
    lemma_units_in_remove,
};
use crate::scheduler::pcb::{PCBResource, PCBState};
use crate::scheduler::sequences::lemma_push_contains;
use crate::scheduler::state::SchedulerView;
use crate::scheduler::wellformed::is_waiting;

verus! {

impl SchedulerView {
    /// The state while the waitlist of class `rid` is served and
    /// position `i` is next: the accounts are in order, every process
    /// but `x` is where its state says, and no request could be
    /// granted but those of class `rid` from position `i` on.
    pub open spec fn serving(self, rid: int, i: int, x: int) -> bool {
        &&& self.accounts_sound()
        &&& self.complete_besides(x)
        &&& 0 <= rid < 4
        &&& 0 <= i
        &&& self.settled_before(rid, i)
        &&& forall|r: int| #![trigger self.rcbs[r]] 0 <= r < 4 && r != rid ==> self.settled(r)
    }

    /// The accounts are in order, every process but `x` is where its
    /// state says, and no request could be granted.
    pub open spec fn at_rest(self, x: int) -> bool {
        &&& self.accounts_sound()
        &&& self.complete_besides(x)
        &&& forall|r: int| #![trigger self.rcbs[r]] 0 <= r < 4 ==> self.settled(r)
    }

    /// Process `x` has no pending request and is in no ready queue.
    pub open spec fn detached(self, x: int) -> bool {
        &&& !is_waiting(self.rcbs, x as usize)
        &&& forall|k: int| #![trigger self.ready[k]] 0 <= k < 3 ==> !self.ready[k].contains(x as usize)
    }

    /// If process `x` has no pending request in `self`, then in `next`
    /// it is as in `self`, has no pending request, and has entered no
    /// ready queue.
    pub open spec fn bypasses(self, next: SchedulerView, x: int) -> bool {
        0 <= x < 16 && !is_waiting(self.rcbs, x as usize) ==> {
            &&& next.pcbs[x] == self.pcbs[x]
            &&& !is_waiting(next.rcbs, x as usize)
            &&& forall|k: int|
                #![trigger next.ready[k]]
                0 <= k < 3 && next.ready[k].contains(x as usize) ==> self.ready[k].contains(
                    x as usize,
                )
        }
    }
}

/// A process that waits before one request is taken out of a waitlist
/// waits afterwards, unless the request was its own.
pub proof fn lemma_waiting_after_remove(
    s: SchedulerView,
    t: SchedulerView,
    rid: int,
    i: int,
    pid: usize,
)
    requires
        s.rcbs.len() == 4,
        t.rcbs.len() == 4,
        0 <= rid < 4,
        0 <= i < s.rcbs[rid].waitlist.len(),
        t.rcbs[rid].waitlist == s.rcbs[rid].waitlist.remove(i),
        forall|r: int| 0 <= r < 4 && r != rid ==> (#[trigger] t.rcbs[r]).waitlist == s.rcbs[r].waitlist,
    ensures
        is_waiting(s.rcbs, pid) && pid != s.rcbs[rid].waitlist[i].pid ==> is_waiting(t.rcbs, pid),
        is_waiting(t.rcbs, pid) ==> is_waiting(s.rcbs, pid),
{
    if is_waiting(s.rcbs, pid) && pid != s.rcbs[rid].waitlist[i].pid {
        let (r, j) = choose|r: int, j: int|
            0 <= r < s.rcbs.len() && 0 <= j < s.rcbs[r].waitlist.len() && (
            #[trigger] s.rcbs[r].waitlist[j]).pid == pid;
        if r == rid && j > i {
            assert(t.rcbs[r].waitlist[j - 1].pid == pid);
        } else {
            assert(t.rcbs[r].waitlist[j].pid == pid);
        }
    }
}

/// Granting a request that fits keeps the serving of the waitlist in order.
pub proof fn lemma_grant(s: SchedulerView, rid: int, i: int, x: int)
    requires
        s.serving(rid, i, x),
        i < s.rcbs[rid].waitlist.len(),
        s.rcbs[rid].waitlist[i].units <= s.rcbs[rid].units_available,
    ensures
        s.grant(rid, i).serving(rid, i, x),
        s.same_tree(s.grant(rid, i)),
        s.bypasses(s.grant(rid, i), x),
        s.grant(rid, i).rcbs[rid].waitlist.len() == s.rcbs[rid].waitlist.len() - 1,
{
    let request = s.rcbs[rid].waitlist[i];
    let q = request.pid as int;
    let grant = PCBResource { rid: rid as usize, units: request.units };
    let t = s.grant(rid, i);
    let k = s.pcbs[q]->0.priority as int;

    assert forall|r: int| #![trigger t.rcbs[r]] 0 <= r < 4 implies t.waitlist_sound(r)
        && t.conserved(r) by {
        lemma_held_update(s.pcbs, q, t.pcbs[q], r, 16);
        lemma_units_in_push(s.pcbs[q]->0.resources, grant, r);
        assert(t.pcbs =~= s.pcbs.update(q, t.pcbs[q]));
    }

    assert forall|p: int| 0 <= p < 16 && (#[trigger] t.pcbs[p]) is Some && p != x implies t.accounted(
        p,
    ) by {
        if p == q {
            lemma_push_contains(s.ready[k], q as usize, q as usize);
        } else {
            lemma_push_contains(s.ready[s.pcbs[p]->0.priority as int], q as usize, p as usize);
            lemma_waiting_after_remove(s, t, rid, i, p as usize);
        }
    }
}

/// Serving a waitlist to its end leaves the accounts in order and no
/// request that could be granted.
pub proof fn lemma_service(s: SchedulerView, rid: int, i: int, x: int)
    requires
        s.serving(rid, i, x),
    ensures
        s.service(rid, i).at_rest(x),
        s.same_tree(s.service(rid, i)),
        s.bypasses(s.service(rid, i), x),
    decreases s.rcbs[rid].waitlist.len() - i,
{
    let rcb = s.rcbs[rid];
    if i < rcb.waitlist.len() && rcb.units_available != 0 {
        if rcb.waitlist[i].units <= rcb.units_available {
            lemma_grant(s, rid, i, x);
            lemma_service(s.grant(rid, i), rid, i, x);
        } else {
            lemma_service(s, rid, i + 1, x);
        }
    }
}

/// What holds after a process has handed a grant back and before the
/// waitlist is served.
pub proof fn lemma_hand_back(s: SchedulerView, p: int, grant: PCBResource, x: int)
    requires
        s.at_rest(x),
        s.holds(p, grant),
    ensures
        grant.rid < 4,
        s.rcbs[grant.rid as int].units_available + grant.units <= s.rcbs[grant.rid as int].inventory,
        s.drop_grant(p, grant).set_available(
            grant.rid as int,
            (s.rcbs[grant.rid as int].units_available + grant.units) as usize,
        ).serving(grant.rid as int, 0, x),
        s.same_tree(
            s.drop_grant(p, grant).set_available(
                grant.rid as int,
                (s.rcbs[grant.rid as int].units_available + grant.units) as usize,
            ),
        ),
{
    let rid = grant.rid as int;
    let held = s.pcbs[p]->0.resources;
    held.index_of_first_ensures(grant);
    let n = held.index_of_first(grant)->0;
    lemma_units_in_covers(held, n, rid);
    lemma_held_covers(s.pcbs, p, rid, 16);
    let t = s.drop_grant(p, grant).set_available(
        rid,
        (s.rcbs[rid].units_available + grant.units) as usize,
    );
    assert forall|r: int| #![trigger t.rcbs[r]] 0 <= r < 4 implies t.waitlist_sound(r)
        && t.conserved(r) by {
        lemma_held_update(s.pcbs, p, t.pcbs[p], r, 16);
        lemma_units_in_remove(held, n, r);
    }
    assert forall|q: int| 0 <= q < 16 && (#[trigger] t.pcbs[q]) is Some && q != x implies t.accounted(
        q,
    ) by {
        if s.pcbs[q]->0.state == PCBState::BLOCKED {
            let (r, j) = choose|r: int, j: int|
                0 <= r < s.rcbs.len() && 0 <= j < s.rcbs[r].waitlist.len() && (
                #[trigger] s.rcbs[r].waitlist[j]).pid == q as usize;
            assert(t.rcbs[r].waitlist[j].pid == q as usize);
        }
    }
}

/// A grant handed back and the waitlist served: the accounts are in
/// order again, the tree is as it was, and a process without a
/// pending request has only lost the grant, if it was its own.
pub proof fn lemma_give_back(s: SchedulerView, p: int, grant: PCBResource, x: int)
    requires
        s.at_rest(x),
        s.holds(p, grant),
    ensures
        s.give_back(p, grant).at_rest(x),
        s.same_tree(s.give_back(p, grant)),
        s.drop_grant(p, grant).bypasses(s.give_back(p, grant), x),
{
    let rid = grant.rid as int;
    lemma_hand_back(s, p, grant, x);
    let t = s.drop_grant(p, grant).set_available(
        rid,
        (s.rcbs[rid].units_available + grant.units) as usize,
    );
    lemma_service(t, rid, 0, x);
}

} // verus!
