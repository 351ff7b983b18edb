//! What follows for every well-formed state, and for operations applied
//! one after the other.
use vstd::prelude::*;
use vstd::seq_lib::{to_multiset_build, to_multiset_remove};

use crate::scheduler::defaults::initial_rcbs;
use crate::scheduler::pcb::{PCBResource, PCBState, ProcessView};
use crate::scheduler::preservation::{lemma_create_wf, lemma_request_wf};
use crate::scheduler::state::SchedulerView;
use crate::scheduler::wellformed::{is_waiting, rooted_within};

verus! {

/// In a well-formed state every process is tied to the root by its
/// chain of parents; it stands in a ready queue exactly if it is
/// ready, then in the queue of its priority and in no other; and no
/// queue holds a process twice.
pub proof fn law_rooted_and_queued_once(s: SchedulerView, p: int)
    requires
        s.wf(),
        s.live(p),
    ensures
        rooted_within(s.pcbs, p, 15),
        p != 0 ==> s.pcb(p).parent is Some && s.live(s.pcb(p).parent->0 as int),
        forall|k: int|
            0 <= k < 3 ==> (#[trigger] s.ready[k].contains(p as usize) <==> s.pcb(p).state
                == PCBState::READY && s.pcb(p).priority == k),
        forall|j: int, k: int|
            0 <= j < 3 && 0 <= k < 3 && #[trigger] s.ready[j].contains(p as usize)
                && #[trigger] s.ready[k].contains(p as usize) ==> j == k,
        s.pcb(p).state == PCBState::BLOCKED ==> forall|k: int|
            0 <= k < 3 ==> !#[trigger] s.ready[k].contains(p as usize),
        forall|k: int| 0 <= k < 3 ==> #[trigger] s.ready[k].no_duplicates(),
{
}

/// In a well-formed state the running process is the head of the
/// non-empty ready queue of highest priority: it exists, is ready,
/// and stands at the head of the queue of its priority, and the
/// queues of higher priority are empty. The queue of the lowest
/// priority is never empty.
pub proof fn law_running_heads_queue(s: SchedulerView)
    requires
        s.wf(),
    ensures
        s.live(s.running_pid as int),
        s.pcb(s.running_pid as int).state == PCBState::READY,
        s.pcb(s.running_pid as int).priority < 3,
        s.ready[s.pcb(s.running_pid as int).priority as int].len() > 0,
        s.ready[s.pcb(s.running_pid as int).priority as int][0] == s.running_pid,
        s.ready[0].len() > 0,
        forall|k: int|
            s.pcb(s.running_pid as int).priority < k < 3 ==> (#[trigger] s.ready[k]).len() == 0,
{
}

/// In a well-formed state a process has a pending request exactly if
/// it is blocked; it has no second one, on whichever waitlist; and
/// every pending request asks for at least one unit, for no more than
/// its class has in all, and for more than is available of it.
pub proof fn law_waiting_exactly_if_blocked(s: SchedulerView, p: int)
    requires
        s.wf(),
        s.live(p),
    ensures
        is_waiting(s.rcbs, p as usize) <==> s.pcb(p).state == PCBState::BLOCKED,
        forall|r1: int, i1: int, r2: int, i2: int|
            0 <= r1 < 4 && 0 <= i1 < s.rcbs[r1].waitlist.len() && 0 <= r2 < 4 && 0 <= i2
                < s.rcbs[r2].waitlist.len() && (#[trigger] s.rcbs[r1].waitlist[i1]).pid == p && (
            #[trigger] s.rcbs[r2].waitlist[i2]).pid == p ==> r1 == r2 && i1 == i2,
        forall|r: int, i: int|
            0 <= r < 4 && 0 <= i < s.rcbs[r].waitlist.len() ==> {
                let request = #[trigger] s.rcbs[r].waitlist[i];
                &&& s.live(request.pid as int)
                &&& 1 <= request.units <= s.rcbs[r].inventory
                &&& request.units > s.rcbs[r].units_available
            },
        p == 0 ==> s.pcb(p).state == PCBState::READY,
{
}

/// In a well-formed state every unit of a class is either available or
/// held by some process: the two together make the inventory of the
/// class, which is the one it had after the reset. Units that are
/// waited for are not part of this sum: with them the sum is the
/// inventory exactly while nobody waits for the class.
pub proof fn law_units_conserved(s: SchedulerView, r: int)
    requires
        s.wf(),
        0 <= r < 4,
    ensures
        s.rcbs[r].units_available + s.units_held(r) == s.rcbs[r].inventory,
        s.rcbs[r].inventory == initial_rcbs()[r].inventory,
        s.rcbs[r].units_available + s.units_held(r) + s.rcbs[r].units_waiting()
            == s.rcbs[r].inventory <==> s.rcbs[r].waitlist.len() == 0,
{
}

/// Where no request of a class could be granted, serving its waitlist
/// changes nothing.
pub proof fn lemma_service_settled(s: SchedulerView, rid: int, i: int)
    requires
        s.settled(rid),
        0 <= i,
    ensures
        s.service(rid, i) == s,
    decreases s.rcbs[rid].waitlist.len() - i,
{
    let rcb = s.rcbs[rid];
    if 0 <= rid < s.rcbs.len() && i < rcb.waitlist.len() && rcb.units_available != 0 {
        lemma_service_settled(s, rid, i + 1);
    }
}

/// A request that is granted at once, followed at once by the release
/// of the same class and number of units, is accepted and leaves
/// everything as it was before the request: what is available of
/// every class, the waitlists, the ready queues, the running process
/// and every process record. Only the order of the grants of the
/// running process may differ where it held an equal grant before:
/// the release takes the first of the equal grants.
pub proof fn law_request_then_release(s: SchedulerView, rid: int, units: int)
    requires
        s.wf(),
        s.request_accepts(rid, units),
        units <= s.rcbs[rid].units_available,
    ensures
        ({
            let requested = s.request_next(rid, units);
            let released = requested.release_next(rid, units);
            let p = s.running_pid as int;
            let grant = PCBResource { rid: rid as usize, units: units as usize };
            &&& requested.release_accepts(rid, units)
            &&& released.rcbs == s.rcbs
            &&& released.ready == s.ready
            &&& released.running_pid == s.running_pid
            &&& released.pcbs == s.pcbs.update(
                p,
                Some(
                    ProcessView {
                        resources: s.pcb(p).resources.push(grant).remove_value(grant),
                        ..s.pcb(p)
                    },
                ),
            )
            &&& released.pcb(p).resources.to_multiset() == s.pcb(p).resources.to_multiset()
            &&& !s.holds(p, grant) ==> released == s
        }),
{
    let p = s.running_pid as int;
    let grant = PCBResource { rid: rid as usize, units: units as usize };
    let held = s.pcbs[p]->0.resources;
    let requested = s.request_next(rid, units);
    assert(held.push(grant)[held.len() as int] == grant);
    let handed = requested.drop_grant(p, grant).set_available(
        rid,
        (requested.rcbs[rid].units_available + grant.units) as usize,
    );
    lemma_service_settled(handed, rid, 0);
    held.push(grant).index_of_first_ensures(grant);
    let i = held.push(grant).index_of_first(grant)->0;
    to_multiset_build(held, grant);
    to_multiset_remove(held.push(grant), i);
    if !s.holds(p, grant) {
        assert(held.push(grant).remove(i) =~= held);
    }
}

/// A new process runs at once exactly if its priority is higher than
/// that of the process that created it; otherwise its creator runs on.
pub proof fn law_create_preempts(s: SchedulerView, priority: int)
    requires
        s.wf(),
        s.create_accepts(priority),
    ensures
        s.create_next(priority).running_pid == if priority > s.pcb(s.running_pid as int).priority {
            s.lowest_free() as usize
        } else {
            s.running_pid
        },
        s.create_next(priority).live(s.lowest_free()),
        !s.live(s.lowest_free()),
        s.create_next(priority).pcb(s.lowest_free()) == ProcessView::fresh(
            priority as usize,
            Some(s.running_pid),
        ),
{
    lemma_create_wf(s, priority);
    law_running_heads_queue(s);
    let c = s.lowest_free();
    let t = s.spawn(c, priority as usize);
    assert(t.ready[priority] == s.ready[priority].push(c as usize));
}

/// A request that cannot be granted at once takes the processor from
/// the process that made it; one that is granted leaves it running.
pub proof fn law_request_blocks_or_runs_on(s: SchedulerView, rid: int, units: int)
    requires
        s.wf(),
        s.request_accepts(rid, units),
    ensures
        units <= s.rcbs[rid].units_available ==> s.request_next(rid, units).running_pid
            == s.running_pid,
        units > s.rcbs[rid].units_available ==> s.request_next(rid, units).running_pid
            != s.running_pid && s.request_next(rid, units).pcb(s.running_pid as int).state
            == PCBState::BLOCKED,
{
    lemma_request_wf(s, rid, units);
    law_running_heads_queue(s);
    if units > s.rcbs[rid].units_available {
        let t = s.request_next(rid, units);
        law_running_heads_queue(t);
    }
}

/// After a timeout the same process runs exactly if it is alone in
/// the ready queue of its priority; otherwise the next of that queue runs.
pub proof fn law_timeout_passes_on(s: SchedulerView)
    requires
        s.wf(),
    ensures
        ({
            let queue = s.ready[s.pcb(s.running_pid as int).priority as int];
            s.timeout_next().running_pid == if queue.len() == 1 {
                s.running_pid
            } else {
                queue[1]
            }
        }),
        s.timeout_next().running_pid == s.running_pid <==> s.ready[s.pcb(
            s.running_pid as int,
        ).priority as int].len() == 1,
{
    law_running_heads_queue(s);
    let k = s.pcb(s.running_pid as int).priority as int;
    assert(s.queue_sound(k));
}

/// What no state lets through: a priority other than 0, 1 and 2, a
/// new process while the table is full, the destruction of the root,
/// a request by the root, and the release of a grant that the running
/// process does not hold exactly so.
pub proof fn law_rejections(s: SchedulerView, priority: int, rid: int, units: int)
    requires
        s.wf(),
    ensures
        !(0 <= priority < 3) ==> !s.create_accepts(priority),
        (forall|p: int| 0 <= p < 16 ==> (#[trigger] s.pcbs[p]) is Some) ==> !s.create_accepts(
            priority,
        ),
        !s.destroy_accepts(0),
        s.running_pid == 0 ==> !s.request_accepts(rid, units),
        units > s.rcbs[rid].inventory ==> !s.request_accepts(rid, units),
        !s.holds(s.running_pid as int, PCBResource { rid: rid as usize, units: units as usize })
            ==> !s.release_accepts(rid, units),
        s.running_pid == 0 ==> !s.release_accepts(rid, units),
{
}

} // verus!
