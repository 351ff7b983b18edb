//! Sums of held units and how the elementary updates change them.
use vstd::prelude::*;

use crate::scheduler::pcb::{units_in, PCBResource, ProcessView};
use crate::scheduler::wellformed::{slot_units, units_held_below};

verus! {

/// What one grant adds to the units held of class `rid`.
pub open spec fn grant_units(grant: PCBResource, rid: int) -> nat {
    if grant.rid == rid {
        grant.units as nat
    } else {
        0
    }
}

/// A grant appended adds its units.
pub proof fn lemma_units_in_push(grants: Seq<PCBResource>, grant: PCBResource, rid: int)
    ensures
        units_in(grants.push(grant), rid) == units_in(grants, rid) + grant_units(grant, rid),
{
    assert(grants.push(grant).drop_last() =~= grants);
}

/// A grant taken out takes its units with it.
pub proof fn lemma_units_in_remove(grants: Seq<PCBResource>, i: int, rid: int)
    requires
        0 <= i < grants.len(),
    ensures
        units_in(grants.remove(i), rid) + grant_units(grants[i], rid) == units_in(grants, rid),
    decreases grants.len(),
{
    if i < grants.len() - 1 {
        lemma_units_in_remove(grants.drop_last(), i, rid);
        assert(grants.remove(i).drop_last() =~= grants.drop_last().remove(i));
    }
}

/// Any single grant is part of the sum.
pub proof fn lemma_units_in_covers(grants: Seq<PCBResource>, i: int, rid: int)
    requires
        0 <= i < grants.len(),
    ensures
        grant_units(grants[i], rid) <= units_in(grants, rid),
{
    lemma_units_in_remove(grants, i, rid);
}

/// Putting `slot` in place `p` changes the total by the difference
/// between what the new and the old occupant hold.
pub proof fn lemma_held_update(
    pcbs: Seq<Option<ProcessView>>,
    p: int,
    slot: Option<ProcessView>,
    rid: int,
    n: int,
)
    requires
        0 <= p < pcbs.len(),
        0 <= n <= pcbs.len(),
    ensures
        units_held_below(pcbs.update(p, slot), rid, n) + (if p < n {
            slot_units(pcbs[p], rid)
        } else {
            0
        }) == units_held_below(pcbs, rid, n) + (if p < n {
            slot_units(slot, rid)
        } else {
            0
        }),
    decreases n,
{
    if n > 0 {
        lemma_held_update(pcbs, p, slot, rid, n - 1);
    }
}

/// Where no process holds anything of class `rid`, nothing is held.
pub proof fn lemma_nothing_held(pcbs: Seq<Option<ProcessView>>, rid: int, n: int)
    requires
        0 <= n <= pcbs.len(),
        forall|p: int| 0 <= p < n ==> slot_units(#[trigger] pcbs[p], rid) == 0,
    ensures
        units_held_below(pcbs, rid, n) == 0,
    decreases n,
{
    if n > 0 {
        lemma_nothing_held(pcbs, rid, n - 1);
    }
}

/// What one process holds is part of what all hold.
pub proof fn lemma_held_covers(pcbs: Seq<Option<ProcessView>>, p: int, rid: int, n: int)
    requires
        0 <= p < n <= pcbs.len(),
    ensures
        slot_units(pcbs[p], rid) <= units_held_below(pcbs, rid, n),
    decreases n,
{
    if p < n - 1 {
        lemma_held_covers(pcbs, p, rid, n - 1);
    }
}

} // verus!
