//! The shape of the process tree: depths, chains of ancestors, and why
//! no chain is longer than the table.
use vstd::prelude::*;
use vstd::set_lib::*;

use crate::scheduler::pcb::ProcessView;
use crate::scheduler::wellformed::rooted_within;

verus! {

/// Slot `p` exists and is occupied.
pub open spec fn occupied(pcbs: Seq<Option<ProcessView>>, p: int) -> bool {
    0 <= p < pcbs.len() && pcbs[p] is Some
}

/// The parent that slot `p` names.
pub open spec fn parent_of(pcbs: Seq<Option<ProcessView>>, p: int) -> int {
    pcbs[p]->0.parent->0 as int
}

/// Number of steps from process `p` up to the root, counting at most `fuel`.
pub open spec fn depth(pcbs: Seq<Option<ProcessView>>, p: int, fuel: nat) -> nat
    decreases fuel,
{
    if p == 0 || fuel == 0 || !occupied(pcbs, p) || pcbs[p]->0.parent is None {
        0
    } else {
        1 + depth(pcbs, parent_of(pcbs, p), (fuel - 1) as nat)
    }
}

/// The processes from `p` up to the root, `p` first, at most `fuel` steps.
pub open spec fn ancestors(pcbs: Seq<Option<ProcessView>>, p: int, fuel: nat) -> Seq<int>
    decreases fuel,
{
    if p == 0 || fuel == 0 || !occupied(pcbs, p) || pcbs[p]->0.parent is None {
        seq![p]
    } else {
        seq![p] + ancestors(pcbs, parent_of(pcbs, p), (fuel - 1) as nat)
    }
}

/// The depth never exceeds the steps counted.
pub proof fn lemma_depth_bound(pcbs: Seq<Option<ProcessView>>, p: int, fuel: nat)
    ensures
        depth(pcbs, p, fuel) <= fuel,
    decreases fuel,
{
    if !(p == 0 || fuel == 0 || !occupied(pcbs, p) || pcbs[p]->0.parent is None) {
        lemma_depth_bound(pcbs, parent_of(pcbs, p), (fuel - 1) as nat);
    }
}

/// A chain that reaches the root within `f` steps does so within any
/// `g >= f`, and its depth does not depend on which of them is counted.
pub proof fn lemma_rooted_more_fuel(pcbs: Seq<Option<ProcessView>>, p: int, f: nat, g: nat)
    requires
        rooted_within(pcbs, p, f),
        f <= g,
    ensures
        rooted_within(pcbs, p, g),
        depth(pcbs, p, g) == depth(pcbs, p, f),
    decreases f,
{
    if p != 0 {
        lemma_rooted_more_fuel(pcbs, parent_of(pcbs, p), (f - 1) as nat, (g - 1) as nat);
    }
}

/// A chain that reaches the root does so in exactly its depth.
pub proof fn lemma_rooted_at_depth(pcbs: Seq<Option<ProcessView>>, p: int, f: nat)
    requires
        rooted_within(pcbs, p, f),
    ensures
        rooted_within(pcbs, p, depth(pcbs, p, f)),
    decreases f,
{
    if p != 0 {
        lemma_rooted_at_depth(pcbs, parent_of(pcbs, p), (f - 1) as nat);
    }
}

/// A chain of parents is untouched by changes that keep every process
/// other than `x` in its slot with its parent, as long as no process
/// names `x` as its parent and the chain does not start at `x`.
pub proof fn lemma_rooted_frame(
    a: Seq<Option<ProcessView>>,
    b: Seq<Option<ProcessView>>,
    x: int,
    p: int,
    fuel: nat,
)
    requires
        rooted_within(a, p, fuel),
        p != x,
        a.len() == b.len(),
        forall|q: int|
            0 <= q < a.len() && q != x && (#[trigger] a[q]) is Some ==> {
                &&& b[q] is Some
                &&& b[q]->0.parent == a[q]->0.parent
                &&& a[q]->0.parent is Some ==> parent_of(a, q) != x
            },
    ensures
        rooted_within(b, p, fuel),
        depth(b, p, fuel) == depth(a, p, fuel),
    decreases fuel,
{
    if p != 0 {
        lemma_rooted_frame(a, b, x, parent_of(a, p), (fuel - 1) as nat);
    }
}

/// The chain of ancestors of a process: as long as its depth plus one,
/// made of occupied slots, and each on it as deep as its place says.
pub proof fn lemma_ancestors(pcbs: Seq<Option<ProcessView>>, p: int, fuel: nat)
    requires
        rooted_within(pcbs, p, fuel),
        occupied(pcbs, 0),
        occupied(pcbs, p),
    ensures
        ancestors(pcbs, p, fuel).len() == depth(pcbs, p, fuel) + 1,
        forall|i: int|
            0 <= i < ancestors(pcbs, p, fuel).len() ==> {
                let a = #[trigger] ancestors(pcbs, p, fuel)[i];
                &&& occupied(pcbs, a)
                &&& rooted_within(pcbs, a, fuel)
                &&& depth(pcbs, a, fuel) + i == depth(pcbs, p, fuel)
            },
    decreases fuel,
{
    if !(p == 0 || fuel == 0 || !occupied(pcbs, p) || pcbs[p]->0.parent is None) {
        let q = parent_of(pcbs, p);
        let rest = ancestors(pcbs, q, (fuel - 1) as nat);
        assert(occupied(pcbs, q)) by {
            reveal_with_fuel(rooted_within, 2);
        }
        lemma_ancestors(pcbs, q, (fuel - 1) as nat);
        assert forall|i: int| 0 <= i < ancestors(pcbs, p, fuel).len() implies {
            let a = #[trigger] ancestors(pcbs, p, fuel)[i];
            &&& occupied(pcbs, a)
            &&& rooted_within(pcbs, a, fuel)
            &&& depth(pcbs, a, fuel) + i == depth(pcbs, p, fuel)
        } by {
            if i > 0 {
                let a = rest[i - 1];
                lemma_rooted_more_fuel(pcbs, a, (fuel - 1) as nat, fuel);
            }
        }
    }
}

/// While a slot of the table is free, no process is deeper than two
/// less than the number of slots: its ancestors are distinct and all
/// of them occupy slots.
pub proof fn lemma_depth_leaves_room(pcbs: Seq<Option<ProcessView>>, p: int, free: int)
    requires
        pcbs.len() == 16,
        rooted_within(pcbs, p, 15),
        occupied(pcbs, 0),
        occupied(pcbs, p),
        0 <= free < 16,
        pcbs[free] is None,
    ensures
        rooted_within(pcbs, p, 14),
{
    let chain = ancestors(pcbs, p, 15);
    lemma_ancestors(pcbs, p, 15);
    chain.unique_seq_to_set();
    let slots = set_int_range(0, 16).remove(free);
    lemma_int_range(0, 16);
    lemma_len_subset(chain.to_set(), slots);
    lemma_rooted_at_depth(pcbs, p, 15);
    lemma_rooted_more_fuel(pcbs, p, depth(pcbs, p, 15), 14);
}

} // verus!
