//! Removing a subtree leaf by leaf is removing the subtrees of the
//! children, one after the other, and then the process itself.
use vstd::prelude::*;

use crate::scheduler::pcb::ProcessView;
use crate::scheduler::removal::{
    lemma_first_child, lemma_first_leaf, lemma_occupied_bound, lemma_occupied_freed,
    lemma_occupied_two, lemma_remove_process, lemma_remove_subtree, occupied_below,
};
use crate::scheduler::state::SchedulerView;
use crate::scheduler::tree::{depth, lemma_depth_bound, lemma_rooted_more_fuel};

verus! {

/// A table whose occupied slots are occupied in another has no more
/// occupied slots than the other.
pub proof fn lemma_occupied_fewer(a: Seq<Option<ProcessView>>, b: Seq<Option<ProcessView>>, n: int)
    requires
        0 <= n <= a.len(),
        a.len() == b.len(),
        forall|p: int| 0 <= p < n && (#[trigger] b[p]) is Some ==> a[p] is Some,
    ensures
        occupied_below(b, n) <= occupied_below(a, n),
    decreases n,
{
    if n > 0 {
        lemma_occupied_fewer(a, b, n - 1);
    }
}

/// A process other than the root is one step deeper than its parent.
pub proof fn lemma_depth_step(s: SchedulerView, p: int)
    requires
        s.tree_sound(),
        0 < p < 16,
        s.live(p),
    ensures
        depth(s.pcbs, p, 15) == depth(s.pcbs, s.pcb(p).parent->0 as int, 15) + 1,
{
    let q = s.pcbs[p]->0.parent->0 as int;
    lemma_rooted_more_fuel(s.pcbs, q, 14, 15);
}

/// What descends from a process is at least as deep.
pub proof fn lemma_descendant_deeper(s: SchedulerView, p: int, a: int, f: nat)
    requires
        s.tree_sound(),
        0 <= p < 16,
        s.live(p),
        s.descends_from(p, a, f),
    ensures
        depth(s.pcbs, p, 15) >= depth(s.pcbs, a, 15),
    decreases f,
{
    if p != a {
        if p != 0 {
            lemma_depth_step(s, p);
            lemma_descendant_deeper(s, s.pcbs[p]->0.parent->0 as int, a, (f - 1) as nat);
        }
    }
}

/// Which leaf is first under a process does not depend on the steps
/// allowed, if they reach the bottom of the table.
pub proof fn lemma_first_leaf_fuel(s: SchedulerView, p: int, f: nat, g: nat)
    requires
        s.tree_sound(),
        0 < p < 16,
        s.live(p),
        f + depth(s.pcbs, p, 15) >= 16,
        g + depth(s.pcbs, p, 15) >= 16,
    ensures
        s.first_leaf(p, f) == s.first_leaf(p, g),
        depth(s.pcbs, s.first_leaf(p, f), 15) >= depth(s.pcbs, p, 15),
        s.first_leaf(p, f) != p ==> depth(s.pcbs, s.first_leaf(p, f), 15) > depth(s.pcbs, p, 15),
    decreases f,
{
    lemma_depth_bound(s.pcbs, p, 15);
    if s.pcbs[p]->0.children.len() > 0 {
        lemma_first_child(s, p);
        lemma_first_leaf_fuel(
            s,
            s.pcbs[p]->0.children[0] as int,
            (f - 1) as nat,
            (g - 1) as nat,
        );
    }
}

/// What is left after the removal of a subtree does not depend on how
/// many removals are allowed, if they are enough for the whole table.
pub proof fn lemma_remove_subtree_fuel(s: SchedulerView, pid: int, f: nat, g: nat)
    requires
        s.tree_sound(),
        s.at_rest(-1),
        0 < pid < 16,
        s.live(pid),
        f + 1 >= occupied_below(s.pcbs, 16),
        g + 1 >= occupied_below(s.pcbs, 16),
    ensures
        s.remove_subtree(pid, f) == s.remove_subtree(pid, g),
    decreases f,
{
    lemma_occupied_two(s.pcbs, 0, pid, 16);
    let leaf = s.first_leaf(pid, 16);
    lemma_first_leaf(s, pid, 16);
    let next = s.remove_process(leaf);
    lemma_remove_process(s, leaf);
    if leaf != pid {
        lemma_occupied_freed(s.pcbs, next.pcbs, leaf, 16);
        lemma_remove_subtree_fuel(next, pid, (f - 1) as nat, (g - 1) as nat);
    }
}

/// The subtree of a process with children is removed by removing the
/// subtree of its first child and then what is left of its own.
pub proof fn lemma_first_child_first(s: SchedulerView, pid: int, f: nat)
    requires
        s.tree_sound(),
        s.at_rest(-1),
        0 < pid < 16,
        s.live(pid),
        s.pcb(pid).children.len() > 0,
        f + 1 >= occupied_below(s.pcbs, 16),
    ensures
        s.remove_subtree(pid, f) == s.remove_subtree(s.pcb(pid).children[0] as int, f).remove_subtree(
            pid,
            f,
        ),
    decreases f,
{
    lemma_occupied_two(s.pcbs, 0, pid, 16);
    let c = s.pcbs[pid]->0.children[0] as int;
    let leaf = s.first_leaf(pid, 16);
    lemma_first_leaf_fuel(s, c, 15, 16);
    lemma_first_leaf(s, c, 16);
    let s1 = s.remove_process(leaf);
    lemma_remove_process(s, leaf);
    lemma_occupied_freed(s.pcbs, s1.pcbs, leaf, 16);
    if leaf == c {
        lemma_remove_subtree_fuel(s1, pid, (f - 1) as nat, f);
    } else {
        lemma_first_child_first(s1, pid, (f - 1) as nat);
        let u = s1.remove_subtree(c, (f - 1) as nat);
        lemma_remove_subtree(s1, c, (f - 1) as nat);
        lemma_first_child(s1, pid);
        if s1.descends_from(pid, c, 16) {
            lemma_descendant_deeper(s1, pid, c, 16);
        }
        lemma_occupied_fewer(s1.pcbs, u.pcbs, 16);
        lemma_remove_subtree_fuel(u, pid, (f - 1) as nat, f);
    }
}

/// Destroying a process goes children first: the subtree of a
/// childless process is removed by removing the process; that of a
/// process with children by removing the subtree of its first child,
/// and then what is left of its own.
pub proof fn law_children_first(s: SchedulerView, pid: int)
    requires
        s.wf(),
        0 < pid < 16,
        s.live(pid),
    ensures
        s.remove_subtree(pid, 16) == if s.pcb(pid).children.len() == 0 {
            s.remove_process(pid)
        } else {
            s.remove_subtree(s.pcb(pid).children[0] as int, 16).remove_subtree(pid, 16)
        },
{
    lemma_occupied_bound(s.pcbs, 16);
    if s.pcbs[pid]->0.children.len() > 0 {
        lemma_first_child_first(s, pid, 16);
    }
}

} // verus!
