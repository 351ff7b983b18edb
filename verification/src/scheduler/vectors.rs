//! Searching and pruning the vectors of the tables.
use vstd::prelude::*;

use crate::scheduler::pcb::PCBResource;
use crate::scheduler::rcb::RCBResource;
use crate::scheduler::state::waiters_besides;

verus! {

/// `i` is the position of the first element of `s` equal to `x`.
pub open spec fn is_first_index<T>(s: Seq<T>, x: T, i: int) -> bool {
    &&& 0 <= i < s.len()
    &&& s[i] == x
    &&& forall|j: int| 0 <= j < i ==> s[j] != x
}

/// The first position of an element is the one that `index_of_first` names.
pub proof fn lemma_first_index<T>(s: Seq<T>, x: T, i: int)
    requires
        is_first_index(s, x, i),
    ensures
        s.index_of_first(x) == Some(i),
        s.remove_value(x) == s.remove(i),
{
    s.index_of_first_ensures(x);
}

/// Without an element equal to `x` there is nothing to take out.
pub proof fn lemma_no_index<T>(s: Seq<T>, x: T)
    requires
        forall|j: int| 0 <= j < s.len() ==> s[j] != x,
    ensures
        s.index_of_first(x) is None,
        s.remove_value(x) == s,
        !s.contains(x),
{
    s.index_of_first_ensures(x);
}

/// The position of the first element of `v` equal to `x`.
pub fn position_of(v: &Vec<usize>, x: usize) -> (found: Option<usize>)
    ensures
        match found {
            Some(i) => is_first_index(v@, x, i as int) && v@.index_of_first(x) == Some(i as int),
            None => !v@.contains(x) && v@.index_of_first(x) is None,
        },
{
    let mut i: usize = 0;
    while i < v.len()
        invariant
            i <= v.len(),
            forall|j: int| 0 <= j < i ==> v@[j] != x,
        decreases v.len() - i,
    {
        if v[i] == x {
            proof {
                lemma_first_index(v@, x, i as int);
            }
            return Some(i);
        }
        i += 1;
    }
    proof {
        lemma_no_index(v@, x);
    }
    None
}

/// The position of the first grant in `v` equal to `grant`.
pub fn position_of_grant(v: &Vec<PCBResource>, grant: PCBResource) -> (found: Option<usize>)
    ensures
        match found {
            Some(i) => is_first_index(v@, grant, i as int) && v@.index_of_first(grant) == Some(
                i as int,
            ),
            None => !v@.contains(grant) && v@.index_of_first(grant) is None,
        },
{
    let mut i: usize = 0;
    while i < v.len()
        invariant
            i <= v.len(),
            forall|j: int| 0 <= j < i ==> v@[j] != grant,
        decreases v.len() - i,
    {
        if v[i].rid == grant.rid && v[i].units == grant.units {
            proof {
                lemma_first_index(v@, grant, i as int);
            }
            return Some(i);
        }
        i += 1;
    }
    proof {
        lemma_no_index(v@, grant);
    }
    None
}

/// Takes the first element equal to `x` out of `v`, if there is one.
pub fn remove_value(v: &mut Vec<usize>, x: usize)
    ensures
        final(v)@ == old(v)@.remove_value(x),
{
    match position_of(v, x) {
        Some(i) => {
            v.remove(i);
        },
        None => {},
    }
}

/// Keeps in `v` the requests that process `pid` did not make.
pub fn remove_requests_of(v: &mut Vec<RCBResource>, pid: usize)
    ensures
        final(v)@ == waiters_besides(old(v)@, pid),
{
    let ghost keep = |e: RCBResource| e.pid != pid;
    let mut kept: Vec<RCBResource> = Vec::new();
    let mut i: usize = 0;
    while i < v.len()
        invariant
            i <= v.len(),
            keep == |e: RCBResource| e.pid != pid,
            kept@ == v@.take(i as int).filter(keep),
        decreases v.len() - i,
    {
        let e = v[i];
        proof {
            v@.take(i as int).lemma_filter_push(e, keep);
            assert(v@.take(i as int).push(e) =~= v@.take(i + 1));
        }
        if e.pid != pid {
            kept.push(e);
        }
        i += 1;
    }
    assert(v@.take(v.len() as int) =~= v@);
    *v = kept;
}

} // verus!
