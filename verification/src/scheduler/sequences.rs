//! Facts about sequences without repetitions under the changes that the
//! operations make to them.
use vstd::prelude::*;

use crate::scheduler::rcb::RCBResource;
use crate::scheduler::state::waiters_besides;

verus! {

/// What an appended sequence contains.
pub proof fn lemma_push_contains<T>(s: Seq<T>, x: T, y: T)
    ensures
        s.push(x).contains(y) <==> s.contains(y) || y == x,
{
    if s.contains(y) {
        let i = choose|i: int| 0 <= i < s.len() && s[i] == y;
        assert(s.push(x)[i] == y);
    }
    if y == x {
        assert(s.push(x)[s.len() as int] == y);
    }
}

/// Taking one element out of a sequence without repetitions removes
/// exactly that element.
pub proof fn lemma_remove_unique<T>(s: Seq<T>, i: int)
    requires
        s.no_duplicates(),
        0 <= i < s.len(),
    ensures
        s.remove(i).no_duplicates(),
        s.remove(i).len() == s.len() - 1,
        !s.remove(i).contains(s[i]),
        forall|y: T| y != s[i] && s.contains(y) ==> #[trigger] s.remove(i).contains(y),
        forall|j: int| 0 <= j < s.remove(i).len() ==> s.contains(#[trigger] s.remove(i)[j]),
{
    let t = s.remove(i);
    assert forall|y: T| y != s[i] && s.contains(y) implies #[trigger] t.contains(y) by {
        let j = choose|j: int| 0 <= j < s.len() && s[j] == y;
        if j < i {
            assert(t[j] == y);
        } else {
            assert(t[j - 1] == y);
        }
    }
}

/// Taking a value out of a sequence without repetitions removes
/// exactly that value.
pub proof fn lemma_remove_value_unique<T>(s: Seq<T>, x: T)
    requires
        s.no_duplicates(),
    ensures
        s.remove_value(x).no_duplicates(),
        !s.remove_value(x).contains(x),
        forall|y: T| y != x && s.contains(y) ==> #[trigger] s.remove_value(x).contains(y),
        forall|j: int|
            0 <= j < s.remove_value(x).len() ==> s.contains(#[trigger] s.remove_value(x)[j]),
        s.contains(x) ==> s.remove_value(x).len() == s.len() - 1,
        !s.contains(x) ==> s.remove_value(x) == s,
{
    s.index_of_first_ensures(x);
    match s.index_of_first(x) {
        Some(i) => {
            lemma_remove_unique(s, i);
        },
        None => {},
    }
}

/// Moving the head of a sequence without repetitions to its tail
/// keeps its elements.
pub proof fn lemma_rotate<T>(s: Seq<T>)
    requires
        s.no_duplicates(),
        s.len() > 0,
    ensures
        s.remove(0).push(s[0]).no_duplicates(),
        s.remove(0).push(s[0]).len() == s.len(),
        forall|y: T| s.contains(y) <==> #[trigger] s.remove(0).push(s[0]).contains(y),
        forall|j: int|
            0 <= j < s.len() ==> s.contains(#[trigger] s.remove(0).push(s[0])[j]),
{
    let t = s.remove(0);
    let u = t.push(s[0]);
    lemma_remove_unique(s, 0);
    assert forall|y: T| s.contains(y) <==> #[trigger] u.contains(y) by {
        lemma_push_contains(t, s[0], y);
    }
}

/// A waitlist on which process `pid` has no request is left as it is.
pub proof fn lemma_waiters_besides_none(w: Seq<RCBResource>, pid: usize)
    requires
        forall|j: int| 0 <= j < w.len() ==> (#[trigger] w[j]).pid != pid,
    ensures
        waiters_besides(w, pid) == w,
    decreases w.len(),
{
    reveal(Seq::filter);
    if w.len() > 0 {
        lemma_waiters_besides_none(w.drop_last(), pid);
    }
}

/// A waitlist on which process `pid` has its one request at position
/// `i` loses exactly that request.
pub proof fn lemma_waiters_besides_one(w: Seq<RCBResource>, pid: usize, i: int)
    requires
        0 <= i < w.len(),
        w[i].pid == pid,
        forall|j: int| 0 <= j < w.len() && j != i ==> (#[trigger] w[j]).pid != pid,
    ensures
        waiters_besides(w, pid) == w.remove(i),
    decreases w.len(),
{
    reveal(Seq::filter);
    if i == w.len() - 1 {
        lemma_waiters_besides_none(w.drop_last(), pid);
    } else {
        lemma_waiters_besides_one(w.drop_last(), pid, i);
    }
}

} // verus!
