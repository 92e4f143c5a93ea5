//! The list of requests that one pass over a list of entities hands out.

use vstd::prelude::*;

verus! {

/// The values that `each` gives for the indices `0 .. n`, in that order; an
/// index for which it gives nothing is skipped.
pub open spec fn emitted<T>(n: nat, each: spec_fn(int) -> Option<T>) -> Seq<T>
    decreases n,
{
    if n == 0 {
        Seq::empty()
    } else {
        let earlier = emitted((n - 1) as nat, each);
        match each(n - 1) {
            Some(request) => earlier.push(request),
            None => earlier,
        }
    }
}

/// The list only grows as the pass goes on.
pub proof fn lemma_emitted_grows<T>(i: nat, n: nat, each: spec_fn(int) -> Option<T>)
    requires
        i <= n,
    ensures
        emitted(i, each).len() <= emitted(n, each).len() <= emitted(i, each).len() + (n - i),
        forall|k: int|
            0 <= k < emitted(i, each).len() ==> emitted(n, each)[k] == emitted(i, each)[k],
    decreases n,
{
    if i < n {
        lemma_emitted_grows(i, (n - 1) as nat, each);
    }
}

/// An index for which `each` gives a request has that request in the list,
/// at the place that the number of requests before it says.
pub proof fn lemma_emitted_holds<T>(i: int, n: nat, each: spec_fn(int) -> Option<T>)
    requires
        0 <= i < n,
        each(i) is Some,
    ensures
        emitted(i as nat, each).len() < emitted(n, each).len(),
        emitted(n, each)[emitted(i as nat, each).len() as int] == each(i)->0,
{
    lemma_emitted_grows((i + 1) as nat, n, each);
}

/// Every request of the list comes from an index: the one before which as
/// many requests were handed out as stand before it in the list.
pub proof fn lemma_emitted_source<T>(k: int, n: nat, each: spec_fn(int) -> Option<T>) -> (i: int)
    requires
        0 <= k < emitted(n, each).len(),
    ensures
        0 <= i < n,
        each(i) == Some(emitted(n, each)[k]),
        emitted(i as nat, each).len() == k,
    decreases n,
{
    let earlier = emitted((n - 1) as nat, each);
    if k < earlier.len() {
        lemma_emitted_source(k, (n - 1) as nat, each)
    } else {
        n - 1
    }
}

/// Where each index asks for nothing or for itself, the list names the
/// indices that ask, in rising order and so each of them once.
pub proof fn lemma_emitted_places(n: nat, each: spec_fn(int) -> Option<usize>)
    requires
        n <= usize::MAX,
        forall|i: int| 0 <= i < n && (#[trigger] each(i)) is Some ==> each(i) == Some(i as usize),
    ensures
        forall|a: int, b: int|
            0 <= a < b < emitted(n, each).len() ==> (#[trigger] emitted(n, each)[a]) < (
            #[trigger] emitted(n, each)[b]),
        forall|k: int| 0 <= k < emitted(n, each).len() ==> (#[trigger] emitted(n, each)[k]) < n,
        forall|i: int|
            0 <= i < n ==> (emitted(n, each).contains(i as usize) <==> (#[trigger] each(i)) is Some),
{
    let list = emitted(n, each);
    assert forall|a: int, b: int| 0 <= a < b < list.len() implies (#[trigger] list[a]) < (
    #[trigger] list[b]) by {
        let i = lemma_emitted_source(a, n, each);
        let j = lemma_emitted_source(b, n, each);
        if j <= i {
            lemma_emitted_grows(j as nat, i as nat, each);
        }
    }
    assert forall|k: int| 0 <= k < list.len() implies (#[trigger] list[k]) < n by {
        let i = lemma_emitted_source(k, n, each);
    }
    assert forall|i: int| 0 <= i < n implies (list.contains(i as usize) <==> (#[trigger] each(
        i,
    )) is Some) by {
        if each(i) is Some {
            lemma_emitted_holds(i, n, each);
        }
        if list.contains(i as usize) {
            let k = choose|k: int| 0 <= k < list.len() && list[k] == i as usize;
            let j = lemma_emitted_source(k, n, each);
            assert(j == i);
        }
    }
}

} // verus!
