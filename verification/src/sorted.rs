//! Strictly ascending vectors of numbers, used as small ordered sets.

use vstd::prelude::*;

verus! {

/// Whether each element is greater than the one before it.
pub open spec fn strictly_ascending(v: Seq<usize>) -> bool {
    forall|i: int, j: int| 0 <= i < j < v.len() ==> v[i] < v[j]
}

/// Where `x` stands in an ascending vector, or `None` where it does not
/// occur.
pub fn find_sorted(v: &Vec<usize>, x: usize) -> (place: Option<usize>)
    requires
        strictly_ascending(v@),
    ensures
        place matches Some(p) ==> p < v@.len() && v@[p as int] == x,
        place is None ==> !v@.contains(x),
{
    let mut i: usize = 0;
    while i < v.len()
        invariant
            i <= v@.len(),
            strictly_ascending(v@),
            forall|j: int| 0 <= j < i ==> v@[j] < x,
        decreases v@.len() - i,
    {
        if v[i] == x {
            return Some(i);
        }
        if v[i] > x {
            assert forall|j: int| 0 <= j < v@.len() implies v@[j] != x by {
                if j > i {
                    assert(v@[i as int] < v@[j]);
                }
            }
            return None;
        }
        i = i + 1;
    }
    None
}

/// The ascending vector with `x` added, where it was not there already.
pub fn insert_sorted(v: Vec<usize>, x: usize) -> (out: Vec<usize>)
    requires
        strictly_ascending(v@),
    ensures
        strictly_ascending(out@),
        forall|y: usize| out@.contains(y) <==> v@.contains(y) || y == x,
        v@.contains(x) ==> out@ == v@,
{
    let mut out: Vec<usize> = v;
    let mut i: usize = 0;
    while i < out.len() && out[i] < x
        invariant
            out@ == v@,
            i <= out@.len(),
            forall|j: int| 0 <= j < i ==> out@[j] < x,
        decreases out@.len() - i,
    {
        i = i + 1;
    }
    if i < out.len() && out[i] == x {
        return out;
    }
    let ghost before = out@;
    out.insert(i, x);
    assert(out@ == before.insert(i as int, x));
    assert forall|a: int, b: int| 0 <= a < b < out@.len() implies out@[a] < out@[b] by {
        if a < i && b > i {
            assert(before[a] < x);
            assert(before[b - 1] >= before[i as int]);
        } else if a > i {
            assert(before[a - 1] < before[b - 1]);
        }
    }
    assert forall|y: usize| out@.contains(y) <==> before.contains(y) || y == x by {
        if out@.contains(y) {
            let k = choose|k: int| 0 <= k < out@.len() && out@[k] == y;
            if k < i {
                assert(before[k] == y);
            } else if k > i {
                assert(before[k - 1] == y);
            }
        }
        if before.contains(y) {
            let k = choose|k: int| 0 <= k < before.len() && before[k] == y;
            if k < i {
                assert(out@[k] == y);
            } else {
                assert(out@[k + 1] == y);
            }
        }
        if y == x {
            assert(out@[i as int] == x);
        }
    }
    assert(!before.contains(x)) by {
        assert forall|j: int| 0 <= j < before.len() implies before[j] != x by {
            if j >= i {
                assert(before[i as int] <= before[j]);
            }
        }
    }
    out
}

/// The numbers that occur in `values`, each once, in ascending order.
pub fn sorted_distinct(values: &Vec<usize>) -> (out: Vec<usize>)
    ensures
        strictly_ascending(out@),
        forall|y: usize| out@.contains(y) <==> values@.contains(y),
{
    let mut out: Vec<usize> = Vec::new();
    let mut i: usize = 0;
    while i < values.len()
        invariant
            i <= values@.len(),
            strictly_ascending(out@),
            forall|y: usize| out@.contains(y) <==> values@.take(i as int).contains(y),
        decreases values@.len() - i,
    {
        let ghost seen = values@.take(i as int);
        let ghost next = values@.take(i as int + 1);
        let x: usize = values[i];
        let ghost old_out = out@;
        out = insert_sorted(out, x);
        proof {
            assert(next =~= seen.push(x));
            assert forall|y: usize| out@.contains(y) <==> next.contains(y) by {
                if next.contains(y) {
                    let k = choose|k: int| 0 <= k < next.len() && next[k] == y;
                    if k < i {
                        assert(seen[k] == y);
                    }
                }
                if seen.contains(y) {
                    let k = choose|k: int| 0 <= k < seen.len() && seen[k] == y;
                    assert(next[k] == y);
                }
                if y == x {
                    assert(next[i as int] == x);
                }
            }
        }
        i = i + 1;
    }
    assert(values@.take(values@.len() as int) =~= values@);
    out
}

/// The order of the numbers.
pub open spec fn ascending() -> spec_fn(usize, usize) -> bool {
    |a: usize, b: usize| a <= b
}

/// The numbers of `values` in ascending order, each as often as it
/// occurs.
pub open spec fn sorted_numbers(values: Seq<usize>) -> Seq<usize> {
    values.sort_by(ascending())
}

/// The numbers of `values` in ascending order, each as often as it
/// occurs.
pub fn sort_ascending(values: Vec<usize>) -> (sorted: Vec<usize>)
    ensures
        sorted@ == sorted_numbers(values@),
        sorted@.to_multiset() == values@.to_multiset(),
        sorted@.len() == values@.len(),
        forall|i: int, j: int| 0 <= i < j < sorted@.len() ==> sorted@[i] <= sorted@[j],
{
    let ghost given = values@;
    let mut rest: Vec<usize> = values;
    let mut sorted: Vec<usize> = Vec::new();
    proof {
        vstd::seq_lib::to_multiset_len(sorted@);
        vstd::multiset::lemma_multiset_empty_len(sorted@.to_multiset());
        assert(sorted@.to_multiset().add(rest@.to_multiset()) =~= given.to_multiset());
    }
    while rest.len() > 0
        invariant
            sorted@.to_multiset().add(rest@.to_multiset()) == given.to_multiset(),
            sorted@.len() + rest@.len() == given.len(),
            forall|i: int, j: int| 0 <= i < j < sorted@.len() ==> sorted@[i] <= sorted@[j],
            forall|i: int, j: int| 0 <= i < sorted@.len() && 0 <= j < rest@.len() ==> sorted@[i] <= rest@[j],
        decreases rest@.len(),
    {
        let mut least: usize = 0;
        let mut k: usize = 1;
        while k < rest.len()
            invariant
                rest@.len() > 0,
                least < rest@.len(),
                k <= rest@.len(),
                forall|j: int| 0 <= j < k ==> rest@[least as int] <= rest@[j],
            decreases rest@.len() - k,
        {
            if rest[k] < rest[least] {
                least = k;
            }
            k = k + 1;
        }
        let ghost before_rest = rest@;
        let ghost before_sorted = sorted@;
        let next: usize = rest.remove(least);
        sorted.push(next);
        proof {
            vstd::seq_lib::to_multiset_remove(before_rest, least as int);
            vstd::seq_lib::to_multiset_build(before_sorted, next);
            assert(before_rest.to_multiset().count(next) > 0) by {
                assert(before_rest[least as int] == next);
                assert(before_rest.contains(next));
                vstd::seq_lib::to_multiset_contains(before_rest, next);
            }
            assert(sorted@.to_multiset().add(rest@.to_multiset()) =~= before_sorted.to_multiset().add(
                before_rest.to_multiset(),
            ));
            assert forall|i: int, j: int|
                0 <= i < sorted@.len() && 0 <= j < rest@.len() implies sorted@[i] <= rest@[j] by {
                let j0 = if j < least {
                    j
                } else {
                    j + 1
                };
                assert(rest@[j] == before_rest[j0]);
            }
        }
    }
    proof {
        vstd::seq_lib::to_multiset_len(rest@);
        vstd::multiset::lemma_multiset_empty_len(rest@.to_multiset());
        assert(sorted@.to_multiset().add(rest@.to_multiset()) =~= sorted@.to_multiset());
        assert(vstd::relations::total_ordering(ascending()));
        given.lemma_sort_by_ensures(ascending());
        assert(vstd::relations::sorted_by(sorted@, ascending()));
        vstd::seq_lib::lemma_sorted_unique(sorted@, sorted_numbers(given), ascending());
    }
    sorted
}

} // verus!
