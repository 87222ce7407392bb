//! Permutations of the numbers below a length, held as vectors.

use vstd::prelude::*;

verus! {

/// Whether some position of `p` holds `j`.
pub open spec fn hits(p: Seq<usize>, j: int) -> bool {
    exists|k: int| 0 <= k < p.len() && #[trigger] p[k] == j
}

/// Whether `p` holds each of the numbers below its length exactly once.
pub open spec fn is_permutation(p: Seq<usize>) -> bool {
    &&& forall|k: int| 0 <= k < p.len() ==> #[trigger] p[k] < p.len()
    &&& forall|k1: int, k2: int|
        0 <= k1 < p.len() && 0 <= k2 < p.len() && k1 != k2 ==> #[trigger] p[k1] != #[trigger] p[k2]
    &&& forall|j: int| 0 <= j < p.len() ==> #[trigger] hits(p, j)
}

/// Whether `inv` undoes `p`, and `p` undoes `inv`.
pub open spec fn inverts(inv: Seq<usize>, p: Seq<usize>) -> bool {
    &&& inv.len() == p.len()
    &&& forall|k: int| 0 <= k < p.len() ==> #[trigger] p[k] < p.len() && inv[p[k] as int] == k
    &&& forall|j: int| 0 <= j < p.len() ==> #[trigger] inv[j] < p.len() && p[inv[j] as int] == j
}

/// A vector of `len` copies of `value`.
fn filled(len: usize, value: usize) -> (v: Vec<usize>)
    ensures
        v@.len() == len,
        forall|i: int| 0 <= i < len ==> v@[i] == value,
{
    let mut v: Vec<usize> = Vec::new();
    let mut i: usize = 0;
    while i < len
        invariant
            i <= len,
            v@.len() == i,
            forall|j: int| 0 <= j < i ==> v@[j] == value,
        decreases len - i,
    {
        v.push(value);
        i = i + 1;
    }
    v
}

/// The inverse of `p`, where `p` is a permutation of the numbers below its
/// length; `None` where it is not.
pub fn invert_permutation(p: &Vec<usize>) -> (result: Option<Vec<usize>>)
    ensures
        result.is_some() <==> is_permutation(p@),
        result matches Some(inv) ==> inverts(inv@, p@),
{
    let n: usize = p.len();
    let mut inv: Vec<usize> = filled(n, n);
    let mut k: usize = 0;
    while k < n
        invariant
            n == p@.len(),
            inv@.len() == n,
            k <= n,
            forall|j: int|
                0 <= j < n ==> #[trigger] inv@[j] == n || (inv@[j] < k && p@[inv@[j] as int] == j),
            forall|k1: int| 0 <= k1 < k ==> #[trigger] p@[k1] < n && inv@[p@[k1] as int] != n,
        decreases n - k,
    {
        let target: usize = p[k];
        if target >= n {
            return None;
        }
        inv.set(target, k);
        k = k + 1;
    }
    let mut j: usize = 0;
    while j < n
        invariant
            n == p@.len(),
            inv@.len() == n,
            j <= n,
            forall|j1: int|
                0 <= j1 < n ==> #[trigger] inv@[j1] == n || (inv@[j1] < n && p@[inv@[j1] as int]
                    == j1),
            forall|k1: int| 0 <= k1 < n ==> #[trigger] p@[k1] < n && inv@[p@[k1] as int] != n,
            forall|j1: int| 0 <= j1 < j ==> #[trigger] inv@[j1] < n,
        decreases n - j,
    {
        if inv[j] >= n {
            assert(!hits(p@, j as int));
            return None;
        }
        j = j + 1;
    }
    let mut k: usize = 0;
    while k < n
        invariant
            n == p@.len(),
            inv@.len() == n,
            k <= n,
            forall|j1: int| 0 <= j1 < n ==> #[trigger] inv@[j1] < n && p@[inv@[j1] as int] == j1,
            forall|k1: int| 0 <= k1 < n ==> #[trigger] p@[k1] < n,
            forall|k1: int| 0 <= k1 < k ==> inv@[#[trigger] p@[k1] as int] == k1,
        decreases n - k,
    {
        if inv[p[k]] != k {
            let ghost other = inv@[p@[k as int] as int] as int;
            assert(p@[other] == p@[k as int]);
            return None;
        }
        k = k + 1;
    }
    assert forall|j1: int| 0 <= j1 < n implies #[trigger] hits(p@, j1) by {
        assert(p@[inv@[j1] as int] == j1);
    }
    Some(inv)
}

} // verus!
