//! The baselines of an observation: the pairs of antennas, each antenna
//! with itself included.

use crate::misc::{
    baseline_count, baseline_index, lemma_baseline_index_bound, lemma_row_start_total, row_start,
};
use vstd::prelude::*;

verus! {

/// A pair of antennas, by their places in the list of antennas.
#[derive(Debug, Clone, Copy, PartialEq, Eq, Structural)]
pub struct Baseline {
    /// The first antenna.
    pub ant1_index: usize,
    /// The second antenna; not before the first.
    pub ant2_index: usize,
}

impl Baseline {
    /// The baselines of `num_ants` antennas, as the upper triangle row by
    /// row: (0,0), (0,1), .., (0,n-1), (1,1), .., (n-1,n-1).
    pub fn populate_baselines(num_ants: usize) -> (baselines: Vec<Baseline>)
        requires
            baseline_count(num_ants as int) <= usize::MAX,
        ensures
            baselines@.len() == baseline_count(num_ants as int),
            forall|a1: int, a2: int|
                0 <= a1 <= a2 < num_ants ==> baselines@[#[trigger] baseline_index(
                    a1,
                    a2,
                    num_ants as int,
                )] == (Baseline { ant1_index: a1 as usize, ant2_index: a2 as usize }),
    {
        let ghost n = num_ants as int;
        let mut baselines: Vec<Baseline> = Vec::new();
        let mut a1: usize = 0;
        while a1 < num_ants
            invariant
                n == num_ants,
                a1 <= num_ants,
                baselines@.len() == row_start(a1 as int, n),
                forall|b1: int, b2: int|
                    0 <= b1 <= b2 < n && b1 < a1 ==> baselines@[#[trigger] baseline_index(b1, b2, n)]
                        == (Baseline { ant1_index: b1 as usize, ant2_index: b2 as usize }),
            decreases num_ants - a1,
        {
            let mut a2: usize = a1;
            while a2 < num_ants
                invariant
                    n == num_ants,
                    a1 < num_ants,
                    a1 <= a2 <= num_ants,
                    baselines@.len() == baseline_index(a1 as int, a2 as int, n),
                    forall|b1: int, b2: int|
                        0 <= b1 <= b2 < n && (b1 < a1 || (b1 == a1 && b2 < a2))
                            ==> baselines@[#[trigger] baseline_index(b1, b2, n)] == (Baseline {
                            ant1_index: b1 as usize,
                            ant2_index: b2 as usize,
                        }),
                decreases num_ants - a2,
            {
                let ghost before = baselines@;
                baselines.push(Baseline { ant1_index: a1, ant2_index: a2 });
                proof {
                    assert forall|b1: int, b2: int|
                        0 <= b1 <= b2 < n && (b1 < a1 || (b1 == a1 && b2 < a2 + 1)) implies baselines@[#[trigger] baseline_index(
                        b1,
                        b2,
                        n,
                    )] == (Baseline { ant1_index: b1 as usize, ant2_index: b2 as usize }) by {
                        if b1 == a1 && b2 == a2 {
                        } else {
                            lemma_baseline_index_bound(b1, b2, n);
                            if b1 < a1 {
                                crate::misc::lemma_row_start_monotonic(b1, a1 as int, n);
                            }
                            assert(baseline_index(b1, b2, n) < before.len());
                            assert(before[baseline_index(b1, b2, n)] == (Baseline {
                                ant1_index: b1 as usize,
                                ant2_index: b2 as usize,
                            }));
                        }
                    }
                }
                a2 = a2 + 1;
            }
            assert(baseline_index(a1 as int, n, n) == row_start(a1 as int + 1, n));
            a1 = a1 + 1;
        }
        proof {
            lemma_row_start_total(n);
        }
        baselines
    }
}

} // verus!
