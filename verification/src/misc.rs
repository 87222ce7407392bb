//! Baseline arithmetic and time-reference conversions.

use vstd::prelude::*;

verus! {

/// Number of baselines (cross-correlations plus auto-correlations) that
/// `n` antennas give.
pub open spec fn baseline_count(n: int) -> int {
    n * (n + 1) / 2
}

/// Index of the first baseline whose first antenna is `ant1`, when the
/// baselines of `n` antennas are listed as the upper triangle, row by row:
/// (0,0), (0,1), .., (0,n-1), (1,1), .., (n-1,n-1).
pub open spec fn row_start(ant1: int, n: int) -> int
    decreases ant1,
{
    if ant1 <= 0 {
        0
    } else {
        row_start(ant1 - 1, n) + (n - (ant1 - 1))
    }
}

/// Index of the baseline (`ant1`, `ant2`) in that listing.
pub open spec fn baseline_index(ant1: int, ant2: int, n: int) -> int {
    row_start(ant1, n) + (ant2 - ant1)
}

/// The rows of the triangle start at `ant1 * n - ant1 * (ant1 - 1) / 2`.
pub proof fn lemma_row_start_closed_form(ant1: int, n: int)
    requires
        0 <= ant1,
    ensures
        2 * row_start(ant1, n) == 2 * ant1 * n - ant1 * (ant1 - 1),
    decreases ant1,
{
    if ant1 > 0 {
        let k = ant1 - 1;
        lemma_row_start_closed_form(k, n);
        assert(2 * k * n - k * (k - 1) + 2 * (n - k) == 2 * (k + 1) * n - (k + 1) * ((k + 1) - 1))
            by (nonlinear_arith);
    } else {
        assert(2 * ant1 * n - ant1 * (ant1 - 1) == 0) by (nonlinear_arith)
            requires
                ant1 == 0,
        ;
    }
}

/// Row starts grow with the first antenna, and the last row ends where the
/// listing ends.
pub proof fn lemma_row_start_monotonic(a: int, b: int, n: int)
    requires
        0 <= a <= b <= n,
    ensures
        row_start(a, n) <= row_start(b, n),
        a < b ==> row_start(a, n) + (n - a) <= row_start(b, n),
    decreases b - a,
{
    if a < b {
        lemma_row_start_monotonic(a, b - 1, n);
    }
}

/// The whole triangle holds `baseline_count(n)` baselines.
pub proof fn lemma_row_start_total(n: int)
    requires
        0 <= n,
    ensures
        row_start(n, n) == baseline_count(n),
{
    lemma_row_start_closed_form(n, n);
    assert(2 * n * n - n * (n - 1) == n * (n + 1)) by (nonlinear_arith);
    assert(n * (n + 1) % 2 == 0) by (nonlinear_arith)
        requires
            0 <= n,
    {
        if n % 2 == 0 {
            assert(n * (n + 1) == 2 * ((n / 2) * (n + 1)));
        } else {
            assert(n * (n + 1) == 2 * (n * ((n + 1) / 2)));
        }
    }
}

/// No two baselines share an index: the index orders the pairs
/// (`ant1`, `ant2`) with `ant1 <= ant2 < n` as a dictionary would.
pub proof fn lemma_baseline_index_injective(a1: int, a2: int, b1: int, b2: int, n: int)
    requires
        0 <= a1 <= a2 < n,
        0 <= b1 <= b2 < n,
        baseline_index(a1, a2, n) == baseline_index(b1, b2, n),
    ensures
        a1 == b1,
        a2 == b2,
{
    if a1 < b1 {
        lemma_row_start_monotonic(a1, b1, n);
    } else if b1 < a1 {
        lemma_row_start_monotonic(b1, a1, n);
    }
}

/// Every baseline index lies below the baseline count.
pub proof fn lemma_baseline_index_bound(a1: int, a2: int, n: int)
    requires
        0 <= a1 <= a2 < n,
    ensures
        0 <= baseline_index(a1, a2, n) < baseline_count(n),
{
    lemma_row_start_monotonic(0, a1, n);
    lemma_row_start_monotonic(a1, n, n);
    lemma_row_start_total(n);
}

/// The sum 1 + 2 + .. + `c`.
pub open spec fn triangle(c: int) -> int
    decreases c,
{
    if c <= 0 {
        0
    } else {
        triangle(c - 1) + c
    }
}

/// The triangular numbers are the baseline counts.
pub proof fn lemma_triangle_is_baseline_count(c: int)
    requires
        0 <= c,
    ensures
        triangle(c) == baseline_count(c),
        2 * triangle(c) == c * (c + 1),
    decreases c,
{
    if c > 0 {
        let k = c - 1;
        lemma_triangle_is_baseline_count(k);
        assert(k * (k + 1) + 2 * (k + 1) == (k + 1) * ((k + 1) + 1)) by (nonlinear_arith);
    } else {
        assert(c * (c + 1) == 0) by (nonlinear_arith)
            requires
                c == 0,
        ;
    }
}

/// The triangular numbers grow, and leave room for a whole row between one
/// and the next.
pub proof fn lemma_triangle_monotonic(a: int, b: int)
    requires
        0 <= a <= b,
    ensures
        triangle(a) <= triangle(b),
        a < b ==> triangle(a) + a + 1 <= triangle(b),
    decreases b - a,
{
    if a < b {
        lemma_triangle_monotonic(a, b - 1);
    }
}

/// Given the number of antennas, the number of baselines (cross plus autos).
pub fn get_baseline_count(antennas: u16) -> (count: u16)
    requires
        baseline_count(antennas as int) <= u16::MAX,
    ensures
        count == baseline_count(antennas as int),
{
    let n: u32 = antennas as u32;
    assert(n * (n + 1) <= 0xffff_ffff) by (nonlinear_arith)
        requires
            n <= 0xffff,
    ;
    let doubled: u32 = n * (n + 1);
    (doubled / 2) as u16
}

/// Given a baseline index, the pair (`ant1`, `ant2`) that it stands for in
/// the upper triangle of `num_antennas` antennas, or `None` where the index
/// lies beyond the last baseline.
pub fn get_antennas_from_baseline(baseline: usize, num_antennas: usize) -> (pair: Option<
    (usize, usize),
>)
    ensures
        pair.is_some() <==> baseline < baseline_count(num_antennas as int),
        pair matches Some((ant1, ant2)) ==> ant1 <= ant2 < num_antennas && baseline_index(
            ant1 as int,
            ant2 as int,
            num_antennas as int,
        ) == baseline,
{
    let mut ant1: usize = 0;
    let mut start: usize = 0;
    while ant1 < num_antennas
        invariant
            ant1 <= num_antennas,
            start == row_start(ant1 as int, num_antennas as int),
            start <= baseline,
        decreases num_antennas - ant1,
    {
        let row_len: usize = num_antennas - ant1;
        if baseline - start < row_len {
            let ant2: usize = ant1 + (baseline - start);
            proof {
                lemma_baseline_index_bound(ant1 as int, ant2 as int, num_antennas as int);
            }
            return Some((ant1, ant2));
        }
        start = start + row_len;
        ant1 = ant1 + 1;
    }
    proof {
        lemma_row_start_total(num_antennas as int);
    }
    None
}

/// GPS time that corresponds to a UNIX time of an observation, given the
/// observation's scheduled start in both references; modulo 2^64.
pub open spec fn unixtime_to_gpstime(unix_time_ms: u64, start_gps_ms: u64, start_unix_ms: u64) -> int {
    (unix_time_ms - start_unix_ms + start_gps_ms) % 0x1_0000_0000_0000_0000
}

/// UNIX time that corresponds to a GPS time of an observation, given the
/// observation's scheduled start in both references; modulo 2^64.
pub open spec fn gpstime_to_unixtime(gps_time_ms: u64, start_gps_ms: u64, start_unix_ms: u64) -> int {
    (gps_time_ms - start_gps_ms + start_unix_ms) % 0x1_0000_0000_0000_0000
}

/// GPS time that corresponds to a UNIX time, all in milliseconds. The result
/// is exact wherever it fits in 64 bits, and wraps otherwise.
pub fn convert_unixtime_to_gpstime(
    unix_time_ms: u64,
    mwa_start_gps_time_ms: u64,
    mwa_start_unix_time_ms: u64,
) -> (gps_time_ms: u64)
    ensures
        gps_time_ms == unixtime_to_gpstime(
            unix_time_ms,
            mwa_start_gps_time_ms,
            mwa_start_unix_time_ms,
        ),
{
    let offset_ms: u64 = mwa_start_unix_time_ms.wrapping_sub(mwa_start_gps_time_ms);
    unix_time_ms.wrapping_sub(offset_ms)
}

/// UNIX time that corresponds to a GPS time, all in milliseconds. The result
/// is exact wherever it fits in 64 bits, and wraps otherwise.
pub fn convert_gpstime_to_unixtime(
    gps_time_ms: u64,
    mwa_start_gps_time_ms: u64,
    mwa_start_unix_time_ms: u64,
) -> (unix_time_ms: u64)
    ensures
        unix_time_ms == gpstime_to_unixtime(
            gps_time_ms,
            mwa_start_gps_time_ms,
            mwa_start_unix_time_ms,
        ),
{
    let offset_ms: u64 = mwa_start_unix_time_ms.wrapping_sub(mwa_start_gps_time_ms);
    gps_time_ms.wrapping_add(offset_ms)
}

} // verus!
