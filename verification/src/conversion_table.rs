//! The gather table that takes a raw record of the legacy correlator to
//! canonical order, and how it is derived from the order in which the
//! receiver inputs reach the correlator.

use crate::error::ErrorKind;
use crate::misc::{
    baseline_count, baseline_index, lemma_baseline_index_bound, lemma_baseline_index_injective,
    lemma_row_start_total, lemma_triangle_is_baseline_count, lemma_triangle_monotonic, row_start,
    triangle,
};
use crate::permutation::{hits, invert_permutation, inverts, is_permutation};
use crate::rfinput::mwalibRFInput;
use vstd::prelude::*;

verus! {

/// Where one visibility of the canonical order is found in a raw legacy
/// record, and whether its imaginary part changes sign on the way.
#[derive(Debug, Clone, Copy, PartialEq, Eq, Structural)]
pub struct ConversionEntry {
    /// Offset of the visibility's real part from the start of its fine
    /// channel in the raw record, in scalars; the imaginary part follows it.
    pub source_offset: usize,
    /// Whether the imaginary part is negated.
    pub conjugate: bool,
}

/// The complex visibility, counted within one fine channel of the raw
/// record, that each entry reads.
pub open spec fn source_slots(entries: Seq<ConversionEntry>) -> Seq<usize> {
    Seq::new(entries.len(), |k: int| (entries[k].source_offset / 2) as usize)
}

/// Whether the entries are four to a baseline, and each reads a whole
/// visibility within the fine channel.
pub open spec fn entries_wellformed(entries: Seq<ConversionEntry>) -> bool {
    &&& entries.len() % 4 == 0
    &&& forall|k: int|
        0 <= k < entries.len() ==> (#[trigger] entries[k]).source_offset % 2 == 0
            && entries[k].source_offset / 2 < entries.len()
}

/// Whether the entries read each visibility of a raw fine channel exactly
/// once, so that the gather can be walked back.
pub open spec fn entries_invertible(entries: Seq<ConversionEntry>) -> bool {
    entries_wellformed(entries) && is_permutation(source_slots(entries))
}

/// The gather table that takes a raw legacy record to canonical order. The
/// entry of baseline `b` and polarisation product `p` (XX, XY, YX, YY) stands
/// at `b * 4 + p`.
#[derive(Debug, Clone)]
pub struct ConversionTable {
    /// One entry per canonical (baseline, polarisation) pair.
    pub entries: Vec<ConversionEntry>,
}

impl ConversionTable {
    /// The table holds four entries to a baseline, and each reads a whole
    /// visibility within the fine channel.
    pub open spec fn wf(&self) -> bool {
        entries_wellformed(self.entries@)
    }

    /// Baselines that the table covers.
    pub open spec fn spec_num_baselines(&self) -> int {
        self.entries@.len() as int / 4
    }

    /// Baselines that the table covers.
    pub fn num_baselines(&self) -> (n: usize)
        ensures
            n == self.spec_num_baselines(),
    {
        self.entries.len() / 4
    }

    /// A table of the given entries, where they are four to a baseline and
    /// each reads a whole visibility within the fine channel.
    pub fn from_entries(entries: Vec<ConversionEntry>) -> (result: Result<ConversionTable, ErrorKind>)
        ensures
            result.is_ok() <==> entries_wellformed(entries@),
            result matches Ok(table) ==> table.wf() && table.entries@ == entries@,
            result matches Err(e) ==> e == ErrorKind::InvalidConversionTable,
    {
        let n: usize = entries.len();
        if n % 4 != 0 {
            return Err(ErrorKind::InvalidConversionTable);
        }
        let mut k: usize = 0;
        while k < n
            invariant
                n == entries@.len(),
                k <= n,
                forall|k1: int|
                    0 <= k1 < k ==> (#[trigger] entries@[k1]).source_offset % 2 == 0
                        && entries@[k1].source_offset / 2 < n,
            decreases n - k,
        {
            let offset: usize = entries[k].source_offset;
            if offset % 2 != 0 || offset / 2 >= n {
                return Err(ErrorKind::InvalidConversionTable);
            }
            k = k + 1;
        }
        Ok(ConversionTable { entries })
    }

    /// For each complex visibility of a raw fine channel the entry that
    /// reads it, where the table reads each exactly once; `None` where it
    /// does not.
    pub fn inverse(&self) -> (result: Option<Vec<usize>>)
        requires
            self.wf(),
        ensures
            result.is_some() <==> entries_invertible(self.entries@),
            result matches Some(inverse) ==> inverts(inverse@, source_slots(self.entries@)),
    {
        let n: usize = self.entries.len();
        let mut slots: Vec<usize> = Vec::new();
        let mut k: usize = 0;
        while k < n
            invariant
                n == self.entries@.len(),
                k <= n,
                slots@.len() == k,
                forall|k1: int| 0 <= k1 < k ==> slots@[k1] == self.entries@[k1].source_offset / 2,
            decreases n - k,
        {
            slots.push(self.entries[k].source_offset / 2);
            k = k + 1;
        }
        assert(slots@ =~= source_slots(self.entries@));
        invert_permutation(&slots)
    }
}

/// Position, within one fine channel of a raw legacy record, of the complex
/// visibility that correlates the input in raw slot `row_slot` with the
/// input in raw slot `col_slot`, where `row_slot / 2 <= col_slot / 2`.
///
/// The inputs reach the correlator in pairs. The record holds, for each
/// pair as column and each pair up to it as row, a square of four
/// visibilities: first input of the row pair with first and second of the
/// column pair, then second of the row pair with both.
pub open spec fn raw_visibility_index(row_slot: int, col_slot: int) -> int {
    4 * (triangle(col_slot / 2) + row_slot / 2) + 2 * (row_slot % 2) + col_slot % 2
}

/// Entry of the canonical order that holds the visibility of the input
/// with target position `row_target` and the input with target position
/// `col_target`, where `row_target / 2 <= col_target / 2`. Target position
/// `2 * a + p` is polarisation `p` (X, then Y) of antenna `a`.
pub open spec fn canonical_slot(row_target: int, col_target: int, num_antennas: int) -> int {
    baseline_index(row_target / 2, col_target / 2, num_antennas) * 4 + (row_target % 2) * 2
        + col_target % 2
}

/// Whether the visibility of the inputs in two raw slots, in this order,
/// has an entry in the canonical order: the antenna of the first is up to
/// the antenna of the second.
pub open spec fn canonical(order: Seq<usize>, row_slot: int, col_slot: int) -> bool {
    &&& 0 <= row_slot < order.len()
    &&& 0 <= col_slot < order.len()
    &&& order[row_slot] / 2 <= order[col_slot] / 2
}

/// What the canonical entry for the inputs in two raw slots holds. Where
/// the record stores the visibility in this order, the entry reads it as
/// it stands; where it stores only the other order, the entry reads that
/// one and conjugates it.
pub open spec fn lookup(row_slot: int, col_slot: int) -> ConversionEntry {
    if row_slot / 2 <= col_slot / 2 {
        ConversionEntry {
            source_offset: (2 * raw_visibility_index(row_slot, col_slot)) as usize,
            conjugate: false,
        }
    } else {
        ConversionEntry {
            source_offset: (2 * raw_visibility_index(col_slot, row_slot)) as usize,
            conjugate: true,
        }
    }
}

/// Whether the canonical entry for the inputs in two raw slots, where
/// there is one, holds what it should.
pub open spec fn reads(
    entries: Seq<ConversionEntry>,
    order: Seq<usize>,
    row_slot: int,
    col_slot: int,
) -> bool {
    canonical(order, row_slot, col_slot) ==> entries[canonical_slot(
        order[row_slot] as int,
        order[col_slot] as int,
        order.len() as int / 2,
    )] == lookup(row_slot, col_slot)
}

/// Whether `entries` is the gather table of a correlator whose inputs, in
/// the order in which they reach it, have the target positions `order`.
pub open spec fn follows_raw_order(entries: Seq<ConversionEntry>, order: Seq<usize>) -> bool {
    &&& entries.len() == 4 * baseline_count(order.len() as int / 2)
    &&& forall|row_slot: int, col_slot: int| #[trigger] reads(entries, order, row_slot, col_slot)
}

/// Whether `order` can be the raw order of a correlator's inputs: two
/// inputs per antenna, and each target position taken once.
pub open spec fn raw_order_valid(order: Seq<usize>) -> bool {
    &&& order.len() % 2 == 0
    &&& is_permutation(order)
}

/// Whether the two inputs of each raw pair belong to one antenna.
pub open spec fn pairs_adjacent(order: Seq<usize>) -> bool {
    forall|q: int|
        0 <= q < order.len() as int / 2 ==> (#[trigger] order[2 * q]) / 2 == order[2 * q + 1] / 2
}

/// Stored visibilities lie within the fine channel.
pub proof fn lemma_raw_visibility_index_bound(row_slot: int, col_slot: int, num_antennas: int)
    requires
        0 <= row_slot,
        row_slot / 2 <= col_slot / 2 < num_antennas,
    ensures
        0 <= raw_visibility_index(row_slot, col_slot) < 4 * triangle(num_antennas),
        triangle(col_slot / 2) >= 0,
{
    lemma_triangle_monotonic(0, col_slot / 2);
    lemma_triangle_monotonic(col_slot / 2, num_antennas);
}

/// No two stored visibilities share a position.
pub proof fn lemma_raw_visibility_index_injective(r1: int, c1: int, r2: int, c2: int)
    requires
        0 <= r1,
        r1 / 2 <= c1 / 2,
        0 <= r2,
        r2 / 2 <= c2 / 2,
        raw_visibility_index(r1, c1) == raw_visibility_index(r2, c2),
    ensures
        r1 == r2,
        c1 == c2,
{
    if c1 / 2 < c2 / 2 {
        lemma_triangle_monotonic(c1 / 2, c2 / 2);
    } else if c2 / 2 < c1 / 2 {
        lemma_triangle_monotonic(c2 / 2, c1 / 2);
    }
}

/// Every position of the fine channel holds a stored visibility.
pub proof fn lemma_raw_visibility_exists(j: int, num_antennas: int) -> (pair: (int, int))
    requires
        0 <= j < 4 * triangle(num_antennas),
    ensures
        0 <= pair.0 < 2 * num_antennas,
        0 <= pair.1 < 2 * num_antennas,
        pair.0 / 2 <= pair.1 / 2,
        raw_visibility_index(pair.0, pair.1) == j,
    decreases num_antennas,
{
    assert(num_antennas > 0);
    assert(triangle(num_antennas) == triangle(num_antennas - 1) + num_antennas);
    if j < 4 * triangle(num_antennas - 1) {
        lemma_raw_visibility_exists(j, num_antennas - 1)
    } else {
        let col_pair = num_antennas - 1;
        let q = j / 4;
        let r = j % 4;
        let row_pair = q - triangle(col_pair);
        assert(j == 4 * q + r && 0 <= r < 4);
        assert(0 <= row_pair <= col_pair);
        let row_slot = 2 * row_pair + r / 2;
        let col_slot = 2 * col_pair + r % 2;
        assert(row_slot / 2 == row_pair && row_slot % 2 == r / 2);
        assert(col_slot / 2 == col_pair && col_slot % 2 == r % 2);
        assert(2 * (r / 2) + r % 2 == r);
        (row_slot, col_slot)
    }
}

/// No two pairs of target positions share a canonical entry.
pub proof fn lemma_canonical_slot_injective(r1: int, c1: int, r2: int, c2: int, n: int)
    requires
        0 <= r1,
        r1 / 2 <= c1 / 2 < n,
        0 <= r2,
        r2 / 2 <= c2 / 2 < n,
        canonical_slot(r1, c1, n) == canonical_slot(r2, c2, n),
    ensures
        r1 == r2,
        c1 == c2,
{
    lemma_baseline_index_injective(r1 / 2, c1 / 2, r2 / 2, c2 / 2, n);
}

/// Every canonical entry lies within the table.
pub proof fn lemma_canonical_slot_bound(r: int, c: int, n: int)
    requires
        0 <= r,
        r / 2 <= c / 2 < n,
    ensures
        0 <= canonical_slot(r, c, n) < 4 * baseline_count(n),
{
    lemma_baseline_index_bound(r / 2, c / 2, n);
}

/// Every canonical entry belongs to one pair of target positions.
pub proof fn lemma_canonical_slot_exists(k: int, n: int) -> (pair: (int, int))
    requires
        0 <= k < 4 * baseline_count(n),
        0 <= n,
    ensures
        0 <= pair.0 < 2 * n,
        0 <= pair.1 < 2 * n,
        pair.0 / 2 <= pair.1 / 2,
        canonical_slot(pair.0, pair.1, n) == k,
{
    lemma_row_start_total(n);
    let ants = lemma_baseline_exists(k / 4, n, 0);
    (2 * ants.0 + (k % 4) / 2, 2 * ants.1 + k % 2)
}

/// Every baseline index from the row of `first` on belongs to one pair of
/// antennas.
proof fn lemma_baseline_exists(b: int, n: int, first: int) -> (ants: (int, int))
    requires
        0 <= first <= n,
        row_start(first, n) <= b < row_start(n, n),
    ensures
        first <= ants.0 <= ants.1 < n,
        baseline_index(ants.0, ants.1, n) == b,
    decreases n - first,
{
    if first == n {
        (0, 0)
    } else if b - row_start(first, n) < n - first {
        (first, first + (b - row_start(first, n)))
    } else {
        lemma_baseline_exists(b, n, first + 1)
    }
}

/// Under a valid raw order with the inputs of each antenna side by side,
/// two inputs of one antenna stand in one raw pair.
pub proof fn lemma_same_antenna_same_pair(order: Seq<usize>, s1: int, s2: int)
    requires
        raw_order_valid(order),
        pairs_adjacent(order),
        0 <= s1 < order.len(),
        0 <= s2 < order.len(),
        order[s1] / 2 == order[s2] / 2,
    ensures
        s1 / 2 == s2 / 2,
{
    if s1 != s2 {
        let partner = if s1 % 2 == 0 {
            s1 + 1
        } else {
            s1 - 1
        };
        let q = s1 / 2;
        assert(order[2 * q] / 2 == order[2 * q + 1] / 2);
        assert(order[partner] != order[s1]);
        assert(order[s1] != order[s2]);
        if partner != s2 {
            assert(order[partner] != order[s2]);
        }
    }
}

/// A table that follows a valid raw order is well formed.
pub proof fn lemma_raw_order_table_wellformed(entries: Seq<ConversionEntry>, order: Seq<usize>)
    requires
        raw_order_valid(order),
        follows_raw_order(entries, order),
        8 * baseline_count(order.len() as int / 2) <= usize::MAX,
    ensures
        entries_wellformed(entries),
{
    let n = order.len() as int / 2;
    lemma_triangle_is_baseline_count(n);
    assert forall|k: int| 0 <= k < entries.len() implies (#[trigger] entries[k]).source_offset % 2
        == 0 && entries[k].source_offset / 2 < entries.len() by {
        let targets = lemma_canonical_slot_exists(k, n);
        assert(hits(order, targets.0));
        assert(hits(order, targets.1));
        let row_slot = choose|s: int| 0 <= s < order.len() && order[s] == targets.0;
        let col_slot = choose|s: int| 0 <= s < order.len() && order[s] == targets.1;
        assert(reads(entries, order, row_slot, col_slot));
        if row_slot / 2 <= col_slot / 2 {
            lemma_raw_visibility_index_bound(row_slot, col_slot, n);
        } else {
            lemma_raw_visibility_index_bound(col_slot, row_slot, n);
        }
    }
}

/// Where the two inputs of each antenna reach the correlator side by
/// side, the table reads each visibility of a raw fine channel exactly
/// once.
pub proof fn lemma_adjacent_pairs_invertible(entries: Seq<ConversionEntry>, order: Seq<usize>)
    requires
        raw_order_valid(order),
        pairs_adjacent(order),
        follows_raw_order(entries, order),
        8 * baseline_count(order.len() as int / 2) <= usize::MAX,
    ensures
        entries_invertible(entries),
{
    let n = order.len() as int / 2;
    let slots = source_slots(entries);
    lemma_triangle_is_baseline_count(n);
    lemma_raw_order_table_wellformed(entries, order);
    assert forall|k: int| 0 <= k < slots.len() implies #[trigger] slots[k] < slots.len() by {
        assert(entries[k].source_offset % 2 == 0);
    }
    assert forall|k1: int, k2: int|
        0 <= k1 < slots.len() && 0 <= k2 < slots.len() && k1 != k2 implies #[trigger] slots[k1]
        != #[trigger] slots[k2] by {
        let t1 = lemma_canonical_slot_exists(k1, n);
        let t2 = lemma_canonical_slot_exists(k2, n);
        assert(hits(order, t1.0) && hits(order, t1.1) && hits(order, t2.0) && hits(order, t2.1));
        let r1 = choose|s: int| 0 <= s < order.len() && order[s] == t1.0;
        let c1 = choose|s: int| 0 <= s < order.len() && order[s] == t1.1;
        let r2 = choose|s: int| 0 <= s < order.len() && order[s] == t2.0;
        let c2 = choose|s: int| 0 <= s < order.len() && order[s] == t2.1;
        assert(reads(entries, order, r1, c1));
        assert(reads(entries, order, r2, c2));
        assert(entries[k1].source_offset % 2 == 0);
        assert(entries[k2].source_offset % 2 == 0);
        if slots[k1] == slots[k2] {
            let (sr1, sc1) = if r1 / 2 <= c1 / 2 {
                (r1, c1)
            } else {
                (c1, r1)
            };
            let (sr2, sc2) = if r2 / 2 <= c2 / 2 {
                (r2, c2)
            } else {
                (c2, r2)
            };
            lemma_raw_visibility_index_bound(sr1, sc1, n);
            lemma_raw_visibility_index_bound(sr2, sc2, n);
            lemma_raw_visibility_index_injective(sr1, sc1, sr2, sc2);
            if r1 == r2 && c1 == c2 {
                assert(false);
            } else {
                assert(r1 == c2 && c1 == r2);
                lemma_same_antenna_same_pair(order, r1, c1);
                assert(false);
            }
        }
    }
    assert forall|j: int| 0 <= j < slots.len() implies #[trigger] hits(slots, j) by {
        let pair = lemma_raw_visibility_exists(j, n);
        let (sr, sc) = pair;
        assert(order[sr] < order.len() && order[sc] < order.len());
        if order[sr] / 2 <= order[sc] / 2 {
            let k = canonical_slot(order[sr] as int, order[sc] as int, n);
            lemma_canonical_slot_bound(order[sr] as int, order[sc] as int, n);
            assert(reads(entries, order, sr, sc));
            assert(entries[k].source_offset % 2 == 0);
            assert(slots[k] == j);
        } else {
            let k = canonical_slot(order[sc] as int, order[sr] as int, n);
            lemma_canonical_slot_bound(order[sc] as int, order[sr] as int, n);
            assert(reads(entries, order, sc, sr));
            if sr / 2 == sc / 2 {
                let q = sr / 2;
                assert(order[2 * q] / 2 == order[2 * q + 1] / 2);
                assert(false);
            }
            assert(entries[k].source_offset % 2 == 0);
            assert(slots[k] == j);
        }
    }
}

/// Whether entry `k` is the canonical entry of the two raw slots that
/// `pairs` names for it, and holds what it should.
pub open spec fn entry_reads_pair(
    entries: Seq<ConversionEntry>,
    order: Seq<usize>,
    pairs: Seq<(int, int)>,
    k: int,
) -> bool {
    &&& canonical(order, pairs[k].0, pairs[k].1)
    &&& canonical_slot(
        order[pairs[k].0] as int,
        order[pairs[k].1] as int,
        order.len() as int / 2,
    ) == k
    &&& entries[k] == lookup(pairs[k].0, pairs[k].1)
}

/// A table of which each entry is the canonical entry of two raw slots,
/// and holds what it should, follows the raw order.
proof fn lemma_table_of_pairs(
    entries: Seq<ConversionEntry>,
    order: Seq<usize>,
    pairs: Seq<(int, int)>,
)
    requires
        raw_order_valid(order),
        entries.len() == 4 * baseline_count(order.len() as int / 2),
        pairs.len() == entries.len(),
        forall|k: int| 0 <= k < entries.len() ==> #[trigger] entry_reads_pair(entries, order, pairs, k),
    ensures
        follows_raw_order(entries, order),
{
    let n = order.len() as int / 2;
    assert forall|row_slot: int, col_slot: int| #[trigger]
        reads(entries, order, row_slot, col_slot) by {
        if canonical(order, row_slot, col_slot) {
            let r = order[row_slot] as int;
            let c = order[col_slot] as int;
            assert(order[row_slot] < order.len() && order[col_slot] < order.len());
            let k = canonical_slot(r, c, n);
            lemma_canonical_slot_bound(r, c, n);
            assert(entry_reads_pair(entries, order, pairs, k));
            assert(order[pairs[k].0] < order.len() && order[pairs[k].1] < order.len());
            lemma_canonical_slot_injective(
                r,
                c,
                order[pairs[k].0] as int,
                order[pairs[k].1] as int,
                n,
            );
            if pairs[k].0 != row_slot {
                assert(order[pairs[k].0] != order[row_slot]);
            }
            if pairs[k].1 != col_slot {
                assert(order[pairs[k].1] != order[col_slot]);
            }
        }
    }
}

/// Offset, in scalars, of a stored visibility within a fine channel of a
/// raw legacy record.
fn raw_visibility_offset(row_slot: usize, col_slot: usize, Ghost(num_antennas): Ghost<int>) -> (offset:
    usize)
    requires
        row_slot / 2 <= col_slot / 2 < num_antennas,
        8 * triangle(num_antennas) <= usize::MAX,
    ensures
        offset == 2 * raw_visibility_index(row_slot as int, col_slot as int),
{
    let col_pair: usize = col_slot / 2;
    proof {
        lemma_raw_visibility_index_bound(row_slot as int, col_slot as int, num_antennas);
        lemma_triangle_is_baseline_count(col_pair as int);
        lemma_triangle_monotonic(col_pair as int, num_antennas);
        lemma_triangle_monotonic(0, col_pair as int);
    }
    let squares: usize = col_pair * (col_pair + 1) / 2 + row_slot / 2;
    2 * (4 * squares + 2 * (row_slot % 2) + col_slot % 2)
}

impl ConversionTable {
    /// The gather table of a correlator whose inputs reach it in the order
    /// `raw_order`: `raw_order[s]` is the target position of the input in
    /// raw slot `s`.
    pub fn from_raw_order(raw_order: &Vec<usize>) -> (result: Result<ConversionTable, ErrorKind>)
        ensures
            result.is_ok() <==> raw_order_valid(raw_order@) && 8 * baseline_count(
                raw_order@.len() as int / 2,
            ) <= usize::MAX,
            result matches Ok(table) ==> table.wf() && follows_raw_order(
                table.entries@,
                raw_order@,
            ),
            result matches Err(e) ==> e == (if raw_order_valid(raw_order@) {
                ErrorKind::InvalidMetadata
            } else {
                ErrorKind::InvalidInputOrdering
            }),
    {
        let len: usize = raw_order.len();
        if len % 2 != 0 {
            return Err(ErrorKind::InvalidInputOrdering);
        }
        let num_antennas: usize = len / 2;
        let ghost order = raw_order@;
        let ghost n = num_antennas as int;
        let slots: Vec<usize> = match invert_permutation(raw_order) {
            Some(slots) => slots,
            None => {
                return Err(ErrorKind::InvalidInputOrdering);
            },
        };
        let wide: u128 = num_antennas as u128;
        assert(wide * (wide + 1) * 4 <= 0xffff_ffff_ffff_ffff_ffff_ffff_ffff_ffff) by (nonlinear_arith)
            requires
                wide <= 0x7fff_ffff_ffff_ffff,
        ;
        let scalars: u128 = wide * (wide + 1) * 4;
        proof {
            lemma_triangle_is_baseline_count(n);
            assert(scalars == 8 * baseline_count(n)) by (nonlinear_arith)
                requires
                    scalars == n * (n + 1) * 4,
                    2 * baseline_count(n) == n * (n + 1),
            ;
        }
        if scalars > usize::MAX as u128 {
            return Err(ErrorKind::InvalidMetadata);
        }
        let mut entries: Vec<ConversionEntry> = Vec::new();
        let ghost mut pairs: Seq<(int, int)> = Seq::empty();
        let mut ant1: usize = 0;
        while ant1 < num_antennas
            invariant
                raw_order_valid(order),
                inverts(slots@, order),
                order == raw_order@,
                len == order.len(),
                n == num_antennas,
                len == 2 * n,
                8 * triangle(n) <= usize::MAX,
                triangle(n) == baseline_count(n),
                ant1 <= num_antennas,
                entries@.len() == 4 * row_start(ant1 as int, n),
                pairs.len() == entries@.len(),
                forall|k: int|
                    0 <= k < entries@.len() ==> #[trigger] entry_reads_pair(
                        entries@,
                        order,
                        pairs,
                        k,
                    ),
            decreases num_antennas - ant1,
        {
            let mut ant2: usize = ant1;
            while ant2 < num_antennas
                invariant
                    raw_order_valid(order),
                    inverts(slots@, order),
                    order == raw_order@,
                    len == order.len(),
                    n == num_antennas,
                    len == 2 * n,
                    8 * triangle(n) <= usize::MAX,
                    triangle(n) == baseline_count(n),
                    ant1 < num_antennas,
                    ant1 <= ant2 <= num_antennas,
                    entries@.len() == 4 * baseline_index(ant1 as int, ant2 as int, n),
                    pairs.len() == entries@.len(),
                    forall|k: int|
                        0 <= k < entries@.len() ==> #[trigger] entry_reads_pair(
                            entries@,
                            order,
                            pairs,
                            k,
                        ),
                decreases num_antennas - ant2,
            {
                let mut p: usize = 0;
                while p < 4
                    invariant
                        raw_order_valid(order),
                        inverts(slots@, order),
                        order == raw_order@,
                        len == order.len(),
                        n == num_antennas,
                        len == 2 * n,
                        8 * triangle(n) <= usize::MAX,
                        ant1 <= ant2 < num_antennas,
                        p <= 4,
                        entries@.len() == 4 * baseline_index(ant1 as int, ant2 as int, n) + p,
                        pairs.len() == entries@.len(),
                        forall|k: int|
                            0 <= k < entries@.len() ==> #[trigger] entry_reads_pair(
                                entries@,
                                order,
                                pairs,
                                k,
                            ),
                    decreases 4 - p,
                {
                    let row_target: usize = 2 * ant1 + p / 2;
                    let col_target: usize = 2 * ant2 + p % 2;
                    let row_slot: usize = slots[row_target];
                    let col_slot: usize = slots[col_target];
                    let ghost k = entries@.len() as int;
                    assert(canonical_slot(row_target as int, col_target as int, n) == k);
                    assert(order[row_slot as int] == row_target && order[col_slot as int]
                        == col_target);
                    let entry: ConversionEntry = if row_slot / 2 <= col_slot / 2 {
                        ConversionEntry {
                            source_offset: raw_visibility_offset(row_slot, col_slot, Ghost(n)),
                            conjugate: false,
                        }
                    } else {
                        ConversionEntry {
                            source_offset: raw_visibility_offset(col_slot, row_slot, Ghost(n)),
                            conjugate: true,
                        }
                    };
                    let ghost old_entries = entries@;
                    entries.push(entry);
                    proof {
                        let ghost before = pairs;
                        pairs = pairs.push((row_slot as int, col_slot as int));
                        assert(entry_reads_pair(entries@, order, pairs, k));
                        assert forall|k1: int| 0 <= k1 < entries@.len() implies #[trigger]
                            entry_reads_pair(entries@, order, pairs, k1) by {
                            if k1 < k {
                                assert(entry_reads_pair(old_entries, order, before, k1));
                            }
                        }
                    }
                    p = p + 1;
                }
                ant2 = ant2 + 1;
            }
            assert(baseline_index(ant1 as int, n, n) == row_start(ant1 as int + 1, n));
            ant1 = ant1 + 1;
        }
        proof {
            lemma_row_start_total(n);
            lemma_table_of_pairs(entries@, order, pairs);
            lemma_raw_order_table_wellformed(entries@, order);
        }
        ConversionTable::from_entries(entries)
    }
}

/// Where the fine polyphase filter bank of the legacy correlator takes
/// its input `x` from: bits 0 and 1 move up to bits 4 and 5, bits 2 to 5
/// move down to bits 0 to 3, and bits 6 and 7 stay.
pub open spec fn pfb_reorder(x: u8) -> u8 {
    (x & 0xc0) | ((x & 0x03) << 4) | ((x & 0x3c) >> 2)
}

/// Where the fine polyphase filter bank of the legacy correlator takes
/// its input `x` from.
pub fn fine_pfb_reorder(x: u8) -> (y: u8)
    ensures
        y == pfb_reorder(x),
{
    (x & 0xc0) | ((x & 0x03) << 4) | ((x & 0x3c) >> 2)
}

/// The `input` numbers of the receiver inputs, in the order of the list.
pub open spec fn input_numbers(rf_inputs: Seq<mwalibRFInput>) -> Seq<usize> {
    Seq::new(rf_inputs.len(), |k: int| rf_inputs[k].input as usize)
}

/// Place in the list of the receiver input with the given `input` number.
pub open spec fn position_of_input(rf_inputs: Seq<mwalibRFInput>, input: int) -> int {
    choose|k: int| 0 <= k < rf_inputs.len() && rf_inputs[k].input == input
}

/// Target positions of the inputs of the legacy correlator in the order
/// in which its filter bank hands them on: raw slot `s` holds the receiver
/// input whose `input` number is `pfb_reorder(s)`.
pub open spec fn legacy_raw_order(rf_inputs: Seq<mwalibRFInput>) -> Seq<usize> {
    Seq::new(
        rf_inputs.len(),
        |s: int|
            rf_inputs[position_of_input(rf_inputs, pfb_reorder(s as u8) as int)].subfile_order as usize,
    )
}

/// The gather table for the records of the legacy correlator, from the
/// receiver inputs of the observation. The legacy correlator has 256
/// inputs, numbered from 0 to 255 by `input`, and as many target
/// positions.
pub fn generate_conversion_array(rf_inputs: &Vec<mwalibRFInput>) -> (result: Result<
    ConversionTable,
    ErrorKind,
>)
    ensures
        result.is_ok() <==> rf_inputs@.len() == 256 && is_permutation(input_numbers(rf_inputs@))
            && raw_order_valid(legacy_raw_order(rf_inputs@)),
        result matches Ok(table) ==> table.wf() && follows_raw_order(
            table.entries@,
            legacy_raw_order(rf_inputs@),
        ),
        result matches Err(e) ==> e == ErrorKind::InvalidInputOrdering,
{
    if rf_inputs.len() != 256 {
        return Err(ErrorKind::InvalidInputOrdering);
    }
    let mut numbers: Vec<usize> = Vec::new();
    let mut k: usize = 0;
    while k < 256
        invariant
            rf_inputs@.len() == 256,
            k <= 256,
            numbers@.len() == k,
            forall|k1: int| 0 <= k1 < k ==> numbers@[k1] == rf_inputs@[k1].input as usize,
        decreases 256 - k,
    {
        numbers.push(rf_inputs[k].input as usize);
        k = k + 1;
    }
    assert(numbers@ =~= input_numbers(rf_inputs@));
    let by_input: Vec<usize> = match invert_permutation(&numbers) {
        Some(by_input) => by_input,
        None => {
            return Err(ErrorKind::InvalidInputOrdering);
        },
    };
    let ghost spec_order = legacy_raw_order(rf_inputs@);
    let mut raw_order: Vec<usize> = Vec::new();
    let mut s: usize = 0;
    while s < 256
        invariant
            rf_inputs@.len() == 256,
            numbers@ == input_numbers(rf_inputs@),
            is_permutation(numbers@),
            inverts(by_input@, numbers@),
            spec_order == legacy_raw_order(rf_inputs@),
            s <= 256,
            raw_order@.len() == s,
            forall|s1: int| 0 <= s1 < s ==> raw_order@[s1] == spec_order[s1],
        decreases 256 - s,
    {
        let source: u8 = fine_pfb_reorder(s as u8);
        let position: usize = by_input[source as usize];
        proof {
            let chosen = position_of_input(rf_inputs@, source as int);
            assert(numbers@[position as int] == source);
            assert(rf_inputs@[position as int].input == source);
            assert(numbers@[chosen] == source);
            if chosen != position {
                assert(numbers@[chosen] != numbers@[position as int]);
            }
        }
        raw_order.push(rf_inputs[position].subfile_order as usize);
        s = s + 1;
    }
    assert(raw_order@ =~= spec_order);
    proof {
        assert(baseline_count(128) == 8256);
    }
    ConversionTable::from_raw_order(&raw_order)
}

} // verus!
