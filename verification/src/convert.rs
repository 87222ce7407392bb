//! Bringing a raw visibility record into canonical order.
//!
//! Visibilities are 32-bit floating point scalars. This module never does
//! arithmetic on them: it moves them, and it negates imaginary parts. Both
//! are exact on the IEEE-754 bit pattern, so a scalar is held here as the
//! `u32` that `f32::to_bits` gives, and negation is a flip of the top bit.

use crate::conversion_table::{
    entries_wellformed, source_slots, ConversionEntry, ConversionTable,
};
use crate::permutation::inverts;
use vstd::arithmetic::div_mod::lemma_fundamental_div_mod_converse;
use vstd::prelude::*;

verus! {

/// The bit pattern of `-x`, given the bit pattern of the float `x`.
pub open spec fn flip_sign(bits: u32) -> u32 {
    bits ^ 0x8000_0000u32
}

/// Negating twice gives the scalar back, bit for bit.
pub proof fn lemma_flip_sign_involution(bits: u32)
    ensures
        flip_sign(flip_sign(bits)) == bits,
{
    assert((bits ^ 0x8000_0000u32) ^ 0x8000_0000u32 == bits) by (bit_vector);
}

/// Negates a scalar that is held as its bit pattern.
pub fn negate(bits: u32) -> (negated: u32)
    ensures
        negated == flip_sign(bits),
{
    bits ^ 0x8000_0000u32
}

/// A position in a row-major array splits back into its row and its column.
pub proof fn lemma_flat_index(outer: int, inner: int, inner_len: int)
    requires
        0 <= outer,
        0 <= inner < inner_len,
    ensures
        (outer * inner_len + inner) / inner_len == outer,
        (outer * inner_len + inner) % inner_len == inner,
{
    lemma_fundamental_div_mod_converse(outer * inner_len + inner, inner_len, outer, inner);
}

/// A position in a row-major array lies within the array.
pub proof fn lemma_flat_bound(outer: int, inner: int, outer_len: int, inner_len: int)
    requires
        0 <= outer < outer_len,
        0 <= inner < inner_len,
    ensures
        0 <= outer * inner_len + inner < outer_len * inner_len,
        outer * inner_len + inner_len <= outer_len * inner_len,
{
    assert(outer * inner_len + inner_len <= outer_len * inner_len) by (nonlinear_arith)
        requires
            0 <= outer < outer_len,
            0 < inner_len,
    ;
    assert(0 <= outer * inner_len) by (nonlinear_arith)
        requires
            0 <= outer,
            0 < inner_len,
    ;
}

/// Every position of a row-major array is the position of one row and one
/// column.
pub proof fn lemma_flat_split(i: int, outer_len: int, inner_len: int)
    requires
        0 <= i < outer_len * inner_len,
        0 < inner_len,
    ensures
        0 <= i / inner_len < outer_len,
        0 <= i % inner_len < inner_len,
        i == (i / inner_len) * inner_len + i % inner_len,
{
    vstd::arithmetic::div_mod::lemma_fundamental_div_mod(i, inner_len);
    let q = i / inner_len;
    let r = i % inner_len;
    assert(inner_len * q == q * inner_len) by (nonlinear_arith);
    assert(0 <= r < inner_len);
    assert(q >= 0) by (nonlinear_arith)
        requires
            q * inner_len + r >= 0,
            r < inner_len,
            0 < inner_len,
    ;
    assert(q < outer_len) by (nonlinear_arith)
        requires
            q * inner_len + r < outer_len * inner_len,
            0 <= r,
            0 < inner_len,
    ;
}

/// The scalar at position `i` of the frequency-major arrangement
/// `[fine channel][baseline][value]` of `data`, which is itself
/// baseline-major: `[baseline][fine channel][value]`.
pub open spec fn frequency_order_at(
    data: Seq<u32>,
    num_baselines: int,
    num_fine_channels: int,
    values: int,
    i: int,
) -> u32 {
    let v = i % values;
    let fb = i / values;
    let b = fb % num_baselines;
    let f = fb / num_baselines;
    data[(b * num_fine_channels + f) * values + v]
}

/// The frequency-major arrangement of baseline-major `data`.
pub open spec fn to_frequency_order(
    data: Seq<u32>,
    num_baselines: int,
    num_fine_channels: int,
    values: int,
) -> Seq<u32> {
    Seq::new(
        data.len(),
        |i: int| frequency_order_at(data, num_baselines, num_fine_channels, values, i),
    )
}

/// Products of the three dimensions of a record, in the two groupings that
/// the loops below use.
proof fn lemma_record_len(b: int, f: int, v: int)
    ensures
        (b * f) * v == (f * b) * v,
        (b * f) * v == b * f * v,
{
    assert((b * f) * v == (f * b) * v) by (nonlinear_arith);
}

/// Re-orders a newest-generation record, which is baseline-major
/// (`[baseline][fine channel][pol][real, imag]`), into frequency-major order
/// (`[fine channel][baseline][pol][real, imag]`).
pub fn convert_mwax_hdu_to_frequency_order(
    input_buffer: &[u32],
    num_baselines: usize,
    num_fine_channels: usize,
    num_visibility_pols: usize,
) -> (output_buffer: Vec<u32>)
    requires
        input_buffer@.len() == num_baselines * num_fine_channels * (num_visibility_pols * 2),
    ensures
        output_buffer@ == to_frequency_order(
            input_buffer@,
            num_baselines as int,
            num_fine_channels as int,
            num_visibility_pols * 2,
        ),
{
    let mut output_buffer: Vec<u32> = Vec::new();
    let total: usize = input_buffer.len();
    let ghost nb = num_baselines as int;
    let ghost nf = num_fine_channels as int;
    let ghost nv = num_visibility_pols * 2;
    let ghost spec_out = to_frequency_order(input_buffer@, nb, nf, nv);
    if total == 0 {
        assert(output_buffer@ =~= spec_out);
        return output_buffer;
    }
    assert(nb > 0 && nf > 0 && nv > 0 && nv <= total) by (nonlinear_arith)
        requires
            total == nb * nf * nv,
            total > 0,
            nb >= 0,
            nf >= 0,
            nv >= 0,
    ;
    let values: usize = num_visibility_pols * 2;
    proof {
        lemma_record_len(nb, nf, nv);
    }
    let mut f: usize = 0;
    while f < num_fine_channels
        invariant
            nb == num_baselines,
            nf == num_fine_channels,
            nv == values,
            nb > 0 && nf > 0 && nv > 0,
            total == input_buffer@.len(),
            total == (nb * nf) * nv,
            total == (nf * nb) * nv,
            f <= num_fine_channels,
            output_buffer@.len() == (f * nb) * nv,
            forall|i: int|
                0 <= i < output_buffer@.len() ==> output_buffer@[i] == frequency_order_at(
                    input_buffer@,
                    nb,
                    nf,
                    nv,
                    i,
                ),
        decreases num_fine_channels - f,
    {
        let mut b: usize = 0;
        while b < num_baselines
            invariant
                nb == num_baselines,
                nf == num_fine_channels,
                nv == values,
                nb > 0 && nf > 0 && nv > 0,
                total == input_buffer@.len(),
                total == (nb * nf) * nv,
                total == (nf * nb) * nv,
                f < num_fine_channels,
                b <= num_baselines,
                output_buffer@.len() == (f * nb + b) * nv,
                forall|i: int|
                    0 <= i < output_buffer@.len() ==> output_buffer@[i] == frequency_order_at(
                        input_buffer@,
                        nb,
                        nf,
                        nv,
                        i,
                    ),
            decreases num_baselines - b,
        {
            proof {
                lemma_flat_bound(b as int, f as int, nb, nf);
                lemma_flat_bound(b * nf + f, 0, nb * nf, nv);
                lemma_flat_bound(f as int, b as int, nf, nb);
                lemma_flat_bound(f * nb + b, 0, nf * nb, nv);
                assert(nb * nf <= (nb * nf) * nv) by (nonlinear_arith)
                    requires
                        nb * nf >= 0,
                        nv >= 1,
                ;
                assert(0 <= b * nf) by (nonlinear_arith)
                    requires
                        b >= 0,
                        nf >= 0,
                ;
            }
            let source: usize = (b * num_fine_channels + f) * values;
            let mut v: usize = 0;
            while v < values
                invariant
                    nb == num_baselines,
                    nf == num_fine_channels,
                    nv == values,
                    nb > 0 && nf > 0 && nv > 0,
                    total == input_buffer@.len(),
                    f < num_fine_channels,
                    b < num_baselines,
                    v <= values,
                    source == (b * nf + f) * nv,
                    source + nv <= total,
                    (f * nb + b) * nv + nv <= total,
                    output_buffer@.len() == (f * nb + b) * nv + v,
                    forall|i: int|
                        0 <= i < output_buffer@.len() ==> output_buffer@[i] == frequency_order_at(
                            input_buffer@,
                            nb,
                            nf,
                            nv,
                            i,
                        ),
                decreases values - v,
            {
                proof {
                    lemma_flat_index(f * nb + b, v as int, nv);
                    lemma_flat_index(f as int, b as int, nb);
                }
                output_buffer.push(input_buffer[source + v]);
                v = v + 1;
            }
            assert((f * nb + b) * nv + nv == (f * nb + (b + 1)) * nv) by (nonlinear_arith);
            b = b + 1;
        }
        assert((f * nb + nb) * nv == ((f + 1) * nb) * nv) by (nonlinear_arith);
        f = f + 1;
    }
    assert(output_buffer@ =~= spec_out);
    output_buffer
}

/// The scalar that entry `k` of a table gives for fine channel `f` of the
/// raw legacy record `raw`: the real part for `ri == 0`, the imaginary part,
/// negated where the entry says so, for `ri == 1`.
pub open spec fn source_scalar(
    entries: Seq<ConversionEntry>,
    raw: Seq<u32>,
    f: int,
    k: int,
    ri: int,
) -> u32 {
    let e = entries[k];
    let x = raw[f * (2 * entries.len()) + e.source_offset + ri];
    if ri == 1 && e.conjugate {
        flip_sign(x)
    } else {
        x
    }
}

/// The scalar at position `i` of the baseline-major arrangement
/// `[baseline][fine channel][pol][real, imag]` of a raw legacy record.
pub open spec fn legacy_baseline_order_at(
    entries: Seq<ConversionEntry>,
    raw: Seq<u32>,
    num_fine_channels: int,
    i: int,
) -> u32 {
    let v = i % 8;
    let bf = i / 8;
    let f = bf % num_fine_channels;
    let b = bf / num_fine_channels;
    source_scalar(entries, raw, f, b * 4 + v / 2, v % 2)
}

/// The baseline-major arrangement of a raw legacy record.
pub open spec fn legacy_to_baseline_order(
    entries: Seq<ConversionEntry>,
    raw: Seq<u32>,
    num_fine_channels: int,
) -> Seq<u32> {
    Seq::new(raw.len(), |i: int| legacy_baseline_order_at(entries, raw, num_fine_channels, i))
}

/// The scalar at position `i` of the frequency-major arrangement
/// `[fine channel][baseline][pol][real, imag]` of a raw legacy record.
pub open spec fn legacy_frequency_order_at(
    entries: Seq<ConversionEntry>,
    raw: Seq<u32>,
    i: int,
) -> u32 {
    let v = i % 8;
    let fb = i / 8;
    let b = fb % (entries.len() as int / 4);
    let f = fb / (entries.len() as int / 4);
    source_scalar(entries, raw, f, b * 4 + v / 2, v % 2)
}

/// The frequency-major arrangement of a raw legacy record.
pub open spec fn legacy_to_frequency_order(entries: Seq<ConversionEntry>, raw: Seq<u32>) -> Seq<
    u32,
> {
    Seq::new(raw.len(), |i: int| legacy_frequency_order_at(entries, raw, i))
}

/// The scalar at position `i` of the raw legacy record that a
/// baseline-major record `data` came from.
pub open spec fn legacy_order_at(
    entries: Seq<ConversionEntry>,
    inverse: Seq<usize>,
    data: Seq<u32>,
    num_fine_channels: int,
    i: int,
) -> u32 {
    let stride = 2 * (entries.len() as int);
    let f = i / stride;
    let r = i % stride;
    let ri = r % 2;
    let k = inverse[r / 2] as int;
    let x = data[((k / 4) * num_fine_channels + f) * 8 + (k % 4) * 2 + ri];
    if ri == 1 && entries[k].conjugate {
        flip_sign(x)
    } else {
        x
    }
}

/// The raw legacy record that a baseline-major record came from: the same
/// offsets and the same sign changes as the gather, walked the other way.
pub open spec fn baseline_order_to_legacy(
    entries: Seq<ConversionEntry>,
    inverse: Seq<usize>,
    data: Seq<u32>,
    num_fine_channels: int,
) -> Seq<u32> {
    Seq::new(
        data.len(),
        |i: int| legacy_order_at(entries, inverse, data, num_fine_channels, i),
    )
}

/// The two scalars of the visibility that entry `k` reads in fine channel
/// `f` of a raw legacy record.
fn gather_visibility(
    conversion_table: &ConversionTable,
    input_buffer: &[u32],
    f: usize,
    k: usize,
) -> (visibility: (u32, u32))
    requires
        conversion_table.wf(),
        k < conversion_table.entries@.len(),
        (f + 1) * (2 * conversion_table.entries@.len()) <= input_buffer@.len(),
    ensures
        visibility.0 == source_scalar(conversion_table.entries@, input_buffer@, f as int, k as int, 0),
        visibility.1 == source_scalar(conversion_table.entries@, input_buffer@, f as int, k as int, 1),
{
    let ghost n = conversion_table.entries@.len() as int;
    let entry: ConversionEntry = conversion_table.entries[k];
    let total: usize = input_buffer.len();
    proof {
        assert(entry.source_offset % 2 == 0 && entry.source_offset / 2 < n);
        assert((f + 1) * (2 * n) == f * (2 * n) + 2 * n) by (nonlinear_arith);
        assert(0 <= f * (2 * n)) by (nonlinear_arith)
            requires
                f >= 0,
                n >= 0,
        ;
        assert(f * (2 * n) + 2 * n <= total);
    }
    let stride: usize = 2 * conversion_table.entries.len();
    let source: usize = f * stride + entry.source_offset;
    let re: u32 = input_buffer[source];
    let im: u32 = input_buffer[source + 1];
    if entry.conjugate {
        (re, negate(im))
    } else {
        (re, im)
    }
}

/// Brings a raw legacy record into canonical baseline-major order:
/// `[baseline][fine channel][pol][real, imag]`.
pub fn convert_legacy_hdu_to_mwax_baseline_order(
    conversion_table: &ConversionTable,
    input_buffer: &[u32],
    num_fine_channels: usize,
) -> (output_buffer: Vec<u32>)
    requires
        conversion_table.wf(),
        input_buffer@.len() == num_fine_channels * (2 * conversion_table.entries@.len()),
    ensures
        output_buffer@ == legacy_to_baseline_order(
            conversion_table.entries@,
            input_buffer@,
            num_fine_channels as int,
        ),
{
    let mut output_buffer: Vec<u32> = Vec::new();
    let ghost entries = conversion_table.entries@;
    let ghost n = entries.len() as int;
    let ghost nf = num_fine_channels as int;
    let ghost spec_out = legacy_to_baseline_order(entries, input_buffer@, nf);
    let num_baselines: usize = conversion_table.entries.len() / 4;
    let ghost nb = num_baselines as int;
    assert(n == nb * 4);
    assert(nf * (2 * n) == (nb * nf) * 8) by (nonlinear_arith)
        requires
            n == nb * 4,
    ;
    let mut b: usize = 0;
    while b < num_baselines
        invariant
            conversion_table.wf(),
            entries == conversion_table.entries@,
            n == entries.len(),
            n <= usize::MAX,
            n == nb * 4,
            nb == num_baselines,
            nf == num_fine_channels,
            input_buffer@.len() == nf * (2 * n),
            input_buffer@.len() == (nb * nf) * 8,
            b <= num_baselines,
            output_buffer@.len() == (b * nf) * 8,
            forall|i: int|
                0 <= i < output_buffer@.len() ==> output_buffer@[i] == legacy_baseline_order_at(
                    entries,
                    input_buffer@,
                    nf,
                    i,
                ),
        decreases num_baselines - b,
    {
        let mut f: usize = 0;
        while f < num_fine_channels
            invariant
                conversion_table.wf(),
                entries == conversion_table.entries@,
                n == entries.len(),
                n <= usize::MAX,
                n == nb * 4,
                nb == num_baselines,
                nf == num_fine_channels,
                input_buffer@.len() == nf * (2 * n),
                input_buffer@.len() == (nb * nf) * 8,
                b < num_baselines,
                f <= num_fine_channels,
                output_buffer@.len() == (b * nf + f) * 8,
                forall|i: int|
                    0 <= i < output_buffer@.len() ==> output_buffer@[i]
                        == legacy_baseline_order_at(entries, input_buffer@, nf, i),
            decreases num_fine_channels - f,
        {
            proof {
                lemma_flat_bound(f as int, 0, nf, 2 * n);
                lemma_flat_bound(b as int, f as int, nb, nf);
                lemma_flat_bound(b * nf + f, 0, nb * nf, 8);
                assert((f + 1) * (2 * n) == f * (2 * n) + 2 * n) by (nonlinear_arith);
            }
            let mut p: usize = 0;
            while p < 4
                invariant
                    conversion_table.wf(),
                    entries == conversion_table.entries@,
                    n == entries.len(),
                    n == nb * 4,
                    nb == num_baselines,
                    nf == num_fine_channels,
                    b < num_baselines,
                    f < num_fine_channels,
                    p <= 4,
                    n <= usize::MAX,
                    (f + 1) * (2 * n) <= input_buffer@.len(),
                    output_buffer@.len() == (b * nf + f) * 8 + p * 2,
                    forall|i: int|
                        0 <= i < output_buffer@.len() ==> output_buffer@[i]
                            == legacy_baseline_order_at(entries, input_buffer@, nf, i),
                decreases 4 - p,
            {
                let visibility = gather_visibility(conversion_table, input_buffer, f, b * 4 + p);
                proof {
                    lemma_flat_index(b * nf + f, p * 2, 8);
                    lemma_flat_index(b * nf + f, p * 2 + 1, 8);
                    lemma_flat_index(b as int, f as int, nf);
                }
                output_buffer.push(visibility.0);
                output_buffer.push(visibility.1);
                p = p + 1;
            }
            assert((b * nf + f) * 8 + 8 == (b * nf + (f + 1)) * 8) by (nonlinear_arith);
            f = f + 1;
        }
        assert((b * nf + nf) * 8 == ((b + 1) * nf) * 8) by (nonlinear_arith);
        b = b + 1;
    }
    assert(output_buffer@ =~= spec_out);
    output_buffer
}

/// Brings a raw legacy record into canonical frequency-major order:
/// `[fine channel][baseline][pol][real, imag]`.
pub fn convert_legacy_hdu_to_mwax_frequency_order(
    conversion_table: &ConversionTable,
    input_buffer: &[u32],
    num_fine_channels: usize,
) -> (output_buffer: Vec<u32>)
    requires
        conversion_table.wf(),
        input_buffer@.len() == num_fine_channels * (2 * conversion_table.entries@.len()),
    ensures
        output_buffer@ == legacy_to_frequency_order(conversion_table.entries@, input_buffer@),
{
    let mut output_buffer: Vec<u32> = Vec::new();
    let ghost entries = conversion_table.entries@;
    let ghost n = entries.len() as int;
    let ghost nf = num_fine_channels as int;
    let ghost spec_out = legacy_to_frequency_order(entries, input_buffer@);
    let num_baselines: usize = conversion_table.entries.len() / 4;
    let ghost nb = num_baselines as int;
    assert(n == nb * 4);
    assert(nf * (2 * n) == (nf * nb) * 8) by (nonlinear_arith)
        requires
            n == nb * 4,
    ;
    if num_baselines == 0 {
        assert(input_buffer@.len() == 0) by (nonlinear_arith)
            requires
                input_buffer@.len() == nf * (2 * n),
                n == 0,
        ;
        assert(output_buffer@ =~= spec_out);
        return output_buffer;
    }
    let mut f: usize = 0;
    while f < num_fine_channels
        invariant
            conversion_table.wf(),
            entries == conversion_table.entries@,
            n == entries.len(),
            n <= usize::MAX,
            n == nb * 4,
            nb == num_baselines,
            nb > 0,
            nf == num_fine_channels,
            input_buffer@.len() == nf * (2 * n),
            input_buffer@.len() == (nf * nb) * 8,
            f <= num_fine_channels,
            output_buffer@.len() == (f * nb) * 8,
            forall|i: int|
                0 <= i < output_buffer@.len() ==> output_buffer@[i] == legacy_frequency_order_at(
                    entries,
                    input_buffer@,
                    i,
                ),
        decreases num_fine_channels - f,
    {
        proof {
            lemma_flat_bound(f as int, 0, nf, 2 * n);
            assert((f + 1) * (2 * n) == f * (2 * n) + 2 * n) by (nonlinear_arith);
        }
        let mut b: usize = 0;
        while b < num_baselines
            invariant
                conversion_table.wf(),
                entries == conversion_table.entries@,
                n == entries.len(),
                n <= usize::MAX,
                n == nb * 4,
                nb == num_baselines,
                nf == num_fine_channels,
                input_buffer@.len() == (nf * nb) * 8,
                (f + 1) * (2 * n) <= input_buffer@.len(),
                f < num_fine_channels,
                b <= num_baselines,
                output_buffer@.len() == (f * nb + b) * 8,
                forall|i: int|
                    0 <= i < output_buffer@.len() ==> output_buffer@[i]
                        == legacy_frequency_order_at(entries, input_buffer@, i),
            decreases num_baselines - b,
        {
            let mut p: usize = 0;
            while p < 4
                invariant
                    conversion_table.wf(),
                    entries == conversion_table.entries@,
                    n == entries.len(),
                    n == nb * 4,
                    nb == num_baselines,
                    nf == num_fine_channels,
                    b < num_baselines,
                    f < num_fine_channels,
                    p <= 4,
                    n <= usize::MAX,
                    (f + 1) * (2 * n) <= input_buffer@.len(),
                    output_buffer@.len() == (f * nb + b) * 8 + p * 2,
                    forall|i: int|
                        0 <= i < output_buffer@.len() ==> output_buffer@[i]
                            == legacy_frequency_order_at(entries, input_buffer@, i),
                decreases 4 - p,
            {
                let visibility = gather_visibility(conversion_table, input_buffer, f, b * 4 + p);
                proof {
                    lemma_flat_index(f * nb + b, p * 2, 8);
                    lemma_flat_index(f * nb + b, p * 2 + 1, 8);
                    lemma_flat_index(f as int, b as int, nb);
                }
                output_buffer.push(visibility.0);
                output_buffer.push(visibility.1);
                p = p + 1;
            }
            assert((f * nb + b) * 8 + 8 == (f * nb + (b + 1)) * 8) by (nonlinear_arith);
            b = b + 1;
        }
        assert((f * nb + nb) * 8 == ((f + 1) * nb) * 8) by (nonlinear_arith);
        f = f + 1;
    }
    assert(output_buffer@ =~= spec_out);
    output_buffer
}

/// Takes a baseline-major record back to the raw legacy arrangement that
/// the table gathers from: the same offsets and the same sign changes, read
/// the other way.
pub fn convert_mwax_baseline_order_to_legacy_hdu(
    conversion_table: &ConversionTable,
    inverse_table: &Vec<usize>,
    input_buffer: &[u32],
    num_fine_channels: usize,
) -> (output_buffer: Vec<u32>)
    requires
        conversion_table.wf(),
        inverts(inverse_table@, source_slots(conversion_table.entries@)),
        input_buffer@.len() == num_fine_channels * (2 * conversion_table.entries@.len()),
    ensures
        output_buffer@ == baseline_order_to_legacy(
            conversion_table.entries@,
            inverse_table@,
            input_buffer@,
            num_fine_channels as int,
        ),
{
    let mut output_buffer: Vec<u32> = Vec::new();
    let ghost entries = conversion_table.entries@;
    let ghost inverse = inverse_table@;
    let ghost nf = num_fine_channels as int;
    let ghost spec_out = baseline_order_to_legacy(entries, inverse, input_buffer@, nf);
    let table_len: usize = conversion_table.entries.len();
    let total: usize = input_buffer.len();
    let ghost n = table_len as int;
    let ghost nb = n / 4;
    assert(nf * (2 * n) == (nb * nf) * 8) by (nonlinear_arith)
        requires
            n == nb * 4,
    ;
    let mut f: usize = 0;
    while f < num_fine_channels
        invariant
            conversion_table.wf(),
            entries == conversion_table.entries@,
            inverse == inverse_table@,
            inverts(inverse, source_slots(entries)),
            n == entries.len(),
            n == table_len,
            n == nb * 4,
            nf == num_fine_channels,
            total == input_buffer@.len(),
            total == nf * (2 * n),
            total == (nb * nf) * 8,
            f <= num_fine_channels,
            output_buffer@.len() == f * (2 * n),
            forall|i: int|
                0 <= i < output_buffer@.len() ==> output_buffer@[i] == legacy_order_at(
                    entries,
                    inverse,
                    input_buffer@,
                    nf,
                    i,
                ),
        decreases num_fine_channels - f,
    {
        let mut j: usize = 0;
        while j < table_len
            invariant
                conversion_table.wf(),
                entries == conversion_table.entries@,
                inverse == inverse_table@,
                inverts(inverse, source_slots(entries)),
            inverts(inverse, source_slots(entries)),
                n == entries.len(),
                n == table_len,
                n == nb * 4,
                nf == num_fine_channels,
                total == input_buffer@.len(),
                total == (nb * nf) * 8,
                f < num_fine_channels,
                j <= table_len,
                output_buffer@.len() == f * (2 * n) + j * 2,
                forall|i: int|
                    0 <= i < output_buffer@.len() ==> output_buffer@[i] == legacy_order_at(
                        entries,
                        inverse,
                        input_buffer@,
                        nf,
                        i,
                    ),
            decreases table_len - j,
        {
            let k: usize = inverse_table[j];
            assert(source_slots(entries).len() == n);
            assert(k < n);
            let entry: ConversionEntry = conversion_table.entries[k];
            let b: usize = k / 4;
            let p: usize = k % 4;
            proof {
                lemma_flat_bound(b as int, f as int, nb, nf);
                lemma_flat_bound(b * nf + f, p * 2 + 1, nb * nf, 8);
                lemma_flat_index(f as int, j * 2, 2 * n);
                lemma_flat_index(f as int, j * 2 + 1, 2 * n);
                assert(0 <= b * nf) by (nonlinear_arith)
                    requires
                        b >= 0,
                        nf >= 0,
                ;
            }
            let source: usize = (b * num_fine_channels + f) * 8 + p * 2;
            let re: u32 = input_buffer[source];
            let im: u32 = input_buffer[source + 1];
            output_buffer.push(re);
            if entry.conjugate {
                output_buffer.push(negate(im));
            } else {
                output_buffer.push(im);
            }
            j = j + 1;
        }
        assert(f * (2 * n) + n * 2 == (f + 1) * (2 * n)) by (nonlinear_arith);
        f = f + 1;
    }
    assert(output_buffer@ =~= spec_out);
    output_buffer
}

/// The frequency-major arrangement of a raw legacy record is the
/// baseline-major arrangement of the same record with fine channel and
/// baseline exchanged: the two hold the same scalars, each once.
pub proof fn lemma_legacy_orders_agree(
    entries: Seq<ConversionEntry>,
    raw: Seq<u32>,
    num_fine_channels: int,
)
    requires
        entries.len() % 4 == 0,
        0 <= num_fine_channels,
        raw.len() == num_fine_channels * (2 * entries.len()),
    ensures
        legacy_to_frequency_order(entries, raw).len() == legacy_to_baseline_order(
            entries,
            raw,
            num_fine_channels,
        ).len(),
        legacy_to_frequency_order(entries, raw) == to_frequency_order(
            legacy_to_baseline_order(entries, raw, num_fine_channels),
            entries.len() as int / 4,
            num_fine_channels,
            8,
        ),
{
    let nf = num_fine_channels;
    let n = entries.len() as int;
    let nb = n / 4;
    let by_baseline = legacy_to_baseline_order(entries, raw, nf);
    let by_frequency = legacy_to_frequency_order(entries, raw);
    let transposed = to_frequency_order(by_baseline, nb, nf, 8);
    assert(nf * (2 * n) == (nf * nb) * 8 && (nf * nb) * 8 == (nb * nf) * 8) by (nonlinear_arith)
        requires
            n == nb * 4,
    ;
    assert forall|i: int| 0 <= i < raw.len() implies by_frequency[i] == transposed[i] by {
        assert(nb > 0) by (nonlinear_arith)
            requires
                (nf * nb) * 8 > 0,
                nb >= 0,
        ;
        lemma_flat_split(i, nf * nb, 8);
        lemma_flat_split(i / 8, nf, nb);
        let v = i % 8;
        let b = (i / 8) % nb;
        let f = (i / 8) / nb;
        lemma_flat_bound(b, f, nb, nf);
        lemma_flat_bound(b * nf + f, v, nb * nf, 8);
        lemma_flat_index(b * nf + f, v, 8);
        lemma_flat_index(b, f, nf);
    }
    assert(by_frequency =~= transposed);
}

/// Gathering a raw legacy record into baseline order and walking the table
/// back gives the raw record again, bit for bit.
pub proof fn lemma_gather_then_inverse_is_identity(
    entries: Seq<ConversionEntry>,
    inverse: Seq<usize>,
    raw: Seq<u32>,
    num_fine_channels: int,
)
    requires
        entries_wellformed(entries),
        inverts(inverse, source_slots(entries)),
        0 <= num_fine_channels,
        raw.len() == num_fine_channels * (2 * entries.len()),
    ensures
        baseline_order_to_legacy(
            entries,
            inverse,
            legacy_to_baseline_order(entries, raw, num_fine_channels),
            num_fine_channels,
        ) == raw,
{
    let nf = num_fine_channels;
    let n = entries.len() as int;
    let nb = n / 4;
    let gathered = legacy_to_baseline_order(entries, raw, nf);
    let restored = baseline_order_to_legacy(entries, inverse, gathered, nf);
    assert(nf * (2 * n) == (nb * nf) * 8) by (nonlinear_arith)
        requires
            n == nb * 4,
    ;
    assert(source_slots(entries).len() == n);
    assert forall|i: int| 0 <= i < raw.len() implies restored[i] == raw[i] by {
        assert(n > 0) by (nonlinear_arith)
            requires
                nf * (2 * n) > 0,
                n >= 0,
        ;
        lemma_flat_split(i, nf, 2 * n);
        let f = i / (2 * n);
        let r = i % (2 * n);
        let j = r / 2;
        let ri = r % 2;
        let k = inverse[j] as int;
        assert(source_slots(entries)[k] == j);
        assert(entries[k].source_offset == 2 * j);
        let b = k / 4;
        let p = k % 4;
        lemma_flat_bound(b, f, nb, nf);
        lemma_flat_bound(b * nf + f, p * 2 + ri, nb * nf, 8);
        lemma_flat_index(b * nf + f, p * 2 + ri, 8);
        lemma_flat_index(b, f, nf);
        assert(i == f * (2 * n) + 2 * j + ri);
        lemma_flip_sign_involution(raw[i]);
    }
    assert(restored =~= raw);
}

/// Two sequences hold the same scalars, each as often as the other, where
/// one is the other read through a map of positions that sends no two
/// positions to the same place.
pub proof fn lemma_reindexed_same_scalars(s1: Seq<u32>, s2: Seq<u32>, g: spec_fn(int) -> int)
    requires
        s1.len() == s2.len(),
        forall|i: int| 0 <= i < s2.len() ==> 0 <= #[trigger] g(i) < s1.len() && s2[i] == s1[g(i)],
        forall|i: int, j: int|
            0 <= i < s2.len() && 0 <= j < s2.len() && i != j ==> #[trigger] g(i) != #[trigger] g(j),
    ensures
        s1.to_multiset() == s2.to_multiset(),
    decreases s2.len(),
{
    if s2.len() == 0 {
        assert(s1 =~= s2);
    } else {
        let last = s2.len() - 1;
        let k = g(last);
        let rest2 = s2.drop_last();
        let rest1 = s1.remove(k);
        let h = |i: int|
            if g(i) < k {
                g(i)
            } else {
                g(i) - 1
            };
        assert forall|i: int| 0 <= i < rest2.len() implies 0 <= #[trigger] h(i) < rest1.len()
            && rest2[i] == rest1[h(i)] by {
            assert(g(i) != g(last));
        }
        assert forall|i: int, j: int|
            0 <= i < rest2.len() && 0 <= j < rest2.len() && i != j implies #[trigger] h(i)
            != #[trigger] h(j) by {
            assert(g(i) != g(j));
            assert(g(i) != g(last));
            assert(g(j) != g(last));
        }
        lemma_reindexed_same_scalars(rest1, rest2, h);
        assert(s2 =~= rest2.push(s2[last]));
        assert(s1 =~= rest1.insert(k, s1[k]));
        vstd::seq_lib::to_multiset_build(rest2, s2[last]);
        vstd::seq_lib::to_multiset_insert(rest1, k, s1[k]);
    }
}

/// Exchanging fine channel and baseline moves the scalars of a record and
/// neither adds, drops nor changes one: a sum over the record stays what it
/// was.
pub proof fn lemma_frequency_order_same_scalars(
    data: Seq<u32>,
    num_baselines: int,
    num_fine_channels: int,
    values: int,
)
    requires
        0 <= num_baselines,
        0 <= num_fine_channels,
        0 <= values,
        data.len() == (num_baselines * num_fine_channels) * values,
    ensures
        to_frequency_order(data, num_baselines, num_fine_channels, values).len() == data.len(),
        to_frequency_order(data, num_baselines, num_fine_channels, values).to_multiset()
            == data.to_multiset(),
{
    let nb = num_baselines;
    let nf = num_fine_channels;
    let nv = values;
    let out = to_frequency_order(data, nb, nf, nv);
    let g = |i: int| (((i / nv) % nb) * nf + (i / nv) / nb) * nv + i % nv;
    lemma_record_len(nb, nf, nv);
    if data.len() > 0 {
        assert(nb > 0 && nf > 0 && nv > 0) by (nonlinear_arith)
            requires
                (nb * nf) * nv > 0,
                nb >= 0,
                nf >= 0,
                nv >= 0,
        ;
        assert forall|i: int| 0 <= i < out.len() implies 0 <= #[trigger] g(i) < data.len()
            && out[i] == data[g(i)] by {
            lemma_flat_split(i, nf * nb, nv);
            lemma_flat_split(i / nv, nf, nb);
            lemma_flat_bound((i / nv) % nb, (i / nv) / nb, nb, nf);
            lemma_flat_bound(((i / nv) % nb) * nf + (i / nv) / nb, i % nv, nb * nf, nv);
        }
        assert forall|i: int, j: int|
            0 <= i < out.len() && 0 <= j < out.len() && i != j implies #[trigger] g(i)
            != #[trigger] g(j) by {
            lemma_flat_split(i, nf * nb, nv);
            lemma_flat_split(i / nv, nf, nb);
            lemma_flat_split(j, nf * nb, nv);
            lemma_flat_split(j / nv, nf, nb);
            let (bi, fi, vi) = ((i / nv) % nb, (i / nv) / nb, i % nv);
            let (bj, fj, vj) = ((j / nv) % nb, (j / nv) / nb, j % nv);
            lemma_flat_bound(bi, fi, nb, nf);
            lemma_flat_bound(bj, fj, nb, nf);
            lemma_flat_index(bi * nf + fi, vi, nv);
            lemma_flat_index(bj * nf + fj, vj, nv);
            lemma_flat_index(bi, fi, nf);
            lemma_flat_index(bj, fj, nf);
        }
    }
    lemma_reindexed_same_scalars(data, out, g);
}

} // verus!
