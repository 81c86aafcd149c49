//! Delta coding of the samples of a chunk.
//!
//! The samples of a chunk are rows of equal length, one slot per metric.
//! On the wire they are a column-major matrix: all samples of slot 0,
//! then all samples of slot 1, and so on; the value of slot `m` in sample
//! `s` stands at index `m * samples + s`. Each value is stored as its
//! wrapping difference from the sample before, the first sample from the
//! reference row.

use vstd::arithmetic::div_mod::{lemma_fundamental_div_mod, lemma_fundamental_div_mod_converse};
use vstd::prelude::*;

verus! {

/// Every row has `metrics` slots.
pub open spec fn rows_have_len(rows: Seq<Vec<u64>>, metrics: nat) -> bool {
    forall|s: int| 0 <= s < rows.len() ==> (#[trigger] rows[s])@.len() == metrics
}

/// The samples in column-major order.
pub open spec fn column_major(rows: Seq<Vec<u64>>, metrics: nat) -> Seq<u64> {
    Seq::new(
        metrics * rows.len(),
        |i: int| rows[i % (rows.len() as int)]@[i / (rows.len() as int)],
    )
}

/// Index `i` holds the first sample of its slot.
pub open spec fn first_sample(samples: int, i: int) -> bool {
    i == 0 || i % samples == 0
}

/// The value that the delta at index `i` is taken from: the slot of the
/// reference row for a first sample, else the value of the sample before.
pub open spec fn predecessor(reference: Seq<u64>, values: Seq<u64>, samples: int, i: int) -> u64 {
    if first_sample(samples, i) {
        reference[i / samples]
    } else {
        values[i - 1]
    }
}

/// The deltas of `rows`, column-major.
pub open spec fn delta_matrix(reference: Seq<u64>, rows: Seq<Vec<u64>>) -> Seq<u64> {
    let values = column_major(rows, reference.len());
    Seq::new(
        values.len(),
        |i: int| values[i].wrapping_sub(predecessor(reference, values, rows.len() as int, i)),
    )
}

/// The value at index `i` that the deltas add up to.
pub open spec fn inflated_value(reference: Seq<u64>, deltas: Seq<u64>, samples: int, i: int) -> u64
    decreases i,
{
    if i < 0 || samples <= 0 {
        0
    } else if first_sample(samples, i) {
        deltas[i].wrapping_add(reference[i / samples])
    } else {
        deltas[i].wrapping_add(inflated_value(reference, deltas, samples, i - 1))
    }
}

/// The column-major values that the deltas add up to.
pub open spec fn inflated(reference: Seq<u64>, deltas: Seq<u64>, samples: int) -> Seq<u64> {
    Seq::new(deltas.len(), |i: int| inflated_value(reference, deltas, samples, i))
}

/// Index `m * samples + s` splits back into `m` and `s`.
pub proof fn lemma_index_split(samples: int, m: int, s: int)
    requires
        0 <= s < samples,
        0 <= m,
    ensures
        (m * samples + s) / samples == m,
        (m * samples + s) % samples == s,
        0 <= m * samples + s,
{
    lemma_fundamental_div_mod_converse(m * samples + s, samples, m, s);
    assert(0 <= m * samples) by (nonlinear_arith)
        requires
            0 <= m,
            0 < samples,
    ;
}

/// An index below `metrics * samples` names a slot below `metrics`.
pub proof fn lemma_index_bounds(metrics: int, samples: int, i: int)
    requires
        0 <= i < metrics * samples,
        0 < samples,
    ensures
        0 <= i / samples < metrics,
        0 <= i % samples < samples,
        i == (i / samples) * samples + i % samples,
{
    lemma_fundamental_div_mod(i, samples);
    let q = i / samples;
    assert(q * samples == samples * q) by (nonlinear_arith);
    assert(0 <= q) by (nonlinear_arith)
        requires
            0 <= i,
            0 < samples,
            i == q * samples + i % samples,
            0 <= i % samples < samples,
    ;
    assert(q < metrics) by (nonlinear_arith)
        requires
            i < metrics * samples,
            0 < samples,
            i == q * samples + i % samples,
            0 <= i % samples,
    ;
}

/// Wrapping subtraction is undone by wrapping addition.
pub proof fn lemma_wrapping_sub_add(a: u64, b: u64)
    ensures
        a.wrapping_sub(b).wrapping_add(b) == a,
        a.wrapping_add(b).wrapping_sub(b) == a,
{
}

/// Inflating the deltas of `rows` gives `rows` back, column-major, for
/// any slot values: the arithmetic wraps both ways.
pub proof fn lemma_inflate_deltas(reference: Seq<u64>, rows: Seq<Vec<u64>>)
    requires
        rows_have_len(rows, reference.len()),
    ensures
        inflated(reference, delta_matrix(reference, rows), rows.len() as int) == column_major(
            rows,
            reference.len(),
        ),
{
    let deltas = delta_matrix(reference, rows);
    let values = column_major(rows, reference.len());
    assert forall|i: int| 0 <= i < deltas.len() implies inflated_value(
        reference,
        deltas,
        rows.len() as int,
        i,
    ) == values[i] by {
        lemma_inflate_deltas_at(reference, rows, i);
    }
}

proof fn lemma_inflate_deltas_at(reference: Seq<u64>, rows: Seq<Vec<u64>>, i: int)
    requires
        0 <= i < reference.len() * rows.len(),
    ensures
        inflated_value(reference, delta_matrix(reference, rows), rows.len() as int, i)
            == column_major(rows, reference.len())[i],
    decreases i,
{
    let samples = rows.len() as int;
    let deltas = delta_matrix(reference, rows);
    let values = column_major(rows, reference.len());
    assert(samples > 0) by (nonlinear_arith)
        requires
            0 <= i < reference.len() * samples,
    ;
    let before = predecessor(reference, values, samples, i);
    assert(deltas[i] == values[i].wrapping_sub(before));
    lemma_wrapping_sub_add(values[i], before);
    if !first_sample(samples, i) {
        lemma_inflate_deltas_at(reference, rows, i - 1);
    }
}

/// The deltas of `rows` against `reference`, column-major.
pub fn delta_encode(reference: &Vec<u64>, rows: &Vec<Vec<u64>>) -> (out: Vec<u64>)
    requires
        rows_have_len(rows@, reference@.len()),
    ensures
        out@ == delta_matrix(reference@, rows@),
{
    let metrics = reference.len();
    let samples = rows.len();
    let ghost target = delta_matrix(reference@, rows@);
    let ghost values = column_major(rows@, reference@.len());
    let mut out: Vec<u64> = Vec::new();
    let mut m: usize = 0;
    assert(0 * samples == 0);
    while m < metrics
        invariant
            m <= metrics == reference@.len(),
            samples == rows@.len(),
            rows_have_len(rows@, reference@.len()),
            target == delta_matrix(reference@, rows@),
            values == column_major(rows@, reference@.len()),
            out@.len() == m * samples,
            forall|j: int| 0 <= j < out@.len() ==> out@[j] == target[j],
        decreases metrics - m,
    {
        let mut s: usize = 0;
        while s < samples
            invariant
                m < metrics == reference@.len(),
                s <= samples == rows@.len(),
                rows_have_len(rows@, reference@.len()),
                target == delta_matrix(reference@, rows@),
                values == column_major(rows@, reference@.len()),
                out@.len() == m * samples + s,
                forall|j: int| 0 <= j < out@.len() ==> out@[j] == target[j],
            decreases samples - s,
        {
            let ghost i = m * samples + s;
            proof {
                lemma_index_split(samples as int, m as int, s as int);
                assert(i < metrics * samples) by (nonlinear_arith)
                    requires
                        i == m * samples + s,
                        s < samples,
                        m < metrics,
                ;
                if s > 0 {
                    lemma_index_split(samples as int, m as int, s - 1);
                }
            }
            let v = rows[s][m];
            let before = if s == 0 {
                reference[m]
            } else {
                rows[s - 1][m]
            };
            assert(values[i] == v);
            assert(before == predecessor(reference@, values, samples as int, i));
            out.push(v.wrapping_sub(before));
            s = s + 1;
        }
        m = m + 1;
        assert(m * samples == (m - 1) * samples + samples) by (nonlinear_arith);
    }
    assert(out@.len() == target.len());
    out
}

/// Replaces the column-major deltas in `values` by the values that they
/// add up to.
pub fn delta_decode(reference: &Vec<u64>, values: &mut Vec<u64>, samples: usize)
    requires
        samples > 0,
        old(values)@.len() == reference@.len() * samples,
    ensures
        final(values)@ == inflated(reference@, old(values)@, samples as int),
{
    let ghost deltas = values@;
    let total = values.len();
    let mut i: usize = 0;
    let mut m: usize = 0;
    let mut s: usize = 0;
    assert(0 * samples == 0);
    while i < total
        invariant
            samples > 0,
            total == deltas.len() == values@.len() == reference@.len() * samples,
            i <= total,
            i == m * samples + s,
            s < samples,
            forall|j: int| 0 <= j < i ==> values@[j] == inflated_value(
                reference@,
                deltas,
                samples as int,
                j,
            ),
            forall|j: int| i <= j < total ==> values@[j] == deltas[j],
        decreases total - i,
    {
        proof {
            lemma_index_split(samples as int, m as int, s as int);
            lemma_index_bounds(reference@.len() as int, samples as int, i as int);
        }
        let before = if s == 0 {
            reference[m]
        } else {
            values[i - 1]
        };
        let v = values[i].wrapping_add(before);
        values.set(i, v);
        i = i + 1;
        s = s + 1;
        if s == samples {
            s = 0;
            assert((m + 1) * samples == m * samples + samples) by (nonlinear_arith);
            m = m + 1;
        }
    }
}

} // verus!
