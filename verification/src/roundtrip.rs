//! What encoding and decoding give together.

use crate::delta::{
    column_major, delta_matrix, lemma_index_split, lemma_inflate_deltas, rows_have_len,
};
use crate::document::{first_match, lemma_first_match, ValueView};
use crate::error::Error;
use crate::le::{i32_at, le_i32, lemma_i32_roundtrip};
use crate::raw::{bson_document, document_framed};
use crate::reader::{decoded_block, decoded_body, decoded_samples, sample_row, BlockView};
use crate::rle::lemma_rle_roundtrip;
use crate::util::{
    fields_restorable, fields_same_shape, fields_slots, fields_supported, filled_fields,
    lemma_fill_extracted_fields,
};
use crate::writer::{
    block_body, block_fits, is_block_with, metrics_fields, samples_payload,
    BSONMetricsCompressor,
};
use crate::zlib::zlib_deflated;
use vstd::prelude::*;

verus! {

/// The values that a chunk with the samples `rows` decodes to.
pub open spec fn block_values(metrics: nat, rows: Seq<Vec<u64>>) -> Seq<u64> {
    if metrics == 0 || rows.len() == 0 {
        Seq::empty()
    } else {
        column_major(rows, metrics)
    }
}

/// The chunk that the encoder wrote for the reference document `doc`,
/// held as `ref_bytes`, and the samples `rows`.
pub open spec fn encoded_view(
    ref_bytes: Seq<u8>,
    doc: Seq<(Seq<char>, ValueView)>,
    rows: Seq<Vec<u64>>,
) -> BlockView {
    BlockView {
        reference: doc,
        ref_bytes,
        metrics_count: fields_slots(doc).len() as i32,
        sample_count: rows.len() as i32,
        values: block_values(fields_slots(doc).len(), rows),
    }
}

/// The payload decodes to the samples: delta and run-length coding are
/// undone exactly, for any slot values, and the decoder reads the payload
/// to its last byte and no further.
pub proof fn lemma_samples_roundtrip(front: Seq<u8>, reference: Seq<u64>, rows: Seq<Vec<u64>>)
    requires
        rows_have_len(rows, reference.len()),
        reference.len() * rows.len() <= u64::MAX,
    ensures
        decoded_samples(
            front + samples_payload(reference, rows),
            front.len() as int,
            reference,
            rows.len(),
        ) == Ok::<Seq<u64>, Error>(column_major(rows, reference.len())),
{
    let deltas = delta_matrix(reference, rows);
    lemma_rle_roundtrip(front, deltas);
    lemma_inflate_deltas(reference, rows);
}

/// Decoding the body of a chunk gives what was encoded: the reference
/// document byte for byte, the two counts, and every slot of every sample.
pub proof fn lemma_body_roundtrip(
    ref_bytes: Seq<u8>,
    doc: Seq<(Seq<char>, ValueView)>,
    rows: Seq<Vec<u64>>,
)
    requires
        bson_document(ref_bytes) == Some(doc),
        document_framed(ref_bytes),
        fields_supported(doc),
        rows_have_len(rows, fields_slots(doc).len()),
        block_fits(ref_bytes, fields_slots(doc), rows),
        fields_slots(doc).len() * rows.len() <= usize::MAX,
    ensures
        decoded_body(block_body(ref_bytes, fields_slots(doc), rows)) == Ok::<BlockView, Error>(
            encoded_view(ref_bytes, doc, rows),
        ),
{
    let slots = fields_slots(doc);
    let body = block_body(ref_bytes, slots, rows);
    let n = ref_bytes.len() as int;
    let metrics = slots.len() as i32;
    let samples = rows.len() as i32;
    let front = ref_bytes + le_i32(metrics) + le_i32(samples);
    assert(body == front + samples_payload(slots, rows));
    assert(body[0] == ref_bytes[0] && body[1] == ref_bytes[1] && body[2] == ref_bytes[2] && body[3]
        == ref_bytes[3]);
    assert(i32_at(body, 0) == n);
    assert(body.subrange(0, n) == ref_bytes);
    assert(body.subrange(n, n + 4) == le_i32(metrics));
    assert(body.subrange(n + 4, n + 8) == le_i32(samples));
    lemma_i32_roundtrip(body, n, metrics);
    lemma_i32_roundtrip(body, n + 4, samples);
    if samples != 0 && metrics != 0 {
        lemma_samples_roundtrip(front, slots, rows);
        assert(metrics * samples == slots.len() * rows.len()) by (nonlinear_arith)
            requires
                metrics == slots.len(),
                samples == rows.len(),
        ;
    }
}

/// Decoding the chunk of a metrics record gives what was encoded.
pub proof fn lemma_block_roundtrip(
    block: Seq<u8>,
    ref_bytes: Seq<u8>,
    doc: Seq<(Seq<char>, ValueView)>,
    rows: Seq<Vec<u64>>,
    date: i64,
)
    requires
        is_block_with(block, ref_bytes, doc, rows),
        fields_slots(doc).len() * rows.len() <= usize::MAX,
    ensures
        decoded_block(metrics_fields(block, date)) == Ok::<BlockView, Error>(
            encoded_view(ref_bytes, doc, rows),
        ),
{
    let record = metrics_fields(block, date);
    let body = block_body(ref_bytes, fields_slots(doc), rows);
    reveal_strlit("_id");
    reveal_strlit("type");
    reveal_strlit("data");
    assert("_id"@ != "data"@) by {
        assert("_id"@.len() == 3);
        assert("data"@.len() == 4);
    }
    assert("type"@ != "data"@) by {
        assert("type"@[0] == 't');
        assert("data"@[0] == 'd');
    }
    assert(first_match(record, "data"@, 2));
    lemma_first_match(record, "data"@, 2);
    assert(block == le_i32(body.len() as i32) + zlib_deflated(body)->Some_0);
    assert(block.skip(4) == zlib_deflated(body)->Some_0);
    lemma_body_roundtrip(ref_bytes, doc, rows);
}

/// The slots of a sample of a decoded chunk are those of the row that
/// was encoded.
pub proof fn lemma_sample_row(
    ref_bytes: Seq<u8>,
    doc: Seq<(Seq<char>, ValueView)>,
    rows: Seq<Vec<u64>>,
    s: int,
)
    requires
        rows_have_len(rows, fields_slots(doc).len()),
        fields_slots(doc).len() <= i32::MAX,
        rows.len() <= i32::MAX,
        0 <= s < rows.len(),
    ensures
        sample_row(encoded_view(ref_bytes, doc, rows), s) == rows[s]@,
{
    let block = encoded_view(ref_bytes, doc, rows);
    let metrics = fields_slots(doc).len() as int;
    let samples = rows.len() as int;
    assert forall|m: int| 0 <= m < metrics implies sample_row(block, s)[m] == rows[s]@[m] by {
        lemma_index_split(samples, m, s);
        assert(m * samples + s < metrics * samples) by (nonlinear_arith)
            requires
                0 <= m < metrics,
                0 <= s < samples,
        ;
    }
    assert(sample_row(block, s) =~= rows[s]@);
}

/// A sample comes back as it went in: where the sample has the shape of
/// the reference document and each of its doubles is the double nearest
/// to its own slot, filling the reference with the decoded slots of the
/// sample gives the sample.
pub proof fn lemma_sample_restored(
    block: Seq<u8>,
    ref_bytes: Seq<u8>,
    doc: Seq<(Seq<char>, ValueView)>,
    rows: Seq<Vec<u64>>,
    s: int,
    sample: Seq<(Seq<char>, ValueView)>,
)
    requires
        is_block_with(block, ref_bytes, doc, rows),
        0 <= s < rows.len(),
        rows[s]@ == fields_slots(sample),
        fields_same_shape(doc, sample),
        fields_restorable(sample),
    ensures
        filled_fields(doc, sample_row(encoded_view(ref_bytes, doc, rows), s)) == sample,
{
    lemma_sample_row(ref_bytes, doc, rows, s);
    lemma_fill_extracted_fields(doc, sample);
}

/// No chunk holds more samples than the capacity: a chunk that the
/// encoder closes decodes to its reference and at most `capacity - 1`
/// samples after it, for any capacity of one or more.
pub proof fn lemma_chunk_within_capacity(
    encoder: BSONMetricsCompressor,
    ref_bytes: Seq<u8>,
    block: Seq<u8>,
)
    requires
        encoder.within_capacity(),
        encoder.capacity() >= 1,
        is_block_with(block, ref_bytes, encoder.reference(), encoder.rows()),
    ensures
        encoded_view(ref_bytes, encoder.reference(), encoder.rows()).sample_count + 1
            <= encoder.capacity(),
{
}

} // verus!
