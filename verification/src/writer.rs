//! The chunk encoder and the writer of framed records.
//!
//! A chunk is open from the first sample added to it until it is closed:
//! by a sample with another number of slots, by the sample that would go
//! beyond the capacity, or by a flush. The first sample is the reference
//! of the chunk; the samples after it are held as rows of slots. A closed
//! chunk is written as the length of its body, then the compressed body:
//! the bytes of the reference document, the number of slots, the number of
//! rows, and the run-length coded deltas of the rows.

use crate::delta::{delta_encode, delta_matrix, rows_have_len};
use crate::document::{Document, Value, ValueView};
use crate::error::Error;
use crate::le::{append_bytes, le_i32, push_i32_le};
use crate::raw::{
    bson_bytes, bson_document, bson_len, document_framed, fields_writable, to_vec,
};
use crate::rle::{rle_encode, rle_encoding};
use crate::util::{extract_metrics, fields_slots, fields_supported};
use crate::zlib::{deflate, zlib_deflated, zlib_inflated};
use vstd::prelude::*;
use vstd::string::StringExecFns;

pub use crate::reader::{BSONBlockReader, RawBSONBlock};

verus! {

/// What adding a sample did.
#[derive(Debug, PartialEq)]
pub enum AddResult {
    /// The sample began a chunk. Where it closed one, the bytes of that
    /// chunk come with the time of its reference.
    NewBlock(Option<(Vec<u8>, i64)>),
    /// The sample went into the open chunk.
    ExistingBlock,
}

/// The payload of a chunk: the run-length coded deltas of `rows` against
/// `reference`.
pub open spec fn samples_payload(reference: Seq<u64>, rows: Seq<Vec<u64>>) -> Seq<u8> {
    rle_encoding(delta_matrix(reference, rows))
}

/// The body of a chunk before compression.
pub open spec fn block_body(ref_bytes: Seq<u8>, reference: Seq<u64>, rows: Seq<Vec<u64>>) -> Seq<
    u8,
> {
    ref_bytes + le_i32(reference.len() as i32) + le_i32(rows.len() as i32) + samples_payload(
        reference,
        rows,
    )
}

/// The body fits the format: its two counts and its length are 31-bit
/// numbers.
pub open spec fn block_fits(ref_bytes: Seq<u8>, reference: Seq<u64>, rows: Seq<Vec<u64>>) -> bool {
    &&& reference.len() <= i32::MAX
    &&& rows.len() <= i32::MAX
    &&& block_body(ref_bytes, reference, rows).len() <= i32::MAX
}

/// A chunk: the length of the body, then the compressed body.
pub open spec fn framed_block(body: Seq<u8>) -> Seq<u8> {
    le_i32(body.len() as i32) + zlib_deflated(body)->Some_0
}

/// The compressor gives a stream for `body`, from which the decompressor
/// gives `body` back.
pub open spec fn body_compresses(body: Seq<u8>) -> bool {
    zlib_deflated(body) matches Some(z) && zlib_inflated(z) == Some(body)
}

/// `block` is the chunk of the reference document `doc`, written as
/// `ref_bytes`, with the samples `rows`, each of which has a slot for
/// every slot of the reference.
pub open spec fn is_block_with(
    block: Seq<u8>,
    ref_bytes: Seq<u8>,
    doc: Seq<(Seq<char>, ValueView)>,
    rows: Seq<Vec<u64>>,
) -> bool {
    &&& fields_supported(doc)
    &&& rows_have_len(rows, fields_slots(doc).len())
    &&& bson_document(ref_bytes) == Some(doc)
    &&& document_framed(ref_bytes)
    &&& block_fits(ref_bytes, fields_slots(doc), rows)
    &&& body_compresses(block_body(ref_bytes, fields_slots(doc), rows))
    &&& block == framed_block(block_body(ref_bytes, fields_slots(doc), rows))
}

/// `block` is the chunk of the reference document `doc` with the samples
/// `rows`.
pub open spec fn is_block(block: Seq<u8>, doc: Seq<(Seq<char>, ValueView)>, rows: Seq<Vec<u64>>) -> bool {
    is_block_with(block, bson_bytes(doc), doc, rows)
}

/// The chunk of the reference document `doc` with the samples `rows`
/// fits the format: its two counts are 31-bit numbers, and so is the
/// length of its body, which is the reference document, eight bytes of
/// counts, and the payload.
pub open spec fn chunk_fits(doc: Seq<(Seq<char>, ValueView)>, rows: Seq<Vec<u64>>) -> bool {
    &&& fields_slots(doc).len() <= i32::MAX
    &&& rows.len() <= i32::MAX
    &&& bson_len(doc) + 8 + samples_payload(fields_slots(doc), rows).len() <= i32::MAX
}

/// A chunk of the reference document `doc` with the samples `rows` can be
/// written: the document can be written as BSON, the chunk fits the
/// format, and the compressor gives a stream for its body.
pub open spec fn chunk_owed(doc: Seq<(Seq<char>, ValueView)>, rows: Seq<Vec<u64>>) -> bool {
    &&& fields_writable(doc)
    &&& chunk_fits(doc, rows)
    &&& zlib_deflated(block_body(bson_bytes(doc), fields_slots(doc), rows)) is Some
}

/// The error in place of a chunk that cannot be written: `Unsupported`
/// where the reference document cannot be written as BSON, `BadEnvelope`
/// where a count or a length does not fit 31 bits, `Compression` where
/// the compressor gives no stream.
pub open spec fn chunk_error(doc: Seq<(Seq<char>, ValueView)>, rows: Seq<Vec<u64>>) -> Error {
    if !fields_writable(doc) {
        Error::Unsupported
    } else if !chunk_fits(doc, rows) {
        Error::BadEnvelope
    } else {
        Error::Compression
    }
}

/// The payload of a chunk: delta coding, then run-length coding.
pub fn encode_samples(reference: &Vec<u64>, rows: &Vec<Vec<u64>>) -> (out: Vec<u8>)
    requires
        rows_have_len(rows@, reference@.len()),
    ensures
        out@ == samples_payload(reference@, rows@),
{
    let deltas = delta_encode(reference, rows);
    rle_encode(&deltas)
}

/// The body of a chunk, from the bytes of its reference document;
/// `BadEnvelope` where a count or the length of the body does not fit 31
/// bits.
pub fn encode_block(ref_bytes: &[u8], reference: &Vec<u64>, rows: &Vec<Vec<u64>>) -> (r: Result<
    Vec<u8>,
    Error,
>)
    requires
        rows_have_len(rows@, reference@.len()),
    ensures
        match r {
            Ok(body) => body@ == block_body(ref_bytes@, reference@, rows@) && block_fits(
                ref_bytes@,
                reference@,
                rows@,
            ),
            Err(e) => e == Error::BadEnvelope && !block_fits(ref_bytes@, reference@, rows@),
        },
{
    if reference.len() > i32::MAX as usize || rows.len() > i32::MAX as usize {
        return Err(Error::BadEnvelope);
    }
    let payload = encode_samples(reference, rows);
    let mut body: Vec<u8> = Vec::new();
    append_bytes(&mut body, ref_bytes);
    push_i32_le(&mut body, reference.len() as i32);
    push_i32_le(&mut body, rows.len() as i32);
    append_bytes(&mut body, payload.as_slice());
    assert(body@ == block_body(ref_bytes@, reference@, rows@));
    if body.len() > i32::MAX as usize {
        return Err(Error::BadEnvelope);
    }
    Ok(body)
}

/// A chunk from its body and the compressed body.
pub fn frame_block(body_len: usize, compressed: &[u8]) -> (block: Vec<u8>)
    requires
        body_len <= i32::MAX,
    ensures
        block@ == le_i32(body_len as i32) + compressed@,
{
    let mut block: Vec<u8> = Vec::new();
    push_i32_le(&mut block, body_len as i32);
    append_bytes(&mut block, compressed);
    block
}

/// The encoder of chunks.
pub struct BSONMetricsCompressor {
    max_samples: usize,
    metrics: usize,
    metric_vec: Vec<Vec<u64>>,
    ref_doc: Document,
    ref_doc_vec: Vec<u64>,
    ref_date: i64,
}

impl BSONMetricsCompressor {
    #[verifier::type_invariant]
    spec fn well_formed(self) -> bool {
        &&& self.metrics == self.ref_doc_vec@.len()
        &&& fields_supported(self.ref_doc@)
        &&& self.ref_doc_vec@ == fields_slots(self.ref_doc@)
        &&& rows_have_len(self.metric_vec@, self.ref_doc_vec@.len())
        &&& (self.ref_doc@.len() == 0 ==> self.metric_vec@.len() == 0)
        &&& (self.metric_vec@.len() == 0 || self.metric_vec@.len() < self.max_samples)
    }

    /// The reference document of the open chunk; without fields where no
    /// chunk is open.
    pub closed spec fn reference(&self) -> Seq<(Seq<char>, ValueView)> {
        self.ref_doc@
    }

    /// The samples of the open chunk after its reference.
    pub closed spec fn rows(&self) -> Seq<Vec<u64>> {
        self.metric_vec@
    }

    /// The time of the reference of the open chunk.
    pub closed spec fn reference_date(&self) -> i64 {
        self.ref_date
    }

    /// The largest number of samples of a chunk, its reference included.
    pub closed spec fn capacity(&self) -> usize {
        self.max_samples
    }

    /// A chunk is open.
    pub open spec fn is_open(&self) -> bool {
        self.reference().len() > 0
    }

    /// The open chunk takes a sample with these fields: it has the slot
    /// count of the reference, and the chunk has room.
    pub open spec fn admits(&self, doc: Seq<(Seq<char>, ValueView)>) -> bool {
        &&& fields_slots(doc).len() == fields_slots(self.reference()).len()
        &&& self.rows().len() + 1 < self.capacity()
    }

    /// The chunk has no more samples than the capacity, its reference
    /// counted in. (A chunk always has its reference, whatever the
    /// capacity.)
    pub open spec fn within_capacity(&self) -> bool {
        self.rows().len() == 0 || self.rows().len() + 1 <= self.capacity()
    }

    /// The chunk holds `doc` as its reference, and nothing else.
    pub open spec fn begins_with(&self, doc: Seq<(Seq<char>, ValueView)>, date: i64) -> bool {
        &&& self.reference() == doc
        &&& self.rows().len() == 0
        &&& self.reference_date() == date
    }

    /// The same chunk is open, with the same samples.
    pub open spec fn same_chunk(&self, other: &BSONMetricsCompressor) -> bool {
        &&& self.reference() == other.reference()
        &&& self.rows() == other.rows()
        &&& self.reference_date() == other.reference_date()
        &&& self.capacity() == other.capacity()
    }

    /// An encoder without an open chunk, for chunks of at most
    /// `max_samples` samples.
    pub fn new(max_samples: usize) -> (r: BSONMetricsCompressor)
        ensures
            !r.is_open(),
            r.rows().len() == 0,
            r.capacity() == max_samples,
            r.reference_date() == 0,
    {
        let ref_doc = Document::new();
        BSONMetricsCompressor {
            max_samples,
            metrics: 0,
            metric_vec: Vec::new(),
            ref_doc,
            ref_doc_vec: Vec::new(),
            ref_date: 0,
        }
    }

    /// What adding a sample does. Without an open chunk the sample begins
    /// one. A sample that the open chunk admits goes into it. Any other
    /// sample closes the open chunk, which is handed back with the time of
    /// its reference, and begins the next: that chunk is owed wherever it
    /// can be written. On an error the encoder is as it was: `Unsupported`
    /// where the sample holds a Decimal128, else the error of the chunk
    /// that cannot be written.
    pub open spec fn added(
        pre: BSONMetricsCompressor,
        post: BSONMetricsCompressor,
        doc: Seq<(Seq<char>, ValueView)>,
        date: i64,
        r: Result<AddResult, Error>,
    ) -> bool {
        &&& post.capacity() == pre.capacity()
        &&& match r {
            Ok(AddResult::ExistingBlock) => {
                &&& pre.is_open()
                &&& fields_supported(doc)
                &&& pre.admits(doc)
                &&& post.reference() == pre.reference()
                &&& post.reference_date() == pre.reference_date()
                &&& post.rows().len() == pre.rows().len() + 1
                &&& post.rows().drop_last() == pre.rows()
                &&& post.rows().last()@ == fields_slots(doc)
            },
            Ok(AddResult::NewBlock(None)) => {
                &&& !pre.is_open()
                &&& fields_supported(doc)
                &&& post.begins_with(doc, date)
            },
            Ok(AddResult::NewBlock(Some((block, t)))) => {
                &&& pre.is_open()
                &&& fields_supported(doc)
                &&& !pre.admits(doc)
                &&& t == pre.reference_date()
                &&& is_block(block@, pre.reference(), pre.rows())
                &&& pre.within_capacity()
                &&& post.begins_with(doc, date)
            },
            Err(e) => {
                &&& post.same_chunk(&pre)
                &&& if fields_supported(doc) {
                    &&& pre.is_open()
                    &&& !pre.admits(doc)
                    &&& !chunk_owed(pre.reference(), pre.rows())
                    &&& e == chunk_error(pre.reference(), pre.rows())
                } else {
                    e == Error::Unsupported
                }
            },
        }
    }

    /// What a flush does: it closes the open chunk and hands it back
    /// with the time of its reference, a chunk that holds its reference
    /// alone too; without an open chunk it does nothing. The chunk is owed
    /// wherever it can be written; on an error the encoder is as it was.
    pub open spec fn flushed(
        pre: BSONMetricsCompressor,
        post: BSONMetricsCompressor,
        r: Result<Option<(Vec<u8>, i64)>, Error>,
    ) -> bool {
        &&& post.capacity() == pre.capacity()
        &&& match r {
            Ok(None) => !pre.is_open() && post.same_chunk(&pre),
            Ok(Some((block, t))) => {
                &&& pre.is_open()
                &&& t == pre.reference_date()
                &&& is_block(block@, pre.reference(), pre.rows())
                &&& pre.within_capacity()
                &&& !post.is_open()
                &&& post.rows().len() == 0
            },
            Err(e) => {
                &&& pre.is_open()
                &&& post.same_chunk(&pre)
                &&& !chunk_owed(pre.reference(), pre.rows())
                &&& e == chunk_error(pre.reference(), pre.rows())
            },
        }
    }

    /// Adds a sample taken at `date`: see `added`.
    pub fn add_doc(&mut self, doc: &Document, date: i64) -> (r: Result<AddResult, Error>)
        ensures
            Self::added(*old(self), *final(self), doc@, date, r),
    {
        proof {
            use_type_invariant(&*self);
        }
        let met_vec = match extract_metrics(doc) {
            Ok(slots) => slots,
            Err(e) => {
                return Err(e);
            },
        };
        if self.ref_doc.fields.len() == 0 {
            let metrics = met_vec.len();
            *self = BSONMetricsCompressor {
                max_samples: self.max_samples,
                metrics,
                metric_vec: Vec::new(),
                ref_doc: doc.copy(),
                ref_doc_vec: met_vec,
                ref_date: date,
            };
            return Ok(AddResult::NewBlock(None));
        }
        if self.metrics == met_vec.len() && self.metric_vec.len() < self.max_samples
            && self.metric_vec.len() + 1 < self.max_samples {
            let ghost before = self.metric_vec@;
            let mut held = BSONMetricsCompressor::new(self.max_samples);
            core::mem::swap(self, &mut held);
            let BSONMetricsCompressor {
                max_samples,
                metrics,
                metric_vec,
                ref_doc,
                ref_doc_vec,
                ref_date,
            } = held;
            let mut metric_vec = metric_vec;
            metric_vec.push(met_vec);
            assert(metric_vec@.drop_last() == before);
            *self = BSONMetricsCompressor {
                max_samples,
                metrics,
                metric_vec,
                ref_doc,
                ref_doc_vec,
                ref_date,
            };
            Ok(AddResult::ExistingBlock)
        } else {
            let block = match self.flush_block() {
                Ok(block) => block,
                Err(e) => {
                    return Err(e);
                },
            };
            let metrics = met_vec.len();
            let closed_date = self.ref_date;
            *self = BSONMetricsCompressor {
                max_samples: self.max_samples,
                metrics,
                metric_vec: Vec::new(),
                ref_doc: doc.copy(),
                ref_doc_vec: met_vec,
                ref_date: date,
            };
            Ok(AddResult::NewBlock(Some((block, closed_date))))
        }
    }

    /// Closes the open chunk: see `flushed`.
    pub fn flush(&mut self) -> (r: Result<Option<(Vec<u8>, i64)>, Error>)
        ensures
            Self::flushed(*old(self), *final(self), r),
    {
        proof {
            use_type_invariant(&*self);
        }
        if self.ref_doc.fields.len() == 0 {
            return Ok(None);
        }
        let block = match self.flush_block() {
            Ok(block) => block,
            Err(e) => {
                return Err(e);
            },
        };
        let date = self.ref_date;
        *self = BSONMetricsCompressor {
            max_samples: self.max_samples,
            metrics: 0,
            metric_vec: Vec::new(),
            ref_doc: Document::new(),
            ref_doc_vec: Vec::new(),
            ref_date: date,
        };
        Ok(Some((block, date)))
    }

    /// The bytes of the chunk that is held, which stays as it is, wherever
    /// the chunk can be written; else the error that `chunk_error` names.
    pub fn flush_block(&mut self) -> (r: Result<Vec<u8>, Error>)
        ensures
            final(self).same_chunk(old(self)),
            old(self).within_capacity(),
            r is Ok <==> chunk_owed(old(self).reference(), old(self).rows()),
            match r {
                Ok(block) => is_block(block@, old(self).reference(), old(self).rows()),
                Err(e) => e == chunk_error(old(self).reference(), old(self).rows()),
            },
    {
        proof {
            use_type_invariant(&*self);
        }
        let ref_vec = match to_vec(&self.ref_doc) {
            Ok(bytes) => bytes,
            Err(e) => {
                return Err(e);
            },
        };
        let body = match encode_block(ref_vec.as_slice(), &self.ref_doc_vec, &self.metric_vec) {
            Ok(body) => body,
            Err(e) => {
                return Err(e);
            },
        };
        let compressed = match deflate(body.as_slice()) {
            Some(z) => z,
            None => {
                return Err(Error::Compression);
            },
        };
        Ok(frame_block(body.len(), compressed.as_slice()))
    }
}

/// The fields of a metadata record.
pub open spec fn metadata_fields(doc: Seq<(Seq<char>, ValueView)>, date: i64) -> Seq<
    (Seq<char>, ValueView),
> {
    seq![
        ("_id"@, ValueView::DateTime(date)),
        ("type"@, ValueView::Int32(0)),
        ("doc"@, ValueView::Document(doc)),
    ]
}

/// The fields of a metrics record.
pub open spec fn metrics_fields(chunk: Seq<u8>, date: i64) -> Seq<(Seq<char>, ValueView)> {
    seq![
        ("_id"@, ValueView::DateTime(date)),
        ("type"@, ValueView::Int32(1)),
        ("data"@, ValueView::Binary { subtype: 0, bytes: chunk }),
    ]
}

/// The record that carries a metadata document.
pub fn gen_metadata_document(doc: &Document, date: i64) -> (r: Document)
    ensures
        r@ == metadata_fields(doc@, date),
{
    let mut fields: Vec<(String, Value)> = Vec::new();
    fields.push((String::from_str("_id"), Value::DateTime(date)));
    fields.push((String::from_str("type"), Value::Int32(0)));
    fields.push((String::from_str("doc"), Value::Document(doc.copy())));
    let r = Document { fields };
    proof {
        crate::document::lemma_fields_view(r.fields@);
        assert(r@ =~= metadata_fields(doc@, date));
    }
    r
}

/// The record that carries a chunk.
pub fn gen_metrics_document(chunk: &[u8], date: i64) -> (r: Document)
    ensures
        r@ == metrics_fields(chunk@, date),
{
    let mut bytes: Vec<u8> = Vec::new();
    append_bytes(&mut bytes, chunk);
    assert(bytes@ == chunk@);
    let mut fields: Vec<(String, Value)> = Vec::new();
    fields.push((String::from_str("_id"), Value::DateTime(date)));
    fields.push((String::from_str("type"), Value::Int32(1)));
    fields.push((String::from_str("data"), Value::Binary { subtype: 0, bytes }));
    let r = Document { fields };
    proof {
        crate::document::lemma_fields_view(r.fields@);
        assert(r@ =~= metrics_fields(chunk@, date));
    }
    r
}

/// `bytes` is a record with the fields `fields`: it reads back as them,
/// and states its own length.
pub open spec fn is_record(bytes: Seq<u8>, fields: Seq<(Seq<char>, ValueView)>) -> bool {
    bson_document(bytes) == Some(fields) && document_framed(bytes)
}

/// Appends `doc` to `writer` as BSON, wherever it can be written: the
/// bytes of the document and nothing else. The errors are those of
/// `to_vec`, with `writer` as it was.
pub fn write_doc_to_writer(writer: &mut Vec<u8>, doc: &Document) -> (r: Result<(), Error>)
    ensures
        r is Ok <==> fields_writable(doc@) && bson_len(doc@) <= i32::MAX,
        match r {
            Ok(()) => final(writer)@ == old(writer)@ + bson_bytes(doc@) && is_record(
                bson_bytes(doc@),
                doc@,
            ),
            Err(e) => {
                &&& final(writer)@ == old(writer)@
                &&& if fields_writable(doc@) {
                    e == Error::BadEnvelope
                } else {
                    e == Error::Unsupported
                }
            },
        },
{
    let buf = match to_vec(doc) {
        Ok(buf) => buf,
        Err(e) => {
            return Err(e);
        },
    };
    append_bytes(writer, buf.as_slice());
    Ok(())
}

/// `after` is `before` with the metrics record for `block` at its end,
/// wherever the record can state its length; else `before` itself, with
/// `BadEnvelope`.
pub open spec fn block_written(
    before: Seq<u8>,
    after: Seq<u8>,
    block: Seq<u8>,
    date: i64,
    r: Result<(), Error>,
) -> bool {
    let fields = metrics_fields(block, date);
    &&& r is Ok <==> bson_len(fields) <= i32::MAX
    &&& match r {
        Ok(()) => after == before + bson_bytes(fields) && is_record(bson_bytes(fields), fields),
        Err(e) => e == Error::BadEnvelope && after == before,
    }
}

/// What the writer does with what adding a sample gave: it hands an
/// error on, writes a chunk that was closed, and else writes nothing.
pub open spec fn sample_written(
    before: Seq<u8>,
    after: Seq<u8>,
    step: Result<AddResult, Error>,
    r: Result<(), Error>,
) -> bool {
    match step {
        Err(e) => r == Err::<(), Error>(e) && after == before,
        Ok(AddResult::NewBlock(Some((block, date)))) => block_written(
            before,
            after,
            block@,
            date,
            r,
        ),
        Ok(_) => r is Ok && after == before,
    }
}

/// What the writer does with what a flush gave: it hands an error on,
/// writes the chunk that was closed, and writes nothing where none was.
pub open spec fn flush_written(
    before: Seq<u8>,
    after: Seq<u8>,
    step: Result<Option<(Vec<u8>, i64)>, Error>,
    r: Result<(), Error>,
) -> bool {
    match step {
        Err(e) => r == Err::<(), Error>(e) && after == before,
        Ok(Some((block, date))) => block_written(before, after, block@, date, r),
        Ok(None) => r is Ok && after == before,
    }
}

/// A metrics record can always be written, but for its size.
pub proof fn lemma_metrics_fields_writable(chunk: Seq<u8>, date: i64)
    ensures
        fields_writable(metrics_fields(chunk, date)),
{
    let fields = metrics_fields(chunk, date);
    reveal_strlit("_id");
    reveal_strlit("type");
    reveal_strlit("data");
    assert(!crate::raw::has_nul("_id"@));
    assert(!crate::raw::has_nul("type"@));
    assert(!crate::raw::has_nul("data"@));
    crate::raw::lemma_fields_writable(fields);
}

/// Writes a stream of records to memory: metadata documents as they come,
/// samples as the chunks that the encoder closes.
pub struct BSONBlockWriter {
    writer: Vec<u8>,
    compressor: BSONMetricsCompressor,
}

impl BSONBlockWriter {
    /// The bytes written so far.
    pub closed spec fn written(&self) -> Seq<u8> {
        self.writer@
    }

    /// The encoder of the samples.
    pub closed spec fn encoder(&self) -> BSONMetricsCompressor {
        self.compressor
    }

    /// A writer that has written nothing, for chunks of at most
    /// `max_samples` samples.
    pub fn new_bytes(max_samples: usize) -> (r: BSONBlockWriter)
        ensures
            r.written() == Seq::<u8>::empty(),
            !r.encoder().is_open(),
            r.encoder().capacity() == max_samples,
    {
        BSONBlockWriter { writer: Vec::new(), compressor: BSONMetricsCompressor::new(max_samples) }
    }

    /// Writes a metadata record for `doc`, wherever the record can be
    /// written as BSON.
    pub fn add_metdata_doc(&mut self, doc: &Document, date: i64) -> (r: Result<(), Error>)
        ensures
            final(self).encoder() == old(self).encoder(),
            r is Ok <==> fields_writable(metadata_fields(doc@, date)) && bson_len(
                metadata_fields(doc@, date),
            ) <= i32::MAX,
            match r {
                Ok(()) => {
                    &&& final(self).written() == old(self).written() + bson_bytes(
                        metadata_fields(doc@, date),
                    )
                    &&& is_record(
                        bson_bytes(metadata_fields(doc@, date)),
                        metadata_fields(doc@, date),
                    )
                },
                Err(e) => {
                    &&& final(self).written() == old(self).written()
                    &&& if fields_writable(metadata_fields(doc@, date)) {
                        e == Error::BadEnvelope
                    } else {
                        e == Error::Unsupported
                    }
                },
            },
    {
        let md_doc = gen_metadata_document(doc, date);
        write_doc_to_writer(&mut self.writer, &md_doc)
    }

    /// Adds a sample to the encoder and writes the chunk that it closes,
    /// if it closes one, as a metrics record: see `sample_written`.
    pub fn add_sample(&mut self, doc: &Document, sample_date: i64) -> (r: Result<(), Error>)
        ensures
            exists|step: Result<AddResult, Error>|
                {
                    &&& #[trigger] BSONMetricsCompressor::added(
                        old(self).encoder(),
                        final(self).encoder(),
                        doc@,
                        sample_date,
                        step,
                    )
                    &&& sample_written(old(self).written(), final(self).written(), step, r)
                },
    {
        let step = self.compressor.add_doc(doc, sample_date);
        let ghost taken = step;
        let ghost before = self.writer@;
        let r = match step {
            Err(e) => Err(e),
            Ok(AddResult::ExistingBlock) => Ok(()),
            Ok(AddResult::NewBlock(None)) => Ok(()),
            Ok(AddResult::NewBlock(Some((block, date)))) => {
                let metric_doc = gen_metrics_document(block.as_slice(), date);
                proof {
                    lemma_metrics_fields_writable(block@, date);
                }
                write_doc_to_writer(&mut self.writer, &metric_doc)
            },
        };
        assert(sample_written(before, self.writer@, taken, r));
        assert(BSONMetricsCompressor::added(
            old(self).encoder(),
            self.encoder(),
            doc@,
            sample_date,
            taken,
        ));
        r
    }

    /// Closes the open chunk, if there is one, and writes it as a metrics
    /// record: see `flush_written`.
    pub fn flush(&mut self) -> (r: Result<(), Error>)
        ensures
            exists|step: Result<Option<(Vec<u8>, i64)>, Error>|
                {
                    &&& #[trigger] BSONMetricsCompressor::flushed(
                        old(self).encoder(),
                        final(self).encoder(),
                        step,
                    )
                    &&& flush_written(old(self).written(), final(self).written(), step, r)
                },
    {
        let step = self.compressor.flush();
        let ghost taken = step;
        let ghost before = self.writer@;
        let r = match step {
            Err(e) => Err(e),
            Ok(None) => Ok(()),
            Ok(Some((block, date))) => {
                let metric_doc = gen_metrics_document(block.as_slice(), date);
                proof {
                    lemma_metrics_fields_writable(block@, date);
                }
                write_doc_to_writer(&mut self.writer, &metric_doc)
            },
        };
        assert(flush_written(before, self.writer@, taken, r));
        assert(BSONMetricsCompressor::flushed(old(self).encoder(), self.encoder(), taken));
        r
    }

    /// The bytes written so far, which the writer then forgets.
    pub fn take_bytes(&mut self) -> (r: Vec<u8>)
        ensures
            r@ == old(self).written(),
            final(self).written() == Seq::<u8>::empty(),
            final(self).encoder() == old(self).encoder(),
    {
        let mut out: Vec<u8> = Vec::new();
        core::mem::swap(&mut self.writer, &mut out);
        out
    }
}

} // verus!
