//! The chunk decoder, the walks over the samples of a decoded chunk, and
//! the reader of framed records.

use crate::delta::{delta_decode, inflated};
use crate::document::{field_value, Document, ValueView};
use crate::error::Error;
use crate::le::{append_bytes, copy_range, i32_at, read_i32_le};
use crate::raw::{bson_document, RawDocumentBuf};
use crate::rle::{rle_decode, rle_decode_from};
use crate::util::{
    extract_metrics, fields_slots, fields_supported, fill_document, filled_fields,
};
use crate::zlib::{inflate, zlib_inflated};
use std::rc::Rc;
use vstd::prelude::*;

verus! {

/// What a decoded chunk holds.
pub struct BlockView {
    /// The fields of the reference document.
    pub reference: Seq<(Seq<char>, ValueView)>,
    /// The bytes of the reference document.
    pub ref_bytes: Seq<u8>,
    /// The number of slots of a sample.
    pub metrics_count: i32,
    /// The number of samples after the reference.
    pub sample_count: i32,
    /// The slots of the samples after the reference, column-major.
    pub values: Seq<u64>,
}

/// The samples that a payload holds: `samples` values for each slot of
/// `reference`, read from `start` to the end of `buf` and added up.
/// `Truncated` where a varint is missing or malformed, `TrailingBytes`
/// where the payload holds more values: bytes are left, or a run of
/// zeros goes beyond the last value.
pub open spec fn decoded_samples(buf: Seq<u8>, start: int, reference: Seq<u64>, samples: nat) -> Result<
    Seq<u64>,
    Error,
> {
    match rle_decode_from(buf, start, reference.len() * samples, 0) {
        None => Err(Error::Truncated),
        Some((deltas, end, left)) => if end != buf.len() || left != 0 {
            Err(Error::TrailingBytes)
        } else {
            Ok(inflated(reference, deltas, samples as int))
        },
    }
}

/// The chunk that a body holds: the reference document, which states its
/// own length, the two counts, and the samples.
pub open spec fn decoded_body(body: Seq<u8>) -> Result<BlockView, Error> {
    if body.len() < 4 {
        Err(Error::BadEnvelope)
    } else {
        let n = i32_at(body, 0) as int;
        if n < 5 || n + 8 > body.len() {
            Err(Error::BadEnvelope)
        } else {
            let ref_bytes = body.subrange(0, n);
            match bson_document(ref_bytes) {
                None => Err(Error::BadEnvelope),
                Some(reference) => {
                    let metrics_count = i32_at(body, n);
                    let sample_count = i32_at(body, n + 4);
                    let slots = fields_slots(reference);
                    let empty = BlockView {
                        reference,
                        ref_bytes,
                        metrics_count,
                        sample_count,
                        values: Seq::empty(),
                    };
                    if !fields_supported(reference) {
                        Err(Error::Unsupported)
                    } else if metrics_count != slots.len() {
                        Err(Error::SchemaMismatch)
                    } else if sample_count < 0 {
                        Err(Error::BadEnvelope)
                    } else if sample_count == 0 || metrics_count == 0 {
                        Ok(empty)
                    } else if metrics_count * sample_count > usize::MAX {
                        Err(Error::BadEnvelope)
                    } else {
                        match decoded_samples(body, n + 8, slots, sample_count as nat) {
                            Ok(values) => Ok(BlockView { values, ..empty }),
                            Err(e) => Err(e),
                        }
                    }
                },
            }
        }
    }
}

/// The chunk that a metrics record holds: its field `data` is a binary
/// of subtype 0, four bytes of length followed by the compressed body.
pub open spec fn decoded_block(record: Seq<(Seq<char>, ValueView)>) -> Result<BlockView, Error> {
    match field_value(record, "data"@) {
        Some(ValueView::Binary { subtype, bytes }) => if subtype != 0 || bytes.len() < 4 {
            Err(Error::BadEnvelope)
        } else {
            match zlib_inflated(bytes.skip(4)) {
                None => Err(Error::Compression),
                Some(body) => decoded_body(body),
            }
        },
        _ => Err(Error::BadEnvelope),
    }
}

/// The number of bytes of the binary `data` of a metrics record.
pub open spec fn data_len(record: Seq<(Seq<char>, ValueView)>) -> nat {
    match field_value(record, "data"@) {
        Some(ValueView::Binary { subtype, bytes }) => bytes.len(),
        _ => 0,
    }
}

/// The slots of sample `s`, one for each metric.
pub open spec fn sample_row(block: BlockView, s: int) -> Seq<u64> {
    Seq::new(block.metrics_count as nat, |m: int| block.values[m * block.sample_count + s])
}

/// The index of the slot `metric` of sample `sample` in a column-major
/// matrix of `sample_count` samples.
pub fn get_array_offset(sample_count: i32, sample: i32, metric: i32) -> (r: usize)
    requires
        0 <= sample < sample_count,
        0 <= metric,
        metric * sample_count + sample <= usize::MAX,
    ensures
        r == metric * sample_count + sample,
{
    assert(metric * sample_count <= metric * sample_count + sample);
    assert(0 <= metric * sample_count) by (nonlinear_arith)
        requires
            0 <= metric,
            0 <= sample_count,
    ;
    (metric as usize) * (sample_count as usize) + (sample as usize)
}

/// The samples of a payload: see `decoded_samples`. `BadEnvelope` is not
/// among the errors.
pub fn decode_samples(buf: &[u8], start: usize, reference: &Vec<u64>, samples: usize) -> (r: Result<
    Vec<u64>,
    Error,
>)
    requires
        reference@.len() * samples <= usize::MAX,
    ensures
        match r {
            Ok(values) => decoded_samples(buf@, start as int, reference@, samples as nat) == Ok::<
                Seq<u64>,
                Error,
            >(values@) && values@.len() == reference@.len() * samples,
            Err(e) => decoded_samples(buf@, start as int, reference@, samples as nat) == Err::<
                Seq<u64>,
                Error,
            >(e),
        },
{
    let total = match reference.len().checked_mul(samples) {
        Some(total) => total,
        None => {
            assert(false);
            0
        },
    };
    let mut values = match rle_decode(buf, start, total) {
        Ok(values) => values,
        Err(e) => {
            return Err(e);
        },
    };
    proof {
        crate::rle::lemma_decoded_len(buf@, start as int, total as nat, 0);
    }
    if samples > 0 {
        delta_decode(reference, &mut values, samples);
    } else {
        assert(values@ == inflated(reference@, values@, 0));
    }
    Ok(values)
}

/// A decoded chunk.
pub struct DecodedMetricBlock {
    ref_doc: Rc<RawDocumentBuf>,
    ref_doc_size_bytes: usize,
    chunk_size_bytes: usize,
    sample_count: i32,
    metrics_count: i32,
    raw_metrics: Vec<u64>,
}

impl View for DecodedMetricBlock {
    type V = BlockView;

    closed spec fn view(&self) -> BlockView {
        BlockView {
            reference: (*self.ref_doc)@,
            ref_bytes: (*self.ref_doc).bytes(),
            metrics_count: self.metrics_count,
            sample_count: self.sample_count,
            values: self.raw_metrics@,
        }
    }
}

/// The counts of a chunk are those of its reference and of its values.
pub open spec fn block_consistent(block: BlockView) -> bool {
    &&& fields_supported(block.reference)
    &&& block.metrics_count == fields_slots(block.reference).len()
    &&& block.sample_count >= 0
    &&& bson_document(block.ref_bytes) == Some(block.reference)
    &&& block.values.len() == if block.sample_count == 0 || block.metrics_count == 0 {
        0
    } else {
        block.metrics_count * block.sample_count
    }
}

impl DecodedMetricBlock {
    #[verifier::type_invariant]
    spec fn well_formed(self) -> bool {
        &&& block_consistent(self@)
        &&& self.ref_doc_size_bytes == (*self.ref_doc).bytes().len()
    }

    /// The size of the binary that held the chunk.
    pub closed spec fn chunk_size(&self) -> usize {
        self.chunk_size_bytes
    }

    /// The reference document, shared.
    pub fn ref_doc(&self) -> (r: Rc<RawDocumentBuf>)
        ensures
            (*r)@ == self@.reference,
            (*r).bytes() == self@.ref_bytes,
            block_consistent(self@),
    {
        proof {
            use_type_invariant(self);
        }
        share(&self.ref_doc)
    }

    /// The number of bytes of the reference document.
    pub fn ref_doc_size_bytes(&self) -> (r: usize)
        ensures
            r == self@.ref_bytes.len(),
    {
        proof {
            use_type_invariant(self);
        }
        self.ref_doc_size_bytes
    }

    /// The number of bytes of the binary that held the chunk.
    pub fn chunk_size_bytes(&self) -> (r: usize)
        ensures
            r == self.chunk_size(),
    {
        self.chunk_size_bytes
    }

    /// The number of samples after the reference.
    pub fn sample_count(&self) -> (r: i32)
        ensures
            r == self@.sample_count,
            r >= 0,
    {
        proof {
            use_type_invariant(self);
        }
        self.sample_count
    }

    /// The number of slots of a sample.
    pub fn metrics_count(&self) -> (r: i32)
        ensures
            r == self@.metrics_count,
            r >= 0,
    {
        proof {
            use_type_invariant(self);
        }
        self.metrics_count
    }

    /// The slots of the samples after the reference, column-major.
    pub fn raw_metrics(&self) -> (r: &Vec<u64>)
        ensures
            r@ == self@.values,
            block_consistent(self@),
    {
        proof {
            use_type_invariant(self);
        }
        &self.raw_metrics
    }

    /// The slots of sample `s`; `None` where the chunk has no such sample.
    pub fn sample(&self, s: i32) -> (r: Option<Vec<u64>>)
        ensures
            match r {
                Some(row) => 0 <= s < self@.sample_count && row@ == sample_row(self@, s as int),
                None => !(0 <= s < self@.sample_count),
            },
    {
        proof {
            use_type_invariant(self);
        }
        if s < 0 || s >= self.sample_count {
            return None;
        }
        let mut row: Vec<u64> = Vec::new();
        let mut m: i32 = 0;
        let total = self.raw_metrics.len();
        assert(total == self.metrics_count * self.sample_count) by (nonlinear_arith)
            requires
                self.metrics_count == 0 ==> total == 0,
                self.metrics_count != 0 ==> total == self.metrics_count * self.sample_count,
        ;
        while m < self.metrics_count
            invariant
                0 <= m <= self.metrics_count,
                0 <= s < self.sample_count,
                total == self.raw_metrics@.len() == self.metrics_count * self.sample_count,
                row@.len() == m,
                forall|k: int|
                    0 <= k < m ==> (#[trigger] row@[k]) == self.raw_metrics@[k * self.sample_count
                        + s],
            decreases self.metrics_count - m,
        {
            assert(m * self.sample_count + s < self.metrics_count * self.sample_count)
                by (nonlinear_arith)
                requires
                    0 <= m < self.metrics_count,
                    0 <= s < self.sample_count,
            ;
            let offset = get_array_offset(self.sample_count, s, m);
            row.push(self.raw_metrics[offset]);
            m = m + 1;
        }
        assert(row@ =~= sample_row(self@, s as int));
        Some(row)
    }
}

/// `Rc::clone`: another handle to the same value.
#[verifier::external_body]
fn share(doc: &Rc<RawDocumentBuf>) -> (r: Rc<RawDocumentBuf>)
    ensures
        r == *doc,
{
    Rc::clone(doc)
}

/// Decodes the body of a chunk, which came out of a binary of
/// `chunk_size_bytes` bytes: see `decoded_body`.
pub fn decode_block_body(body: &[u8], chunk_size_bytes: usize) -> (r: Result<
    DecodedMetricBlock,
    Error,
>)
    ensures
        match r {
            Ok(block) => decoded_body(body@) == Ok::<BlockView, Error>(block@) && block.chunk_size()
                == chunk_size_bytes,
            Err(e) => decoded_body(body@) == Err::<BlockView, Error>(e),
        },
{
    if body.len() < 4 {
        return Err(Error::BadEnvelope);
    }
    let declared = read_i32_le(body, 0);
    if declared < 5 {
        return Err(Error::BadEnvelope);
    }
    let n = declared as usize;
    if n > body.len() || body.len() - n < 8 {
        return Err(Error::BadEnvelope);
    }
    let ref_doc = match RawDocumentBuf::from_bytes(copy_range(body, 0, n)) {
        Ok(ref_doc) => ref_doc,
        Err(e) => {
            return Err(e);
        },
    };
    let metrics_count = read_i32_le(body, n);
    let sample_count = read_i32_le(body, n + 4);
    let ref_metrics = match extract_metrics(ref_doc.document()) {
        Ok(slots) => slots,
        Err(e) => {
            return Err(e);
        },
    };
    if metrics_count < 0 || ref_metrics.len() != metrics_count as usize {
        return Err(Error::SchemaMismatch);
    }
    if sample_count < 0 {
        return Err(Error::BadEnvelope);
    }
    let mut raw_metrics: Vec<u64> = Vec::new();
    if sample_count != 0 && metrics_count != 0 {
        if (metrics_count as usize).checked_mul(sample_count as usize).is_none() {
            return Err(Error::BadEnvelope);
        }
        raw_metrics = match decode_samples(body, n + 8, &ref_metrics, sample_count as usize) {
            Ok(values) => values,
            Err(e) => {
                return Err(e);
            },
        };
    }
    Ok(
        DecodedMetricBlock {
            ref_doc: Rc::new(ref_doc),
            ref_doc_size_bytes: n,
            chunk_size_bytes,
            sample_count,
            metrics_count,
            raw_metrics,
        },
    )
}

/// Decodes the chunk of a metrics record: see `decoded_block`. The chunk
/// remembers the size of the binary that held it.
pub fn decode_metric_block(doc: &RawDocumentBuf) -> (r: Result<DecodedMetricBlock, Error>)
    ensures
        match r {
            Ok(block) => decoded_block(doc@) == Ok::<BlockView, Error>(block@) && block.chunk_size()
                == data_len(doc@),
            Err(e) => decoded_block(doc@) == Err::<BlockView, Error>(e),
        },
{
    let (subtype, blob) = match doc.document().get_binary("data") {
        Some(found) => found,
        None => {
            return Err(Error::BadEnvelope);
        },
    };
    if subtype != 0 || blob.len() < 4 {
        return Err(Error::BadEnvelope);
    }
    let compressed = copy_range(blob.as_slice(), 4, blob.len());
    assert(compressed@ == blob@.skip(4));
    let body = match inflate(compressed.as_slice()) {
        Some(body) => body,
        None => {
            return Err(Error::Compression);
        },
    };
    decode_block_body(body.as_slice(), blob.len())
}

/// An item of the walk over a chunk with documents.
#[derive(Debug)]
pub enum MetricsDocument {
    /// The reference document, shared with the chunk.
    Reference(Rc<RawDocumentBuf>),
    /// A sample, as a document of the shape of the reference.
    Metrics(Document),
}

/// An item of the walk over a chunk with rows of slots.
#[derive(Debug)]
pub enum VectorMetricsDocument {
    /// The reference document, shared with the chunk.
    Reference(Rc<RawDocumentBuf>),
    /// A sample, as its slots.
    Metrics(Vec<u64>),
}

enum MetricState {
    Reference,
    Metrics,
}

/// Walks once over a chunk: first the reference document, then every
/// sample after it, filled into the shape of the reference.
pub struct MetricsReader {
    decoded_block: DecodedMetricBlock,
    it_state: MetricState,
    sample: i32,
}

impl MetricsReader {
    #[verifier::type_invariant]
    spec fn well_formed(self) -> bool {
        &&& 0 <= self.sample <= self.decoded_block@.sample_count
        &&& self.it_state is Reference ==> self.sample == 0
    }

    /// The chunk.
    pub closed spec fn block(&self) -> BlockView {
        self.decoded_block@
    }

    /// The size of the binary that held the chunk.
    pub closed spec fn chunk_size(&self) -> usize {
        self.decoded_block.chunk_size()
    }

    /// The number of items handed out.
    pub closed spec fn yielded(&self) -> int {
        if self.it_state is Reference {
            0
        } else {
            1 + self.sample
        }
    }

    /// Decodes the chunk of a metrics record and stands before its
    /// reference document.
    pub fn new(doc: &RawDocumentBuf) -> (r: Result<MetricsReader, Error>)
        ensures
            match r {
                Ok(reader) => decoded_block(doc@) == Ok::<BlockView, Error>(reader.block())
                    && reader.yielded() == 0 && reader.chunk_size() == data_len(doc@),
                Err(e) => decoded_block(doc@) == Err::<BlockView, Error>(e),
            },
    {
        let decoded_block = match decode_metric_block(doc) {
            Ok(block) => block,
            Err(e) => {
                return Err(e);
            },
        };
        proof {
            use_type_invariant(&decoded_block);
        }
        Ok(MetricsReader { decoded_block, it_state: MetricState::Reference, sample: 0 })
    }

    /// The chunk.
    pub fn decoded_block(&self) -> (r: &DecodedMetricBlock)
        ensures
            r@ == self.block(),
            r.chunk_size() == self.chunk_size(),
    {
        &self.decoded_block
    }

    /// The next item: the reference document, then sample after sample,
    /// then nothing.
    pub fn next(&mut self) -> (r: Option<MetricsDocument>)
        ensures
            final(self).block() == old(self).block(),
            final(self).chunk_size() == old(self).chunk_size(),
            match r {
                Some(MetricsDocument::Reference(doc)) => {
                    &&& old(self).yielded() == 0
                    &&& final(self).yielded() == 1
                    &&& (*doc)@ == old(self).block().reference
                    &&& (*doc).bytes() == old(self).block().ref_bytes
                },
                Some(MetricsDocument::Metrics(doc)) => {
                    &&& 1 <= old(self).yielded() <= old(self).block().sample_count
                    &&& final(self).yielded() == old(self).yielded() + 1
                    &&& doc@ == filled_fields(
                        old(self).block().reference,
                        sample_row(old(self).block(), old(self).yielded() - 1),
                    )
                },
                None => {
                    &&& old(self).yielded() == old(self).block().sample_count + 1
                    &&& final(self).yielded() == old(self).yielded()
                },
            },
    {
        proof {
            use_type_invariant(&*self);
            use_type_invariant(&self.decoded_block);
        }
        match self.it_state {
            MetricState::Reference => {
                self.it_state = MetricState::Metrics;
                Some(MetricsDocument::Reference(self.decoded_block.ref_doc()))
            },
            MetricState::Metrics => {
                if self.sample == self.decoded_block.sample_count {
                    return None;
                }
                let row = match self.decoded_block.sample(self.sample) {
                    Some(row) => row,
                    None => {
                        assert(false);
                        return None;
                    },
                };
                self.sample = self.sample + 1;
                let reference = self.decoded_block.ref_doc();
                match fill_document(reference.document(), row.as_slice()) {
                    Ok(doc) => Some(MetricsDocument::Metrics(doc)),
                    Err(_) => {
                        assert(false);
                        None
                    },
                }
            },
        }
    }
}

/// Walks once over a chunk: first the reference document, then the slots
/// of every sample after it.
pub struct VectorMetricsReader {
    decoded_block: DecodedMetricBlock,
    it_state: MetricState,
    sample: i32,
}

impl VectorMetricsReader {
    #[verifier::type_invariant]
    spec fn well_formed(self) -> bool {
        &&& 0 <= self.sample <= self.decoded_block@.sample_count
        &&& self.it_state is Reference ==> self.sample == 0
    }

    /// The chunk.
    pub closed spec fn block(&self) -> BlockView {
        self.decoded_block@
    }

    /// The size of the binary that held the chunk.
    pub closed spec fn chunk_size(&self) -> usize {
        self.decoded_block.chunk_size()
    }

    /// The number of items handed out.
    pub closed spec fn yielded(&self) -> int {
        if self.it_state is Reference {
            0
        } else {
            1 + self.sample
        }
    }

    /// Decodes the chunk of a metrics record and stands before its
    /// reference document.
    pub fn new(doc: &RawDocumentBuf) -> (r: Result<VectorMetricsReader, Error>)
        ensures
            match r {
                Ok(reader) => decoded_block(doc@) == Ok::<BlockView, Error>(reader.block())
                    && reader.yielded() == 0 && reader.chunk_size() == data_len(doc@),
                Err(e) => decoded_block(doc@) == Err::<BlockView, Error>(e),
            },
    {
        let decoded_block = match decode_metric_block(doc) {
            Ok(block) => block,
            Err(e) => {
                return Err(e);
            },
        };
        proof {
            use_type_invariant(&decoded_block);
        }
        Ok(VectorMetricsReader { decoded_block, it_state: MetricState::Reference, sample: 0 })
    }

    /// The chunk.
    pub fn decoded_block(&self) -> (r: &DecodedMetricBlock)
        ensures
            r@ == self.block(),
            r.chunk_size() == self.chunk_size(),
    {
        &self.decoded_block
    }

    /// The number of slots of a sample.
    pub fn get_metrics_count(&self) -> (r: usize)
        ensures
            r == self.block().metrics_count,
    {
        let count = self.decoded_block.metrics_count();
        count as usize
    }

    /// The next item: the reference document, then sample after sample,
    /// then nothing.
    pub fn next(&mut self) -> (r: Option<VectorMetricsDocument>)
        ensures
            final(self).block() == old(self).block(),
            final(self).chunk_size() == old(self).chunk_size(),
            match r {
                Some(VectorMetricsDocument::Reference(doc)) => {
                    &&& old(self).yielded() == 0
                    &&& final(self).yielded() == 1
                    &&& (*doc)@ == old(self).block().reference
                    &&& (*doc).bytes() == old(self).block().ref_bytes
                },
                Some(VectorMetricsDocument::Metrics(row)) => {
                    &&& 1 <= old(self).yielded() <= old(self).block().sample_count
                    &&& final(self).yielded() == old(self).yielded() + 1
                    &&& row@ == sample_row(old(self).block(), old(self).yielded() - 1)
                },
                None => {
                    &&& old(self).yielded() == old(self).block().sample_count + 1
                    &&& final(self).yielded() == old(self).yielded()
                },
            },
    {
        proof {
            use_type_invariant(&*self);
        }
        match self.it_state {
            MetricState::Reference => {
                self.it_state = MetricState::Metrics;
                Some(VectorMetricsDocument::Reference(self.decoded_block.ref_doc()))
            },
            MetricState::Metrics => {
                if self.sample == self.decoded_block.sample_count {
                    return None;
                }
                let row = match self.decoded_block.sample(self.sample) {
                    Some(row) => row,
                    None => {
                        assert(false);
                        return None;
                    },
                };
                self.sample = self.sample + 1;
                Some(VectorMetricsDocument::Metrics(row))
            },
        }
    }
}

/// A record of a stream.
#[derive(Debug)]
pub enum RawBSONBlock {
    /// A record of type 0 or 2.
    Metadata(RawDocumentBuf),
    /// A record of any other type: it carries a chunk.
    Metrics(RawDocumentBuf),
}

impl RawBSONBlock {
    /// The document of the record.
    pub open spec fn document(&self) -> RawDocumentBuf {
        match self {
            RawBSONBlock::Metadata(doc) => *doc,
            RawBSONBlock::Metrics(doc) => *doc,
        }
    }

    /// The document of the record.
    pub fn raw(&self) -> (r: &RawDocumentBuf)
        ensures
            *r == self.document(),
    {
        match self {
            RawBSONBlock::Metadata(doc) => doc,
            RawBSONBlock::Metrics(doc) => doc,
        }
    }

    /// Appends the bytes of the record to `out`.
    pub fn write_to(&self, out: &mut Vec<u8>)
        ensures
            final(out)@ == old(out)@ + self.document().bytes(),
    {
        append_bytes(out, self.raw().as_bytes());
    }
}

/// The length of the record that begins at `pos`: it states its own
/// length in its first four bytes, which count, and lies within `data`.
pub open spec fn frame_len(data: Seq<u8>, pos: int) -> Option<int> {
    if pos >= 0 && pos + 4 <= data.len() && 5 <= i32_at(data, pos) && pos + i32_at(data, pos)
        <= data.len() {
        Some(i32_at(data, pos) as int)
    } else {
        None
    }
}

/// The type of a record.
pub open spec fn record_type(fields: Seq<(Seq<char>, ValueView)>) -> Option<i32> {
    match field_value(fields, "type"@) {
        Some(ValueView::Int32(t)) => Some(t),
        _ => None,
    }
}

/// The records of `data` from `pos` on, as far as each states a length
/// that lies within `data`.
pub open spec fn frames(data: Seq<u8>, pos: int) -> Seq<Seq<u8>>
    decreases data.len() - pos,
{
    match frame_len(data, pos) {
        Some(n) => seq![data.subrange(pos, pos + n)] + frames(data, pos + n),
        None => Seq::empty(),
    }
}

/// The position after the last of those records.
pub open spec fn frames_end(data: Seq<u8>, pos: int) -> int
    decreases data.len() - pos,
{
    match frame_len(data, pos) {
        Some(n) => frames_end(data, pos + n),
        None => pos,
    }
}

/// The records written one after the other.
pub open spec fn concat_frames(records: Seq<Seq<u8>>) -> Seq<u8>
    decreases records.len(),
{
    if records.len() == 0 {
        Seq::empty()
    } else {
        records[0] + concat_frames(records.drop_first())
    }
}

/// Reading the records of a stream and writing them back gives the
/// stream again, byte for byte, as far as it was read; all of it where the
/// records fill the stream.
pub proof fn lemma_frames_roundtrip(data: Seq<u8>, pos: int)
    requires
        0 <= pos <= data.len(),
    ensures
        pos <= frames_end(data, pos) <= data.len(),
        concat_frames(frames(data, pos)) == data.subrange(pos, frames_end(data, pos)),
    decreases data.len() - pos,
{
    match frame_len(data, pos) {
        Some(n) => {
            lemma_frames_roundtrip(data, pos + n);
            let rest = frames(data, pos + n);
            let all = frames(data, pos);
            assert(all.drop_first() == rest);
            assert(data.subrange(pos, pos + n) + data.subrange(pos + n, frames_end(data, pos + n))
                == data.subrange(pos, frames_end(data, pos)));
        },
        None => {
            assert(data.subrange(pos, pos) == Seq::<u8>::empty());
        },
    }
}

/// Reads the records of a stream held in memory, one after the other.
pub struct BSONBlockReader {
    reader: Vec<u8>,
    pos: usize,
}

impl BSONBlockReader {
    #[verifier::type_invariant]
    spec fn well_formed(self) -> bool {
        self.pos <= self.reader@.len()
    }

    /// The bytes of the stream.
    pub closed spec fn stream(&self) -> Seq<u8> {
        self.reader@
    }

    /// The position of the next record.
    pub closed spec fn position(&self) -> int {
        self.pos as int
    }

    /// A reader at the start of `data`.
    pub fn new_reader(data: Vec<u8>) -> (r: BSONBlockReader)
        ensures
            r.stream() == data@,
            r.position() == 0,
    {
        BSONBlockReader { reader: data, pos: 0 }
    }

    /// The next record; `None` at the end of the stream. `BadEnvelope`,
    /// with the reader staying where it is, where the bytes at the
    /// position are no record: the length that they state is below five
    /// or goes beyond the stream, they are no well-formed document, or the
    /// document has no 32-bit integer `type`.
    pub fn next(&mut self) -> (r: Result<Option<RawBSONBlock>, Error>)
        ensures
            final(self).stream() == old(self).stream(),
            0 <= old(self).position() <= old(self).stream().len(),
            match r {
                Ok(None) => {
                    &&& old(self).position() == old(self).stream().len()
                    &&& final(self).position() == old(self).position()
                },
                Ok(Some(block)) => {
                    &&& frame_len(old(self).stream(), old(self).position()) matches Some(n)
                    &&& block.document().bytes() == old(self).stream().subrange(
                        old(self).position(),
                        old(self).position() + n,
                    )
                    &&& final(self).position() == old(self).position() + n
                    &&& record_type(block.document()@) matches Some(t)
                    &&& block is Metadata <==> t == 0 || t == 2
                },
                Err(e) => {
                    &&& e == Error::BadEnvelope
                    &&& final(self).position() == old(self).position()
                    &&& old(self).position() < old(self).stream().len()
                    &&& match frame_len(old(self).stream(), old(self).position()) {
                        None => true,
                        Some(n) => match bson_document(
                            old(self).stream().subrange(
                                old(self).position(),
                                old(self).position() + n,
                            ),
                        ) {
                            None => true,
                            Some(fields) => record_type(fields) is None,
                        },
                    }
                },
            },
    {
        proof {
            use_type_invariant(&*self);
        }
        let len = self.reader.len();
        if self.pos == len {
            return Ok(None);
        }
        if len - self.pos < 4 {
            return Err(Error::BadEnvelope);
        }
        let size = read_i32_le(self.reader.as_slice(), self.pos);
        if size < 5 || size as usize > len - self.pos {
            return Err(Error::BadEnvelope);
        }
        let end = self.pos + size as usize;
        let doc = match RawDocumentBuf::from_bytes(copy_range(self.reader.as_slice(), self.pos, end)) {
            Ok(doc) => doc,
            Err(e) => {
                return Err(e);
            },
        };
        let ftdc_type = match doc.document().get_i32("type") {
            Some(t) => t,
            None => {
                return Err(Error::BadEnvelope);
            },
        };
        self.pos = end;
        if ftdc_type == 0 || ftdc_type == 2 {
            Ok(Some(RawBSONBlock::Metadata(doc)))
        } else {
            Ok(Some(RawBSONBlock::Metrics(doc)))
        }
    }
}

} // verus!
