use ftdc::document::{Document, Value};
use ftdc::error::Error;
use ftdc::raw::RawDocumentBuf;
use ftdc::reader::{
    decode_block_body, decode_metric_block, decode_samples, get_array_offset, MetricsDocument,
    MetricsReader, VectorMetricsDocument, VectorMetricsReader,
};
use ftdc::rle::{rle_decode, rle_encode};
use ftdc::writer::{
    encode_block, encode_samples, frame_block, gen_metrics_document, AddResult, BSONBlockWriter,
    BSONMetricsCompressor,
};

fn sample(a: i32, x: i32) -> Document {
    Document {
        fields: vec![
            ("a".to_string(), Value::Int32(a)),
            ("x".to_string(), Value::Int32(x)),
            ("s".to_string(), Value::String("t".to_string())),
        ],
    }
}

fn slots_doc(values: &[i64]) -> Document {
    let mut fields = Vec::new();
    for (i, v) in values.iter().enumerate() {
        fields.push((format!("m{}", i), Value::Int64(*v)));
    }
    Document { fields }
}

fn record_of(chunk: &[u8]) -> RawDocumentBuf {
    RawDocumentBuf::from_document(gen_metrics_document(chunk, 0)).unwrap()
}

#[test]
fn test_roundtrip_compressor() {
    let mut writer = BSONMetricsCompressor::new(3);

    assert_eq!(writer.add_doc(&sample(1, 2), 0).unwrap(), AddResult::NewBlock(None));
    assert_eq!(writer.add_doc(&sample(2, 2), 0).unwrap(), AddResult::ExistingBlock);
    assert_eq!(writer.add_doc(&sample(3, 2), 0).unwrap(), AddResult::ExistingBlock);

    let addresult = writer.add_doc(&sample(7, 9), 0).unwrap();

    assert_ne!(addresult, AddResult::ExistingBlock);

    match addresult {
        AddResult::ExistingBlock => {
            assert!(false);
        }
        AddResult::NewBlock(met_opt) => {
            let (met, _) = met_opt.unwrap();

            let d1 = Document {
                fields: vec![("data".to_string(), Value::Binary { subtype: 0, bytes: met })],
            };
            let dmbr = decode_metric_block(&RawDocumentBuf::from_document(d1).unwrap());
            assert!(dmbr.is_ok());
            let dmb = dmbr.unwrap();
            assert_eq!(dmb.sample_count(), 2);
            assert_eq!(dmb.metrics_count(), 2);
            println!("{:?}", dmb.ref_doc());
            assert_eq!(dmb.raw_metrics(), &vec![2, 3, 2, 2]);
        }
    }
}

#[test]
fn test_roundtrip_bson() {
    let mut writer = BSONBlockWriter::new_bytes(3);

    assert!(writer.add_sample(&sample(1, 2), 1024).is_ok());
    assert!(writer.add_sample(&sample(2, 2), 1024).is_ok());
    assert!(writer.add_sample(&sample(3, 2), 1024).is_ok());
}

#[test]
fn basic_chunk_is_emitted_by_the_fourth_sample() {
    let mut encoder = BSONMetricsCompressor::new(3);
    assert_eq!(encoder.add_doc(&sample(1, 2), 10).unwrap(), AddResult::NewBlock(None));
    assert_eq!(encoder.add_doc(&sample(2, 2), 11).unwrap(), AddResult::ExistingBlock);
    assert_eq!(encoder.add_doc(&sample(3, 2), 12).unwrap(), AddResult::ExistingBlock);
    let (chunk, date) = match encoder.add_doc(&sample(7, 9), 13).unwrap() {
        AddResult::NewBlock(Some(found)) => found,
        other => panic!("no chunk: {:?}", other),
    };
    // The chunk comes with the time of its own reference.
    assert_eq!(date, 10);

    // The deltas before inflation: slot 0 is 1, 1; slot 1 is 0, 0.
    let size = i32::from_le_bytes([chunk[0], chunk[1], chunk[2], chunk[3]]) as usize;
    let mut body = Vec::new();
    let mut decoder = libflate::zlib::Decoder::new(&chunk[4..]).unwrap();
    std::io::Read::read_to_end(&mut decoder, &mut body).unwrap();
    assert_eq!(body.len(), size);
    let ref_len = i32::from_le_bytes([body[0], body[1], body[2], body[3]]) as usize;
    assert_eq!(&body[ref_len..ref_len + 4], &2i32.to_le_bytes());
    assert_eq!(&body[ref_len + 4..ref_len + 8], &2i32.to_le_bytes());
    assert_eq!(&body[ref_len + 8..], &[1, 1, 0, 1]);

    let block = decode_metric_block(&record_of(&chunk)).unwrap();
    assert_eq!(block.metrics_count(), 2);
    assert_eq!(block.sample_count(), 2);
    assert_eq!(block.raw_metrics(), &vec![2, 3, 2, 2]);
    assert_eq!(block.ref_doc().document(), &sample(1, 2));
    assert_eq!(block.ref_doc_size_bytes(), ref_len);
    assert_eq!(block.chunk_size_bytes(), chunk.len());
}

#[test]
fn run_of_zeros_is_one_marker_and_one_count() {
    let zeros = vec![0u64; 500];
    let encoded = rle_encode(&zeros);
    assert_eq!(encoded, vec![0x00, 0xf3, 0x03]);
    assert_eq!(rle_decode(&encoded, 0, 500).unwrap(), zeros);

    // 100 samples of 5 slots that never change.
    let reference = vec![7u64, 8, 9, 10, 11];
    let rows = vec![reference.clone(); 100];
    let payload = encode_samples(&reference, &rows);
    assert_eq!(payload, vec![0x00, 0xf3, 0x03]);
    let values = decode_samples(&payload, 0, &reference, 100).unwrap();
    assert_eq!(values.len(), 500);
    for m in 0..5 {
        for s in 0..100 {
            assert_eq!(values[m * 100 + s], reference[m]);
        }
    }
}

#[test]
fn single_zero_is_a_run_of_one() {
    assert_eq!(rle_encode(&vec![0]), vec![0, 0]);
    assert_eq!(rle_encode(&vec![5, 0, 6]), vec![5, 0, 0, 6]);
    assert_eq!(rle_encode(&vec![5, 0, 0, 0]), vec![5, 0, 2]);
    assert_eq!(rle_encode(&vec![]), Vec::<u8>::new());
    assert_eq!(rle_decode(&[5, 0, 2], 0, 4).unwrap(), vec![5, 0, 0, 0]);
    assert_eq!(rle_decode(&[9, 5, 0, 0, 6], 1, 3).unwrap(), vec![5, 0, 6]);
}

#[test]
fn run_beyond_the_last_value_is_refused() {
    assert_eq!(rle_decode(&[0, 2], 0, 3).unwrap(), vec![0, 0, 0]);
    assert_eq!(rle_decode(&[0, 9], 0, 3), Err(Error::TrailingBytes));
    assert_eq!(rle_decode(&[0, 3], 0, 3), Err(Error::TrailingBytes));
    assert_eq!(rle_decode(&[7, 0, 1], 0, 2), Err(Error::TrailingBytes));
    // One slot, one sample, and a run of six zeros.
    assert_eq!(decode_samples(&[0, 5], 0, &vec![4], 1), Err(Error::TrailingBytes));
    assert_eq!(decode_samples(&[0, 0], 0, &vec![4], 1), Ok(vec![4]));
    let body = body_of(&slots_doc(&[4]), 1, 1, &[0, 5]);
    assert_eq!(decode_block_body(&body, 0).err(), Some(Error::TrailingBytes));
}

#[test]
fn schema_change_closes_the_chunk() {
    let mut encoder = BSONMetricsCompressor::new(100);
    assert_eq!(encoder.add_doc(&slots_doc(&[1, 2]), 1).unwrap(), AddResult::NewBlock(None));
    assert_eq!(encoder.add_doc(&slots_doc(&[3, 4]), 2).unwrap(), AddResult::ExistingBlock);
    let (chunk, date) = match encoder.add_doc(&slots_doc(&[5, 6, 7]), 3).unwrap() {
        AddResult::NewBlock(Some(found)) => found,
        other => panic!("no chunk: {:?}", other),
    };
    assert_eq!(date, 1);
    let block = decode_metric_block(&record_of(&chunk)).unwrap();
    assert_eq!(block.ref_doc().document(), &slots_doc(&[1, 2]));
    assert_eq!(block.sample_count(), 1);
    assert_eq!(block.raw_metrics(), &vec![3, 4]);

    // The sample that closed the chunk is the next reference.
    let (next, _) = encoder.flush().unwrap().unwrap();
    let block = decode_metric_block(&record_of(&next)).unwrap();
    assert_eq!(block.ref_doc().document(), &slots_doc(&[5, 6, 7]));
    assert_eq!(block.metrics_count(), 3);
    assert_eq!(block.sample_count(), 0);
}

#[test]
fn reference_alone_is_written_on_flush() {
    let mut encoder = BSONMetricsCompressor::new(10);
    let doc = sample(4, 5);
    assert_eq!(encoder.add_doc(&doc, 77).unwrap(), AddResult::NewBlock(None));
    let (chunk, date) = encoder.flush().unwrap().unwrap();
    assert_eq!(date, 77);
    assert_eq!(encoder.flush().unwrap(), None);

    let record = record_of(&chunk);
    let block = decode_metric_block(&record).unwrap();
    assert_eq!(block.sample_count(), 0);
    assert_eq!(block.metrics_count(), 2);
    assert!(block.raw_metrics().is_empty());

    let mut body = Vec::new();
    let mut decoder = libflate::zlib::Decoder::new(&chunk[4..]).unwrap();
    std::io::Read::read_to_end(&mut decoder, &mut body).unwrap();
    assert_eq!(body.len(), block.ref_doc_size_bytes() + 8);

    let mut reader = MetricsReader::new(&record).unwrap();
    match reader.next() {
        Some(MetricsDocument::Reference(d)) => assert_eq!(d.document(), &doc),
        other => panic!("no reference: {:?}", other),
    }
    assert!(reader.next().is_none());
    assert!(reader.next().is_none());
}

#[test]
fn flush_without_a_chunk_gives_nothing() {
    let mut encoder = BSONMetricsCompressor::new(10);
    assert_eq!(encoder.flush().unwrap(), None);
}

#[test]
fn wrapping_delta_round_trips() {
    let reference = vec![u64::MAX];
    let rows = vec![vec![0u64]];
    let payload = encode_samples(&reference, &rows);
    assert_eq!(payload, vec![1]);
    assert_eq!(decode_samples(&payload, 0, &reference, 1).unwrap(), vec![0]);

    let rows = vec![vec![u64::MAX], vec![0u64]];
    let reference = vec![u64::MAX];
    let payload = encode_samples(&reference, &rows);
    assert_eq!(payload, vec![0, 0, 1]);
    assert_eq!(decode_samples(&payload, 0, &reference, 2).unwrap(), vec![u64::MAX, 0]);
}

#[test]
fn steps_of_two_to_the_63_round_trip() {
    let step = 1u64 << 63;
    let reference = vec![5u64, 9];
    let rows = vec![
        vec![5u64.wrapping_add(step), 9],
        vec![5u64, 9u64.wrapping_add(step)],
        vec![5u64.wrapping_add(step), 9],
    ];
    let payload = encode_samples(&reference, &rows);
    let values = decode_samples(&payload, 0, &reference, 3).unwrap();
    assert_eq!(
        values,
        vec![rows[0][0], rows[1][0], rows[2][0], rows[0][1], rows[1][1], rows[2][1]]
    );
}

#[test]
fn no_chunk_holds_more_samples_than_the_capacity() {
    let capacity = 4;
    let mut encoder = BSONMetricsCompressor::new(capacity);
    let mut chunks = Vec::new();
    for i in 0..10 {
        if let AddResult::NewBlock(Some((chunk, _))) =
            encoder.add_doc(&slots_doc(&[i, 2 * i]), i).unwrap()
        {
            chunks.push(chunk);
        }
    }
    if let Some((chunk, _)) = encoder.flush().unwrap() {
        chunks.push(chunk);
    }
    assert_eq!(chunks.len(), 3);
    let mut total = 0;
    for chunk in chunks {
        let block = decode_metric_block(&record_of(&chunk)).unwrap();
        assert!(block.sample_count() as usize + 1 <= capacity);
        total += block.sample_count() as usize + 1;
    }
    assert_eq!(total, 10);
}

#[test]
fn capacity_of_one_or_none_gives_chunks_of_the_reference_alone() {
    for capacity in [0usize, 1] {
        let mut encoder = BSONMetricsCompressor::new(capacity);
        assert_eq!(encoder.add_doc(&slots_doc(&[1]), 1).unwrap(), AddResult::NewBlock(None));
        match encoder.add_doc(&slots_doc(&[2]), 2).unwrap() {
            AddResult::NewBlock(Some((chunk, _))) => {
                let block = decode_metric_block(&record_of(&chunk)).unwrap();
                assert_eq!(block.sample_count(), 0);
            }
            other => panic!("no chunk: {:?}", other),
        }
    }
}

#[test]
fn empty_reference_leaves_no_chunk_open() {
    let mut encoder = BSONMetricsCompressor::new(5);
    let empty = Document { fields: vec![] };
    assert_eq!(encoder.add_doc(&empty, 1).unwrap(), AddResult::NewBlock(None));
    assert_eq!(encoder.add_doc(&empty, 2).unwrap(), AddResult::NewBlock(None));
    assert_eq!(encoder.flush().unwrap(), None);
}

#[test]
fn samples_come_back_as_documents_and_as_rows() {
    let docs: Vec<Document> = (0..5).map(|i| sample(i, 100 - i)).collect();
    let mut encoder = BSONMetricsCompressor::new(10);
    for (i, d) in docs.iter().enumerate() {
        encoder.add_doc(d, i as i64).unwrap();
    }
    let (chunk, date) = encoder.flush().unwrap().unwrap();
    assert_eq!(date, 0);
    let record = record_of(&chunk);

    let mut reader = MetricsReader::new(&record).unwrap();
    assert_eq!(reader.decoded_block().sample_count(), 4);
    let mut seen = Vec::new();
    while let Some(item) = reader.next() {
        match item {
            MetricsDocument::Reference(d) => seen.push(d.document().clone()),
            MetricsDocument::Metrics(d) => seen.push(d),
        }
    }
    assert_eq!(seen, docs);

    let mut reader = VectorMetricsReader::new(&record).unwrap();
    assert_eq!(reader.get_metrics_count(), 2);
    let mut rows = Vec::new();
    let mut references = 0;
    while let Some(item) = reader.next() {
        match item {
            VectorMetricsDocument::Reference(d) => {
                references += 1;
                assert_eq!(d.document(), &docs[0]);
            }
            VectorMetricsDocument::Metrics(row) => rows.push(row),
        }
    }
    assert_eq!(references, 1);
    assert_eq!(rows, vec![vec![1, 99], vec![2, 98], vec![3, 97], vec![4, 96]]);
}

#[test]
fn reference_comes_back_byte_for_byte() {
    let doc = sample(1, 2);
    let mut encoder = BSONMetricsCompressor::new(4);
    encoder.add_doc(&doc, 0).unwrap();
    encoder.add_doc(&sample(5, 6), 1).unwrap();
    let (chunk, _) = encoder.flush().unwrap().unwrap();
    let block = decode_metric_block(&record_of(&chunk)).unwrap();
    assert_eq!(block.ref_doc().as_bytes(), &ftdc::raw::to_vec(&doc).unwrap()[..]);
    let mut reader = VectorMetricsReader::new(&record_of(&chunk)).unwrap();
    match reader.next() {
        Some(VectorMetricsDocument::Reference(d)) => {
            assert_eq!(d.as_bytes(), &ftdc::raw::to_vec(&doc).unwrap()[..])
        }
        other => panic!("no reference: {:?}", other),
    }
}

#[test]
fn samples_are_columns_of_the_matrix() {
    let reference = slots_doc(&[1, 2, 3]);
    let body = body_of(&reference, 3, 2, &[1, 1, 1, 1, 1, 1]);
    let block = decode_block_body(&body, 0).unwrap();
    assert_eq!(block.raw_metrics(), &vec![2, 3, 3, 4, 4, 5]);
    assert_eq!(block.sample(0), Some(vec![2, 3, 4]));
    assert_eq!(block.sample(1), Some(vec![3, 4, 5]));
    assert_eq!(block.sample(2), None);
    assert_eq!(block.sample(-1), None);
}

#[test]
fn decoding_past_the_end_fails() {
    assert_eq!(rle_decode(&[1, 2], 3, 1), Err(Error::Truncated));
    assert_eq!(rle_decode(&[1, 2], 3, 0), Err(Error::TrailingBytes));
    assert_eq!(rle_decode(&[1, 2], 2, 0), Ok(vec![]));
    assert_eq!(rle_decode(&[1, 2], 1, 0), Err(Error::TrailingBytes));
    assert_eq!(decode_samples(&[], 0, &vec![1, 2], 0), Ok(vec![]));
    assert_eq!(decode_samples(&[7], 0, &vec![1, 2], 0), Err(Error::TrailingBytes));
    assert_eq!(decode_samples(&[], 0, &vec![], 5), Ok(vec![]));
}

#[test]
fn offsets_are_column_major() {
    assert_eq!(get_array_offset(4, 0, 0), 0);
    assert_eq!(get_array_offset(4, 3, 0), 3);
    assert_eq!(get_array_offset(4, 1, 2), 9);
}

#[test]
fn block_is_length_then_compressed_body() {
    assert_eq!(frame_block(0x0102, &[9, 8]), vec![0x02, 0x01, 0, 0, 9, 8]);
    let ref_bytes = ftdc::raw::to_vec(&slots_doc(&[1])).unwrap();
    let body = encode_block(&ref_bytes, &vec![1], &vec![vec![3], vec![3]]).unwrap();
    let mut expected = ref_bytes.clone();
    expected.extend_from_slice(&[1, 0, 0, 0, 2, 0, 0, 0, 2, 0, 0]);
    assert_eq!(body, expected);
}

#[test]
fn decimal_is_unsupported_and_leaves_the_encoder_as_it_was() {
    let mut encoder = BSONMetricsCompressor::new(5);
    encoder.add_doc(&slots_doc(&[1]), 1).unwrap();
    let bad = Document { fields: vec![("d".to_string(), Value::Decimal128([0; 16]))] };
    assert_eq!(encoder.add_doc(&bad, 2), Err(Error::Unsupported));
    assert_eq!(encoder.add_doc(&slots_doc(&[2]), 3).unwrap(), AddResult::ExistingBlock);
    let (chunk, _) = encoder.flush().unwrap().unwrap();
    let block = decode_metric_block(&record_of(&chunk)).unwrap();
    assert_eq!(block.raw_metrics(), &vec![2]);
}

#[test]
fn unwritable_reference_fails_the_flush() {
    let mut encoder = BSONMetricsCompressor::new(5);
    let doc = Document { fields: vec![("a\0b".to_string(), Value::Int32(1))] };
    encoder.add_doc(&doc, 1).unwrap();
    assert_eq!(encoder.flush(), Err(Error::Unsupported));
    assert_eq!(encoder.flush_block(), Err(Error::Unsupported));
    let regex = Value::RegularExpression { pattern: "a".to_string(), options: "xi".to_string() };
    let doc = Document { fields: vec![("r".to_string(), regex)] };
    let mut encoder = BSONMetricsCompressor::new(5);
    encoder.add_doc(&doc, 1).unwrap();
    assert_eq!(encoder.flush(), Err(Error::Unsupported));
}

#[test]
fn chunk_with_a_database_pointer_is_written() {
    let mut bytes = vec![0, 0, 0, 0, 0x0c, b'p', 0, 2, 0, 0, 0, b'n', 0];
    bytes.extend_from_slice(&[7; 12]);
    bytes.extend_from_slice(&[0x10, b'a', 0, 1, 0, 0, 0]);
    bytes.push(0);
    bytes[0] = bytes.len() as u8;
    let reference = ftdc::raw::from_slice(&bytes).unwrap();
    let mut encoder = BSONMetricsCompressor::new(5);
    encoder.add_doc(&reference, 1).unwrap();
    encoder.add_doc(&reference, 2).unwrap();
    let (chunk, date) = encoder.flush().unwrap().unwrap();
    assert_eq!(date, 1);
    let record = record_of(&chunk);
    let block = decode_metric_block(&record).unwrap();
    assert_eq!(block.ref_doc().as_bytes(), &bytes[..]);
    assert_eq!(block.chunk_size_bytes(), chunk.len());
    let mut reader = MetricsReader::new(&record).unwrap();
    reader.next();
    match reader.next() {
        Some(MetricsDocument::Metrics(d)) => assert_eq!(d, reference),
        other => panic!("no sample: {:?}", other),
    }
}

fn body_of(reference: &Document, metrics: i32, samples: i32, payload: &[u8]) -> Vec<u8> {
    let mut body = ftdc::raw::to_vec(reference).unwrap();
    body.extend_from_slice(&metrics.to_le_bytes());
    body.extend_from_slice(&samples.to_le_bytes());
    body.extend_from_slice(payload);
    body
}

#[test]
fn decoder_errors() {
    let reference = slots_doc(&[1, 2]);
    let err = |body: &[u8]| decode_block_body(body, 0).err();

    assert_eq!(err(&body_of(&reference, 3, 1, &[1, 1, 1])), Some(Error::SchemaMismatch));
    assert_eq!(err(&body_of(&reference, -1, 1, &[])), Some(Error::SchemaMismatch));
    assert_eq!(err(&body_of(&reference, 2, -1, &[])), Some(Error::BadEnvelope));
    assert_eq!(err(&body_of(&reference, 2, 1, &[1])), Some(Error::Truncated));
    assert_eq!(err(&body_of(&reference, 2, 1, &[1, 0x80])), Some(Error::Truncated));
    assert_eq!(err(&body_of(&reference, 2, 1, &[1, 1, 1])), Some(Error::TrailingBytes));
    assert_eq!(err(&[1, 2, 3]), Some(Error::BadEnvelope));
    assert_eq!(err(&[4, 0, 0, 0, 0, 0, 0, 0, 0, 0, 0, 0, 0]), Some(Error::BadEnvelope));
    assert_eq!(err(&[100, 0, 0, 0, 0]), Some(Error::BadEnvelope));
    let mut broken = body_of(&reference, 2, 0, &[]);
    broken[4] = 0xff;
    assert_eq!(err(&broken), Some(Error::BadEnvelope));
    let decimal = Document { fields: vec![("d".to_string(), Value::Decimal128([1; 16]))] };
    assert_eq!(err(&body_of(&decimal, 0, 0, &[])), Some(Error::Unsupported));

    let ok = decode_block_body(&body_of(&reference, 2, 1, &[1, 1]), 9).unwrap();
    assert_eq!(ok.raw_metrics(), &vec![2, 3]);
    assert_eq!(ok.chunk_size_bytes(), 9);
    // With no samples the payload is not read.
    let ok = decode_block_body(&body_of(&reference, 2, 0, &[7, 7]), 0).unwrap();
    assert!(ok.raw_metrics().is_empty());
}

#[test]
fn record_errors() {
    let no_data = Document { fields: vec![("type".to_string(), Value::Int32(1))] };
    let decode = |d: Document| decode_metric_block(&RawDocumentBuf::from_document(d).unwrap()).err();
    assert_eq!(decode(no_data), Some(Error::BadEnvelope));
    let wrong_kind = Document { fields: vec![("data".to_string(), Value::Int32(1))] };
    assert_eq!(decode(wrong_kind), Some(Error::BadEnvelope));
    let wrong_subtype = Document {
        fields: vec![("data".to_string(), Value::Binary { subtype: 4, bytes: vec![0; 16] })],
    };
    assert_eq!(decode(wrong_subtype), Some(Error::BadEnvelope));
    let short = Document {
        fields: vec![("data".to_string(), Value::Binary { subtype: 0, bytes: vec![0; 3] })],
    };
    assert_eq!(decode(short), Some(Error::BadEnvelope));
    let garbage = Document {
        fields: vec![("data".to_string(), Value::Binary { subtype: 0, bytes: vec![0xab; 32] })],
    };
    assert_eq!(decode(garbage), Some(Error::Compression));
}

#[test]
fn error_messages_say_what_failed() {
    assert_eq!(Error::Unsupported.message(), "unsupported value in document");
    assert_eq!(
        Error::SchemaMismatch.message(),
        "metric count differs from the reference document"
    );
    assert_eq!(Error::Truncated.message(), "metric payload is truncated");
    assert_eq!(Error::TrailingBytes.message(), "bytes left after the metric payload");
    assert_eq!(Error::BadEnvelope.message(), "malformed record");
    assert_eq!(
        Error::SlotCountMismatch.message(),
        "row length differs from the reference document"
    );
    assert_eq!(Error::Compression.message(), "compression failed");
}

#[test]
fn error_messages_are_distinct() {
    let all = [
        Error::Unsupported,
        Error::SchemaMismatch,
        Error::Truncated,
        Error::TrailingBytes,
        Error::BadEnvelope,
        Error::SlotCountMismatch,
        Error::Compression,
    ];
    for (i, a) in all.iter().enumerate() {
        for b in all.iter().skip(i + 1) {
            assert_ne!(a.message(), b.message());
        }
    }
}
