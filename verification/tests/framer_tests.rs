use ftdc::document::{Document, Value};
use ftdc::error::Error;
use ftdc::raw::{to_vec, RawDocumentBuf};
use ftdc::reader::{decode_metric_block, BSONBlockReader, RawBSONBlock};
use ftdc::writer::{
    gen_metadata_document, gen_metrics_document, write_doc_to_writer, BSONBlockWriter,
};

fn sample(a: i64) -> Document {
    Document {
        fields: vec![
            ("start".to_string(), Value::DateTime(a)),
            ("a".to_string(), Value::Int64(a * 3)),
            ("host".to_string(), Value::String("h".to_string())),
        ],
    }
}

fn stream() -> Vec<u8> {
    let mut writer = BSONBlockWriter::new_bytes(3);
    let meta = Document { fields: vec![("version".to_string(), Value::Int32(4))] };
    writer.add_metdata_doc(&meta, 5).unwrap();
    for i in 0..7 {
        writer.add_sample(&sample(i), 100 + i).unwrap();
    }
    writer.flush().unwrap();
    let bytes = writer.take_bytes();
    assert!(writer.take_bytes().is_empty());
    bytes
}

fn read_all(data: Vec<u8>) -> Vec<RawBSONBlock> {
    let mut reader = BSONBlockReader::new_reader(data);
    let mut blocks = Vec::new();
    while let Some(block) = reader.next().unwrap() {
        blocks.push(block);
    }
    assert!(reader.next().unwrap().is_none());
    blocks
}

#[test]
fn records_are_read_in_order() {
    let blocks = read_all(stream());
    assert_eq!(blocks.len(), 4);
    match &blocks[0] {
        RawBSONBlock::Metadata(d) => {
            let meta = Document { fields: vec![("version".to_string(), Value::Int32(4))] };
            assert_eq!(d.document(), &gen_metadata_document(&meta, 5));
        }
        other => panic!("no metadata: {:?}", other),
    }
    let mut samples = Vec::new();
    for (i, block) in blocks[1..].iter().enumerate() {
        match block {
            RawBSONBlock::Metrics(d) => {
                let decoded = decode_metric_block(d).unwrap();
                assert_eq!(decoded.ref_doc().document(), &sample(3 * i as i64));
                samples.push(decoded.sample_count() + 1);
                // A chunk carries the time of its own reference.
                let stamp = 100 + 3 * i as i64;
                assert_eq!(d.document().get("_id"), Some(&Value::DateTime(stamp)));
                assert_eq!(d.document().get_i32("type"), Some(1));
            }
            other => panic!("no metrics: {:?}", other),
        }
    }
    assert_eq!(samples, vec![3, 3, 1]);
}

#[test]
fn writing_back_what_was_read_gives_the_stream() {
    let data = stream();
    let mut out = Vec::new();
    for block in read_all(data.clone()) {
        block.write_to(&mut out);
    }
    assert_eq!(out, data);
}

#[test]
fn an_empty_stream_has_no_records() {
    assert!(read_all(Vec::new()).is_empty());
}

#[test]
fn type_two_is_metadata_and_any_other_type_is_metrics() {
    let mut data = Vec::new();
    for t in [0, 2, 1, 3, -1] {
        let d = Document {
            fields: vec![("type".to_string(), Value::Int32(t)), ("x".to_string(), Value::Null)],
        };
        write_doc_to_writer(&mut data, &d).unwrap();
    }
    let kinds: Vec<bool> =
        read_all(data).iter().map(|b| matches!(b, RawBSONBlock::Metadata(_))).collect();
    assert_eq!(kinds, vec![true, true, false, false, false]);
}

#[test]
fn records_that_are_not_records_are_refused() {
    let typed = to_vec(&Document { fields: vec![("type".to_string(), Value::Int32(0))] }).unwrap();
    let refused = |data: Vec<u8>| {
        let mut reader = BSONBlockReader::new_reader(data);
        let first = reader.next();
        // The reader stays where it is.
        assert_eq!(reader.next().err(), first.as_ref().err().copied());
        first.err()
    };
    assert_eq!(refused(typed.clone()), None);
    assert_eq!(refused(vec![1, 2]), Some(Error::BadEnvelope));
    assert_eq!(refused(vec![4, 0, 0, 0]), Some(Error::BadEnvelope));
    assert_eq!(refused(vec![0xff, 0xff, 0xff, 0xff, 0]), Some(Error::BadEnvelope));
    assert_eq!(refused(typed[..typed.len() - 1].to_vec()), Some(Error::BadEnvelope));
    let untyped = to_vec(&Document { fields: vec![("x".to_string(), Value::Int32(0))] }).unwrap();
    assert_eq!(refused(untyped), Some(Error::BadEnvelope));
    let wrong = to_vec(&Document { fields: vec![("type".to_string(), Value::Int64(0))] }).unwrap();
    assert_eq!(refused(wrong), Some(Error::BadEnvelope));
    let mut broken = typed.clone();
    broken[4] = 0x7f;
    assert_eq!(refused(broken), Some(Error::BadEnvelope));

    // A good record in front of a bad one is still read.
    let mut data = typed.clone();
    data.extend_from_slice(&[9, 9]);
    let mut reader = BSONBlockReader::new_reader(data);
    assert!(matches!(reader.next(), Ok(Some(RawBSONBlock::Metadata(_)))));
    assert_eq!(reader.next().err(), Some(Error::BadEnvelope));
}

#[test]
fn records_have_the_fields_of_the_format() {
    let meta = gen_metadata_document(&sample(1), 42);
    assert_eq!(
        meta,
        Document {
            fields: vec![
                ("_id".to_string(), Value::DateTime(42)),
                ("type".to_string(), Value::Int32(0)),
                ("doc".to_string(), Value::Document(sample(1))),
            ],
        }
    );
    let metrics = gen_metrics_document(&[1, 2, 3], 43);
    assert_eq!(
        metrics,
        Document {
            fields: vec![
                ("_id".to_string(), Value::DateTime(43)),
                ("type".to_string(), Value::Int32(1)),
                ("data".to_string(), Value::Binary { subtype: 0, bytes: vec![1, 2, 3] }),
            ],
        }
    );
    let raw = RawDocumentBuf::from_document(metrics).unwrap();
    let mut expected = bson::Document::new();
    expected.insert("_id", bson::Bson::DateTime(bson::DateTime::from_millis(43)));
    expected.insert("type", bson::Bson::Int32(1));
    expected.insert(
        "data",
        bson::Bson::Binary(bson::Binary {
            subtype: bson::spec::BinarySubtype::Generic,
            bytes: vec![1, 2, 3],
        }),
    );
    assert_eq!(raw.as_bytes(), &bson::to_vec(&expected).unwrap()[..]);
}

#[test]
fn a_failed_write_leaves_the_output_as_it_was() {
    let mut out = vec![1, 2, 3];
    let bad = Document { fields: vec![("a\0".to_string(), Value::Null)] };
    assert_eq!(write_doc_to_writer(&mut out, &bad), Err(Error::Unsupported));
    assert_eq!(out, vec![1, 2, 3]);
    let mut writer = BSONBlockWriter::new_bytes(2);
    assert_eq!(writer.add_metdata_doc(&bad, 0), Err(Error::Unsupported));
    assert!(writer.take_bytes().is_empty());
}
