use ftdc::document::{Document, Value};
use ftdc::error::Error;
use ftdc::raw::{from_slice, to_vec, RawDocumentBuf};

fn field(name: &str, value: Value) -> (String, Value) {
    (name.to_string(), value)
}

fn doc(fields: Vec<(String, Value)>) -> Document {
    Document { fields }
}

/// One field of every kind that can be written, with the same document
/// as the `bson` crate holds it.
fn every_kind() -> (Document, bson::Document) {
    let inner = doc(vec![field("k", Value::Int32(-3)), field("s", Value::String("é".to_string()))]);
    let mut bson_inner = bson::Document::new();
    bson_inner.insert("k", bson::Bson::Int32(-3));
    bson_inner.insert("s", bson::Bson::String("é".to_string()));

    let ours = doc(vec![
        field("double", Value::Double(6.25f64.to_bits())),
        field("string", Value::String("text\0with nul".to_string())),
        field(
            "array",
            Value::Array(vec![
                Value::Int64(1),
                Value::Array(vec![Value::Null, Value::Boolean(true)]),
                Value::Document(inner.clone()),
            ]),
        ),
        field("document", Value::Document(inner.clone())),
        field("empty", Value::Document(doc(vec![]))),
        field("none", Value::Array(vec![])),
        field("boolean", Value::Boolean(false)),
        field("null", Value::Null),
        field(
            "regex",
            Value::RegularExpression { pattern: "^a.*".to_string(), options: "im".to_string() },
        ),
        field("code", Value::JavaScriptCode("f()".to_string())),
        field(
            "scoped",
            Value::JavaScriptCodeWithScope { code: "g(x)".to_string(), scope: inner.clone() },
        ),
        field("int32", Value::Int32(i32::MIN)),
        field("int64", Value::Int64(i64::MAX)),
        field("timestamp", Value::Timestamp { time: 1000, increment: 7 }),
        field("binary", Value::Binary { subtype: 0, bytes: vec![1, 2, 3] }),
        field("old", Value::Binary { subtype: 2, bytes: vec![4, 5] }),
        field("user", Value::Binary { subtype: 0x80, bytes: vec![] }),
        field("oid", Value::ObjectId([1, 2, 3, 4, 5, 6, 7, 8, 9, 10, 11, 12])),
        field("datetime", Value::DateTime(-12345)),
        field("symbol", Value::Symbol("sym".to_string())),
        field("decimal", Value::Decimal128([9; 16])),
        field("undefined", Value::Undefined),
        field("max", Value::MaxKey),
        field("min", Value::MinKey),
    ]);

    let mut theirs = bson::Document::new();
    theirs.insert("double", bson::Bson::Double(6.25));
    theirs.insert("string", bson::Bson::String("text\0with nul".to_string()));
    theirs.insert(
        "array",
        bson::Bson::Array(vec![
            bson::Bson::Int64(1),
            bson::Bson::Array(vec![bson::Bson::Null, bson::Bson::Boolean(true)]),
            bson::Bson::Document(bson_inner.clone()),
        ]),
    );
    theirs.insert("document", bson::Bson::Document(bson_inner.clone()));
    theirs.insert("empty", bson::Bson::Document(bson::Document::new()));
    theirs.insert("none", bson::Bson::Array(vec![]));
    theirs.insert("boolean", bson::Bson::Boolean(false));
    theirs.insert("null", bson::Bson::Null);
    theirs.insert(
        "regex",
        bson::Bson::RegularExpression(bson::Regex {
            pattern: "^a.*".to_string(),
            options: "im".to_string(),
        }),
    );
    theirs.insert("code", bson::Bson::JavaScriptCode("f()".to_string()));
    theirs.insert(
        "scoped",
        bson::Bson::JavaScriptCodeWithScope(bson::JavaScriptCodeWithScope {
            code: "g(x)".to_string(),
            scope: bson_inner.clone(),
        }),
    );
    theirs.insert("int32", bson::Bson::Int32(i32::MIN));
    theirs.insert("int64", bson::Bson::Int64(i64::MAX));
    theirs.insert("timestamp", bson::Bson::Timestamp(bson::Timestamp { time: 1000, increment: 7 }));
    theirs.insert(
        "binary",
        bson::Bson::Binary(bson::Binary {
            subtype: bson::spec::BinarySubtype::Generic,
            bytes: vec![1, 2, 3],
        }),
    );
    theirs.insert(
        "old",
        bson::Bson::Binary(bson::Binary {
            subtype: bson::spec::BinarySubtype::BinaryOld,
            bytes: vec![4, 5],
        }),
    );
    theirs.insert(
        "user",
        bson::Bson::Binary(bson::Binary {
            subtype: bson::spec::BinarySubtype::UserDefined(0x80),
            bytes: vec![],
        }),
    );
    theirs.insert(
        "oid",
        bson::Bson::ObjectId(bson::oid::ObjectId::from_bytes([1, 2, 3, 4, 5, 6, 7, 8, 9, 10, 11, 12])),
    );
    theirs.insert("datetime", bson::Bson::DateTime(bson::DateTime::from_millis(-12345)));
    theirs.insert("symbol", bson::Bson::Symbol("sym".to_string()));
    theirs.insert("decimal", bson::Bson::Decimal128(bson::Decimal128::from_bytes([9; 16])));
    theirs.insert("undefined", bson::Bson::Undefined);
    theirs.insert("max", bson::Bson::MaxKey);
    theirs.insert("min", bson::Bson::MinKey);
    (ours, theirs)
}

#[test]
fn writes_the_bytes_that_the_bson_crate_writes() {
    let (ours, theirs) = every_kind();
    assert_eq!(to_vec(&ours).unwrap(), bson::to_vec(&theirs).unwrap());
}

#[test]
fn reads_what_the_bson_crate_wrote() {
    let (ours, theirs) = every_kind();
    let bytes = bson::to_vec(&theirs).unwrap();
    assert_eq!(from_slice(&bytes).unwrap(), ours);
}

#[test]
fn reads_back_what_it_wrote() {
    let (ours, _) = every_kind();
    let bytes = to_vec(&ours).unwrap();
    assert_eq!(from_slice(&bytes).unwrap(), ours);
    let raw = RawDocumentBuf::from_bytes(bytes.clone()).unwrap();
    assert_eq!(raw.as_bytes(), &bytes[..]);
    assert_eq!(raw.document(), &ours);
    let raw = RawDocumentBuf::from_document(ours.clone()).unwrap();
    assert_eq!(raw.as_bytes(), &bytes[..]);
}

#[test]
fn the_empty_document_is_five_bytes() {
    assert_eq!(to_vec(&doc(vec![])).unwrap(), vec![5, 0, 0, 0, 0]);
    assert_eq!(from_slice(&[5, 0, 0, 0, 0]).unwrap(), doc(vec![]));
}

#[test]
fn the_length_comes_first() {
    let bytes = to_vec(&doc(vec![field("a", Value::Int32(1))])).unwrap();
    assert_eq!(bytes, vec![12, 0, 0, 0, 0x10, b'a', 0, 1, 0, 0, 0, 0]);
}

#[test]
fn names_may_repeat() {
    let d = doc(vec![field("a", Value::Int32(1)), field("a", Value::Int32(2))]);
    let bytes = to_vec(&d).unwrap();
    assert_eq!(from_slice(&bytes).unwrap(), d);
}

#[test]
fn nul_in_a_name_or_a_regex_cannot_be_written() {
    let in_name = doc(vec![field("a\0", Value::Int32(1))]);
    assert_eq!(to_vec(&in_name), Err(Error::Unsupported));
    let nested = doc(vec![field("d", Value::Array(vec![Value::Document(in_name.clone())]))]);
    assert_eq!(to_vec(&nested), Err(Error::Unsupported));
    let in_scope = doc(vec![field(
        "c",
        Value::JavaScriptCodeWithScope { code: "".to_string(), scope: in_name },
    )]);
    assert_eq!(to_vec(&in_scope), Err(Error::Unsupported));
    for (pattern, options) in [("a\0", "i"), ("a", "\0")] {
        let regex = doc(vec![field(
            "r",
            Value::RegularExpression { pattern: pattern.to_string(), options: options.to_string() },
        )]);
        assert_eq!(to_vec(&regex), Err(Error::Unsupported));
        assert_eq!(RawDocumentBuf::from_document(regex).err(), Some(Error::Unsupported));
    }
}

fn pointer_bytes(namespace: &str) -> Vec<u8> {
    let mut bytes = vec![0, 0, 0, 0, 0x0c, b'p', 0];
    bytes.extend_from_slice(&(namespace.len() as i32 + 1).to_le_bytes());
    bytes.extend_from_slice(namespace.as_bytes());
    bytes.push(0);
    bytes.extend_from_slice(&[7; 12]);
    bytes.push(0);
    bytes[0] = bytes.len() as u8;
    bytes
}

#[test]
fn database_pointers_are_carried_as_they_are() {
    for namespace in ["n", "", "db.coll", "é€ / ~ $ref", "a\\b \"quoted\""] {
        let bytes = pointer_bytes(namespace);
        let d = from_slice(&bytes).unwrap();
        assert_eq!(d.fields.len(), 1);
        assert!(matches!(d.fields[0].1, Value::DbPointer(_)));
        assert_eq!(to_vec(&d).unwrap(), bytes);
        assert_eq!(to_vec(&d.copy()).unwrap(), bytes);
        let theirs: bson::Document = bson::from_slice(&bytes).unwrap();
        assert_eq!(to_vec(&d).unwrap(), bson::to_vec(&theirs).unwrap());
        // Nested, the pointer keeps its place and its bytes.
        let outer = doc(vec![
            field("a", Value::Array(vec![Value::Document(d.copy()), d.fields[0].1.copy()])),
            field("z", Value::Int32(1)),
        ]);
        let written = to_vec(&outer).unwrap();
        assert_eq!(from_slice(&written).unwrap(), outer);
    }
    assert_ne!(from_slice(&pointer_bytes("a")).unwrap(), from_slice(&pointer_bytes("b")).unwrap());
}

#[test]
fn options_of_a_regex_stand_in_order() {
    let regex = |options: &str| {
        doc(vec![field(
            "r",
            Value::RegularExpression { pattern: "a".to_string(), options: options.to_string() },
        )])
    };
    for options in ["", "i", "ix", "iimsx", "Aa"] {
        let bytes = to_vec(&regex(options)).unwrap();
        assert_eq!(from_slice(&bytes).unwrap(), regex(options));
    }
    for options in ["xi", "ixm", "aA"] {
        assert_eq!(to_vec(&regex(options)), Err(Error::Unsupported));
    }
    // Options that were written out of order are read in order.
    let mut theirs = bson::Document::new();
    theirs.insert(
        "r",
        bson::Bson::RegularExpression(bson::Regex {
            pattern: "a".to_string(),
            options: "xi".to_string(),
        }),
    );
    let read = from_slice(&bson::to_vec(&theirs).unwrap()).unwrap();
    assert_eq!(read, regex("ix"));
    assert!(to_vec(&read).is_ok());
}

#[test]
fn the_length_of_what_is_written_is_the_length_stated() {
    let (ours, _) = every_kind();
    let bytes = to_vec(&ours).unwrap();
    assert_eq!(i32::from_le_bytes([bytes[0], bytes[1], bytes[2], bytes[3]]) as usize, bytes.len());
    let many = doc(vec![field("v", Value::Array((0..120).map(Value::Int32).collect()))]);
    let bytes = to_vec(&many).unwrap();
    // Ten indices of one digit, ninety of two, twenty of three.
    assert_eq!(bytes.len(), 5 + 3 + 5 + 120 * 6 + 10 + 180 + 60);
    assert_eq!(from_slice(&bytes).unwrap(), many);
}

#[test]
fn malformed_bytes_are_refused() {
    let good = to_vec(&doc(vec![
        field("s", Value::String("abc".to_string())),
        field("d", Value::Document(doc(vec![field("b", Value::Boolean(true))]))),
    ]))
    .unwrap();
    assert!(from_slice(&good).is_ok());

    assert_eq!(from_slice(&[]), Err(Error::BadEnvelope));
    assert_eq!(from_slice(&[5, 0, 0, 0]), Err(Error::BadEnvelope));
    assert_eq!(from_slice(&[6, 0, 0, 0, 0]), Err(Error::BadEnvelope));
    assert_eq!(from_slice(&[5, 0, 0, 0, 1]), Err(Error::BadEnvelope));
    assert_eq!(from_slice(&good[..good.len() - 1]), Err(Error::BadEnvelope));

    let mut bad_tag = good.clone();
    bad_tag[4] = 0x20;
    assert_eq!(from_slice(&bad_tag), Err(Error::BadEnvelope));

    let mut bad_text = good.clone();
    bad_text[11] = 0xff;
    assert_eq!(from_slice(&bad_text), Err(Error::BadEnvelope));

    // The boolean inside the nested document.
    let mut bad_inner = good.clone();
    let at = good.len() - 3;
    assert_eq!(bad_inner[at], 1);
    bad_inner[at] = 2;
    assert_eq!(from_slice(&bad_inner), Err(Error::BadEnvelope));
    assert_eq!(RawDocumentBuf::from_bytes(bad_inner).err(), Some(Error::BadEnvelope));
}
