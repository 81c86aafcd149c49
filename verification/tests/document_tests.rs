use ftdc::document::{Document, Value};
use ftdc::double::{double_to_slot, slot_to_double};
use ftdc::error::Error;
use ftdc::raw::RawDocumentBuf;
use ftdc::util::{
    concat2, concat3, extract_metrics, extract_metrics_paths, extract_metrics_paths_raw,
    extract_metrics_raw, fill_document, fill_document_raw, index_to_string, MetricType,
};

fn field(name: &str, value: Value) -> (String, Value) {
    (name.to_string(), value)
}

fn doc(fields: Vec<(String, Value)>) -> Document {
    Document { fields }
}

fn nested() -> Document {
    doc(vec![
        field("start", Value::DateTime(1_700_000_000_123)),
        field("name", Value::String("host".to_string())),
        field(
            "server",
            Value::Document(doc(vec![
                field("up", Value::Boolean(true)),
                field("load", Value::Double(3.75f64.to_bits())),
                field("ts", Value::Timestamp { time: 1000, increment: 7 }),
                field("none", Value::Null),
            ])),
        ),
        field(
            "cpus",
            Value::Array(vec![
                Value::Int32(-1),
                Value::String("skip".to_string()),
                Value::Document(doc(vec![field("user", Value::Int64(-2))])),
            ]),
        ),
    ])
}

#[test]
fn timestamp_gives_time_then_increment() {
    let d = doc(vec![field("ts", Value::Timestamp { time: 1000, increment: 7 })]);
    assert_eq!(extract_metrics(&d).unwrap(), vec![1000, 7]);
}

#[test]
fn slots_follow_the_walk() {
    assert_eq!(
        extract_metrics(&nested()).unwrap(),
        vec![1_700_000_000_123, 1, 3, 1000, 7, (-1i32) as u64, (-2i64) as u64]
    );
    assert_eq!(extract_metrics(&doc(vec![])).unwrap(), Vec::<u64>::new());
}

#[test]
fn integers_keep_their_bit_pattern() {
    let d = doc(vec![
        field("a", Value::Int32(i32::MIN)),
        field("b", Value::Int64(i64::MIN)),
        field("c", Value::DateTime(-1)),
        field("d", Value::Boolean(false)),
    ]);
    assert_eq!(
        extract_metrics(&d).unwrap(),
        vec![0xffff_ffff_8000_0000, 0x8000_0000_0000_0000, u64::MAX, 0]
    );
}

#[test]
fn paths_are_dotted_and_arrays_repeat_their_name() {
    let paths = extract_metrics_paths(&nested()).unwrap();
    let names: Vec<&str> = paths.iter().map(|p| p.name.as_str()).collect();
    assert_eq!(
        names,
        vec![
            ".start",
            ".server.up",
            ".server.load",
            ".server.ts.t",
            ".server.ts.i",
            ".cpus.0.cpus",
            ".cpus.2.cpus.user",
        ]
    );
    let kinds: Vec<MetricType> = paths.iter().map(|p| p.metric_type).collect();
    assert_eq!(
        kinds,
        vec![
            MetricType::DateTime,
            MetricType::Boolean,
            MetricType::Double,
            MetricType::Timestamp,
            MetricType::Timestamp,
            MetricType::Int32,
            MetricType::Int64,
        ]
    );
}

#[test]
fn names_with_dots_are_not_escaped() {
    let d = doc(vec![
        field("a.b", Value::Int32(1)),
        field("a", Value::Document(doc(vec![field("b", Value::Int32(2))]))),
    ]);
    let names: Vec<String> =
        extract_metrics_paths(&d).unwrap().into_iter().map(|p| p.name).collect();
    assert_eq!(names, vec![".a.b", ".a.b"]);
}

#[test]
fn as_many_paths_as_slots() {
    for d in [nested(), doc(vec![]), doc(vec![field("t", Value::Timestamp { time: 1, increment: 2 })])] {
        assert_eq!(extract_metrics(&d).unwrap().len(), extract_metrics_paths(&d).unwrap().len());
    }
}

#[test]
fn array_indices_are_decimal() {
    let items: Vec<Value> = (0..12).map(Value::Int32).collect();
    let d = doc(vec![field("v", Value::Array(items))]);
    let names: Vec<String> =
        extract_metrics_paths(&d).unwrap().into_iter().map(|p| p.name).collect();
    assert_eq!(names[0], ".v.0.v");
    assert_eq!(names[9], ".v.9.v");
    assert_eq!(names[10], ".v.10.v");
    assert_eq!(names[11], ".v.11.v");
    assert_eq!(index_to_string(0), "0");
    assert_eq!(index_to_string(907), "907");
    assert_eq!(index_to_string(usize::MAX), usize::MAX.to_string());
}

#[test]
fn concatenation() {
    assert_eq!(concat2("ab", "cd"), "abcd");
    assert_eq!(concat2("", ""), "");
    assert_eq!(concat3("a.", "b", "c"), "a.b.c");
    assert_eq!(concat3("", "", ""), ".");
}

#[test]
fn decimal_is_unsupported_wherever_the_walk_goes() {
    let decimal = Value::Decimal128([0; 16]);
    let top = doc(vec![field("d", decimal.clone())]);
    let deep = doc(vec![field("a", Value::Array(vec![Value::Document(top.clone())]))]);
    for d in [top, deep] {
        assert_eq!(extract_metrics(&d), Err(Error::Unsupported));
        assert_eq!(extract_metrics_paths(&d).err(), Some(Error::Unsupported));
        assert_eq!(fill_document(&d, &[]), Err(Error::Unsupported));
    }
    // The scope of code is not walked.
    let scoped = doc(vec![field(
        "c",
        Value::JavaScriptCodeWithScope {
            code: "f()".to_string(),
            scope: doc(vec![field("d", decimal), field("n", Value::Int32(1))]),
        },
    )]);
    assert_eq!(extract_metrics(&scoped).unwrap(), Vec::<u64>::new());
}

#[test]
fn filling_keeps_the_shape_and_what_is_not_numeric() {
    let reference = nested();
    let filled = fill_document(&reference, &[5, 0, 9, 70000, u64::MAX, 11, 12]).unwrap();
    let expected = doc(vec![
        field("start", Value::DateTime(5)),
        field("name", Value::String("host".to_string())),
        field(
            "server",
            Value::Document(doc(vec![
                field("up", Value::Boolean(false)),
                field("load", Value::Double(9.0f64.to_bits())),
                field("ts", Value::Timestamp { time: 70000, increment: u32::MAX }),
                field("none", Value::Null),
            ])),
        ),
        field(
            "cpus",
            Value::Array(vec![
                Value::Int32(11),
                Value::String("skip".to_string()),
                Value::Document(doc(vec![field("user", Value::Int64(12))])),
            ]),
        ),
    ]);
    assert_eq!(filled, expected);
}

#[test]
fn filling_with_its_own_slots_gives_the_document_back() {
    let d = doc(vec![
        field("a", Value::Int32(-5)),
        field("b", Value::Int64(i64::MIN)),
        field("c", Value::Boolean(true)),
        field("d", Value::DateTime(-77)),
        field("e", Value::Timestamp { time: u32::MAX, increment: 0 }),
        field("f", Value::Double(1234.0f64.to_bits())),
        field("g", Value::Binary { subtype: 3, bytes: vec![1, 2] }),
    ]);
    let slots = extract_metrics(&d).unwrap();
    assert_eq!(fill_document(&d, &slots).unwrap(), d);
}

#[test]
fn doubles_lose_their_fraction() {
    let d = doc(vec![field("f", Value::Double(2.5f64.to_bits()))]);
    let slots = extract_metrics(&d).unwrap();
    assert_eq!(slots, vec![2]);
    assert_eq!(
        fill_document(&d, &slots).unwrap(),
        doc(vec![field("f", Value::Double(2.0f64.to_bits()))])
    );
}

#[test]
fn slot_count_must_match() {
    let d = doc(vec![field("a", Value::Int32(1)), field("b", Value::Int32(2))]);
    assert_eq!(fill_document(&d, &[1]), Err(Error::SlotCountMismatch));
    assert_eq!(fill_document(&d, &[1, 2, 3]), Err(Error::SlotCountMismatch));
    assert_eq!(fill_document(&d, &[]), Err(Error::SlotCountMismatch));
    assert!(fill_document(&d, &[1, 2]).is_ok());
}

#[test]
fn raw_documents_walk_like_their_fields() {
    let raw = RawDocumentBuf::from_document(nested()).unwrap();
    assert_eq!(extract_metrics_raw(&raw).unwrap(), extract_metrics(&nested()).unwrap());
    let names: Vec<String> =
        extract_metrics_paths_raw(&raw).unwrap().into_iter().map(|p| p.name).collect();
    assert_eq!(names.len(), 7);
    assert_eq!(names[6], ".cpus.2.cpus.user");
    let filled = fill_document_raw(&raw, &[1, 1, 1, 1, 1, 1, 1]).unwrap();
    assert_eq!(filled.document(), &fill_document(&nested(), &[1, 1, 1, 1, 1, 1, 1]).unwrap());
    assert_eq!(
        RawDocumentBuf::from_bytes(filled.as_bytes().to_vec()).unwrap().document(),
        filled.document()
    );
    assert_eq!(fill_document_raw(&raw, &[1]).err(), Some(Error::SlotCountMismatch));
}

#[test]
fn double_to_slot_is_the_cast() {
    let values = [
        0.0,
        -0.0,
        0.999,
        1.0,
        1.5,
        2.0,
        255.999,
        -1.0,
        -1e300,
        4503599627370496.0,
        4503599627370497.0,
        9007199254740992.0,
        9007199254740993.0,
        1e19,
        18446744073709549568.0,
        18446744073709551616.0,
        1e300,
        f64::MAX,
        f64::MIN_POSITIVE,
        5e-324,
        f64::INFINITY,
        f64::NEG_INFINITY,
        f64::NAN,
        -f64::NAN,
    ];
    for v in values {
        assert_eq!(double_to_slot(v.to_bits()), v as u64, "{}", v);
    }
}

#[test]
fn slot_to_double_is_the_cast() {
    let mut values = vec![
        0u64,
        1,
        2,
        3,
        255,
        (1 << 52) - 1,
        1 << 52,
        (1 << 53) - 1,
        1 << 53,
        (1 << 53) + 1,
        (1 << 53) + 2,
        (1 << 53) + 3,
        (1 << 54) + 2,
        (1 << 54) + 6,
        (1 << 63) + 1024,
        (1 << 63) + 1025,
        (1 << 63) + 3072,
        u64::MAX - 1024,
        u64::MAX - 1023,
        u64::MAX,
    ];
    let mut x = 0x9e37_79b9_7f4a_7c15u64;
    for _ in 0..2000 {
        x ^= x << 13;
        x ^= x >> 7;
        x ^= x << 17;
        values.push(x);
        values.push(x >> (x % 64));
    }
    for v in values {
        assert_eq!(slot_to_double(v), (v as f64).to_bits(), "{}", v);
    }
}

#[test]
fn whole_doubles_survive() {
    for v in [0.0f64, 1.0, 77.0, 9007199254740992.0, 1e18] {
        assert_eq!(slot_to_double(double_to_slot(v.to_bits())), v.to_bits());
    }
}

#[test]
fn lookups_take_the_first_field_of_a_name() {
    let d = doc(vec![
        field("type", Value::Int32(1)),
        field("data", Value::Binary { subtype: 0, bytes: vec![1, 2, 3] }),
        field("type", Value::Int32(2)),
    ]);
    assert_eq!(d.get_i32("type"), Some(1));
    assert_eq!(d.get_i32("data"), None);
    assert_eq!(d.get_i32("nope"), None);
    assert_eq!(d.get_binary("data"), Some((0, &vec![1, 2, 3])));
    assert_eq!(d.get_binary("type"), None);
    assert_eq!(d.get("nope"), None);
    assert_eq!(d.len(), 3);
    let mut e = Document::new();
    e.insert("k", Value::Null);
    assert_eq!(e, doc(vec![field("k", Value::Null)]));
    assert_eq!(e.copy(), e);
    assert_eq!(nested().clone(), nested());
}
