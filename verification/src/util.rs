//! The schema walk: from a document to its numeric slots, to the dotted
//! paths of those slots, and from slots back to a document.
//!
//! The walk visits fields in document order, array items in index order
//! and nested documents in place. A double, a 32-bit or 64-bit integer, a
//! boolean and a datetime each give one slot, a timestamp gives two, its
//! time and then its increment, and every other value gives none.

use crate::document::{
    copy_string, fields_view, items_view, lemma_fields_view, lemma_items_view, Document, Value,
    ValueView,
};
use crate::double::{double_to_slot, double_to_slot_spec, slot_to_double, slot_to_double_spec};
use crate::error::Error;
use crate::raw::{bson_bytes, bson_len, fields_writable, RawDocumentBuf};
use vstd::prelude::*;
use vstd::string::StringExecFns;

verus! {

/// The walk meets no Decimal128 in `v`.
pub open spec fn value_supported(v: ValueView) -> bool
    decreases v,
{
    match v {
        ValueView::Decimal128(_) => false,
        ValueView::Document(fields) => fields_supported(fields),
        ValueView::Array(items) => items_supported(items),
        _ => true,
    }
}

/// The walk meets no Decimal128 in any of `fields`.
pub open spec fn fields_supported(fields: Seq<(Seq<char>, ValueView)>) -> bool
    decreases fields,
{
    fields.len() == 0 || (fields_supported(fields.drop_last()) && value_supported(fields.last().1))
}

/// The walk meets no Decimal128 in any of `items`.
pub open spec fn items_supported(items: Seq<ValueView>) -> bool
    decreases items,
{
    items.len() == 0 || (items_supported(items.drop_last()) && value_supported(items.last()))
}

/// The slot of a boolean.
pub open spec fn bool_slot(b: bool) -> u64 {
    if b {
        1
    } else {
        0
    }
}

/// The slots of `v`, in walk order.
pub open spec fn value_slots(v: ValueView) -> Seq<u64>
    decreases v,
{
    match v {
        ValueView::Double(bits) => seq![double_to_slot_spec(bits)],
        ValueView::Int64(i) => seq![i as u64],
        ValueView::Int32(i) => seq![i as u64],
        ValueView::Boolean(b) => seq![bool_slot(b)],
        ValueView::DateTime(millis) => seq![millis as u64],
        ValueView::Timestamp { time, increment } => seq![time as u64, increment as u64],
        ValueView::Document(fields) => fields_slots(fields),
        ValueView::Array(items) => items_slots(items),
        _ => Seq::empty(),
    }
}

/// The slots of `fields`, in walk order.
pub open spec fn fields_slots(fields: Seq<(Seq<char>, ValueView)>) -> Seq<u64>
    decreases fields,
{
    if fields.len() == 0 {
        Seq::empty()
    } else {
        fields_slots(fields.drop_last()) + value_slots(fields.last().1)
    }
}

/// The slots of `items`, in walk order.
pub open spec fn items_slots(items: Seq<ValueView>) -> Seq<u64>
    decreases items,
{
    if items.len() == 0 {
        Seq::empty()
    } else {
        items_slots(items.drop_last()) + value_slots(items.last())
    }
}

/// One more field at the end adds its slots at the end.
pub proof fn lemma_fields_prefix_step(fields: Seq<(Seq<char>, ValueView)>, i: int)
    requires
        0 <= i < fields.len(),
    ensures
        fields_slots(fields.subrange(0, i + 1)) == fields_slots(fields.subrange(0, i))
            + value_slots(fields[i].1),
        fields_supported(fields.subrange(0, i + 1)) == (fields_supported(fields.subrange(0, i))
            && value_supported(fields[i].1)),
        fields.subrange(0, i + 1).drop_last() == fields.subrange(0, i),
{
    assert(fields.subrange(0, i + 1).drop_last() == fields.subrange(0, i));
}

/// One more item at the end adds its slots at the end.
pub proof fn lemma_items_prefix_step(items: Seq<ValueView>, i: int)
    requires
        0 <= i < items.len(),
    ensures
        items_slots(items.subrange(0, i + 1)) == items_slots(items.subrange(0, i)) + value_slots(
            items[i],
        ),
        items_supported(items.subrange(0, i + 1)) == (items_supported(items.subrange(0, i))
            && value_supported(items[i])),
        items.subrange(0, i + 1).drop_last() == items.subrange(0, i),
{
    assert(items.subrange(0, i + 1).drop_last() == items.subrange(0, i));
}

/// Fields are supported only where every prefix of them is, and a prefix
/// has no more slots than the whole.
pub proof fn lemma_fields_prefix(fields: Seq<(Seq<char>, ValueView)>, i: int)
    requires
        0 <= i <= fields.len(),
    ensures
        fields_supported(fields) ==> fields_supported(fields.subrange(0, i)),
        fields_slots(fields.subrange(0, i)).len() <= fields_slots(fields).len(),
    decreases fields.len() - i,
{
    if i < fields.len() {
        lemma_fields_prefix_step(fields, i);
        lemma_fields_prefix(fields, i + 1);
    } else {
        assert(fields.subrange(0, i) == fields);
    }
}

/// Items are supported only where every prefix of them is, and a prefix
/// has no more slots than the whole.
pub proof fn lemma_items_prefix(items: Seq<ValueView>, i: int)
    requires
        0 <= i <= items.len(),
    ensures
        items_supported(items) ==> items_supported(items.subrange(0, i)),
        items_slots(items.subrange(0, i)).len() <= items_slots(items).len(),
    decreases items.len() - i,
{
    if i < items.len() {
        lemma_items_prefix_step(items, i);
        lemma_items_prefix(items, i + 1);
    } else {
        assert(items.subrange(0, i) == items);
    }
}

fn extract_metrics_bson_int(value: &Value, metrics: &mut Vec<u64>) -> (r: Result<(), Error>)
    ensures
        r is Ok <==> value_supported(value@),
        r is Ok ==> final(metrics)@ == old(metrics)@ + value_slots(value@),
        r matches Err(e) ==> e == Error::Unsupported,
    decreases value,
{
    let ghost before = metrics@;
    match value {
        Value::Double(bits) => {
            metrics.push(double_to_slot(*bits));
        },
        Value::Int64(i) => {
            metrics.push(*i as u64);
        },
        Value::Int32(i) => {
            metrics.push(*i as u64);
        },
        Value::Decimal128(_) => {
            return Err(Error::Unsupported);
        },
        Value::Boolean(b) => {
            metrics.push(
                if *b {
                    1
                } else {
                    0
                },
            );
        },
        Value::DateTime(millis) => {
            metrics.push(*millis as u64);
        },
        Value::Timestamp { time, increment } => {
            metrics.push(*time as u64);
            metrics.push(*increment as u64);
        },
        Value::Document(d) => {
            return extract_metrics_int(d, metrics);
        },
        Value::Array(items) => {
            return extract_metrics_items(items, metrics);
        },
        _ => {},
    }
    assert(metrics@ == before + value_slots(value@));
    Ok(())
}

fn extract_metrics_items(items: &Vec<Value>, metrics: &mut Vec<u64>) -> (r: Result<(), Error>)
    ensures
        r is Ok <==> items_supported(items_view(items@)),
        r is Ok ==> final(metrics)@ == old(metrics)@ + items_slots(items_view(items@)),
        r matches Err(e) ==> e == Error::Unsupported,
    decreases items,
{
    let ghost before = metrics@;
    let ghost views = items_view(items@);
    proof {
        lemma_items_view(items@);
        assert(views.subrange(0, 0) == Seq::<ValueView>::empty());
    }
    let mut i: usize = 0;
    while i < items.len()
        invariant
            i <= items@.len() == views.len(),
            views == items_view(items@),
            forall|j: int| 0 <= j < items@.len() ==> (#[trigger] views[j]) == items@[j]@,
            items_supported(views.subrange(0, i as int)),
            metrics@ == before + items_slots(views.subrange(0, i as int)),
        decreases items@.len() - i,
    {
        proof {
            lemma_items_prefix_step(views, i as int);
            assert(views[i as int] == items@[i as int]@);
        }
        match extract_metrics_bson_int(&items[i], metrics) {
            Ok(()) => {},
            Err(e) => {
                proof {
                    lemma_items_prefix(views, i + 1);
                }
                return Err(e);
            },
        }
        i = i + 1;
        assert(metrics@ == before + items_slots(views.subrange(0, i as int)));
    }
    assert(views.subrange(0, i as int) == views);
    Ok(())
}

fn extract_metrics_int(doc: &Document, metrics: &mut Vec<u64>) -> (r: Result<(), Error>)
    ensures
        r is Ok <==> fields_supported(doc@),
        r is Ok ==> final(metrics)@ == old(metrics)@ + fields_slots(doc@),
        r matches Err(e) ==> e == Error::Unsupported,
    decreases doc,
{
    let ghost before = metrics@;
    let ghost views = doc@;
    proof {
        lemma_fields_view(doc.fields@);
        assert(views.subrange(0, 0) == Seq::<(Seq<char>, ValueView)>::empty());
    }
    let mut i: usize = 0;
    while i < doc.fields.len()
        invariant
            i <= doc.fields@.len() == views.len(),
            views == doc@,
            forall|j: int|
                0 <= j < doc.fields@.len() ==> (#[trigger] views[j]) == (
                    doc.fields@[j].0@,
                    doc.fields@[j].1@,
                ),
            fields_supported(views.subrange(0, i as int)),
            metrics@ == before + fields_slots(views.subrange(0, i as int)),
        decreases doc.fields@.len() - i,
    {
        proof {
            lemma_fields_prefix_step(views, i as int);
            assert(views[i as int].1 == doc.fields@[i as int].1@);
        }
        match extract_metrics_bson_int(&doc.fields[i].1, metrics) {
            Ok(()) => {},
            Err(e) => {
                proof {
                    lemma_fields_prefix(views, i + 1);
                }
                return Err(e);
            },
        }
        i = i + 1;
        assert(metrics@ == before + fields_slots(views.subrange(0, i as int)));
    }
    assert(views.subrange(0, i as int) == views);
    Ok(())
}

/// The numeric slots of `doc`, in walk order; `Unsupported` where the
/// walk meets a Decimal128.
pub fn extract_metrics(doc: &Document) -> (r: Result<Vec<u64>, Error>)
    ensures
        r is Ok <==> fields_supported(doc@),
        r matches Ok(slots) ==> slots@ == fields_slots(doc@),
        r matches Err(e) ==> e == Error::Unsupported,
{
    let mut metrics: Vec<u64> = Vec::new();
    match extract_metrics_int(doc, &mut metrics) {
        Ok(()) => {
            assert(Seq::<u64>::empty() + fields_slots(doc@) == fields_slots(doc@));
            Ok(metrics)
        },
        Err(e) => Err(e),
    }
}

/// The kind of value that a slot was taken from.
#[derive(Debug, Clone, Copy, PartialEq, Eq, Structural)]
pub enum MetricType {
    Double,
    Int64,
    Int32,
    Boolean,
    DateTime,
    Timestamp,
}

/// The dotted path of a slot and the kind of value it was taken from.
#[derive(Debug)]
pub struct MetricTypeInfo {
    pub name: String,
    pub metric_type: MetricType,
}

/// A list of paths, as mathematical data.
pub open spec fn infos_view(infos: Seq<MetricTypeInfo>) -> Seq<(Seq<char>, MetricType)> {
    Seq::new(infos.len(), |i: int| (infos[i].name@, infos[i].metric_type))
}

/// `prefix`, a dot, `name`.
pub open spec fn joined(prefix: Seq<char>, name: Seq<char>) -> Seq<char> {
    prefix + seq!['.'] + name
}

/// The decimal digit `d`.
pub open spec fn digit_char(d: nat) -> char {
    if d == 0 {
        '0'
    } else if d == 1 {
        '1'
    } else if d == 2 {
        '2'
    } else if d == 3 {
        '3'
    } else if d == 4 {
        '4'
    } else if d == 5 {
        '5'
    } else if d == 6 {
        '6'
    } else if d == 7 {
        '7'
    } else if d == 8 {
        '8'
    } else {
        '9'
    }
}

/// `n` in decimal, without leading zeros.
pub open spec fn decimal_digits(n: nat) -> Seq<char>
    decreases n,
{
    if n < 10 {
        seq![digit_char(n)]
    } else {
        decimal_digits(n / 10).push(digit_char(n % 10))
    }
}

/// The paths of the slots of `v`, a value named `name` below `prefix`.
/// A numeric leaf is `prefix.name`; a timestamp is `prefix.name.t` and
/// `prefix.name.i`; the fields of a document stand below `prefix.name`;
/// item `k` of an array stands, under the array's own name, below
/// `prefix.name.k`.
pub open spec fn value_paths(prefix: Seq<char>, name: Seq<char>, v: ValueView) -> Seq<
    (Seq<char>, MetricType),
>
    decreases v,
{
    let path = joined(prefix, name);
    match v {
        ValueView::Double(_) => seq![(path, MetricType::Double)],
        ValueView::Int64(_) => seq![(path, MetricType::Int64)],
        ValueView::Int32(_) => seq![(path, MetricType::Int32)],
        ValueView::Boolean(_) => seq![(path, MetricType::Boolean)],
        ValueView::DateTime(_) => seq![(path, MetricType::DateTime)],
        ValueView::Timestamp { .. } => seq![
            (joined(path, seq!['t']), MetricType::Timestamp),
            (joined(path, seq!['i']), MetricType::Timestamp),
        ],
        ValueView::Document(fields) => fields_paths(path, fields),
        ValueView::Array(items) => items_paths(prefix, name, items),
        _ => Seq::empty(),
    }
}

/// The paths of the slots of `fields`, below `prefix`.
pub open spec fn fields_paths(prefix: Seq<char>, fields: Seq<(Seq<char>, ValueView)>) -> Seq<
    (Seq<char>, MetricType),
>
    decreases fields,
{
    if fields.len() == 0 {
        Seq::empty()
    } else {
        fields_paths(prefix, fields.drop_last()) + value_paths(
            prefix,
            fields.last().0,
            fields.last().1,
        )
    }
}

/// The paths of the slots of the items of the array `name` below
/// `prefix`.
pub open spec fn items_paths(prefix: Seq<char>, name: Seq<char>, items: Seq<ValueView>) -> Seq<
    (Seq<char>, MetricType),
>
    decreases items,
{
    if items.len() == 0 {
        Seq::empty()
    } else {
        items_paths(prefix, name, items.drop_last()) + value_paths(
            joined(joined(prefix, name), decimal_digits((items.len() - 1) as nat)),
            name,
            items.last(),
        )
    }
}

/// A value has as many paths as slots: one of each for a numeric leaf,
/// two of each for a timestamp.
pub proof fn lemma_value_paths_len(prefix: Seq<char>, name: Seq<char>, v: ValueView)
    ensures
        value_paths(prefix, name, v).len() == value_slots(v).len(),
    decreases v,
{
    match v {
        ValueView::Document(fields) => {
            lemma_fields_paths_len(joined(prefix, name), fields);
        },
        ValueView::Array(items) => {
            lemma_items_paths_len(prefix, name, items);
        },
        _ => {},
    }
}

/// A document has as many paths as slots.
pub proof fn lemma_fields_paths_len(prefix: Seq<char>, fields: Seq<(Seq<char>, ValueView)>)
    ensures
        fields_paths(prefix, fields).len() == fields_slots(fields).len(),
    decreases fields,
{
    if fields.len() > 0 {
        lemma_fields_paths_len(prefix, fields.drop_last());
        lemma_value_paths_len(prefix, fields.last().0, fields.last().1);
    }
}

/// An array has as many paths as slots.
pub proof fn lemma_items_paths_len(prefix: Seq<char>, name: Seq<char>, items: Seq<ValueView>)
    ensures
        items_paths(prefix, name, items).len() == items_slots(items).len(),
    decreases items,
{
    if items.len() > 0 {
        lemma_items_paths_len(prefix, name, items.drop_last());
        lemma_value_paths_len(
            joined(joined(prefix, name), decimal_digits((items.len() - 1) as nat)),
            name,
            items.last(),
        );
    }
}

/// `a1` followed by `a2`.
pub fn concat2(a1: &str, a2: &str) -> (s: String)
    ensures
        s@ == a1@ + a2@,
{
    let mut s = String::from_str(a1);
    s.append(a2);
    s
}

/// `a1` followed by `a2`, a dot and `a3`.
pub fn concat3(a1: &str, a2: &str, a3: &str) -> (s: String)
    ensures
        s@ == a1@ + a2@ + seq!['.'] + a3@,
{
    let mut s = String::from_str(a1);
    s.append(a2);
    proof {
        reveal_strlit(".");
    }
    assert("."@ == seq!['.']);
    s.append(".");
    s.append(a3);
    s
}

fn digit_str(d: usize) -> (s: &'static str)
    requires
        d < 10,
    ensures
        s@ == seq![digit_char(d as nat)],
{
    proof {
        reveal_strlit("0");
        reveal_strlit("1");
        reveal_strlit("2");
        reveal_strlit("3");
        reveal_strlit("4");
        reveal_strlit("5");
        reveal_strlit("6");
        reveal_strlit("7");
        reveal_strlit("8");
        reveal_strlit("9");
    }
    let s = if d == 0 {
        "0"
    } else if d == 1 {
        "1"
    } else if d == 2 {
        "2"
    } else if d == 3 {
        "3"
    } else if d == 4 {
        "4"
    } else if d == 5 {
        "5"
    } else if d == 6 {
        "6"
    } else if d == 7 {
        "7"
    } else if d == 8 {
        "8"
    } else {
        "9"
    };
    assert(s@ =~= seq![digit_char(d as nat)]);
    s
}

/// `n` in decimal.
pub fn index_to_string(n: usize) -> (s: String)
    ensures
        s@ == decimal_digits(n as nat),
    decreases n,
{
    if n < 10 {
        String::from_str(digit_str(n))
    } else {
        let mut s = index_to_string(n / 10);
        s.append(digit_str(n % 10));
        assert(s@ == decimal_digits(n as nat));
        s
    }
}

fn push_path(metrics: &mut Vec<MetricTypeInfo>, name: String, metric_type: MetricType)
    ensures
        infos_view(final(metrics)@) == infos_view(old(metrics)@).push((name@, metric_type)),
{
    metrics.push(MetricTypeInfo { name, metric_type });
    assert(infos_view(metrics@) =~= infos_view(old(metrics)@).push((name@, metric_type)));
}

fn extract_metrics_paths_bson_int(
    name: &str,
    value: &Value,
    prefix: &str,
    metrics: &mut Vec<MetricTypeInfo>,
) -> (r: Result<(), Error>)
    ensures
        r is Ok <==> value_supported(value@),
        r is Ok ==> infos_view(final(metrics)@) == infos_view(old(metrics)@) + value_paths(
            prefix@,
            name@,
            value@,
        ),
        r matches Err(e) ==> e == Error::Unsupported,
    decreases value,
{
    let ghost before = infos_view(metrics@);
    let path = concat3(prefix, "", name);
    proof {
        reveal_strlit("");
        reveal_strlit("t");
        reveal_strlit("i");
        assert(path@ =~= joined(prefix@, name@));
    }
    match value {
        Value::Double(_) => {
            push_path(metrics, path, MetricType::Double);
        },
        Value::Int64(_) => {
            push_path(metrics, path, MetricType::Int64);
        },
        Value::Int32(_) => {
            push_path(metrics, path, MetricType::Int32);
        },
        Value::Boolean(_) => {
            push_path(metrics, path, MetricType::Boolean);
        },
        Value::DateTime(_) => {
            push_path(metrics, path, MetricType::DateTime);
        },
        Value::Decimal128(_) => {
            return Err(Error::Unsupported);
        },
        Value::Timestamp { .. } => {
            let time_path = concat3(path.as_str(), "", "t");
            let increment_path = concat3(path.as_str(), "", "i");
            assert(time_path@ =~= joined(path@, seq!['t']));
            assert(increment_path@ =~= joined(path@, seq!['i']));
            push_path(metrics, time_path, MetricType::Timestamp);
            push_path(metrics, increment_path, MetricType::Timestamp);
        },
        Value::Document(d) => {
            return extract_metrics_paths_int(d, path.as_str(), metrics);
        },
        Value::Array(items) => {
            return extract_metrics_paths_items(name, items, prefix, metrics);
        },
        _ => {},
    }
    assert(infos_view(metrics@) =~= before + value_paths(prefix@, name@, value@));
    Ok(())
}

fn extract_metrics_paths_items(
    name: &str,
    items: &Vec<Value>,
    prefix: &str,
    metrics: &mut Vec<MetricTypeInfo>,
) -> (r: Result<(), Error>)
    ensures
        r is Ok <==> items_supported(items_view(items@)),
        r is Ok ==> infos_view(final(metrics)@) == infos_view(old(metrics)@) + items_paths(
            prefix@,
            name@,
            items_view(items@),
        ),
        r matches Err(e) ==> e == Error::Unsupported,
    decreases items,
{
    let ghost before = infos_view(metrics@);
    let ghost views = items_view(items@);
    let base = concat3(prefix, "", name);
    proof {
        reveal_strlit("");
        assert(base@ =~= joined(prefix@, name@));
        lemma_items_view(items@);
        assert(views.subrange(0, 0) == Seq::<ValueView>::empty());
    }
    let mut i: usize = 0;
    while i < items.len()
        invariant
            i <= items@.len() == views.len(),
            views == items_view(items@),
            base@ == joined(prefix@, name@),
            forall|j: int| 0 <= j < items@.len() ==> (#[trigger] views[j]) == items@[j]@,
            items_supported(views.subrange(0, i as int)),
            infos_view(metrics@) == before + items_paths(
                prefix@,
                name@,
                views.subrange(0, i as int),
            ),
        decreases items@.len() - i,
    {
        proof {
            lemma_items_prefix_step(views, i as int);
            assert(views[i as int] == items@[i as int]@);
        }
        let index = index_to_string(i);
        let item_prefix = concat3(base.as_str(), "", index.as_str());
        proof {
            reveal_strlit("");
        }
        assert(item_prefix@ =~= joined(base@, decimal_digits(i as nat)));
        match extract_metrics_paths_bson_int(name, &items[i], item_prefix.as_str(), metrics) {
            Ok(()) => {},
            Err(e) => {
                proof {
                    lemma_items_prefix(views, i + 1);
                }
                return Err(e);
            },
        }
        i = i + 1;
        assert(infos_view(metrics@) == before + items_paths(
            prefix@,
            name@,
            views.subrange(0, i as int),
        ));
    }
    assert(views.subrange(0, i as int) == views);
    Ok(())
}

fn extract_metrics_paths_int(doc: &Document, prefix: &str, metrics: &mut Vec<MetricTypeInfo>) -> (r:
    Result<(), Error>)
    ensures
        r is Ok <==> fields_supported(doc@),
        r is Ok ==> infos_view(final(metrics)@) == infos_view(old(metrics)@) + fields_paths(
            prefix@,
            doc@,
        ),
        r matches Err(e) ==> e == Error::Unsupported,
    decreases doc,
{
    let ghost before = infos_view(metrics@);
    let ghost views = doc@;
    proof {
        lemma_fields_view(doc.fields@);
        assert(views.subrange(0, 0) == Seq::<(Seq<char>, ValueView)>::empty());
    }
    let mut i: usize = 0;
    while i < doc.fields.len()
        invariant
            i <= doc.fields@.len() == views.len(),
            views == doc@,
            forall|j: int|
                0 <= j < doc.fields@.len() ==> (#[trigger] views[j]) == (
                    doc.fields@[j].0@,
                    doc.fields@[j].1@,
                ),
            fields_supported(views.subrange(0, i as int)),
            infos_view(metrics@) == before + fields_paths(prefix@, views.subrange(0, i as int)),
        decreases doc.fields@.len() - i,
    {
        proof {
            lemma_fields_prefix_step(views, i as int);
            assert(views[i as int] == (doc.fields@[i as int].0@, doc.fields@[i as int].1@));
        }
        match extract_metrics_paths_bson_int(
            doc.fields[i].0.as_str(),
            &doc.fields[i].1,
            prefix,
            metrics,
        ) {
            Ok(()) => {},
            Err(e) => {
                proof {
                    lemma_fields_prefix(views, i + 1);
                }
                return Err(e);
            },
        }
        i = i + 1;
        assert(infos_view(metrics@) == before + fields_paths(prefix@, views.subrange(0, i as int)));
    }
    assert(views.subrange(0, i as int) == views);
    Ok(())
}

/// The paths of the numeric slots of `doc`, in walk order, each with the
/// kind of its value; `Unsupported` where the walk meets a Decimal128.
pub fn extract_metrics_paths(doc: &Document) -> (r: Result<Vec<MetricTypeInfo>, Error>)
    ensures
        r is Ok <==> fields_supported(doc@),
        r matches Ok(paths) ==> {
            &&& infos_view(paths@) == fields_paths(Seq::empty(), doc@)
            &&& paths@.len() == fields_slots(doc@).len()
        },
        r matches Err(e) ==> e == Error::Unsupported,
{
    let mut metrics: Vec<MetricTypeInfo> = Vec::new();
    proof {
        reveal_strlit("");
    }
    assert(""@ == Seq::<char>::empty());
    assert(infos_view(metrics@) == Seq::<(Seq<char>, MetricType)>::empty());
    match extract_metrics_paths_int(doc, "", &mut metrics) {
        Ok(()) => {
            proof {
                lemma_fields_paths_len(Seq::empty(), doc@);
                assert(Seq::<(Seq<char>, MetricType)>::empty() + fields_paths(Seq::empty(), doc@)
                    == fields_paths(Seq::empty(), doc@));
            }
            Ok(metrics)
        },
        Err(e) => Err(e),
    }
}

/// `reference` with its numeric leaves taken from `slots`, which holds
/// one slot for each of them, in walk order. A double is the double
/// nearest to its slot, an integer the low bits of its slot, a boolean
/// whether its slot is not zero, a timestamp the low 32 bits of two
/// slots. Every other value stays as it is.
pub open spec fn filled_value(reference: ValueView, slots: Seq<u64>) -> ValueView
    decreases reference,
{
    match reference {
        ValueView::Double(_) => ValueView::Double(slot_to_double_spec(slots[0])),
        ValueView::Int64(_) => ValueView::Int64(slots[0] as i64),
        ValueView::Int32(_) => ValueView::Int32(slots[0] as i32),
        ValueView::Boolean(_) => ValueView::Boolean(slots[0] != 0),
        ValueView::DateTime(_) => ValueView::DateTime(slots[0] as i64),
        ValueView::Timestamp { .. } => ValueView::Timestamp {
            time: slots[0] as u32,
            increment: slots[1] as u32,
        },
        ValueView::Document(fields) => ValueView::Document(filled_fields(fields, slots)),
        ValueView::Array(items) => ValueView::Array(filled_items(items, slots)),
        _ => reference,
    }
}

/// `fields` with their numeric leaves taken from `slots`.
pub open spec fn filled_fields(fields: Seq<(Seq<char>, ValueView)>, slots: Seq<u64>) -> Seq<
    (Seq<char>, ValueView),
>
    decreases fields,
{
    if fields.len() == 0 {
        Seq::empty()
    } else {
        let cut = slots.len() - value_slots(fields.last().1).len();
        filled_fields(fields.drop_last(), slots.subrange(0, cut)).push(
            (fields.last().0, filled_value(fields.last().1, slots.subrange(cut, slots.len() as int))),
        )
    }
}

/// `items` with their numeric leaves taken from `slots`.
pub open spec fn filled_items(items: Seq<ValueView>, slots: Seq<u64>) -> Seq<ValueView>
    decreases items,
{
    if items.len() == 0 {
        Seq::empty()
    } else {
        let cut = slots.len() - value_slots(items.last()).len();
        filled_items(items.drop_last(), slots.subrange(0, cut)).push(
            filled_value(items.last(), slots.subrange(cut, slots.len() as int)),
        )
    }
}

fn fill_to_bson_int(reference: &Value, row: &[u64], pos: usize) -> (r: (Value, usize))
    requires
        value_supported(reference@),
        pos + value_slots(reference@).len() <= row@.len(),
    ensures
        r.1 == pos + value_slots(reference@).len(),
        r.0@ == filled_value(reference@, row@.subrange(pos as int, r.1 as int)),
    decreases reference,
{
    let ghost one = row@.subrange(pos as int, pos + 1);
    let ghost two = row@.subrange(pos as int, pos + 2);
    match reference {
        Value::Double(_) => {
            assert(one[0] == row@[pos as int]);
            (Value::Double(slot_to_double(row[pos])), pos + 1)
        },
        Value::Int64(_) => {
            assert(one[0] == row@[pos as int]);
            (Value::Int64(row[pos] as i64), pos + 1)
        },
        Value::Int32(_) => {
            assert(one[0] == row@[pos as int]);
            (Value::Int32(row[pos] as i32), pos + 1)
        },
        Value::Boolean(_) => {
            assert(one[0] == row@[pos as int]);
            (Value::Boolean(row[pos] != 0), pos + 1)
        },
        Value::DateTime(_) => {
            assert(one[0] == row@[pos as int]);
            (Value::DateTime(row[pos] as i64), pos + 1)
        },
        Value::Timestamp { .. } => {
            assert(two[0] == row@[pos as int]);
            assert(two[1] == row@[pos + 1]);
            (Value::Timestamp { time: row[pos] as u32, increment: row[pos + 1] as u32 }, pos + 2)
        },
        Value::Document(d) => {
            let (filled, end) = fill_fields(d, row, pos);
            (Value::Document(filled), end)
        },
        Value::Array(items) => {
            let (filled, end) = fill_items(items, row, pos);
            (Value::Array(filled), end)
        },
        _ => (reference.copy(), pos),
    }
}

fn fill_items(items: &Vec<Value>, row: &[u64], pos: usize) -> (r: (Vec<Value>, usize))
    requires
        items_supported(items_view(items@)),
        pos + items_slots(items_view(items@)).len() <= row@.len(),
    ensures
        r.1 == pos + items_slots(items_view(items@)).len(),
        items_view(r.0@) == filled_items(
            items_view(items@),
            row@.subrange(pos as int, r.1 as int),
        ),
    decreases items,
{
    let ghost views = items_view(items@);
    proof {
        lemma_items_view(items@);
        assert(views.subrange(0, 0) == Seq::<ValueView>::empty());
    }
    let mut out: Vec<Value> = Vec::new();
    let mut cur: usize = pos;
    let mut i: usize = 0;
    while i < items.len()
        invariant
            i <= items@.len() == views.len(),
            views == items_view(items@),
            forall|j: int| 0 <= j < items@.len() ==> (#[trigger] views[j]) == items@[j]@,
            items_supported(views),
            pos + items_slots(views).len() <= row@.len(),
            cur == pos + items_slots(views.subrange(0, i as int)).len(),
            items_view(out@) == filled_items(
                views.subrange(0, i as int),
                row@.subrange(pos as int, cur as int),
            ),
        decreases items@.len() - i,
    {
        let ghost done = views.subrange(0, i as int);
        let ghost grown = views.subrange(0, i + 1);
        proof {
            lemma_items_prefix_step(views, i as int);
            lemma_items_prefix(views, i + 1);
            assert(views[i as int] == items@[i as int]@);
        }
        let (value, next) = fill_to_bson_int(&items[i], row, cur);
        let ghost old_out = out@;
        out.push(value);
        proof {
            let slots = row@.subrange(pos as int, next as int);
            let cut = slots.len() - value_slots(grown.last()).len();
            assert(cut == cur - pos);
            assert(slots.subrange(0, cut) == row@.subrange(pos as int, cur as int));
            assert(slots.subrange(cut, slots.len() as int) == row@.subrange(
                cur as int,
                next as int,
            ));
            assert(out@.drop_last() == old_out);
        }
        cur = next;
        i = i + 1;
    }
    assert(views.subrange(0, i as int) == views);
    (out, cur)
}

fn fill_fields(doc: &Document, row: &[u64], pos: usize) -> (r: (Document, usize))
    requires
        fields_supported(doc@),
        pos + fields_slots(doc@).len() <= row@.len(),
    ensures
        r.1 == pos + fields_slots(doc@).len(),
        r.0@ == filled_fields(doc@, row@.subrange(pos as int, r.1 as int)),
    decreases doc,
{
    let ghost views = doc@;
    proof {
        lemma_fields_view(doc.fields@);
        assert(views.subrange(0, 0) == Seq::<(Seq<char>, ValueView)>::empty());
    }
    let mut out: Vec<(String, Value)> = Vec::new();
    let mut cur: usize = pos;
    let mut i: usize = 0;
    while i < doc.fields.len()
        invariant
            i <= doc.fields@.len() == views.len(),
            views == doc@,
            forall|j: int|
                0 <= j < doc.fields@.len() ==> (#[trigger] views[j]) == (
                    doc.fields@[j].0@,
                    doc.fields@[j].1@,
                ),
            fields_supported(views),
            pos + fields_slots(views).len() <= row@.len(),
            cur == pos + fields_slots(views.subrange(0, i as int)).len(),
            fields_view(out@) == filled_fields(
                views.subrange(0, i as int),
                row@.subrange(pos as int, cur as int),
            ),
        decreases doc.fields@.len() - i,
    {
        let ghost grown = views.subrange(0, i + 1);
        proof {
            lemma_fields_prefix_step(views, i as int);
            lemma_fields_prefix(views, i + 1);
            assert(views[i as int] == (doc.fields@[i as int].0@, doc.fields@[i as int].1@));
        }
        let name = copy_string(&doc.fields[i].0);
        let (value, next) = fill_to_bson_int(&doc.fields[i].1, row, cur);
        let ghost old_out = out@;
        out.push((name, value));
        proof {
            let slots = row@.subrange(pos as int, next as int);
            let cut = slots.len() - value_slots(grown.last().1).len();
            assert(cut == cur - pos);
            assert(slots.subrange(0, cut) == row@.subrange(pos as int, cur as int));
            assert(slots.subrange(cut, slots.len() as int) == row@.subrange(
                cur as int,
                next as int,
            ));
            assert(out@.drop_last() == old_out);
        }
        cur = next;
        i = i + 1;
    }
    assert(views.subrange(0, i as int) == views);
    (Document { fields: out }, cur)
}

/// A document of the shape of `ref_doc` whose numeric leaves hold the
/// slots of `metrics`, in walk order. `Unsupported` where `ref_doc` holds
/// a Decimal128, `SlotCountMismatch` where `metrics` has fewer or more
/// slots than `ref_doc`.
pub fn fill_document(ref_doc: &Document, metrics: &[u64]) -> (r: Result<Document, Error>)
    ensures
        r is Ok <==> fields_supported(ref_doc@) && metrics@.len() == fields_slots(ref_doc@).len(),
        r matches Ok(d) ==> d@ == filled_fields(ref_doc@, metrics@),
        r matches Err(e) ==> e == (if fields_supported(ref_doc@) {
            Error::SlotCountMismatch
        } else {
            Error::Unsupported
        }),
{
    let count = match extract_metrics(ref_doc) {
        Ok(slots) => slots.len(),
        Err(e) => {
            return Err(e);
        },
    };
    if count != metrics.len() {
        return Err(Error::SlotCountMismatch);
    }
    let (doc, end) = fill_fields(ref_doc, metrics, 0);
    assert(metrics@.subrange(0, end as int) == metrics@);
    Ok(doc)
}

/// `b` has the shape of `a`: the same kind of value, the same field names
/// and array lengths all the way down, and the same contents wherever the
/// walk takes no slot.
pub open spec fn same_shape(a: ValueView, b: ValueView) -> bool
    decreases a,
{
    match a {
        ValueView::Double(_) => b is Double,
        ValueView::Int64(_) => b is Int64,
        ValueView::Int32(_) => b is Int32,
        ValueView::Boolean(_) => b is Boolean,
        ValueView::DateTime(_) => b is DateTime,
        ValueView::Timestamp { .. } => b is Timestamp,
        ValueView::Document(fields) => b is Document && fields_same_shape(fields, b->Document_0),
        ValueView::Array(items) => b is Array && items_same_shape(items, b->Array_0),
        _ => a == b,
    }
}

/// Field by field, `b` has the names and the shapes of `a`.
pub open spec fn fields_same_shape(
    a: Seq<(Seq<char>, ValueView)>,
    b: Seq<(Seq<char>, ValueView)>,
) -> bool
    decreases a,
{
    a.len() == b.len() && (a.len() == 0 || (fields_same_shape(a.drop_last(), b.drop_last())
        && a.last().0 == b.last().0 && same_shape(a.last().1, b.last().1)))
}

/// Item by item, `b` has the shapes of `a`.
pub open spec fn items_same_shape(a: Seq<ValueView>, b: Seq<ValueView>) -> bool
    decreases a,
{
    a.len() == b.len() && (a.len() == 0 || (items_same_shape(a.drop_last(), b.drop_last())
        && same_shape(a.last(), b.last())))
}

/// Every double in `v` is the double nearest to its own slot.
pub open spec fn value_restorable(v: ValueView) -> bool
    decreases v,
{
    match v {
        ValueView::Double(bits) => slot_to_double_spec(double_to_slot_spec(bits)) == bits,
        ValueView::Document(fields) => fields_restorable(fields),
        ValueView::Array(items) => items_restorable(items),
        _ => true,
    }
}

/// Every double in `fields` is the double nearest to its own slot.
pub open spec fn fields_restorable(fields: Seq<(Seq<char>, ValueView)>) -> bool
    decreases fields,
{
    fields.len() == 0 || (fields_restorable(fields.drop_last()) && value_restorable(
        fields.last().1,
    ))
}

/// Every double in `items` is the double nearest to its own slot.
pub open spec fn items_restorable(items: Seq<ValueView>) -> bool
    decreases items,
{
    items.len() == 0 || (items_restorable(items.drop_last()) && value_restorable(items.last()))
}

/// Values of one shape have the same number of slots.
pub proof fn lemma_same_shape_slots(a: ValueView, b: ValueView)
    requires
        same_shape(a, b),
    ensures
        value_slots(a).len() == value_slots(b).len(),
    decreases a,
{
    match a {
        ValueView::Document(fields) => {
            lemma_fields_same_shape_slots(fields, b->Document_0);
        },
        ValueView::Array(items) => {
            lemma_items_same_shape_slots(items, b->Array_0);
        },
        _ => {},
    }
}

/// Documents of one shape have the same number of slots.
pub proof fn lemma_fields_same_shape_slots(
    a: Seq<(Seq<char>, ValueView)>,
    b: Seq<(Seq<char>, ValueView)>,
)
    requires
        fields_same_shape(a, b),
    ensures
        fields_slots(a).len() == fields_slots(b).len(),
    decreases a,
{
    if a.len() > 0 {
        lemma_fields_same_shape_slots(a.drop_last(), b.drop_last());
        lemma_same_shape_slots(a.last().1, b.last().1);
    }
}

/// Arrays of one shape have the same number of slots.
pub proof fn lemma_items_same_shape_slots(a: Seq<ValueView>, b: Seq<ValueView>)
    requires
        items_same_shape(a, b),
    ensures
        items_slots(a).len() == items_slots(b).len(),
    decreases a,
{
    if a.len() > 0 {
        lemma_items_same_shape_slots(a.drop_last(), b.drop_last());
        lemma_same_shape_slots(a.last(), b.last());
    }
}

/// Filling keeps the shape: whatever the slots, the filled value has the
/// kinds, names and lengths of the reference, and every value that takes
/// no slot is that of the reference.
pub proof fn lemma_filled_shape(reference: ValueView, slots: Seq<u64>)
    ensures
        same_shape(reference, filled_value(reference, slots)),
    decreases reference,
{
    match reference {
        ValueView::Document(fields) => {
            lemma_filled_fields_shape(fields, slots);
        },
        ValueView::Array(items) => {
            lemma_filled_items_shape(items, slots);
        },
        _ => {},
    }
}

/// Filling keeps the shape of a document.
pub proof fn lemma_filled_fields_shape(fields: Seq<(Seq<char>, ValueView)>, slots: Seq<u64>)
    ensures
        fields_same_shape(fields, filled_fields(fields, slots)),
    decreases fields,
{
    if fields.len() > 0 {
        let cut = slots.len() - value_slots(fields.last().1).len();
        let front = filled_fields(fields.drop_last(), slots.subrange(0, cut));
        let last = filled_value(fields.last().1, slots.subrange(cut, slots.len() as int));
        lemma_filled_fields_shape(fields.drop_last(), slots.subrange(0, cut));
        lemma_filled_shape(fields.last().1, slots.subrange(cut, slots.len() as int));
        assert(front.push((fields.last().0, last)).drop_last() == front);
    }
}

/// Filling keeps the shape of an array.
pub proof fn lemma_filled_items_shape(items: Seq<ValueView>, slots: Seq<u64>)
    ensures
        items_same_shape(items, filled_items(items, slots)),
    decreases items,
{
    if items.len() > 0 {
        let cut = slots.len() - value_slots(items.last()).len();
        let front = filled_items(items.drop_last(), slots.subrange(0, cut));
        let last = filled_value(items.last(), slots.subrange(cut, slots.len() as int));
        lemma_filled_items_shape(items.drop_last(), slots.subrange(0, cut));
        lemma_filled_shape(items.last(), slots.subrange(cut, slots.len() as int));
        assert(front.push(last).drop_last() == front);
    }
}

/// Filling a reference with the slots of a value of its shape gives that
/// value back: integers, booleans, datetimes and timestamps exactly, a
/// double where it is the double nearest to its own slot.
pub proof fn lemma_fill_extracted(reference: ValueView, v: ValueView)
    requires
        same_shape(reference, v),
        value_restorable(v),
    ensures
        filled_value(reference, value_slots(v)) == v,
    decreases reference,
{
    match reference {
        ValueView::Int64(_) => {
            let i = v->Int64_0;
            assert((i as u64) as i64 == i) by (bit_vector);
        },
        ValueView::Int32(_) => {
            let i = v->Int32_0;
            assert((i as u64) as i32 == i) by (bit_vector);
        },
        ValueView::DateTime(_) => {
            let i = v->DateTime_0;
            assert((i as u64) as i64 == i) by (bit_vector);
        },
        ValueView::Timestamp { .. } => {
            let t = v->Timestamp_time;
            let i = v->Timestamp_increment;
            assert((t as u64) as u32 == t) by (bit_vector);
            assert((i as u64) as u32 == i) by (bit_vector);
        },
        ValueView::Document(fields) => {
            lemma_fill_extracted_fields(fields, v->Document_0);
        },
        ValueView::Array(items) => {
            lemma_fill_extracted_items(items, v->Array_0);
        },
        _ => {},
    }
}

/// Filling the fields of a reference with the slots of a document of
/// its shape gives that document back.
pub proof fn lemma_fill_extracted_fields(
    reference: Seq<(Seq<char>, ValueView)>,
    fields: Seq<(Seq<char>, ValueView)>,
)
    requires
        fields_same_shape(reference, fields),
        fields_restorable(fields),
    ensures
        filled_fields(reference, fields_slots(fields)) == fields,
    decreases reference,
{
    if reference.len() > 0 {
        let slots = fields_slots(fields);
        let front = fields_slots(fields.drop_last());
        let back = value_slots(fields.last().1);
        lemma_same_shape_slots(reference.last().1, fields.last().1);
        let cut = slots.len() - value_slots(reference.last().1).len();
        assert(slots.subrange(0, cut) == front);
        assert(slots.subrange(cut, slots.len() as int) == back);
        lemma_fill_extracted_fields(reference.drop_last(), fields.drop_last());
        lemma_fill_extracted(reference.last().1, fields.last().1);
        assert(fields.drop_last().push(fields.last()) == fields);
    } else {
        assert(fields == Seq::<(Seq<char>, ValueView)>::empty());
    }
}

/// Filling the items of a reference with the slots of an array of its
/// shape gives that array back.
pub proof fn lemma_fill_extracted_items(reference: Seq<ValueView>, items: Seq<ValueView>)
    requires
        items_same_shape(reference, items),
        items_restorable(items),
    ensures
        filled_items(reference, items_slots(items)) == items,
    decreases reference,
{
    if reference.len() > 0 {
        let slots = items_slots(items);
        let front = items_slots(items.drop_last());
        let back = value_slots(items.last());
        lemma_same_shape_slots(reference.last(), items.last());
        let cut = slots.len() - value_slots(reference.last()).len();
        assert(slots.subrange(0, cut) == front);
        assert(slots.subrange(cut, slots.len() as int) == back);
        lemma_fill_extracted_items(reference.drop_last(), items.drop_last());
        lemma_fill_extracted(reference.last(), items.last());
        assert(items.drop_last().push(items.last()) == items);
    } else {
        assert(items == Seq::<ValueView>::empty());
    }
}

/// The numeric slots of a document held as bytes: see `extract_metrics`.
pub fn extract_metrics_raw(doc: &RawDocumentBuf) -> (r: Result<Vec<u64>, Error>)
    ensures
        r is Ok <==> fields_supported(doc@),
        r matches Ok(slots) ==> slots@ == fields_slots(doc@),
        r matches Err(e) ==> e == Error::Unsupported,
{
    extract_metrics(doc.document())
}

/// The paths of the numeric slots of a document held as bytes: see
/// `extract_metrics_paths`.
pub fn extract_metrics_paths_raw(doc: &RawDocumentBuf) -> (r: Result<Vec<MetricTypeInfo>, Error>)
    ensures
        r is Ok <==> fields_supported(doc@),
        r matches Ok(paths) ==> {
            &&& infos_view(paths@) == fields_paths(Seq::empty(), doc@)
            &&& paths@.len() == fields_slots(doc@).len()
        },
        r matches Err(e) ==> e == Error::Unsupported,
{
    extract_metrics_paths(doc.document())
}

/// A document held as bytes, of the shape of `ref_doc` and with the slots
/// of `metrics`: see `fill_document`. Besides the errors of that function,
/// `Unsupported` where the filled document cannot be written as BSON, and
/// `BadEnvelope` where it would take more bytes than a BSON length can
/// state.
pub fn fill_document_raw(ref_doc: &RawDocumentBuf, metrics: &[u64]) -> (r: Result<
    RawDocumentBuf,
    Error,
>)
    ensures
        r is Ok <==> {
            &&& fields_supported(ref_doc@)
            &&& metrics@.len() == fields_slots(ref_doc@).len()
            &&& fields_writable(filled_fields(ref_doc@, metrics@))
            &&& bson_len(filled_fields(ref_doc@, metrics@)) <= i32::MAX
        },
        match r {
            Ok(raw) => {
                &&& raw@ == filled_fields(ref_doc@, metrics@)
                &&& raw.bytes() == bson_bytes(filled_fields(ref_doc@, metrics@))
            },
            Err(e) => if !fields_supported(ref_doc@) {
                e == Error::Unsupported
            } else if metrics@.len() != fields_slots(ref_doc@).len() {
                e == Error::SlotCountMismatch
            } else if fields_writable(filled_fields(ref_doc@, metrics@)) {
                e == Error::BadEnvelope
            } else {
                e == Error::Unsupported
            },
        },
{
    let doc = match fill_document(ref_doc.document(), metrics) {
        Ok(doc) => doc,
        Err(e) => {
            return Err(e);
        },
    };
    RawDocumentBuf::from_document(doc)
}

} // verus!
