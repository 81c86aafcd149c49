//! Documents as BSON bytes.
//!
//! The `bson` crate reads and writes the bytes. What it hands over is held
//! to the document model of this library one value at a time: the
//! functions in this file that carry a contract without a proof each make
//! one call into the crate and say what the call gives, and the
//! conversions between whole documents are built on them and proved.

use crate::document::{
    fields_view, items_view, lemma_fields_view, lemma_items_view, Document, Value, ValueView,
};
use crate::error::Error;
use crate::le::i32_at;
use crate::util::{decimal_digits, index_to_string};
use byteorder::{ByteOrder, LittleEndian};
use vstd::prelude::*;
use vstd::string::{StrSliceExecFns, StringSliceAdditionalSpecFns};
use vstd::utf8::encode_utf8;

verus! {

/// `bson::RawBson`, a value of the `bson` crate that owns its contents.
#[verifier::external_type_specification]
#[verifier::external_body]
pub struct ExRawBson(bson::RawBson);

/// The fields that the `bson` crate reads from the document in `bytes`,
/// nested documents and arrays read in turn; `None` where it fails on an
/// element.
pub uninterp spec fn bson_read(bytes: Seq<u8>) -> Option<Seq<(Seq<char>, ValueView)>>;

/// The fields of the BSON document that `bytes` hold; `None` where the
/// bytes are not a document, or are more than a BSON length can state.
pub open spec fn bson_document(bytes: Seq<u8>) -> Option<Seq<(Seq<char>, ValueView)>> {
    if bytes.len() <= i32::MAX {
        bson_read(bytes)
    } else {
        None
    }
}

/// What a value of the `bson` crate holds; `None` where a document or an
/// array inside it cannot be read to its end.
pub uninterp spec fn raw_value(v: bson::RawBson) -> Option<ValueView>;

/// The bytes that a value of the `bson` crate takes in a document, after
/// its tag and its name.
pub uninterp spec fn raw_bytes(v: bson::RawBson) -> Seq<u8>;

/// The bytes that the `bson` crate writes for a value that holds `m` and
/// was built from its parts: a scalar from its fields, a document and the
/// scope of code by appending its fields in order, an array by pushing its
/// items in order.
pub uninterp spec fn value_bytes(m: ValueView) -> Seq<u8>;

/// The number of bytes of the namespace of a database pointer.
pub uninterp spec fn db_pointer_name_len(p: bson::DbPointer) -> nat;

/// The bytes of the document with these fields, written field by field.
pub open spec fn bson_bytes(fields: Seq<(Seq<char>, ValueView)>) -> Seq<u8> {
    value_bytes(ValueView::Document(fields))
}

/// A document frames itself: its first four bytes are its length, its
/// last byte is zero.
pub open spec fn document_framed(bytes: Seq<u8>) -> bool {
    &&& 5 <= bytes.len() <= i32::MAX
    &&& i32_at(bytes, 0) == bytes.len()
    &&& bytes[bytes.len() - 1] == 0
}

/// The fields that named values hold together, where each of them can be
/// read.
pub open spec fn elements_model(elems: Seq<(String, bson::RawBson)>) -> Option<
    Seq<(Seq<char>, ValueView)>,
> {
    if forall|i: int| 0 <= i < elems.len() ==> (#[trigger] raw_value(elems[i].1)) is Some {
        Some(Seq::new(elems.len(), |i: int| (elems[i].0@, raw_value(elems[i].1)->Some_0)))
    } else {
        None
    }
}

/// The items that values hold together, where each of them can be read.
pub open spec fn items_model(items: Seq<bson::RawBson>) -> Option<Seq<ValueView>> {
    if forall|i: int| 0 <= i < items.len() ==> (#[trigger] raw_value(items[i])) is Some {
        Some(Seq::new(items.len(), |i: int| raw_value(items[i])->Some_0))
    } else {
        None
    }
}

/// A document value with these fields.
pub open spec fn document_of(fields: Option<Seq<(Seq<char>, ValueView)>>) -> Option<ValueView> {
    match fields {
        Some(f) => Some(ValueView::Document(f)),
        None => None,
    }
}

/// An array value with these items.
pub open spec fn array_of(items: Option<Seq<ValueView>>) -> Option<ValueView> {
    match items {
        Some(i) => Some(ValueView::Array(i)),
        None => None,
    }
}

/// Code with these fields as its scope.
pub open spec fn scoped_code_of(code: Seq<char>, scope: Option<Seq<(Seq<char>, ValueView)>>) -> Option<
    ValueView,
> {
    match scope {
        Some(f) => Some(ValueView::JavaScriptCodeWithScope { code, scope: f }),
        None => None,
    }
}

/// A value that takes a slot.
pub open spec fn is_number(m: ValueView) -> bool {
    m is Double || m is Int32 || m is Int64 || m is Boolean || m is DateTime || m is Timestamp
}

/// A value made of text.
pub open spec fn is_text(m: ValueView) -> bool {
    m is String || m is Symbol || m is JavaScriptCode || m is RegularExpression
}

/// A value without parts that is neither a number nor text.
pub open spec fn is_marker(m: ValueView) -> bool {
    m is Null || m is Undefined || m is MinKey || m is MaxKey || m is DbPointer || m is ObjectId
        || m is Decimal128 || m is Binary
}

/// The text holds a NUL character.
pub open spec fn has_nul(s: Seq<char>) -> bool {
    s.contains('\0')
}

/// The value can be read, and its bytes are those of a value built from
/// its parts.
pub open spec fn canonical(v: bson::RawBson) -> bool {
    raw_value(v) matches Some(m) && raw_bytes(v) == value_bytes(m)
}

/// The number of bytes of a text in UTF-8.
pub open spec fn text_size(s: Seq<char>) -> nat {
    encode_utf8(s).len()
}

/// The characters stand in ascending order.
pub open spec fn options_sorted(options: Seq<char>) -> bool {
    forall|i: int| 0 <= i && i + 1 < options.len() ==> (#[trigger] options[i]) as u32 <= options[i
        + 1] as u32
}

/// `bson::RawDocument::from_bytes` with `bson::Document::try_from`: the
/// first accepts bytes that frame themselves, the second then reads every
/// element, those of nested documents and arrays too. The first compares
/// lengths as 32-bit numbers, so longer input is left out.
#[verifier::external_body]
fn bson_well_formed(bytes: &[u8]) -> (r: bool)
    requires
        bytes@.len() <= i32::MAX,
    ensures
        r == bson_read(bytes@).is_some(),
        r ==> document_framed(bytes@),
{
    bson::RawDocument::from_bytes(bytes).and_then(bson::Document::try_from).is_ok()
}

/// `bson::RawDocument::iter`: the elements of the document in `bytes`, in
/// order, each with its name. Nested documents and arrays are handed on
/// unread.
#[verifier::external_body]
fn raw_elements(bytes: &[u8]) -> (r: Option<Vec<(String, bson::RawBson)>>)
    requires
        bytes@.len() <= i32::MAX,
    ensures
        bson_read(bytes@) is Some ==> r is Some,
        r matches Some(elems) ==> bson_read(bytes@) == elements_model(elems@),
{
    bson::RawDocument::from_bytes(bytes).ok()?.iter().map(
        |e| e.map(|(k, x)| (k.to_string(), x.to_raw_bson())),
    ).collect::<Result<Vec<_>, _>>().ok()
}

/// The variants of `bson::RawBson` that take a slot, with their fields:
/// a double by `to_bits`, a datetime by `bson::DateTime::timestamp_millis`.
#[verifier::external_body]
fn raw_number(v: &bson::RawBson) -> (r: Option<Value>)
    ensures
        match r {
            Some(x) => raw_value(*v) == Some(x@) && is_number(x@),
            None => !(raw_value(*v) matches Some(m) && is_number(m)),
        },
{
    match v {
        bson::RawBson::Double(f) => Some(Value::Double(f.to_bits())),
        bson::RawBson::Int32(i) => Some(Value::Int32(*i)),
        bson::RawBson::Int64(i) => Some(Value::Int64(*i)),
        bson::RawBson::Boolean(b) => Some(Value::Boolean(*b)),
        bson::RawBson::DateTime(d) => Some(Value::DateTime(d.timestamp_millis())),
        bson::RawBson::Timestamp(t) => Some(Value::Timestamp { time: t.time, increment: t.increment }),
        _ => None,
    }
}

/// The variants of `bson::RawBson` that hold text, with their strings.
#[verifier::external_body]
fn raw_text(v: &bson::RawBson) -> (r: Option<Value>)
    ensures
        match r {
            Some(x) => raw_value(*v) == Some(x@) && is_text(x@),
            None => !(raw_value(*v) matches Some(m) && is_text(m)),
        },
{
    match v {
        bson::RawBson::String(s) => Some(Value::String(s.clone())),
        bson::RawBson::Symbol(s) => Some(Value::Symbol(s.clone())),
        bson::RawBson::JavaScriptCode(s) => Some(Value::JavaScriptCode(s.clone())),
        bson::RawBson::RegularExpression(re) => Some(
            Value::RegularExpression { pattern: re.pattern.clone(), options: re.options.clone() },
        ),
        _ => None,
    }
}

/// The other variants of `bson::RawBson` without parts, with their
/// fields: an object id and a Decimal128 by `bytes`, the subtype of a
/// binary as its number, a database pointer as it is.
#[verifier::external_body]
fn raw_marker(v: &bson::RawBson) -> (r: Option<Value>)
    ensures
        match r {
            Some(x) => raw_value(*v) == Some(x@) && is_marker(x@),
            None => !(raw_value(*v) matches Some(m) && is_marker(m)),
        },
{
    match v {
        bson::RawBson::Null => Some(Value::Null),
        bson::RawBson::Undefined => Some(Value::Undefined),
        bson::RawBson::MinKey => Some(Value::MinKey),
        bson::RawBson::MaxKey => Some(Value::MaxKey),
        bson::RawBson::DbPointer(p) => Some(Value::DbPointer(p.clone())),
        bson::RawBson::ObjectId(o) => Some(Value::ObjectId(o.bytes())),
        bson::RawBson::Decimal128(d) => Some(Value::Decimal128(d.bytes())),
        bson::RawBson::Binary(b) => Some(
            Value::Binary { subtype: b.subtype.into(), bytes: b.bytes.clone() },
        ),
        _ => None,
    }
}

/// `bson::RawDocument::iter` on a nested document: its elements, where
/// the value is a document whose elements can be told apart.
#[verifier::external_body]
fn raw_document_elements(v: &bson::RawBson) -> (r: Option<Vec<(String, bson::RawBson)>>)
    ensures
        match r {
            Some(elems) => raw_value(*v) == document_of(elements_model(elems@)),
            None => !(raw_value(*v) matches Some(ValueView::Document(_))),
        },
{
    match v {
        bson::RawBson::Document(d) => d.iter().map(
            |e| e.map(|(k, x)| (k.to_string(), x.to_raw_bson())),
        ).collect::<Result<Vec<_>, _>>().ok(),
        _ => None,
    }
}

/// The iterator of `bson::RawArrayBuf`: the items of an array, where the
/// value is an array whose items can be told apart.
#[verifier::external_body]
fn raw_array_items(v: &bson::RawBson) -> (r: Option<Vec<bson::RawBson>>)
    ensures
        match r {
            Some(items) => raw_value(*v) == array_of(items_model(items@)),
            None => !(raw_value(*v) matches Some(ValueView::Array(_))),
        },
{
    match v {
        bson::RawBson::Array(a) => a.into_iter().map(|e| e.map(|x| x.to_raw_bson())).collect::<
            Result<Vec<_>, _>,
        >().ok(),
        _ => None,
    }
}

/// `bson::RawDocument::iter` on the scope of code with scope: the code
/// and the elements of the scope.
#[verifier::external_body]
fn raw_scoped_code(v: &bson::RawBson) -> (r: Option<(String, Vec<(String, bson::RawBson)>)>)
    ensures
        match r {
            Some((code, elems)) => raw_value(*v) == scoped_code_of(code@, elements_model(elems@)),
            None => !(raw_value(*v) matches Some(ValueView::JavaScriptCodeWithScope { .. })),
        },
{
    match v {
        bson::RawBson::JavaScriptCodeWithScope(c) => c.scope.iter().map(
            |e| e.map(|(k, x)| (k.to_string(), x.to_raw_bson())),
        ).collect::<Result<Vec<_>, _>>().ok().map(|scope| (c.code.clone(), scope)),
        _ => None,
    }
}

/// The items of a model are those of its values, one by one.
proof fn lemma_items_model(items: Seq<bson::RawBson>, i: int)
    requires
        items_model(items) is Some,
        0 <= i < items.len(),
    ensures
        raw_value(items[i]) == Some(items_model(items)->Some_0[i]),
        items_model(items)->Some_0.len() == items.len(),
{
}

/// The fields of a model are those of its named values, one by one.
proof fn lemma_elements_model(elems: Seq<(String, bson::RawBson)>, i: int)
    requires
        elements_model(elems) is Some,
        0 <= i < elems.len(),
    ensures
        raw_value(elems[i].1) == Some(elements_model(elems)->Some_0[i].1),
        elements_model(elems)->Some_0[i].0 == elems[i].0@,
        elements_model(elems)->Some_0.len() == elems.len(),
{
}

fn parse_value(v: &bson::RawBson) -> (r: Value)
    requires
        raw_value(*v) is Some,
    ensures
        Some(r@) == raw_value(*v),
    decreases raw_value(*v)->Some_0,
{
    if let Some(x) = raw_number(v) {
        return x;
    }
    if let Some(x) = raw_text(v) {
        return x;
    }
    if let Some(x) = raw_marker(v) {
        return x;
    }
    if let Some(elems) = raw_document_elements(v) {
        assert(raw_value(*v)->Some_0 is Document);
        assert(raw_value(*v)->Some_0->Document_0 == elements_model(elems@)->Some_0);
        return Value::Document(parse_elements(&elems));
    }
    if let Some(items) = raw_array_items(v) {
        assert(raw_value(*v)->Some_0 is Array);
        assert(raw_value(*v)->Some_0->Array_0 == items_model(items@)->Some_0);
        return Value::Array(parse_items(&items));
    }
    match raw_scoped_code(v) {
        Some((code, elems)) => {
            assert(raw_value(*v)->Some_0 is JavaScriptCodeWithScope);
            assert(raw_value(*v)->Some_0->JavaScriptCodeWithScope_scope == elements_model(
                elems@,
            )->Some_0);
            Value::JavaScriptCodeWithScope { code, scope: parse_elements(&elems) }
        },
        None => {
            assert(false);
            Value::Null
        },
    }
}

fn parse_items(items: &Vec<bson::RawBson>) -> (r: Vec<Value>)
    requires
        items_model(items@) is Some,
    ensures
        Some(items_view(r@)) == items_model(items@),
    decreases items_model(items@)->Some_0,
{
    let ghost model = items_model(items@)->Some_0;
    let mut out: Vec<Value> = Vec::new();
    let mut i: usize = 0;
    while i < items.len()
        invariant
            i <= items@.len(),
            items_model(items@) == Some(model),
            out@.len() == i,
            forall|j: int| 0 <= j < i ==> (#[trigger] out@[j])@ == model[j],
        decreases items@.len() - i,
    {
        proof {
            lemma_items_model(items@, i as int);
        }
        out.push(parse_value(&items[i]));
        i = i + 1;
    }
    proof {
        lemma_items_view(out@);
        assert(items_view(out@) =~= model);
    }
    out
}

fn parse_elements(elems: &Vec<(String, bson::RawBson)>) -> (r: Document)
    requires
        elements_model(elems@) is Some,
    ensures
        Some(r@) == elements_model(elems@),
    decreases elements_model(elems@)->Some_0,
{
    let ghost model = elements_model(elems@)->Some_0;
    let mut out: Vec<(String, Value)> = Vec::new();
    let mut i: usize = 0;
    while i < elems.len()
        invariant
            i <= elems@.len(),
            elements_model(elems@) == Some(model),
            out@.len() == i,
            forall|j: int| 0 <= j < i ==> ((#[trigger] out@[j]).0@, out@[j].1@) == model[j],
        decreases elems@.len() - i,
    {
        proof {
            lemma_elements_model(elems@, i as int);
        }
        let name = crate::document::copy_string(&elems[i].0);
        let value = parse_value(&elems[i].1);
        out.push((name, value));
        i = i + 1;
    }
    proof {
        lemma_fields_view(out@);
        assert(fields_view(out@) =~= model);
    }
    Document { fields: out }
}

/// Reads a document from its BSON bytes; `BadEnvelope` where the bytes
/// are not a well-formed document.
pub fn from_slice(bytes: &[u8]) -> (r: Result<Document, Error>)
    ensures
        match r {
            Ok(doc) => bson_document(bytes@) == Some(doc@) && document_framed(bytes@),
            Err(e) => e == Error::BadEnvelope && bson_document(bytes@) is None,
        },
{
    if bytes.len() > i32::MAX as usize || !bson_well_formed(bytes) {
        return Err(Error::BadEnvelope);
    }
    match raw_elements(bytes) {
        Some(elems) => Ok(parse_elements(&elems)),
        None => {
            assert(false);
            Err(Error::BadEnvelope)
        },
    }
}

/// `v` can be written as BSON: no field name and no string of a regular
/// expression in it holds a NUL, and the options of a regular expression
/// stand in ascending order, as BSON asks and as they are read back.
pub open spec fn value_writable(v: ValueView) -> bool
    decreases v,
{
    match v {
        ValueView::RegularExpression { pattern, options } => !has_nul(pattern) && !has_nul(options)
            && options_sorted(options),
        ValueView::Document(fields) => fields_writable(fields),
        ValueView::Array(items) => items_writable(items),
        ValueView::JavaScriptCodeWithScope { code, scope } => fields_writable(scope),
        _ => true,
    }
}

/// Every field can be written as BSON.
pub open spec fn fields_writable(fields: Seq<(Seq<char>, ValueView)>) -> bool
    decreases fields,
{
    fields.len() == 0 || (fields_writable(fields.drop_last()) && !has_nul(fields.last().0)
        && value_writable(fields.last().1))
}

/// Every item can be written as BSON.
pub open spec fn items_writable(items: Seq<ValueView>) -> bool
    decreases items,
{
    items.len() == 0 || (items_writable(items.drop_last()) && value_writable(items.last()))
}

/// The number of bytes that `v` takes in a document, after its tag and
/// its name.
pub open spec fn value_size(v: ValueView) -> nat
    decreases v,
{
    match v {
        ValueView::Double(_) => 8,
        ValueView::String(s) => 5 + text_size(s),
        ValueView::Array(items) => 5 + items_size(items),
        ValueView::Document(fields) => 5 + fields_size(fields),
        ValueView::Boolean(_) => 1,
        ValueView::Null => 0,
        ValueView::RegularExpression { pattern, options } => text_size(pattern) + text_size(options)
            + 2,
        ValueView::JavaScriptCode(s) => 5 + text_size(s),
        ValueView::JavaScriptCodeWithScope { code, scope } => 14 + text_size(code) + fields_size(
            scope,
        ),
        ValueView::Int32(_) => 4,
        ValueView::Int64(_) => 8,
        ValueView::Timestamp { .. } => 8,
        ValueView::Binary { subtype, bytes } => 5 + bytes.len() + if subtype == 2 {
            4nat
        } else {
            0nat
        },
        ValueView::ObjectId(_) => 12,
        ValueView::DateTime(_) => 8,
        ValueView::Symbol(s) => 5 + text_size(s),
        ValueView::Decimal128(_) => 16,
        ValueView::Undefined => 0,
        ValueView::MaxKey => 0,
        ValueView::MinKey => 0,
        ValueView::DbPointer(p) => 17 + db_pointer_name_len(p),
    }
}

/// The number of bytes of the fields of a document: for each a tag, its
/// name with a NUL, and its value.
pub open spec fn fields_size(fields: Seq<(Seq<char>, ValueView)>) -> nat
    decreases fields,
{
    if fields.len() == 0 {
        0
    } else {
        fields_size(fields.drop_last()) + 2 + text_size(fields.last().0) + value_size(
            fields.last().1,
        )
    }
}

/// The number of bytes of the items of an array: for each a tag, its
/// index in decimal with a NUL, and its value.
pub open spec fn items_size(items: Seq<ValueView>) -> nat
    decreases items,
{
    if items.len() == 0 {
        0
    } else {
        items_size(items.drop_last()) + 2 + text_size(decimal_digits((items.len() - 1) as nat))
            + value_size(items.last())
    }
}

/// The number of bytes of a document: four of length, its fields, and a
/// NUL.
pub open spec fn bson_len(fields: Seq<(Seq<char>, ValueView)>) -> nat {
    5 + fields_size(fields)
}

/// Fields are writable exactly where each of them is.
pub proof fn lemma_fields_writable(fields: Seq<(Seq<char>, ValueView)>)
    ensures
        fields_writable(fields) <==> forall|i: int|
            0 <= i < fields.len() ==> !has_nul((#[trigger] fields[i]).0) && value_writable(
                fields[i].1,
            ),
    decreases fields.len(),
{
    if fields.len() > 0 {
        lemma_fields_writable(fields.drop_last());
        if fields_writable(fields) {
            assert forall|i: int| 0 <= i < fields.len() implies !has_nul((#[trigger] fields[i]).0)
                && value_writable(fields[i].1) by {
                if i < fields.len() - 1 {
                    assert(fields.drop_last()[i] == fields[i]);
                }
            }
        } else if fields_writable(fields.drop_last()) {
            assert(fields.last() == fields[fields.len() - 1]);
        } else {
            let i = choose|i: int|
                0 <= i < fields.drop_last().len() && !(!has_nul(
                    (#[trigger] fields.drop_last()[i]).0,
                ) && value_writable(fields.drop_last()[i].1));
            assert(fields.drop_last()[i] == fields[i]);
        }
    }
}

/// Items are writable exactly where each of them is.
pub proof fn lemma_items_writable(items: Seq<ValueView>)
    ensures
        items_writable(items) <==> forall|i: int|
            0 <= i < items.len() ==> value_writable(#[trigger] items[i]),
    decreases items.len(),
{
    if items.len() > 0 {
        lemma_items_writable(items.drop_last());
        if items_writable(items) {
            assert forall|i: int| 0 <= i < items.len() implies value_writable(
                #[trigger] items[i],
            ) by {
                if i < items.len() - 1 {
                    assert(items.drop_last()[i] == items[i]);
                }
            }
        } else if items_writable(items.drop_last()) {
            assert(items.last() == items[items.len() - 1]);
        } else {
            let i = choose|i: int|
                0 <= i < items.drop_last().len() && !value_writable(
                    #[trigger] items.drop_last()[i],
                );
            assert(items.drop_last()[i] == items[i]);
        }
    }
}

/// One more field at the end adds its bytes, and no field takes more
/// bytes than all of them.
pub proof fn lemma_fields_size_prefix(fields: Seq<(Seq<char>, ValueView)>, i: int)
    requires
        0 <= i < fields.len(),
    ensures
        fields.subrange(0, i + 1).drop_last() == fields.subrange(0, i),
        fields_size(fields.subrange(0, i + 1)) == fields_size(fields.subrange(0, i)) + 2
            + text_size(fields[i].0) + value_size(fields[i].1),
        fields_size(fields.subrange(0, i + 1)) <= fields_size(fields),
    decreases fields.len() - i,
{
    assert(fields.subrange(0, i + 1).drop_last() == fields.subrange(0, i));
    if i + 1 < fields.len() {
        lemma_fields_size_prefix(fields, i + 1);
    } else {
        assert(fields.subrange(0, i + 1) == fields);
    }
}

/// One more item at the end adds its bytes, and no item takes more bytes
/// than all of them.
pub proof fn lemma_items_size_prefix(items: Seq<ValueView>, i: int)
    requires
        0 <= i < items.len(),
    ensures
        items.subrange(0, i + 1).drop_last() == items.subrange(0, i),
        items_size(items.subrange(0, i + 1)) == items_size(items.subrange(0, i)) + 2 + text_size(
            decimal_digits(i as nat),
        ) + value_size(items[i]),
        items_size(items.subrange(0, i + 1)) <= items_size(items),
    decreases items.len() - i,
{
    assert(items.subrange(0, i + 1).drop_last() == items.subrange(0, i));
    if i + 1 < items.len() {
        lemma_items_size_prefix(items, i + 1);
    } else {
        assert(items.subrange(0, i + 1) == items);
    }
}

/// `str::contains` with the NUL character: whether the text holds one.
#[verifier::external_body]
fn str_has_nul(s: &str) -> (r: bool)
    ensures
        r == has_nul(s@),
{
    s.contains('\0')
}

/// `bson::Bson::into_relaxed_extjson` of a database pointer, which puts
/// the namespace under `$dbPointer` and `$ref`, read there by
/// `serde_json::Value::pointer`: the number of bytes of the namespace.
#[verifier::external_body]
fn db_pointer_name_size(p: &bson::DbPointer) -> (r: Option<usize>)
    ensures
        match r {
            Some(n) => n == db_pointer_name_len(*p),
            None => false,
        },
{
    bson::Bson::DbPointer(p.clone()).into_relaxed_extjson().pointer("/$dbPointer/$ref")?.as_str().map(
        |s| s.len(),
    )
}

/// The number of bytes of a text.
fn text_len(s: &str) -> (n: usize)
    ensures
        n == text_size(s@),
{
    s.as_bytes().len()
}

fn check_options_sorted(s: &str) -> (r: bool)
    ensures
        r == options_sorted(s@),
{
    let n = s.unicode_len();
    if n < 2 {
        return true;
    }
    let mut before = s.get_char(0);
    let mut i: usize = 0;
    while i + 1 < n
        invariant
            n == s@.len(),
            i + 1 <= n,
            before == s@[i as int],
            forall|k: int| 0 <= k < i ==> (#[trigger] s@[k]) as u32 <= s@[k + 1] as u32,
        decreases n - i,
    {
        let next = s.get_char(i + 1);
        if before as u32 > next as u32 {
            return false;
        }
        before = next;
        i = i + 1;
    }
    true
}

fn check_value_writable(v: &Value) -> (r: bool)
    ensures
        r == value_writable(v@),
    decreases v,
{
    match v {
        Value::RegularExpression { pattern, options } => !str_has_nul(pattern.as_str())
            && !str_has_nul(options.as_str()) && check_options_sorted(options.as_str()),
        Value::Document(d) => check_fields_writable(d),
        Value::Array(items) => check_items_writable(items),
        Value::JavaScriptCodeWithScope { code, scope } => check_fields_writable(scope),
        _ => true,
    }
}

fn check_items_writable(items: &Vec<Value>) -> (r: bool)
    ensures
        r == items_writable(items_view(items@)),
    decreases items,
{
    let ghost views = items_view(items@);
    proof {
        lemma_items_view(items@);
        lemma_items_writable(views);
    }
    let mut i: usize = 0;
    while i < items.len()
        invariant
            i <= items@.len() == views.len(),
            views == items_view(items@),
            forall|j: int| 0 <= j < views.len() ==> (#[trigger] views[j]) == items@[j]@,
            items_writable(views) <==> forall|j: int|
                0 <= j < views.len() ==> value_writable(#[trigger] views[j]),
            forall|j: int| 0 <= j < i ==> value_writable(#[trigger] views[j]),
        decreases items@.len() - i,
    {
        if !check_value_writable(&items[i]) {
            assert(!value_writable(views[i as int]));
            return false;
        }
        i = i + 1;
    }
    true
}

fn check_fields_writable(doc: &Document) -> (r: bool)
    ensures
        r == fields_writable(doc@),
    decreases doc,
{
    let ghost views = doc@;
    proof {
        lemma_fields_view(doc.fields@);
        lemma_fields_writable(views);
    }
    let mut i: usize = 0;
    while i < doc.fields.len()
        invariant
            i <= doc.fields@.len() == views.len(),
            views == doc@,
            forall|j: int|
                0 <= j < views.len() ==> (#[trigger] views[j]) == (
                    doc.fields@[j].0@,
                    doc.fields@[j].1@,
                ),
            fields_writable(views) <==> forall|j: int|
                0 <= j < views.len() ==> !has_nul((#[trigger] views[j]).0) && value_writable(
                    views[j].1,
                ),
            forall|j: int|
                0 <= j < i ==> !has_nul((#[trigger] views[j]).0) && value_writable(views[j].1),
        decreases doc.fields@.len() - i,
    {
        if str_has_nul(doc.fields[i].0.as_str()) || !check_value_writable(&doc.fields[i].1) {
            assert(!(!has_nul(views[i as int].0) && value_writable(views[i as int].1)));
            return false;
        }
        i = i + 1;
    }
    true
}

/// `n` as a size, where a BSON length can state it.
pub open spec fn size_within(n: nat) -> Option<usize> {
    if n <= i32::MAX {
        Some(n as usize)
    } else {
        None
    }
}

fn add_size(a: Option<usize>, b: usize, Ghost(n): Ghost<nat>) -> (r: Option<usize>)
    requires
        a == size_within(n),
    ensures
        r == size_within(n + b as nat),
{
    match a {
        Some(x) => if b > i32::MAX as usize - x {
            None
        } else {
            Some(x + b)
        },
        None => None,
    }
}

fn add_sizes(a: Option<usize>, b: Option<usize>, Ghost(n): Ghost<nat>, Ghost(m): Ghost<nat>) -> (r:
    Option<usize>)
    requires
        a == size_within(n),
        b == size_within(m),
    ensures
        r == size_within(n + m),
{
    match b {
        Some(y) => add_size(a, y, Ghost(n)),
        None => None,
    }
}

fn value_len(v: &Value) -> (r: Option<usize>)
    ensures
        r == size_within(value_size(v@)),
    decreases v,
{
    match v {
        Value::Double(_) => Some(8),
        Value::String(s) => add_size(Some(5), text_len(s.as_str()), Ghost(5)),
        Value::Array(items) => add_size(
            items_len(items),
            5,
            Ghost(items_size(items_view(items@))),
        ),
        Value::Document(d) => add_size(fields_len(d), 5, Ghost(fields_size(d@))),
        Value::Boolean(_) => Some(1),
        Value::Null => Some(0),
        Value::RegularExpression { pattern, options } => {
            let a = add_size(Some(2), text_len(pattern.as_str()), Ghost(2));
            add_size(a, text_len(options.as_str()), Ghost(2 + text_size(pattern@)))
        },
        Value::JavaScriptCode(s) => add_size(Some(5), text_len(s.as_str()), Ghost(5)),
        Value::JavaScriptCodeWithScope { code, scope } => {
            let a = add_size(Some(14), text_len(code.as_str()), Ghost(14));
            add_sizes(a, fields_len(scope), Ghost(14 + text_size(code@)), Ghost(fields_size(scope@)))
        },
        Value::Int32(_) => Some(4),
        Value::Int64(_) => Some(8),
        Value::Timestamp { .. } => Some(8),
        Value::Binary { subtype, bytes } => {
            let a = add_size(Some(5), bytes.len(), Ghost(5));
            if *subtype == 2 {
                add_size(a, 4, Ghost(5 + bytes@.len()))
            } else {
                a
            }
        },
        Value::ObjectId(_) => Some(12),
        Value::DateTime(_) => Some(8),
        Value::Symbol(s) => add_size(Some(5), text_len(s.as_str()), Ghost(5)),
        Value::Decimal128(_) => Some(16),
        Value::Undefined => Some(0),
        Value::MaxKey => Some(0),
        Value::MinKey => Some(0),
        Value::DbPointer(p) => match db_pointer_name_size(p) {
            Some(n) => add_size(Some(17), n, Ghost(17)),
            None => None,
        },
    }
}

fn items_len(items: &Vec<Value>) -> (r: Option<usize>)
    ensures
        r == size_within(items_size(items_view(items@))),
    decreases items,
{
    let ghost views = items_view(items@);
    proof {
        lemma_items_view(items@);
        assert(views.subrange(0, 0) == Seq::<ValueView>::empty());
    }
    let mut total: Option<usize> = Some(0);
    let mut i: usize = 0;
    while i < items.len()
        invariant
            i <= items@.len() == views.len(),
            views == items_view(items@),
            forall|j: int| 0 <= j < views.len() ==> (#[trigger] views[j]) == items@[j]@,
            total == size_within(items_size(views.subrange(0, i as int))),
        decreases items@.len() - i,
    {
        let ghost done = items_size(views.subrange(0, i as int));
        proof {
            lemma_items_size_prefix(views, i as int);
        }
        let index = index_to_string(i);
        let a = add_size(total, 2, Ghost(done));
        let b = add_size(a, text_len(index.as_str()), Ghost(done + 2));
        total = add_sizes(
            b,
            value_len(&items[i]),
            Ghost(done + 2 + text_size(decimal_digits(i as nat))),
            Ghost(value_size(views[i as int])),
        );
        i = i + 1;
    }
    assert(views.subrange(0, i as int) == views);
    total
}

fn fields_len(doc: &Document) -> (r: Option<usize>)
    ensures
        r == size_within(fields_size(doc@)),
    decreases doc,
{
    let ghost views = doc@;
    proof {
        lemma_fields_view(doc.fields@);
        assert(views.subrange(0, 0) == Seq::<(Seq<char>, ValueView)>::empty());
    }
    let mut total: Option<usize> = Some(0);
    let mut i: usize = 0;
    while i < doc.fields.len()
        invariant
            i <= doc.fields@.len() == views.len(),
            views == doc@,
            forall|j: int|
                0 <= j < views.len() ==> (#[trigger] views[j]) == (
                    doc.fields@[j].0@,
                    doc.fields@[j].1@,
                ),
            total == size_within(fields_size(views.subrange(0, i as int))),
        decreases doc.fields@.len() - i,
    {
        let ghost done = fields_size(views.subrange(0, i as int));
        proof {
            lemma_fields_size_prefix(views, i as int);
            assert(views[i as int] == (doc.fields@[i as int].0@, doc.fields@[i as int].1@));
        }
        let a = add_size(total, 2, Ghost(done));
        let b = add_size(a, text_len(doc.fields[i].0.as_str()), Ghost(done + 2));
        total = add_sizes(
            b,
            value_len(&doc.fields[i].1),
            Ghost(done + 2 + text_size(views[i as int].0)),
            Ghost(value_size(views[i as int].1)),
        );
        i = i + 1;
    }
    assert(views.subrange(0, i as int) == views);
    total
}

/// `bson::RawBson::Double`, the double taken from its bits by
/// `byteorder::ByteOrder::read_f64`: the value that holds the double with
/// this bit pattern, written as its eight bytes.
#[verifier::external_body]
fn raw_double(bits: u64) -> (r: bson::RawBson)
    ensures
        raw_value(r) == Some(ValueView::Double(bits)),
        raw_bytes(r) == value_bytes(ValueView::Double(bits)),
        raw_bytes(r).len() == 8,
{
    bson::RawBson::Double(LittleEndian::read_f64(&bits.to_le_bytes()))
}

/// `bson::RawBson::String`: the value that holds this string, written as
/// a length, the text and a NUL.
#[verifier::external_body]
fn raw_string(s: String) -> (r: bson::RawBson)
    ensures
        raw_value(r) == Some(ValueView::String(s@)),
        raw_bytes(r) == value_bytes(ValueView::String(s@)),
        raw_bytes(r).len() == 5 + text_size(s@),
{
    bson::RawBson::String(s)
}

/// `bson::RawBson::Boolean`: the value that holds this boolean, written
/// as one byte.
#[verifier::external_body]
fn raw_boolean(b: bool) -> (r: bson::RawBson)
    ensures
        raw_value(r) == Some(ValueView::Boolean(b)),
        raw_bytes(r) == value_bytes(ValueView::Boolean(b)),
        raw_bytes(r).len() == 1,
{
    bson::RawBson::Boolean(b)
}

/// `bson::RawBson::Null`: the null value, written as nothing.
#[verifier::external_body]
fn raw_null() -> (r: bson::RawBson)
    ensures
        raw_value(r) == Some(ValueView::Null),
        raw_bytes(r) == value_bytes(ValueView::Null),
        raw_bytes(r).len() == 0,
{
    bson::RawBson::Null
}

/// `bson::RawBson::RegularExpression` of a `bson::Regex` with these two
/// strings as its fields: the value that holds them, written as the two
/// texts with a NUL after each. A NUL inside cannot be written, and
/// options out of order are read back in order, so both are left out.
#[verifier::external_body]
fn raw_regex(pattern: String, options: String) -> (r: bson::RawBson)
    requires
        !has_nul(pattern@),
        !has_nul(options@),
        options_sorted(options@),
    ensures
        raw_value(r) == Some(ValueView::RegularExpression { pattern: pattern@, options: options@ }),
        raw_bytes(r) == value_bytes(
            ValueView::RegularExpression { pattern: pattern@, options: options@ },
        ),
        raw_bytes(r).len() == text_size(pattern@) + text_size(options@) + 2,
{
    bson::RawBson::RegularExpression(bson::Regex { pattern, options })
}

/// `bson::RawBson::JavaScriptCode`: the value that holds this code,
/// written as a string is.
#[verifier::external_body]
fn raw_code(s: String) -> (r: bson::RawBson)
    ensures
        raw_value(r) == Some(ValueView::JavaScriptCode(s@)),
        raw_bytes(r) == value_bytes(ValueView::JavaScriptCode(s@)),
        raw_bytes(r).len() == 5 + text_size(s@),
{
    bson::RawBson::JavaScriptCode(s)
}

/// `bson::RawBson::Int32`: the value that holds this integer, written as
/// its four bytes.
#[verifier::external_body]
fn raw_int32(i: i32) -> (r: bson::RawBson)
    ensures
        raw_value(r) == Some(ValueView::Int32(i)),
        raw_bytes(r) == value_bytes(ValueView::Int32(i)),
        raw_bytes(r).len() == 4,
{
    bson::RawBson::Int32(i)
}

/// `bson::RawBson::Int64`: the value that holds this integer, written as
/// its eight bytes.
#[verifier::external_body]
fn raw_int64(i: i64) -> (r: bson::RawBson)
    ensures
        raw_value(r) == Some(ValueView::Int64(i)),
        raw_bytes(r) == value_bytes(ValueView::Int64(i)),
        raw_bytes(r).len() == 8,
{
    bson::RawBson::Int64(i)
}

/// `bson::RawBson::Timestamp` of a `bson::Timestamp` with these fields:
/// the value that holds them, written as eight bytes.
#[verifier::external_body]
fn raw_timestamp(time: u32, increment: u32) -> (r: bson::RawBson)
    ensures
        raw_value(r) == Some(ValueView::Timestamp { time, increment }),
        raw_bytes(r) == value_bytes(ValueView::Timestamp { time, increment }),
        raw_bytes(r).len() == 8,
{
    bson::RawBson::Timestamp(bson::Timestamp { time, increment })
}

/// `bson::RawBson::Binary` of a `bson::Binary` with these bytes and the
/// subtype that `bson::spec::BinarySubtype::from` gives for the number,
/// which is the number that the subtype gives back. It is written as a
/// length, the subtype and the bytes, with a second length in front of
/// the bytes for subtype 2.
#[verifier::external_body]
fn raw_binary(subtype: u8, bytes: Vec<u8>) -> (r: bson::RawBson)
    ensures
        raw_value(r) == Some(ValueView::Binary { subtype, bytes: bytes@ }),
        raw_bytes(r) == value_bytes(ValueView::Binary { subtype, bytes: bytes@ }),
        raw_bytes(r).len() == value_size(ValueView::Binary { subtype, bytes: bytes@ }),
{
    bson::RawBson::Binary(bson::Binary { subtype: subtype.into(), bytes })
}

/// `bson::RawBson::ObjectId` of `bson::oid::ObjectId::from_bytes`: the
/// value that holds the object id with these bytes, written as they are.
#[verifier::external_body]
fn raw_object_id(bytes: [u8; 12]) -> (r: bson::RawBson)
    ensures
        raw_value(r) == Some(ValueView::ObjectId(bytes@)),
        raw_bytes(r) == value_bytes(ValueView::ObjectId(bytes@)),
        raw_bytes(r).len() == 12,
{
    bson::RawBson::ObjectId(bson::oid::ObjectId::from_bytes(bytes))
}

/// `bson::RawBson::DateTime` of `bson::DateTime::from_millis`: the value
/// that holds the datetime so many milliseconds from the epoch, written
/// as eight bytes.
#[verifier::external_body]
fn raw_datetime(millis: i64) -> (r: bson::RawBson)
    ensures
        raw_value(r) == Some(ValueView::DateTime(millis)),
        raw_bytes(r) == value_bytes(ValueView::DateTime(millis)),
        raw_bytes(r).len() == 8,
{
    bson::RawBson::DateTime(bson::DateTime::from_millis(millis))
}

/// `bson::RawBson::Symbol`: the value that holds this symbol, written as
/// a string is.
#[verifier::external_body]
fn raw_symbol(s: String) -> (r: bson::RawBson)
    ensures
        raw_value(r) == Some(ValueView::Symbol(s@)),
        raw_bytes(r) == value_bytes(ValueView::Symbol(s@)),
        raw_bytes(r).len() == 5 + text_size(s@),
{
    bson::RawBson::Symbol(s)
}

/// `bson::RawBson::Decimal128` of `bson::Decimal128::from_bytes`: the
/// value that holds the Decimal128 with these bytes, written as they are.
#[verifier::external_body]
fn raw_decimal128(bytes: [u8; 16]) -> (r: bson::RawBson)
    ensures
        raw_value(r) == Some(ValueView::Decimal128(bytes@)),
        raw_bytes(r) == value_bytes(ValueView::Decimal128(bytes@)),
        raw_bytes(r).len() == 16,
{
    bson::RawBson::Decimal128(bson::Decimal128::from_bytes(bytes))
}

/// `bson::RawBson::Undefined`: the undefined value, written as nothing.
#[verifier::external_body]
fn raw_undefined() -> (r: bson::RawBson)
    ensures
        raw_value(r) == Some(ValueView::Undefined),
        raw_bytes(r) == value_bytes(ValueView::Undefined),
        raw_bytes(r).len() == 0,
{
    bson::RawBson::Undefined
}

/// `bson::RawBson::MaxKey`: the largest key, written as nothing.
#[verifier::external_body]
fn raw_max_key() -> (r: bson::RawBson)
    ensures
        raw_value(r) == Some(ValueView::MaxKey),
        raw_bytes(r) == value_bytes(ValueView::MaxKey),
        raw_bytes(r).len() == 0,
{
    bson::RawBson::MaxKey
}

/// `bson::RawBson::MinKey`: the smallest key, written as nothing.
#[verifier::external_body]
fn raw_min_key() -> (r: bson::RawBson)
    ensures
        raw_value(r) == Some(ValueView::MinKey),
        raw_bytes(r) == value_bytes(ValueView::MinKey),
        raw_bytes(r).len() == 0,
{
    bson::RawBson::MinKey
}

/// `bson::RawBson::DbPointer`: the value that holds this database
/// pointer, written as its namespace, as a string is, and the twelve bytes
/// of its id.
#[verifier::external_body]
fn raw_db_pointer(p: &bson::DbPointer) -> (r: bson::RawBson)
    ensures
        raw_value(r) == Some(ValueView::DbPointer(*p)),
        raw_bytes(r) == value_bytes(ValueView::DbPointer(*p)),
        raw_bytes(r).len() == 17 + db_pointer_name_len(*p),
{
    bson::RawBson::DbPointer(p.clone())
}

/// Every named value can be appended and has the bytes of a value built
/// from its parts.
pub open spec fn elements_ready(elems: Seq<(String, bson::RawBson)>) -> bool {
    forall|i: int|
        0 <= i < elems.len() ==> !has_nul((#[trigger] elems[i]).0@) && canonical(elems[i].1)
}

/// Every value has the bytes of a value built from its parts.
pub open spec fn items_ready(items: Seq<bson::RawBson>) -> bool {
    forall|i: int| 0 <= i < items.len() ==> canonical(#[trigger] items[i])
}

/// The number of bytes that named values take in a document: for each a
/// tag, its name with a NUL, and its bytes.
pub open spec fn elements_size(elems: Seq<(String, bson::RawBson)>) -> nat
    decreases elems.len(),
{
    if elems.len() == 0 {
        0
    } else {
        elements_size(elems.drop_last()) + 2 + text_size(elems.last().0@) + raw_bytes(
            elems.last().1,
        ).len()
    }
}

/// The number of bytes that values take in an array: for each a tag, its
/// index in decimal with a NUL, and its bytes.
pub open spec fn array_size(items: Seq<bson::RawBson>) -> nat
    decreases items.len(),
{
    if items.len() == 0 {
        0
    } else {
        array_size(items.drop_last()) + 2 + text_size(decimal_digits((items.len() - 1) as nat))
            + raw_bytes(items.last()).len()
    }
}

/// `bson::RawDocumentBuf::from_iter`, which appends the named values one
/// by one to an empty document: the document as a value. Each append
/// writes a tag, the name with a NUL and the bytes of the value, and then
/// the length of the whole in front, as a 32-bit number. Within that size
/// the document holds what was appended, and its bytes are those fields
/// written in order.
#[verifier::external_body]
fn raw_document(elems: Vec<(String, bson::RawBson)>) -> (r: bson::RawBson)
    requires
        elements_ready(elems@),
        5 + elements_size(elems@) <= i32::MAX,
    ensures
        raw_value(r) == document_of(elements_model(elems@)),
        raw_value(r) matches Some(m) && raw_bytes(r) == value_bytes(m),
        raw_bytes(r).len() == 5 + elements_size(elems@),
{
    bson::RawBson::Document(elems.into_iter().collect())
}

/// `bson::RawArrayBuf::from_iter`, which pushes the values one by one to
/// an empty array, each under its index in decimal: the array as a value.
#[verifier::external_body]
fn raw_array(items: Vec<bson::RawBson>) -> (r: bson::RawBson)
    requires
        items_ready(items@),
        5 + array_size(items@) <= i32::MAX,
    ensures
        raw_value(r) == array_of(items_model(items@)),
        raw_value(r) matches Some(m) && raw_bytes(r) == value_bytes(m),
        raw_bytes(r).len() == 5 + array_size(items@),
{
    bson::RawBson::Array(items.into_iter().collect())
}

/// `bson::RawBson::JavaScriptCodeWithScope`, the scope built by
/// `bson::RawDocumentBuf::from_iter`: the value that holds the code and
/// the scope, written as a length, the code as a string is, and the scope
/// as a document.
#[verifier::external_body]
fn raw_code_with_scope(code: String, elems: Vec<(String, bson::RawBson)>) -> (r: bson::RawBson)
    requires
        elements_ready(elems@),
        14 + text_size(code@) + elements_size(elems@) <= i32::MAX,
    ensures
        raw_value(r) == scoped_code_of(code@, elements_model(elems@)),
        raw_value(r) matches Some(m) && raw_bytes(r) == value_bytes(m),
        raw_bytes(r).len() == 14 + text_size(code@) + elements_size(elems@),
{
    bson::RawBson::JavaScriptCodeWithScope(
        bson::RawJavaScriptCodeWithScope { code, scope: elems.into_iter().collect() },
    )
}

/// `bson::RawDocumentBuf::from_iter` and `into_bytes`: the bytes of the
/// document that holds the named values. They are the fields written in
/// order, they frame themselves, and they read back as what was appended.
#[verifier::external_body]
fn raw_document_bytes(elems: Vec<(String, bson::RawBson)>) -> (r: Vec<u8>)
    requires
        elements_ready(elems@),
        5 + elements_size(elems@) <= i32::MAX,
    ensures
        r@ == value_bytes(ValueView::Document(elements_model(elems@)->Some_0)),
        r@.len() == 5 + elements_size(elems@),
        bson_read(r@) == elements_model(elems@),
        document_framed(r@),
{
    elems.into_iter().collect::<bson::RawDocumentBuf>().into_bytes()
}

fn write_value(v: &Value) -> (x: bson::RawBson)
    requires
        value_writable(v@),
        value_size(v@) <= i32::MAX,
    ensures
        raw_value(x) == Some(v@),
        raw_bytes(x) == value_bytes(v@),
        raw_bytes(x).len() == value_size(v@),
    decreases v,
{
    match v {
        Value::Double(bits) => raw_double(*bits),
        Value::String(s) => raw_string(crate::document::copy_string(s)),
        Value::Array(items) => raw_array(write_items(items)),
        Value::Document(d) => raw_document(write_elements(d)),
        Value::Boolean(b) => raw_boolean(*b),
        Value::Null => raw_null(),
        Value::RegularExpression { pattern, options } => raw_regex(
            crate::document::copy_string(pattern),
            crate::document::copy_string(options),
        ),
        Value::JavaScriptCode(s) => raw_code(crate::document::copy_string(s)),
        Value::JavaScriptCodeWithScope { code, scope } => raw_code_with_scope(
            crate::document::copy_string(code),
            write_elements(scope),
        ),
        Value::Int32(i) => raw_int32(*i),
        Value::Int64(i) => raw_int64(*i),
        Value::Timestamp { time, increment } => raw_timestamp(*time, *increment),
        Value::Binary { subtype, bytes } => raw_binary(
            *subtype,
            crate::document::copy_bytes(bytes),
        ),
        Value::ObjectId(bytes) => raw_object_id(*bytes),
        Value::DateTime(millis) => raw_datetime(*millis),
        Value::Symbol(s) => raw_symbol(crate::document::copy_string(s)),
        Value::Decimal128(bytes) => raw_decimal128(*bytes),
        Value::Undefined => raw_undefined(),
        Value::MaxKey => raw_max_key(),
        Value::MinKey => raw_min_key(),
        Value::DbPointer(p) => raw_db_pointer(p),
    }
}

fn write_items(items: &Vec<Value>) -> (built: Vec<bson::RawBson>)
    requires
        items_writable(items_view(items@)),
        5 + items_size(items_view(items@)) <= i32::MAX,
    ensures
        items_model(built@) == Some(items_view(items@)),
        items_ready(built@),
        array_size(built@) == items_size(items_view(items@)),
    decreases items,
{
    let ghost views = items_view(items@);
    proof {
        lemma_items_view(items@);
        lemma_items_writable(views);
        assert(views.subrange(0, 0) == Seq::<ValueView>::empty());
    }
    let mut out: Vec<bson::RawBson> = Vec::new();
    let mut i: usize = 0;
    while i < items.len()
        invariant
            i <= items@.len() == views.len(),
            out@.len() == i,
            views == items_view(items@),
            5 + items_size(views) <= i32::MAX,
            forall|j: int| 0 <= j < views.len() ==> (#[trigger] views[j]) == items@[j]@,
            forall|j: int| 0 <= j < views.len() ==> value_writable(#[trigger] views[j]),
            forall|j: int|
                0 <= j < i ==> raw_value(#[trigger] out@[j]) == Some(views[j]) && raw_bytes(out@[j])
                    == value_bytes(views[j]),
            array_size(out@) == items_size(views.subrange(0, i as int)),
        decreases items@.len() - i,
    {
        proof {
            lemma_items_size_prefix(views, i as int);
            assert(value_writable(views[i as int]));
        }
        let ghost before = out@;
        let x = write_value(&items[i]);
        out.push(x);
        assert(out@.drop_last() == before);
        i = i + 1;
    }
    proof {
        assert(views.subrange(0, i as int) == views);
        assert(items_model(out@) is Some);
        assert(items_model(out@)->Some_0 =~= views);
    }
    out
}

fn write_elements(doc: &Document) -> (built: Vec<(String, bson::RawBson)>)
    requires
        fields_writable(doc@),
        5 + fields_size(doc@) <= i32::MAX,
    ensures
        elements_model(built@) == Some(doc@),
        elements_ready(built@),
        elements_size(built@) == fields_size(doc@),
    decreases doc,
{
    let ghost views = doc@;
    proof {
        lemma_fields_view(doc.fields@);
        lemma_fields_writable(views);
        assert(views.subrange(0, 0) == Seq::<(Seq<char>, ValueView)>::empty());
    }
    let mut out: Vec<(String, bson::RawBson)> = Vec::new();
    let mut i: usize = 0;
    while i < doc.fields.len()
        invariant
            i <= doc.fields@.len() == views.len(),
            out@.len() == i,
            views == doc@,
            5 + fields_size(views) <= i32::MAX,
            forall|j: int|
                0 <= j < views.len() ==> (#[trigger] views[j]) == (
                    doc.fields@[j].0@,
                    doc.fields@[j].1@,
                ),
            forall|j: int|
                0 <= j < views.len() ==> !has_nul((#[trigger] views[j]).0) && value_writable(
                    views[j].1,
                ),
            forall|j: int|
                0 <= j < i ==> (#[trigger] out@[j]).0@ == views[j].0 && raw_value(out@[j].1)
                    == Some(views[j].1) && raw_bytes(out@[j].1) == value_bytes(views[j].1),
            elements_size(out@) == fields_size(views.subrange(0, i as int)),
        decreases doc.fields@.len() - i,
    {
        proof {
            lemma_fields_size_prefix(views, i as int);
            assert(views[i as int] == (doc.fields@[i as int].0@, doc.fields@[i as int].1@));
            assert(!has_nul(views[i as int].0) && value_writable(views[i as int].1));
        }
        let ghost before = out@;
        let name = crate::document::copy_string(&doc.fields[i].0);
        let x = write_value(&doc.fields[i].1);
        out.push((name, x));
        assert(out@.drop_last() == before);
        i = i + 1;
    }
    proof {
        assert(views.subrange(0, i as int) == views);
        assert forall|j: int| 0 <= j < out@.len() implies (#[trigger] raw_value(out@[j].1))
            is Some by {
            assert(out@[j].0@ == views[j].0);
        }
        assert(elements_model(out@) is Some);
        assert(elements_model(out@)->Some_0 =~= views);
        assert forall|j: int| 0 <= j < out@.len() implies !has_nul((#[trigger] out@[j]).0@)
            && canonical(out@[j].1) by {
            assert(!has_nul(views[j].0));
        }
    }
    out
}

/// Writes a document as BSON bytes: the bytes that the `bson` crate gives
/// for its fields, written in order. `Unsupported` where the document
/// cannot be written, `BadEnvelope` where it can but takes more bytes than
/// a BSON length can state.
pub fn to_vec(doc: &Document) -> (r: Result<Vec<u8>, Error>)
    ensures
        r is Ok <==> fields_writable(doc@) && bson_len(doc@) <= i32::MAX,
        match r {
            Ok(bytes) => {
                &&& bytes@ == bson_bytes(doc@)
                &&& bytes@.len() == bson_len(doc@)
                &&& bson_document(bytes@) == Some(doc@)
                &&& document_framed(bytes@)
            },
            Err(e) => if fields_writable(doc@) {
                e == Error::BadEnvelope
            } else {
                e == Error::Unsupported
            },
        },
{
    if !check_fields_writable(doc) {
        return Err(Error::Unsupported);
    }
    match add_size(fields_len(doc), 5, Ghost(fields_size(doc@))) {
        Some(_) => Ok(raw_document_bytes(write_elements(doc))),
        None => Err(Error::BadEnvelope),
    }
}

/// A document as its BSON bytes, read once: the bytes and the fields that
/// they hold.
#[derive(Debug)]
pub struct RawDocumentBuf {
    data: Vec<u8>,
    doc: Document,
}

impl View for RawDocumentBuf {
    type V = Seq<(Seq<char>, ValueView)>;

    closed spec fn view(&self) -> Seq<(Seq<char>, ValueView)> {
        self.doc@
    }
}

impl RawDocumentBuf {
    #[verifier::type_invariant]
    spec fn well_formed(self) -> bool {
        bson_document(self.data@) == Some(self.doc@) && document_framed(self.data@)
    }

    /// The bytes of the document.
    pub closed spec fn bytes(self) -> Seq<u8> {
        self.data@
    }

    /// Reads a document from its bytes; `BadEnvelope` where they are not
    /// a well-formed document.
    pub fn from_bytes(data: Vec<u8>) -> (r: Result<RawDocumentBuf, Error>)
        ensures
            match r {
                Ok(raw) => raw.bytes() == data@ && bson_document(data@) == Some(raw@),
                Err(e) => e == Error::BadEnvelope && bson_document(data@) is None,
            },
    {
        match from_slice(data.as_slice()) {
            Ok(doc) => Ok(RawDocumentBuf { data, doc }),
            Err(e) => Err(e),
        }
    }

    /// Writes a document to bytes, as `to_vec` does and with its errors.
    pub fn from_document(doc: Document) -> (r: Result<RawDocumentBuf, Error>)
        ensures
            r is Ok <==> fields_writable(doc@) && bson_len(doc@) <= i32::MAX,
            match r {
                Ok(raw) => raw@ == doc@ && raw.bytes() == bson_bytes(doc@),
                Err(e) => if fields_writable(doc@) {
                    e == Error::BadEnvelope
                } else {
                    e == Error::Unsupported
                },
            },
    {
        match to_vec(&doc) {
            Ok(data) => Ok(RawDocumentBuf { data, doc }),
            Err(e) => Err(e),
        }
    }

    /// The bytes of the document: those of its fields, framing
    /// themselves.
    pub fn as_bytes(&self) -> (r: &[u8])
        ensures
            r@ == self.bytes(),
            bson_document(r@) == Some(self@),
            document_framed(r@),
    {
        proof {
            use_type_invariant(self);
        }
        self.data.as_slice()
    }

    /// The fields of the document.
    pub fn document(&self) -> (r: &Document)
        ensures
            r@ == self@,
    {
        &self.doc
    }
}

} // verus!
