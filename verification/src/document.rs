//! Structured documents: ordered fields of typed values.

use vstd::prelude::*;
use vstd::string::StringExecFns;

verus! {

/// `bson::DbPointer`, a database pointer of the `bson` crate. The crate
/// keeps its fields to itself, so a pointer is carried as it is.
#[verifier::external_type_specification]
#[verifier::external_body]
pub struct ExDbPointer(bson::DbPointer);

/// `Clone::clone` of `bson::DbPointer`: a pointer equal to the one given.
#[verifier::external_body]
pub(crate) fn copy_db_pointer(p: &bson::DbPointer) -> (r: bson::DbPointer)
    ensures
        r == *p,
{
    p.clone()
}

/// A value of a document field.
#[derive(Debug, PartialEq)]
pub enum Value {
    /// A double, held as its IEEE 754 bit pattern.
    Double(u64),
    String(String),
    Array(Vec<Value>),
    Document(Document),
    Boolean(bool),
    Null,
    RegularExpression { pattern: String, options: String },
    JavaScriptCode(String),
    JavaScriptCodeWithScope { code: String, scope: Document },
    Int32(i32),
    Int64(i64),
    Timestamp { time: u32, increment: u32 },
    Binary { subtype: u8, bytes: Vec<u8> },
    ObjectId([u8; 12]),
    /// Milliseconds since the Unix epoch.
    DateTime(i64),
    Symbol(String),
    Decimal128([u8; 16]),
    Undefined,
    MaxKey,
    MinKey,
    /// A database pointer, as the `bson` crate holds it.
    DbPointer(bson::DbPointer),
}

/// An ordered list of named values. Names may repeat.
#[derive(Debug, PartialEq)]
pub struct Document {
    pub fields: Vec<(String, Value)>,
}

/// What a `Value` holds, as mathematical data.
pub enum ValueView {
    Double(u64),
    String(Seq<char>),
    Array(Seq<ValueView>),
    Document(Seq<(Seq<char>, ValueView)>),
    Boolean(bool),
    Null,
    RegularExpression { pattern: Seq<char>, options: Seq<char> },
    JavaScriptCode(Seq<char>),
    JavaScriptCodeWithScope { code: Seq<char>, scope: Seq<(Seq<char>, ValueView)> },
    Int32(i32),
    Int64(i64),
    Timestamp { time: u32, increment: u32 },
    Binary { subtype: u8, bytes: Seq<u8> },
    ObjectId(Seq<u8>),
    DateTime(i64),
    Symbol(Seq<char>),
    Decimal128(Seq<u8>),
    Undefined,
    MaxKey,
    MinKey,
    DbPointer(bson::DbPointer),
}

impl View for Value {
    type V = ValueView;

    open spec fn view(&self) -> ValueView {
        value_view(*self)
    }
}

/// What `v` holds, as mathematical data.
pub open spec fn value_view(v: Value) -> ValueView
    decreases v,
{
    match v {
        Value::Double(bits) => ValueView::Double(bits),
        Value::String(s) => ValueView::String(s@),
        Value::Array(items) => ValueView::Array(items_view(items@)),
        Value::Document(d) => ValueView::Document(fields_view(d.fields@)),
        Value::Boolean(b) => ValueView::Boolean(b),
        Value::Null => ValueView::Null,
        Value::RegularExpression { pattern, options } => ValueView::RegularExpression {
            pattern: pattern@,
            options: options@,
        },
        Value::JavaScriptCode(s) => ValueView::JavaScriptCode(s@),
        Value::JavaScriptCodeWithScope { code, scope } => ValueView::JavaScriptCodeWithScope {
            code: code@,
            scope: fields_view(scope.fields@),
        },
        Value::Int32(v) => ValueView::Int32(v),
        Value::Int64(v) => ValueView::Int64(v),
        Value::Timestamp { time, increment } => ValueView::Timestamp { time, increment },
        Value::Binary { subtype, bytes } => ValueView::Binary { subtype, bytes: bytes@ },
        Value::ObjectId(bytes) => ValueView::ObjectId(bytes@),
        Value::DateTime(millis) => ValueView::DateTime(millis),
        Value::Symbol(s) => ValueView::Symbol(s@),
        Value::Decimal128(bytes) => ValueView::Decimal128(bytes@),
        Value::Undefined => ValueView::Undefined,
        Value::MaxKey => ValueView::MaxKey,
        Value::MinKey => ValueView::MinKey,
        Value::DbPointer(p) => ValueView::DbPointer(p),
    }
}

/// The items of a list, as mathematical data.
pub open spec fn items_view(items: Seq<Value>) -> Seq<ValueView>
    decreases items,
{
    if items.len() == 0 {
        Seq::empty()
    } else {
        items_view(items.drop_last()).push(value_view(items.last()))
    }
}

/// The fields of a list, as mathematical data.
pub open spec fn fields_view(fields: Seq<(String, Value)>) -> Seq<(Seq<char>, ValueView)>
    decreases fields,
{
    if fields.len() == 0 {
        Seq::empty()
    } else {
        fields_view(fields.drop_last()).push((fields.last().0@, value_view(fields.last().1)))
    }
}

/// `items_view` goes item by item.
pub proof fn lemma_items_view(items: Seq<Value>)
    ensures
        items_view(items).len() == items.len(),
        forall|i: int| 0 <= i < items.len() ==> (#[trigger] items_view(items)[i]) == items[i]@,
    decreases items.len(),
{
    if items.len() > 0 {
        lemma_items_view(items.drop_last());
    }
}

/// `fields_view` goes field by field.
pub proof fn lemma_fields_view(fields: Seq<(String, Value)>)
    ensures
        fields_view(fields).len() == fields.len(),
        forall|i: int|
            0 <= i < fields.len() ==> (#[trigger] fields_view(fields)[i]) == (
                fields[i].0@,
                fields[i].1@,
            ),
    decreases fields.len(),
{
    if fields.len() > 0 {
        lemma_fields_view(fields.drop_last());
    }
}

impl View for Document {
    type V = Seq<(Seq<char>, ValueView)>;

    open spec fn view(&self) -> Seq<(Seq<char>, ValueView)> {
        fields_view(self.fields@)
    }
}

pub(crate) fn copy_string(s: &String) -> (r: String)
    ensures
        r@ == s@,
{
    s.clone()
}

pub(crate) fn copy_bytes(bytes: &Vec<u8>) -> (r: Vec<u8>)
    ensures
        r@ == bytes@,
{
    let mut r: Vec<u8> = Vec::new();
    let mut i: usize = 0;
    while i < bytes.len()
        invariant
            i <= bytes@.len(),
            r@ == bytes@.subrange(0, i as int),
        decreases bytes@.len() - i,
    {
        r.push(bytes[i]);
        i = i + 1;
        assert(r@ == bytes@.subrange(0, i as int));
    }
    assert(bytes@.subrange(0, bytes@.len() as int) == bytes@);
    r
}

fn copy_items(items: &Vec<Value>) -> (out: Vec<Value>)
    ensures
        items_view(out@) == items_view(items@),
    decreases items,
{
    let mut out: Vec<Value> = Vec::new();
    let mut i: usize = 0;
    while i < items.len()
        invariant
            i <= items@.len(),
            out@.len() == i,
            forall|j: int| 0 <= j < i ==> out@[j]@ == items@[j]@,
        decreases items@.len() - i,
    {
        out.push(items[i].copy());
        i = i + 1;
    }
    proof {
        lemma_items_view(out@);
        lemma_items_view(items@);
    }
    assert(items_view(out@) =~= items_view(items@));
    out
}

impl Value {
    /// A deep copy.
    pub fn copy(&self) -> (r: Value)
        ensures
            r@ == self@,
        decreases self,
    {
        let r = match self {
            Value::Double(bits) => Value::Double(*bits),
            Value::String(s) => Value::String(copy_string(s)),
            Value::Array(items) => Value::Array(copy_items(items)),
            Value::Document(d) => Value::Document(d.copy()),
            Value::Boolean(b) => Value::Boolean(*b),
            Value::Null => Value::Null,
            Value::RegularExpression { pattern, options } => Value::RegularExpression {
                pattern: copy_string(pattern),
                options: copy_string(options),
            },
            Value::JavaScriptCode(s) => Value::JavaScriptCode(copy_string(s)),
            Value::JavaScriptCodeWithScope { code, scope } => Value::JavaScriptCodeWithScope {
                code: copy_string(code),
                scope: scope.copy(),
            },
            Value::Int32(v) => Value::Int32(*v),
            Value::Int64(v) => Value::Int64(*v),
            Value::Timestamp { time, increment } => Value::Timestamp {
                time: *time,
                increment: *increment,
            },
            Value::Binary { subtype, bytes } => Value::Binary {
                subtype: *subtype,
                bytes: copy_bytes(bytes),
            },
            Value::ObjectId(bytes) => Value::ObjectId(*bytes),
            Value::DateTime(millis) => Value::DateTime(*millis),
            Value::Symbol(s) => Value::Symbol(copy_string(s)),
            Value::Decimal128(bytes) => Value::Decimal128(*bytes),
            Value::Undefined => Value::Undefined,
            Value::MaxKey => Value::MaxKey,
            Value::MinKey => Value::MinKey,
            Value::DbPointer(p) => Value::DbPointer(copy_db_pointer(p)),
        };
        r
    }
}

impl Document {
    /// A document without fields.
    pub fn new() -> (r: Document)
        ensures
            r@ == Seq::<(Seq<char>, ValueView)>::empty(),
    {
        Document { fields: Vec::new() }
    }

    /// A deep copy.
    pub fn copy(&self) -> (r: Document)
        ensures
            r@ == self@,
        decreases self,
    {
        let mut out: Vec<(String, Value)> = Vec::new();
        let mut i: usize = 0;
        while i < self.fields.len()
            invariant
                i <= self.fields@.len(),
                out@.len() == i,
                forall|j: int|
                    0 <= j < i ==> out@[j].0@ == self.fields@[j].0@ && out@[j].1@
                        == self.fields@[j].1@,
            decreases self.fields@.len() - i,
        {
            let name = copy_string(&self.fields[i].0);
            let value = self.fields[i].1.copy();
            out.push((name, value));
            i = i + 1;
        }
        let r = Document { fields: out };
        proof {
            lemma_fields_view(out@);
            lemma_fields_view(self.fields@);
        }
        assert(r@ =~= self@);
        r
    }
}

/// Field `i` is the first field named `key`.
pub open spec fn first_match(fields: Seq<(Seq<char>, ValueView)>, key: Seq<char>, i: int) -> bool {
    &&& 0 <= i < fields.len()
    &&& fields[i].0 == key
    &&& forall|j: int| 0 <= j < i ==> (#[trigger] fields[j]).0 != key
}

/// The value of the first field named `key`.
pub open spec fn field_value(fields: Seq<(Seq<char>, ValueView)>, key: Seq<char>) -> Option<
    ValueView,
> {
    if exists|i: int| first_match(fields, key, i) {
        Some(fields[choose|i: int| first_match(fields, key, i)].1)
    } else {
        None
    }
}

/// The first match is the only first match.
pub proof fn lemma_first_match(fields: Seq<(Seq<char>, ValueView)>, key: Seq<char>, i: int)
    requires
        first_match(fields, key, i),
    ensures
        field_value(fields, key) == Some(fields[i].1),
{
    let k = choose|k: int| first_match(fields, key, k);
    if k < i {
        assert(fields[k].0 != key);
    } else if i < k {
        assert(fields[i].0 != key);
    }
}

impl Document {
    /// The value of the first field named `key`.
    pub fn get(&self, key: &str) -> (r: Option<&Value>)
        ensures
            match r {
                Some(v) => field_value(self@, key@) == Some(v@),
                None => field_value(self@, key@) is None,
            },
    {
        let wanted = String::from_str(key);
        proof {
            lemma_fields_view(self.fields@);
        }
        let mut i: usize = 0;
        while i < self.fields.len()
            invariant
                i <= self.fields@.len() == self@.len(),
                wanted@ == key@,
                forall|j: int|
                    0 <= j < self@.len() ==> (#[trigger] self@[j]) == (
                        self.fields@[j].0@,
                        self.fields@[j].1@,
                    ),
                forall|j: int| 0 <= j < i ==> (#[trigger] self@[j]).0 != key@,
            decreases self.fields@.len() - i,
        {
            if self.fields[i].0 == wanted {
                proof {
                    assert(self@[i as int] == (self.fields@[i as int].0@, self.fields@[i as int].1@));
                    lemma_first_match(self@, key@, i as int);
                }
                return Some(&self.fields[i].1);
            }
            assert(self@[i as int].0 != key@);
            i = i + 1;
        }
        assert forall|k: int| !first_match(self@, key@, k) by {
            if 0 <= k < self@.len() {
                assert(self@[k].0 != key@);
            }
        }
        None
    }

    /// The value of the first field named `key`, where it is a 32-bit
    /// integer.
    pub fn get_i32(&self, key: &str) -> (r: Option<i32>)
        ensures
            r == match field_value(self@, key@) {
                Some(ValueView::Int32(i)) => Some(i),
                _ => None,
            },
    {
        match self.get(key) {
            Some(Value::Int32(i)) => Some(*i),
            _ => None,
        }
    }

    /// The subtype and the bytes of the first field named `key`, where it
    /// is a binary.
    pub fn get_binary(&self, key: &str) -> (r: Option<(u8, &Vec<u8>)>)
        ensures
            match r {
                Some((subtype, bytes)) => field_value(self@, key@) == Some(
                    ValueView::Binary { subtype, bytes: bytes@ },
                ),
                None => !(field_value(self@, key@) matches Some(ValueView::Binary { .. })),
            },
    {
        match self.get(key) {
            Some(Value::Binary { subtype, bytes }) => Some((*subtype, bytes)),
            _ => None,
        }
    }

    /// The number of fields.
    pub fn len(&self) -> (r: usize)
        ensures
            r == self@.len(),
    {
        proof {
            lemma_fields_view(self.fields@);
        }
        self.fields.len()
    }

    /// Adds a field at the end.
    pub fn insert(&mut self, key: &str, value: Value)
        ensures
            final(self)@ == old(self)@.push((key@, value@)),
    {
        let ghost before = self.fields@;
        self.fields.push((String::from_str(key), value));
        proof {
            assert(self.fields@.drop_last() == before);
        }
    }
}

impl Clone for Value {
    fn clone(&self) -> (r: Value)
        ensures
            r@ == self@,
    {
        self.copy()
    }
}

impl Clone for Document {
    fn clone(&self) -> (r: Document)
        ensures
            r@ == self@,
    {
        self.copy()
    }
}

} // verus!
