//! The document as the library sees it: a tree of typed nodes.

use vstd::prelude::*;

verus! {

/// A fractional number, carried and never computed with: its IEEE 754 bit
/// pattern and its decimal text.
#[derive(Debug, PartialEq)]
pub struct Float {
    pub bits: u64,
    pub text: String,
}

/// What a `Float` stands for in contracts.
pub struct FloatView {
    pub bits: u64,
    pub text: Seq<char>,
}

impl View for Float {
    type V = FloatView;

    open spec fn view(&self) -> FloatView {
        FloatView { bits: self.bits, text: self.text@ }
    }
}

impl Float {
    pub fn new(bits: u64, text: String) -> (f: Float)
        ensures
            f@ == (FloatView { bits, text: text@ }),
    {
        Float { bits, text }
    }

    /// A copy with the same bits and text.
    pub fn duplicate(&self) -> (f: Float)
        ensures
            f@ == self@,
    {
        Float { bits: self.bits, text: self.text.clone() }
    }
}

/// A JSON number by the three readings a document gives of it. A reading is
/// `None` where the number does not fit it.
#[derive(Debug, PartialEq)]
pub struct JsonNumber {
    pub as_u64: Option<u64>,
    pub as_i64: Option<i64>,
    pub as_f64: Option<Float>,
}

pub struct JsonNumberView {
    pub as_u64: Option<u64>,
    pub as_i64: Option<i64>,
    pub as_f64: Option<FloatView>,
}

impl View for JsonNumber {
    type V = JsonNumberView;

    open spec fn view(&self) -> JsonNumberView {
        JsonNumberView {
            as_u64: self.as_u64,
            as_i64: self.as_i64,
            as_f64: match self.as_f64 {
                Some(f) => Some(f@),
                None => None,
            },
        }
    }
}

impl JsonNumber {
    /// A non-negative whole number.
    pub fn unsigned(value: u64) -> (n: JsonNumber)
        ensures
            n@.as_u64 == Some(value),
            n@.as_i64 == (if value <= i64::MAX { Some(value as i64) } else { None }),
            n@.as_f64 is None,
    {
        let signed: Option<i64> = if value <= 0x7fff_ffff_ffff_ffffu64 {
            Some(value as i64)
        } else {
            None
        };
        JsonNumber { as_u64: Some(value), as_i64: signed, as_f64: None }
    }

    /// A negative whole number.
    pub fn negative(value: i64) -> (n: JsonNumber)
        requires
            value < 0,
        ensures
            n@ == (JsonNumberView { as_u64: None, as_i64: Some(value), as_f64: None }),
    {
        JsonNumber { as_u64: None, as_i64: Some(value), as_f64: None }
    }

    /// A fractional number.
    pub fn fractional(value: Float) -> (n: JsonNumber)
        ensures
            n@ == (JsonNumberView { as_u64: None, as_i64: None, as_f64: Some(value@) }),
    {
        JsonNumber { as_u64: None, as_i64: None, as_f64: Some(value) }
    }
}

/// One member of an object: a key and the node under it.
#[derive(Debug, PartialEq)]
pub struct JsonField {
    pub key: String,
    pub value: Json,
}

/// A node of the document.
#[derive(Debug, PartialEq)]
pub enum Json {
    Null,
    Bool(bool),
    Number(JsonNumber),
    String(String),
    Array(Vec<Json>),
    Object(Vec<JsonField>),
}

/// The document as a mathematical tree. An object is the sequence of its
/// members in source order.
pub enum JsonView {
    Null,
    Bool(bool),
    Number(JsonNumberView),
    String(Seq<char>),
    Array(Seq<JsonView>),
    Object(Seq<(Seq<char>, JsonView)>),
}

/// What a node stands for.
pub open spec fn tree(node: Json) -> JsonView
    decreases node,
{
    match node {
        Json::Null => JsonView::Null,
        Json::Bool(b) => JsonView::Bool(b),
        Json::Number(n) => JsonView::Number(n@),
        Json::String(s) => JsonView::String(s@),
        Json::Array(items) => JsonView::Array(
            Seq::new(
                items@.len(),
                |i: int|
                    if 0 <= i < items@.len() {
                        tree(items@[i])
                    } else {
                        JsonView::Null
                    },
            ),
        ),
        Json::Object(fields) => JsonView::Object(
            Seq::new(
                fields@.len(),
                |i: int|
                    if 0 <= i < fields@.len() {
                        (fields@[i].key@, tree(fields@[i].value))
                    } else {
                        (Seq::empty(), JsonView::Null)
                    },
            ),
        ),
    }
}

impl View for Json {
    type V = JsonView;

    open spec fn view(&self) -> JsonView {
        tree(*self)
    }
}

/// The members of an object node as a sequence of keys and trees.
pub open spec fn fields_view(fields: Seq<JsonField>) -> Seq<(Seq<char>, JsonView)> {
    Seq::new(fields.len(), |i: int| (fields[i].key@, fields[i].value@))
}

/// The items of an array node as a sequence of trees.
pub open spec fn items_view(items: Seq<Json>) -> Seq<JsonView> {
    Seq::new(items.len(), |i: int| items[i]@)
}

/// An object's view is the view of its members, one for one.
pub proof fn lemma_object_view(fields: Vec<JsonField>)
    ensures
        Json::Object(fields)@ == JsonView::Object(fields_view(fields@)),
{
    reveal_with_fuel(tree, 2);
    assert(Json::Object(fields)@->Object_0 =~= fields_view(fields@));
}

/// An array's view is the view of its items, one for one.
pub proof fn lemma_array_view(items: Vec<Json>)
    ensures
        Json::Array(items)@ == JsonView::Array(items_view(items@)),
{
    reveal_with_fuel(tree, 2);
    assert(Json::Array(items)@->Array_0 =~= items_view(items@));
}

impl Json {
    pub fn is_object(&self) -> (b: bool)
        ensures
            b == (self@ is Object),
    {
        match self {
            Json::Object(_) => true,
            _ => false,
        }
    }

    pub fn is_array(&self) -> (b: bool)
        ensures
            b == (self@ is Array),
    {
        match self {
            Json::Array(_) => true,
            _ => false,
        }
    }
}

impl Clone for Float {
    fn clone(&self) -> (copy: Float)
        ensures
            copy@ == self@,
    {
        self.duplicate()
    }
}

} // verus!
