//! The value model: what one cell of a table can hold.

use vstd::prelude::*;
use crate::error::NormalizationError;
use crate::json::Float;
use crate::json::FloatView;
use crate::json::items_view;
use crate::json::Json;
use crate::json::JsonNumber;
use crate::json::JsonNumberView;
use crate::json::JsonView;
use crate::text::decimal;
use crate::text::signed_decimal;
use crate::text::signed_text;
use crate::text::unsigned_text;

verus! {

/// A cell value. Built once, never changed.
#[derive(Debug, PartialEq)]
pub enum Dtype {
    String(String),
    Float(Float),
    UInt(u64),
    Int(i64),
    Bool(bool),
    Array(Vec<Dtype>),
    Null,
}

/// A cell value as contracts speak of it.
pub enum DtypeView {
    String(Seq<char>),
    Float(FloatView),
    UInt(u64),
    Int(i64),
    Bool(bool),
    Array(Seq<DtypeView>),
    Null,
}

/// The tag of a value without what it holds.
#[derive(Debug, Clone, Copy, PartialEq, Eq, Structural)]
pub enum Kind {
    Null,
    Bool,
    UInt,
    Int,
    Float,
    String,
    Array,
}

/// What a value stands for: its own data, with strings and arrays as
/// sequences.
pub open spec fn model(value: Dtype) -> DtypeView
    decreases value,
{
    match value {
        Dtype::String(s) => DtypeView::String(s@),
        Dtype::Float(f) => DtypeView::Float(f@),
        Dtype::UInt(u) => DtypeView::UInt(u),
        Dtype::Int(i) => DtypeView::Int(i),
        Dtype::Bool(b) => DtypeView::Bool(b),
        Dtype::Array(items) => DtypeView::Array(
            Seq::new(
                items@.len(),
                |i: int|
                    if 0 <= i < items@.len() {
                        model(items@[i])
                    } else {
                        DtypeView::Null
                    },
            ),
        ),
        Dtype::Null => DtypeView::Null,
    }
}

impl View for Dtype {
    type V = DtypeView;

    open spec fn view(&self) -> DtypeView {
        model(*self)
    }
}

/// The values of a vector, each by its view.
pub open spec fn values_view(values: Seq<Dtype>) -> Seq<DtypeView> {
    Seq::new(values.len(), |i: int| values[i]@)
}

/// An array's view is the view of its items, one for one.
pub proof fn lemma_array_view(items: Vec<Dtype>)
    ensures
        Dtype::Array(items)@ == DtypeView::Array(values_view(items@)),
{
    reveal_with_fuel(model, 2);
    assert(Dtype::Array(items)@->Array_0 =~= values_view(items@));
}

/// The kind of a value.
pub open spec fn kind_of(value: DtypeView) -> Kind {
    match value {
        DtypeView::String(_) => Kind::String,
        DtypeView::Float(_) => Kind::Float,
        DtypeView::UInt(_) => Kind::UInt,
        DtypeView::Int(_) => Kind::Int,
        DtypeView::Bool(_) => Kind::Bool,
        DtypeView::Array(_) => Kind::Array,
        DtypeView::Null => Kind::Null,
    }
}

impl Dtype {
    pub fn kind(&self) -> (k: Kind)
        ensures
            k == kind_of(self@),
    {
        match self {
            Dtype::String(_) => Kind::String,
            Dtype::Float(_) => Kind::Float,
            Dtype::UInt(_) => Kind::UInt,
            Dtype::Int(_) => Kind::Int,
            Dtype::Bool(_) => Kind::Bool,
            Dtype::Array(_) => Kind::Array,
            Dtype::Null => Kind::Null,
        }
    }

    /// A deep copy.
    pub fn duplicate(&self) -> (copy: Dtype)
        ensures
            copy@ == self@,
        decreases self,
    {
        match self {
            Dtype::String(s) => Dtype::String(s.clone()),
            Dtype::Float(f) => Dtype::Float(f.duplicate()),
            Dtype::UInt(u) => Dtype::UInt(*u),
            Dtype::Int(i) => Dtype::Int(*i),
            Dtype::Bool(b) => Dtype::Bool(*b),
            Dtype::Array(items) => {
                let mut copies: Vec<Dtype> = Vec::new();
                let mut i: usize = 0;
                while i < items.len()
                    invariant
                        i <= items.len(),
                        copies.len() == i,
                        forall|j: int| 0 <= j < i ==> copies[j]@ == items[j]@,
                        self == Dtype::Array(*items),
                    decreases items.len() - i,
                {
                    assert(self->Array_0 == *items);
                    copies.push(items[i].duplicate());
                    i += 1;
                }
                proof {
                    lemma_array_view(*items);
                    lemma_array_view(copies);
                    assert(values_view(copies@) =~= values_view(items@));
                }
                Dtype::Array(copies)
            },
            Dtype::Null => Dtype::Null,
        }
    }
}

/// Whether an object stands at this node or anywhere below it.
pub open spec fn holds_object(node: JsonView) -> bool
    decreases node, 0int,
{
    match node {
        JsonView::Object(_) => true,
        JsonView::Array(items) => any_holds_object(items, items.len() as int),
        _ => false,
    }
}

/// Whether one of the first `n` items holds an object.
pub open spec fn any_holds_object(items: Seq<JsonView>, n: int) -> bool
    decreases items, n,
{
    if n <= 0 || n > items.len() {
        false
    } else {
        any_holds_object(items, n - 1) || holds_object(items[n - 1])
    }
}

/// The value of a number: unsigned before signed before fractional. A number
/// with no reading at all is null.
pub open spec fn classify(number: JsonNumberView) -> DtypeView {
    if number.as_u64 is Some {
        DtypeView::UInt(number.as_u64->0)
    } else if number.as_i64 is Some {
        DtypeView::Int(number.as_i64->0)
    } else if number.as_f64 is Some {
        DtypeView::Float(number.as_f64->0)
    } else {
        DtypeView::Null
    }
}

/// The cell value of a node that holds no object. An empty array becomes an
/// array of one null, so that no array cell is ever empty.
pub open spec fn cell_of(node: JsonView) -> DtypeView
    decreases node, 0int,
{
    match node {
        JsonView::Null => DtypeView::Null,
        JsonView::Bool(b) => DtypeView::Bool(b),
        JsonView::Number(n) => classify(n),
        JsonView::String(s) => DtypeView::String(s),
        JsonView::Array(items) => if items.len() == 0 {
            DtypeView::Array(seq![DtypeView::Null])
        } else {
            DtypeView::Array(cells_of(items, items.len() as int))
        },
        JsonView::Object(_) => DtypeView::Null,
    }
}

/// The cell values of the first `n` items, in order.
pub open spec fn cells_of(items: Seq<JsonView>, n: int) -> Seq<DtypeView>
    decreases items, n,
{
    if n <= 0 || n > items.len() {
        Seq::empty()
    } else {
        cells_of(items, n - 1).push(cell_of(items[n - 1]))
    }
}

/// An object among the first `n` items is among the first `m`, for `m` past `n`.
pub proof fn lemma_any_holds_object_grows(items: Seq<JsonView>, n: int, m: int)
    requires
        n <= m <= items.len(),
        any_holds_object(items, n),
    ensures
        any_holds_object(items, m),
    decreases m - n,
{
    if n < m {
        lemma_any_holds_object_grows(items, n, m - 1);
    }
}

impl Dtype {
    /// The value of a number node.
    pub fn from_number(number: &JsonNumber) -> (value: Dtype)
        ensures
            value@ == classify(number@),
    {
        match number.as_u64 {
            Some(u) => Dtype::UInt(u),
            None => match number.as_i64 {
                Some(i) => Dtype::Int(i),
                None => match &number.as_f64 {
                    Some(f) => Dtype::Float(f.duplicate()),
                    None => Dtype::Null,
                },
            },
        }
    }

    /// The cell value of a node. A node with an object at it or below it has
    /// none: objects become tables before any of their content becomes a cell.
    pub fn from_value(value: &Json) -> (cell: Result<Dtype, NormalizationError>)
        ensures
            cell is Err <==> holds_object(value@),
            cell is Err ==> cell == Err::<Dtype, NormalizationError>(
                NormalizationError::ObjectType,
            ),
            cell matches Ok(d) ==> d@ == cell_of(value@),
        decreases value,
    {
        match value {
            Json::Null => Ok(Dtype::Null),
            Json::Bool(b) => Ok(Dtype::Bool(*b)),
            Json::Number(n) => Ok(Dtype::from_number(n)),
            Json::String(s) => Ok(Dtype::String(s.clone())),
            Json::Array(items) => {
                proof {
                    crate::json::lemma_array_view(*items);
                }
                if items.len() == 0 {
                    let mut one: Vec<Dtype> = Vec::new();
                    one.push(Dtype::Null);
                    proof {
                        lemma_array_view(one);
                        assert(values_view(one@) =~= seq![DtypeView::Null]);
                    }
                    return Ok(Dtype::Array(one));
                }
                let mut cells: Vec<Dtype> = Vec::new();
                let mut i: usize = 0;
                while i < items.len()
                    invariant
                        i <= items.len(),
                        value == Json::Array(*items),
                        value@ == JsonView::Array(items_view(items@)),
                        !any_holds_object(items_view(items@), i as int),
                        values_view(cells@) == cells_of(items_view(items@), i as int),
                    decreases items.len() - i,
                {
                    match Dtype::from_value(&items[i]) {
                        Ok(d) => {
                            cells.push(d);
                        },
                        Err(e) => {
                            proof {
                                lemma_any_holds_object_grows(
                                    items_view(items@),
                                    i as int + 1,
                                    items.len() as int,
                                );
                            }
                            return Err(e);
                        },
                    }
                    i += 1;
                }
                proof {
                    lemma_array_view(cells);
                }
                Ok(Dtype::Array(cells))
            },
            Json::Object(_) => Err(NormalizationError::ObjectType),
        }
    }
}

/// The text of a value: `null`, `true` or `false`, a string as it is, a
/// number in decimal, a fractional number by the text it came with, and an
/// array as its items, each followed by a comma and a space.
pub open spec fn text_of(value: DtypeView) -> Seq<char>
    decreases value, 0int,
{
    match value {
        DtypeView::Null => seq!['n', 'u', 'l', 'l'],
        DtypeView::Bool(b) => if b {
            seq!['t', 'r', 'u', 'e']
        } else {
            seq!['f', 'a', 'l', 's', 'e']
        },
        DtypeView::String(s) => s,
        DtypeView::Float(f) => f.text,
        DtypeView::UInt(u) => decimal(u as nat),
        DtypeView::Int(i) => signed_decimal(i as int),
        DtypeView::Array(items) => items_text(items, items.len() as int),
    }
}

/// The text of the first `n` items of an array.
pub open spec fn items_text(items: Seq<DtypeView>, n: int) -> Seq<char>
    decreases items, n,
{
    if n <= 0 || n > items.len() {
        Seq::empty()
    } else {
        items_text(items, n - 1) + text_of(items[n - 1]) + seq![',', ' ']
    }
}

impl Dtype {
    pub fn is_float(&self) -> (b: bool)
        ensures
            b == (self@ is Float),
    {
        matches!(self, Dtype::Float(_))
    }

    pub fn is_uint(&self) -> (b: bool)
        ensures
            b == (self@ is UInt),
    {
        matches!(self, Dtype::UInt(_))
    }

    pub fn is_int(&self) -> (b: bool)
        ensures
            b == (self@ is Int),
    {
        matches!(self, Dtype::Int(_))
    }

    pub fn is_string(&self) -> (b: bool)
        ensures
            b == (self@ is String),
    {
        matches!(self, Dtype::String(_))
    }

    pub fn is_bool(&self) -> (b: bool)
        ensures
            b == (self@ is Bool),
    {
        matches!(self, Dtype::Bool(_))
    }

    pub fn is_null(&self) -> (b: bool)
        ensures
            b == (self@ is Null),
    {
        matches!(self, Dtype::Null)
    }

    pub fn is_array(&self) -> (b: bool)
        ensures
            b == (self@ is Array),
    {
        matches!(self, Dtype::Array(_))
    }

    /// The items of an array; nothing for any other value.
    pub fn into_vec(self) -> (items: Option<Vec<Dtype>>)
        ensures
            items is Some <==> self@ is Array,
            items matches Some(v) ==> self@ == DtypeView::Array(values_view(v@)),
    {
        match self {
            Dtype::Array(arr) => {
                proof {
                    lemma_array_view(arr);
                }
                Some(arr)
            },
            _ => None,
        }
    }

    /// The items of an array, borrowed; nothing for any other value.
    pub fn get_slice<'a>(&'a self) -> (items: Option<&'a [Dtype]>)
        ensures
            items is Some <==> self@ is Array,
            items matches Some(v) ==> self@ == DtypeView::Array(values_view(v@)),
    {
        if let Dtype::Array(arr) = self {
            proof {
                lemma_array_view(*arr);
            }
            Some(arr.as_slice())
        } else {
            None
        }
    }

    /// Whether every item is null or of the given kind.
    pub fn array_is_type(arr: &Vec<Dtype>, kind: Kind) -> (b: bool)
        ensures
            b == all_of_kind(values_view(arr@), kind),
    {
        let mut i: usize = 0;
        while i < arr.len()
            invariant
                i <= arr.len(),
                forall|j: int| 0 <= j < i ==> fits(#[trigger] values_view(arr@)[j], kind),
            decreases arr.len() - i,
        {
            let k: Kind = arr[i].kind();
            if !(k == Kind::Null || k == kind) {
                assert(!fits(values_view(arr@)[i as int], kind));
                return false;
            }
            i += 1;
        }
        true
    }

    /// The text of the value.
    pub fn render(&self) -> (text: String)
        ensures
            text@ == text_of(self@),
        decreases self,
    {
        match self {
            Dtype::Null => {
                proof {
                    reveal_strlit("null");
                }
                let text: String = String::from_str("null");
                text
            },
            Dtype::Bool(b) => {
                proof {
                    reveal_strlit("true");
                    reveal_strlit("false");
                }
                let text: String = if *b {
                    String::from_str("true")
                } else {
                    String::from_str("false")
                };
                text
            },
            Dtype::String(s) => s.clone(),
            Dtype::Float(f) => f.text.clone(),
            Dtype::UInt(u) => unsigned_text(*u),
            Dtype::Int(i) => signed_text(*i),
            Dtype::Array(items) => {
                proof {
                    lemma_array_view(*items);
                    reveal_strlit(", ");
                }
                let mut text: String = String::new();
                let mut i: usize = 0;
                while i < items.len()
                    invariant
                        i <= items.len(),
                        self == Dtype::Array(*items),
                        text@ == items_text(values_view(items@), i as int),
                        ", "@ == seq![',', ' '],
                    decreases items.len() - i,
                {
                    assert(self->Array_0 == *items);
                    let piece: String = items[i].render();
                    text.append(piece.as_str());
                    text.append(", ");
                    i += 1;
                }
                text
            },
        }
    }
}

/// Whether a value is null or of the given kind.
pub open spec fn fits(value: DtypeView, kind: Kind) -> bool {
    value is Null || kind_of(value) == kind
}

/// Whether every value is null or of the given kind.
pub open spec fn all_of_kind(values: Seq<DtypeView>, kind: Kind) -> bool {
    forall|i: int| 0 <= i < values.len() ==> fits(#[trigger] values[i], kind)
}

/// What an optional value stands for.
pub open spec fn option_view<T: View>(value: Option<T>) -> Option<T::V> {
    match value {
        Some(v) => Some(v@),
        None => None,
    }
}

pub open spec fn as_bool(value: DtypeView) -> Option<bool> {
    match value {
        DtypeView::Bool(b) => Some(b),
        _ => None,
    }
}

pub open spec fn as_uint(value: DtypeView) -> Option<u64> {
    match value {
        DtypeView::UInt(u) => Some(u),
        _ => None,
    }
}

pub open spec fn as_int(value: DtypeView) -> Option<i64> {
    match value {
        DtypeView::Int(i) => Some(i),
        _ => None,
    }
}

pub open spec fn as_float(value: DtypeView) -> Option<FloatView> {
    match value {
        DtypeView::Float(f) => Some(f),
        _ => None,
    }
}

pub open spec fn as_string(value: DtypeView) -> Option<Seq<char>> {
    match value {
        DtypeView::String(s) => Some(s),
        _ => None,
    }
}

/// A type that a value can be taken as, where its tag is exactly that of the
/// type and in no other case: no number is read as another kind of number.
pub trait Strict: Sized + View {
    /// What a value gives when it is taken as this type.
    spec fn strict(value: DtypeView) -> Option<Self::V>;

    fn take(value: &Dtype) -> (taken: Option<Self>)
        ensures
            option_view(taken) == Self::strict(value@),
    ;
}

impl Strict for bool {
    open spec fn strict(value: DtypeView) -> Option<bool> {
        as_bool(value)
    }

    fn take(value: &Dtype) -> (taken: Option<bool>) {
        match value {
            Dtype::Bool(b) => Some(*b),
            _ => None,
        }
    }
}

impl Strict for u64 {
    open spec fn strict(value: DtypeView) -> Option<u64> {
        as_uint(value)
    }

    fn take(value: &Dtype) -> (taken: Option<u64>) {
        match value {
            Dtype::UInt(u) => Some(*u),
            _ => None,
        }
    }
}

impl Strict for i64 {
    open spec fn strict(value: DtypeView) -> Option<i64> {
        as_int(value)
    }

    fn take(value: &Dtype) -> (taken: Option<i64>) {
        match value {
            Dtype::Int(i) => Some(*i),
            _ => None,
        }
    }
}

impl Strict for Float {
    open spec fn strict(value: DtypeView) -> Option<FloatView> {
        as_float(value)
    }

    fn take(value: &Dtype) -> (taken: Option<Float>) {
        match value {
            Dtype::Float(f) => Some(f.duplicate()),
            _ => None,
        }
    }
}

impl Strict for String {
    open spec fn strict(value: DtypeView) -> Option<Seq<char>> {
        as_string(value)
    }

    fn take(value: &Dtype) -> (taken: Option<String>) {
        match value {
            Dtype::String(s) => Some(s.clone()),
            _ => None,
        }
    }
}

impl Dtype {
    /// Every value taken as `T`: what it holds where its tag is that of `T`,
    /// nothing where it is null or of another kind.
    pub fn cast_to_option<T: Strict>(values: Vec<Dtype>) -> (taken: Vec<Option<T>>)
        ensures
            taken.len() == values.len(),
            forall|i: int|
                0 <= i < values.len() ==> option_view(#[trigger] taken[i]) == T::strict(
                    values[i]@,
                ),
    {
        let mut taken: Vec<Option<T>> = Vec::new();
        let mut i: usize = 0;
        while i < values.len()
            invariant
                i <= values.len(),
                taken.len() == i,
                forall|j: int|
                    0 <= j < i ==> option_view(#[trigger] taken[j]) == T::strict(values[j]@),
            decreases values.len() - i,
        {
            taken.push(T::take(&values[i]));
            i += 1;
        }
        taken
    }
}

impl From<String> for Dtype {
    fn from(value: String) -> (cell: Dtype) {
        Dtype::String(value)
    }
}

impl vstd::std_specs::convert::FromSpecImpl<String> for Dtype {
    open spec fn obeys_from_spec() -> bool {
        true
    }

    open spec fn from_spec(value: String) -> Dtype {
        Dtype::String(value)
    }
}

impl From<Float> for Dtype {
    fn from(value: Float) -> (cell: Dtype) {
        Dtype::Float(value)
    }
}

impl vstd::std_specs::convert::FromSpecImpl<Float> for Dtype {
    open spec fn obeys_from_spec() -> bool {
        true
    }

    open spec fn from_spec(value: Float) -> Dtype {
        Dtype::Float(value)
    }
}

impl From<u64> for Dtype {
    fn from(value: u64) -> (cell: Dtype) {
        Dtype::UInt(value)
    }
}

impl vstd::std_specs::convert::FromSpecImpl<u64> for Dtype {
    open spec fn obeys_from_spec() -> bool {
        true
    }

    open spec fn from_spec(value: u64) -> Dtype {
        Dtype::UInt(value)
    }
}

impl From<i64> for Dtype {
    fn from(value: i64) -> (cell: Dtype) {
        Dtype::Int(value)
    }
}

impl vstd::std_specs::convert::FromSpecImpl<i64> for Dtype {
    open spec fn obeys_from_spec() -> bool {
        true
    }

    open spec fn from_spec(value: i64) -> Dtype {
        Dtype::Int(value)
    }
}

impl From<bool> for Dtype {
    fn from(value: bool) -> (cell: Dtype) {
        Dtype::Bool(value)
    }
}

impl vstd::std_specs::convert::FromSpecImpl<bool> for Dtype {
    open spec fn obeys_from_spec() -> bool {
        true
    }

    open spec fn from_spec(value: bool) -> Dtype {
        Dtype::Bool(value)
    }
}

impl From<Vec<Dtype>> for Dtype {
    fn from(value: Vec<Dtype>) -> (cell: Dtype) {
        Dtype::Array(value)
    }
}

impl vstd::std_specs::convert::FromSpecImpl<Vec<Dtype>> for Dtype {
    open spec fn obeys_from_spec() -> bool {
        true
    }

    open spec fn from_spec(value: Vec<Dtype>) -> Dtype {
        Dtype::Array(value)
    }
}

impl Clone for Dtype {
    fn clone(&self) -> (copy: Dtype)
        ensures
            copy@ == self@,
    {
        self.duplicate()
    }
}

} // verus!
