//! Typed columns: what the column builder hands to whatever stores them.

use vstd::prelude::*;
use crate::dtype::Kind;
use crate::dtype::option_view;
use crate::json::Float;
use crate::json::FloatView;

verus! {

/// A typed array with a place for null at every position.
#[derive(Debug, PartialEq)]
pub enum ChunkedArray {
    /// Nothing but nulls, by their number.
    Null(usize),
    Bool(Vec<Option<bool>>),
    UInt(Vec<Option<u64>>),
    Int(Vec<Option<i64>>),
    Float(Vec<Option<Float>>),
    String(Vec<Option<String>>),
}

pub enum ChunkedArrayView {
    Null(nat),
    Bool(Seq<Option<bool>>),
    UInt(Seq<Option<u64>>),
    Int(Seq<Option<i64>>),
    Float(Seq<Option<FloatView>>),
    String(Seq<Option<Seq<char>>>),
}

/// Optional values, each by its view.
pub open spec fn options_view<T: View>(values: Seq<Option<T>>) -> Seq<Option<T::V>> {
    Seq::new(values.len(), |i: int| option_view(values[i]))
}

impl View for ChunkedArray {
    type V = ChunkedArrayView;

    open spec fn view(&self) -> ChunkedArrayView {
        match self {
            ChunkedArray::Null(n) => ChunkedArrayView::Null(*n as nat),
            ChunkedArray::Bool(v) => ChunkedArrayView::Bool(v@),
            ChunkedArray::UInt(v) => ChunkedArrayView::UInt(v@),
            ChunkedArray::Int(v) => ChunkedArrayView::Int(v@),
            ChunkedArray::Float(v) => ChunkedArrayView::Float(options_view(v@)),
            ChunkedArray::String(v) => ChunkedArrayView::String(options_view(v@)),
        }
    }
}

/// The number of positions of an array.
pub open spec fn array_len(array: ChunkedArrayView) -> nat {
    match array {
        ChunkedArrayView::Null(n) => n,
        ChunkedArrayView::Bool(v) => v.len(),
        ChunkedArrayView::UInt(v) => v.len(),
        ChunkedArrayView::Int(v) => v.len(),
        ChunkedArrayView::Float(v) => v.len(),
        ChunkedArrayView::String(v) => v.len(),
    }
}

/// The kind of what an array holds.
pub open spec fn array_kind(array: ChunkedArrayView) -> Kind {
    match array {
        ChunkedArrayView::Null(_) => Kind::Null,
        ChunkedArrayView::Bool(_) => Kind::Bool,
        ChunkedArrayView::UInt(_) => Kind::UInt,
        ChunkedArrayView::Int(_) => Kind::Int,
        ChunkedArrayView::Float(_) => Kind::Float,
        ChunkedArrayView::String(_) => Kind::String,
    }
}

impl ChunkedArray {
    pub fn len(&self) -> (n: usize)
        ensures
            n == array_len(self@),
    {
        match self {
            ChunkedArray::Null(n) => *n,
            ChunkedArray::Bool(v) => v.len(),
            ChunkedArray::UInt(v) => v.len(),
            ChunkedArray::Int(v) => v.len(),
            ChunkedArray::Float(v) => v.len(),
            ChunkedArray::String(v) => v.len(),
        }
    }

    pub fn kind(&self) -> (k: Kind)
        ensures
            k == array_kind(self@),
    {
        match self {
            ChunkedArray::Null(_) => Kind::Null,
            ChunkedArray::Bool(_) => Kind::Bool,
            ChunkedArray::UInt(_) => Kind::UInt,
            ChunkedArray::Int(_) => Kind::Int,
            ChunkedArray::Float(_) => Kind::Float,
            ChunkedArray::String(_) => Kind::String,
        }
    }
}

/// A column of lists: one typed array for each row, all of one kind.
#[derive(Debug, PartialEq)]
pub struct ListChunked {
    pub inner: Kind,
    pub rows: Vec<ChunkedArray>,
}

pub struct ListChunkedView {
    pub inner: Kind,
    pub rows: Seq<ChunkedArrayView>,
}

/// Arrays, each by its view.
pub open spec fn arrays_view(arrays: Seq<ChunkedArray>) -> Seq<ChunkedArrayView> {
    Seq::new(arrays.len(), |i: int| arrays[i]@)
}

impl View for ListChunked {
    type V = ListChunkedView;

    open spec fn view(&self) -> ListChunkedView {
        ListChunkedView { inner: self.inner, rows: arrays_view(self.rows@) }
    }
}

/// What a column holds: one value for each row, or one list for each row.
#[derive(Debug, PartialEq)]
pub enum Values {
    Flat(ChunkedArray),
    List(ListChunked),
}

pub enum ValuesView {
    Flat(ChunkedArrayView),
    List(ListChunkedView),
}

impl View for Values {
    type V = ValuesView;

    open spec fn view(&self) -> ValuesView {
        match self {
            Values::Flat(a) => ValuesView::Flat(a@),
            Values::List(l) => ValuesView::List(l@),
        }
    }
}

/// The type that a column resolved to.
#[derive(Debug, Clone, Copy, PartialEq, Eq, Structural)]
pub enum DataType {
    Null,
    Boolean,
    UInt64,
    Int64,
    Float64,
    String,
    List(Kind),
}

/// The type of an array of the given kind.
pub open spec fn flat_type(kind: Kind) -> DataType {
    match kind {
        Kind::Null => DataType::Null,
        Kind::Bool => DataType::Boolean,
        Kind::UInt => DataType::UInt64,
        Kind::Int => DataType::Int64,
        Kind::Float => DataType::Float64,
        Kind::String => DataType::String,
        Kind::Array => DataType::Null,
    }
}

/// The type of what a column holds.
pub open spec fn values_type(values: ValuesView) -> DataType {
    match values {
        ValuesView::Flat(a) => flat_type(array_kind(a)),
        ValuesView::List(l) => DataType::List(l.inner),
    }
}

/// The number of rows of what a column holds.
pub open spec fn values_len(values: ValuesView) -> nat {
    match values {
        ValuesView::Flat(a) => array_len(a),
        ValuesView::List(l) => l.rows.len(),
    }
}

/// A named column. `fallback` marks a column whose values were of mixed
/// kinds and stand as text.
#[derive(Debug, PartialEq)]
pub struct Series {
    pub name: String,
    pub values: Values,
    pub fallback: bool,
}

pub struct SeriesView {
    pub name: Seq<char>,
    pub values: ValuesView,
    pub fallback: bool,
}

impl View for Series {
    type V = SeriesView;

    open spec fn view(&self) -> SeriesView {
        SeriesView { name: self.name@, values: self.values@, fallback: self.fallback }
    }
}

impl Series {
    /// The number of rows.
    pub fn len(&self) -> (n: usize)
        ensures
            n == values_len(self@.values),
    {
        match &self.values {
            Values::Flat(a) => a.len(),
            Values::List(l) => {
                l.rows.len()
            },
        }
    }

    /// The type that the column resolved to.
    pub fn dtype(&self) -> (t: DataType)
        ensures
            t == values_type(self@.values),
    {
        match &self.values {
            Values::Flat(a) => match a.kind() {
                Kind::Null => DataType::Null,
                Kind::Bool => DataType::Boolean,
                Kind::UInt => DataType::UInt64,
                Kind::Int => DataType::Int64,
                Kind::Float => DataType::Float64,
                Kind::String => DataType::String,
                Kind::Array => DataType::Null,
            },
            Values::List(l) => DataType::List(l.inner),
        }
    }
}

/// One entry of a schema: a column's name, what it resolved to, and whether
/// that was by falling back to text.
#[derive(Debug, PartialEq)]
pub struct Field {
    pub name: String,
    pub dtype: DataType,
    pub fallback: bool,
}

pub struct FieldView {
    pub name: Seq<char>,
    pub dtype: DataType,
    pub fallback: bool,
}

impl View for Field {
    type V = FieldView;

    open spec fn view(&self) -> FieldView {
        FieldView { name: self.name@, dtype: self.dtype, fallback: self.fallback }
    }
}

/// The resolved columns of one table, in column order.
#[derive(Debug, PartialEq)]
pub struct Schema {
    pub fields: Vec<Field>,
}

impl View for Schema {
    type V = Seq<FieldView>;

    open spec fn view(&self) -> Seq<FieldView> {
        Seq::new(self.fields@.len(), |i: int| self.fields@[i]@)
    }
}

/// The schema entry of a column.
pub open spec fn field_of(series: SeriesView) -> FieldView {
    FieldView { name: series.name, dtype: values_type(series.values), fallback: series.fallback }
}

/// Columns, each by its view.
pub open spec fn columns_view(columns: Seq<Series>) -> Seq<SeriesView> {
    Seq::new(columns.len(), |i: int| columns[i]@)
}

/// Why a set of columns is no table.
#[derive(Debug, Clone, Copy, PartialEq, Eq, Structural)]
pub enum ColumnBuildError {
    /// Two columns differ in their number of rows.
    ShapeMismatch,
    /// Two columns have the same name.
    Duplicate,
}

/// Whether all columns have as many rows as the first.
pub open spec fn same_height(columns: Seq<SeriesView>) -> bool {
    forall|i: int|
        0 <= i < columns.len() ==> values_len((#[trigger] columns[i]).values) == values_len(
            columns[0].values,
        )
}

/// Whether no two columns share a name.
pub open spec fn distinct_names(columns: Seq<SeriesView>) -> bool {
    forall|i: int, j: int|
        0 <= i < j < columns.len() ==> (#[trigger] columns[i]).name != (#[trigger] columns[j]).name
}

/// What is wrong with a set of columns, if anything: heights are looked at
/// before names.
pub open spec fn frame_fault(columns: Seq<SeriesView>) -> Option<ColumnBuildError> {
    if !same_height(columns) {
        Some(ColumnBuildError::ShapeMismatch)
    } else if !distinct_names(columns) {
        Some(ColumnBuildError::Duplicate)
    } else {
        None
    }
}

/// A table in columns: same-length typed arrays under distinct names.
#[derive(Debug, PartialEq)]
pub struct DataFrame {
    pub columns: Vec<Series>,
}

impl View for DataFrame {
    type V = Seq<SeriesView>;

    open spec fn view(&self) -> Seq<SeriesView> {
        columns_view(self.columns@)
    }
}

impl DataFrame {
    /// Whether the columns make a table.
    pub open spec fn well_formed(&self) -> bool {
        frame_fault(self@) is None
    }

    /// A table of the given columns, where they make one.
    pub fn new(columns: Vec<Series>) -> (frame: Result<DataFrame, ColumnBuildError>)
        ensures
            match frame_fault(columns_view(columns@)) {
                Some(e) => frame == Err::<DataFrame, ColumnBuildError>(e),
                None => frame is Ok && frame->Ok_0.columns == columns && frame->Ok_0.well_formed(),
            },
    {
        let ghost views = columns_view(columns@);
        let mut i: usize = 1;
        while i < columns.len()
            invariant
                1 <= i,
                views == columns_view(columns@),
                forall|k: int|
                    0 <= k < i && k < columns.len() ==> values_len((#[trigger] views[k]).values)
                        == values_len(views[0].values),
            decreases columns.len() - i,
        {
            if columns[i].len() != columns[0].len() {
                assert(values_len(views[i as int].values) != values_len(views[0].values));
                return Err(ColumnBuildError::ShapeMismatch);
            }
            i += 1;
        }
        let mut a: usize = 0;
        while a < columns.len()
            invariant
                a <= columns.len(),
                views == columns_view(columns@),
                same_height(views),
                forall|x: int, y: int|
                    0 <= x < y < columns.len() && x < a ==> (#[trigger] views[x]).name != (
                    #[trigger] views[y]).name,
            decreases columns.len() - a,
        {
            let mut b: usize = a + 1;
            while b < columns.len()
                invariant
                    a < b <= columns.len(),
                    views == columns_view(columns@),
                    same_height(views),
                    forall|y: int| a < y < b ==> views[a as int].name != (#[trigger] views[y]).name,
                decreases columns.len() - b,
            {
                if columns[a].name == columns[b].name {
                    assert(views[a as int].name == views[b as int].name);
                    return Err(ColumnBuildError::Duplicate);
                }
                b += 1;
            }
            a += 1;
        }
        Ok(DataFrame { columns })
    }

    /// The schema of the table: one entry for each column, in column order.
    pub fn schema(&self) -> (schema: Schema)
        ensures
            schema@ == Seq::new(self@.len(), |i: int| field_of(self@[i])),
    {
        let mut fields: Vec<Field> = Vec::new();
        let mut i: usize = 0;
        while i < self.columns.len()
            invariant
                i <= self.columns.len(),
                fields.len() == i,
                forall|k: int| 0 <= k < i ==> (#[trigger] fields[k])@ == field_of(self.columns[k]@),
            decreases self.columns.len() - i,
        {
            let column: &Series = &self.columns[i];
            fields.push(
                Field {
                    name: column.name.clone(),
                    dtype: column.dtype(),
                    fallback: column.fallback,
                },
            );
            i += 1;
        }
        let schema = Schema { fields };
        schema
    }
}

} // verus!
