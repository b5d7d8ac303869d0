//! What building a column means: how the kind of a column is inferred from
//! its values, and what the column holds for each outcome.

use vstd::prelude::*;
use crate::dtype::all_of_kind;
use crate::dtype::as_bool;
use crate::dtype::as_float;
use crate::dtype::as_int;
use crate::dtype::as_string;
use crate::dtype::as_uint;
use crate::dtype::DtypeView;
use crate::dtype::Kind;
use crate::dtype::kind_of;
use crate::dtype::text_of;
use crate::ordered::lookup;
use crate::ordered::RowView;
use crate::series::ChunkedArrayView;
use crate::series::ListChunkedView;
use crate::series::SeriesView;
use crate::series::ValuesView;

verus! {

/// The first of the first `n` values that is not null, or null where all of
/// them are.
pub open spec fn determinant(values: Seq<DtypeView>, n: int) -> DtypeView
    decreases n,
{
    if n <= 0 || n > values.len() {
        DtypeView::Null
    } else if determinant(values, n - 1) is Null {
        values[n - 1]
    } else {
        determinant(values, n - 1)
    }
}

/// The values as an array of the given kind: what each value holds where it
/// is of that kind, null where it is not.
pub open spec fn typed(kind: Kind, values: Seq<DtypeView>) -> ChunkedArrayView {
    match kind {
        Kind::Bool => ChunkedArrayView::Bool(Seq::new(values.len(), |i: int| as_bool(values[i]))),
        Kind::UInt => ChunkedArrayView::UInt(Seq::new(values.len(), |i: int| as_uint(values[i]))),
        Kind::Int => ChunkedArrayView::Int(Seq::new(values.len(), |i: int| as_int(values[i]))),
        Kind::Float => ChunkedArrayView::Float(
            Seq::new(values.len(), |i: int| as_float(values[i])),
        ),
        Kind::String => ChunkedArrayView::String(
            Seq::new(values.len(), |i: int| as_string(values[i])),
        ),
        _ => ChunkedArrayView::Null(values.len()),
    }
}

/// The text of one value of a column that fell back to text: null stays
/// null.
pub open spec fn rendered_value(value: DtypeView) -> Option<Seq<char>> {
    if value is Null {
        None
    } else {
        Some(text_of(value))
    }
}

/// The values as text, one for one.
pub open spec fn rendered(values: Seq<DtypeView>) -> Seq<Option<Seq<char>>> {
    Seq::new(values.len(), |i: int| rendered_value(values[i]))
}

/// The list that a value of a column of lists stands for: the items of an
/// array, and the empty list for anything else.
pub open spec fn inner_list(value: DtypeView) -> Seq<DtypeView> {
    match value {
        DtypeView::Array(items) => items,
        _ => Seq::empty(),
    }
}

/// The lists of a column of lists, one for each row.
pub open spec fn inner_lists(values: Seq<DtypeView>) -> Seq<Seq<DtypeView>> {
    Seq::new(values.len(), |i: int| inner_list(values[i]))
}

/// The first item that is not null in the first `n` lists, taken row by
/// row, or null where there is none.
pub open spec fn nested_determinant(lists: Seq<Seq<DtypeView>>, n: int) -> DtypeView
    decreases n,
{
    if n <= 0 || n > lists.len() {
        DtypeView::Null
    } else if nested_determinant(lists, n - 1) is Null {
        determinant(lists[n - 1], lists[n - 1].len() as int)
    } else {
        nested_determinant(lists, n - 1)
    }
}

/// Whether every item of every list is null or of the given kind.
pub open spec fn all_normal(lists: Seq<Seq<DtypeView>>, kind: Kind) -> bool {
    forall|i: int| 0 <= i < lists.len() ==> all_of_kind(#[trigger] lists[i], kind)
}

/// The length of the longest of the first `n` lists.
pub open spec fn max_len(lists: Seq<Seq<DtypeView>>, n: int) -> nat
    decreases n,
{
    if n <= 0 || n > lists.len() {
        0
    } else if lists[n - 1].len() > max_len(lists, n - 1) {
        lists[n - 1].len()
    } else {
        max_len(lists, n - 1)
    }
}

/// The lists as arrays of the given kind, one for one.
pub open spec fn typed_rows(kind: Kind, lists: Seq<Seq<DtypeView>>) -> Seq<ChunkedArrayView> {
    Seq::new(lists.len(), |i: int| typed(kind, lists[i]))
}

/// The lists as arrays of text, one for one.
pub open spec fn rendered_rows(lists: Seq<Seq<DtypeView>>) -> Seq<ChunkedArrayView> {
    Seq::new(lists.len(), |i: int| ChunkedArrayView::String(rendered(lists[i])))
}

/// What a column of lists resolves to. Its kind is that of the first item
/// that is not null. Where every item is null or of that kind, and the kind
/// is no list itself, each row keeps its items as they are; else every item
/// of every row becomes text.
pub open spec fn resolve_nested(lists: Seq<Seq<DtypeView>>) -> (ValuesView, bool) {
    let kind = kind_of(nested_determinant(lists, lists.len() as int));
    if kind != Kind::Array && all_normal(lists, kind) {
        (ValuesView::List(ListChunkedView { inner: kind, rows: typed_rows(kind, lists) }), false)
    } else {
        (
            ValuesView::List(ListChunkedView { inner: Kind::String, rows: rendered_rows(lists) }),
            true,
        )
    }
}

/// What the values of a column resolve to, and whether by falling back to
/// text. The kind is that of the first value that is not null. A column of
/// arrays is a column of lists. Any other column keeps its values where they
/// are all null or of that kind, and becomes text where they are not.
pub open spec fn resolve(values: Seq<DtypeView>) -> (ValuesView, bool) {
    let kind = kind_of(determinant(values, values.len() as int));
    if kind == Kind::Array {
        resolve_nested(inner_lists(values))
    } else if all_of_kind(values, kind) {
        (ValuesView::Flat(typed(kind, values)), false)
    } else {
        (ValuesView::Flat(ChunkedArrayView::String(rendered(values))), true)
    }
}

/// The names after the first `k` fields of a row were looked at: a name
/// that is not among them yet goes last.
pub open spec fn absorb(names: Seq<Seq<char>>, row: RowView, k: int) -> Seq<Seq<char>>
    decreases k,
{
    if k <= 0 || k > row.len() {
        names
    } else {
        let before = absorb(names, row, k - 1);
        if before.contains(row[k - 1].0) {
            before
        } else {
            before.push(row[k - 1].0)
        }
    }
}

/// The field names met in the first `n` rows, each once, in the order in
/// which they were first met.
pub open spec fn column_names(rows: Seq<RowView>, n: int) -> Seq<Seq<char>>
    decreases n,
{
    if n <= 0 || n > rows.len() {
        Seq::empty()
    } else {
        absorb(column_names(rows, n - 1), rows[n - 1], rows[n - 1].len() as int)
    }
}

/// What a row has under a name: its value, or null where it has no such
/// field.
pub open spec fn cell(row: RowView, name: Seq<char>) -> DtypeView {
    match lookup(row, name) {
        Some(value) => value,
        None => DtypeView::Null,
    }
}

/// The values of one column: one for each row, in row order.
pub open spec fn column_values(rows: Seq<RowView>, name: Seq<char>) -> Seq<DtypeView> {
    Seq::new(rows.len(), |r: int| cell(rows[r], name))
}

/// The rows of a table as columns: for each field name met in any row, the
/// values of all rows.
pub open spec fn gather(rows: Seq<RowView>) -> Seq<(Seq<char>, Seq<DtypeView>)> {
    let names = column_names(rows, rows.len() as int);
    Seq::new(names.len(), |c: int| (names[c], column_values(rows, names[c])))
}

/// The column built from the values under a name.
pub open spec fn series_of(name: Seq<char>, values: Seq<DtypeView>) -> SeriesView {
    SeriesView { name, values: resolve(values).0, fallback: resolve(values).1 }
}

/// The columns built from the rows of a table.
pub open spec fn table_columns(rows: Seq<RowView>) -> Seq<SeriesView> {
    Seq::new(gather(rows).len(), |c: int| series_of(gather(rows)[c].0, gather(rows)[c].1))
}

} // verus!
