//! What normalizing a document means, stated over trees and sequences.
//!
//! Every object of a document that becomes a row draws one id. The functions
//! here take the ids as a sequence, in the order in which they are drawn: an
//! object takes the first for its own row and hands the rest to what is
//! nested in it, field by field.

use vstd::prelude::*;
use crate::dtype::cell_of;
use crate::dtype::DtypeView;
use crate::dtype::holds_object;
use crate::error::NormalizationError;
use crate::json::JsonView;
use crate::normalizer::add_record;
use crate::normalizer::NormifierView;
use crate::normalizer::RelationshipView;
use crate::ordered::put;
use crate::ordered::RowView;

verus! {

/// The members of an object, in source order.
pub type FieldsView = Seq<(Seq<char>, JsonView)>;

/// The table and the row id that a nested row points back to.
pub type ParentView = Option<(Seq<char>, Seq<char>)>;

/// How the value of a field is laid out.
pub enum Place {
    /// An object: one row of a child table.
    Child,
    /// An array of objects only, or an empty array: rows of a child table.
    Children,
    /// An array of objects and other values: refused.
    Mixed,
    /// Anything else: a cell of the row.
    Cell,
}

/// Whether the first `n` items are all objects.
pub open spec fn all_objects(items: Seq<JsonView>, n: int) -> bool
    decreases n,
{
    if n <= 0 || n > items.len() {
        true
    } else {
        all_objects(items, n - 1) && items[n - 1] is Object
    }
}

/// Whether one of the first `n` items is an object.
pub open spec fn some_object(items: Seq<JsonView>, n: int) -> bool
    decreases n,
{
    if n <= 0 || n > items.len() {
        false
    } else {
        some_object(items, n - 1) || items[n - 1] is Object
    }
}

pub open spec fn place(value: JsonView) -> Place {
    match value {
        JsonView::Object(_) => Place::Child,
        JsonView::Array(items) => if all_objects(items, items.len() as int) {
            Place::Children
        } else if some_object(items, items.len() as int) {
            Place::Mixed
        } else {
            Place::Cell
        },
        _ => Place::Cell,
    }
}

pub open spec fn id_key() -> Seq<char> {
    seq!['i', 'd']
}

pub open spec fn id_suffix() -> Seq<char> {
    seq!['_', 'i', 'd']
}

pub open spec fn table_suffix() -> Seq<char> {
    seq!['_', 't', 'a', 'b', 'l', 'e']
}

/// The name of the table made of what is nested under a field.
pub open spec fn child_table(key: Seq<char>) -> Seq<char> {
    key + table_suffix()
}

/// The name of the field that holds the id of a row of the table `table`.
pub open spec fn foreign_key(table: Seq<char>) -> Seq<char> {
    table + id_suffix()
}

/// A row as it starts: its id, then the id of the row it hangs under.
pub open spec fn start_row(id: Seq<char>, parent: ParentView) -> RowView {
    let row = put(Seq::empty(), id_key(), DtypeView::String(id));
    match parent {
        Some((table, parent_id)) => put(row, foreign_key(table), DtypeView::String(parent_id)),
        None => row,
    }
}

/// The state after the link from `table` to the child table of `key` is noted.
pub open spec fn link(state: NormifierView, table: Seq<char>, key: Seq<char>) -> NormifierView {
    NormifierView {
        tables: state.tables,
        relationships: state.relationships.push(
            RelationshipView {
                parent: Some(table),
                child: Some(child_table(key)),
                fk_field: Some(foreign_key(table)),
            },
        ),
    }
}

/// The number of ids that an object draws: one for its own row and those of
/// what is nested in it.
pub open spec fn demand_object(fields: FieldsView) -> nat
    decreases fields, 1int, 0int,
{
    1 + demand_fields(fields, fields.len() as int)
}

/// The number of ids that the first `n` fields draw.
pub open spec fn demand_fields(fields: FieldsView, n: int) -> nat
    decreases fields, 0int, n,
{
    if n <= 0 || n > fields.len() {
        0
    } else {
        demand_fields(fields, n - 1) + demand_value(fields[n - 1].1)
    }
}

/// The number of ids that the value of a field draws.
pub open spec fn demand_value(value: JsonView) -> nat
    decreases value, 0int, 0int,
{
    match value {
        JsonView::Object(fields) => demand_object(fields),
        JsonView::Array(items) => if all_objects(items, items.len() as int) {
            demand_items(items, items.len() as int)
        } else {
            0
        },
        _ => 0,
    }
}

/// The number of ids that one item of an array of rows draws.
pub open spec fn demand_item(item: JsonView) -> nat
    decreases item, 0int, 0int,
{
    match item {
        JsonView::Object(fields) => demand_object(fields),
        _ => 0,
    }
}

/// The number of ids that the first `n` items of an array of rows draw.
pub open spec fn demand_items(items: Seq<JsonView>, n: int) -> nat
    decreases items, 0int, n,
{
    if n <= 0 || n > items.len() {
        0
    } else {
        demand_items(items, n - 1) + demand_item(items[n - 1])
    }
}

/// Why an object cannot be taken apart, if it cannot: the first fault met
/// field by field.
pub open spec fn object_error(fields: FieldsView) -> Option<NormalizationError>
    decreases fields, 1int, 0int,
{
    fields_error(fields, fields.len() as int)
}

/// The first fault among the first `n` fields.
pub open spec fn fields_error(fields: FieldsView, n: int) -> Option<NormalizationError>
    decreases fields, 0int, n,
{
    if n <= 0 || n > fields.len() {
        None
    } else {
        match fields_error(fields, n - 1) {
            Some(e) => Some(e),
            None => value_error(fields[n - 1].1),
        }
    }
}

/// The fault of the value of a field.
pub open spec fn value_error(value: JsonView) -> Option<NormalizationError>
    decreases value, 0int, 0int,
{
    match value {
        JsonView::Object(fields) => object_error(fields),
        JsonView::Array(items) => if all_objects(items, items.len() as int) {
            items_error(items, items.len() as int)
        } else if some_object(items, items.len() as int) {
            Some(NormalizationError::InputShape)
        } else if holds_object(value) {
            Some(NormalizationError::ObjectType)
        } else {
            None
        },
        _ => None,
    }
}

/// The fault of one item of an array of rows: an item that is no object has
/// the wrong shape.
pub open spec fn item_error(item: JsonView) -> Option<NormalizationError>
    decreases item, 0int, 0int,
{
    match item {
        JsonView::Object(fields) => object_error(fields),
        _ => Some(NormalizationError::InputShape),
    }
}

/// The first fault among the first `n` items of an array of rows.
pub open spec fn items_error(items: Seq<JsonView>, n: int) -> Option<NormalizationError>
    decreases items, 0int, n,
{
    if n <= 0 || n > items.len() {
        None
    } else {
        match items_error(items, n - 1) {
            Some(e) => Some(e),
            None => item_error(items[n - 1]),
        }
    }
}

/// The state after an object became a row of `table`: what is nested in it
/// first, its own row last. `ids` are the ids it draws, its own first.
pub open spec fn decompose_object(
    state: NormifierView,
    table: Seq<char>,
    fields: FieldsView,
    parent: ParentView,
    ids: Seq<Seq<char>>,
) -> NormifierView
    decreases fields, 1int, 0int,
{
    let id = ids[0];
    let (filled, row) = decompose_fields(
        state,
        table,
        id,
        fields,
        fields.len() as int,
        start_row(id, parent),
        ids.skip(1),
    );
    NormifierView {
        tables: add_record(filled.tables, table, row),
        relationships: filled.relationships,
    }
}

/// The state and the row after the first `n` fields of an object, where
/// `ids` are the ids those fields draw.
pub open spec fn decompose_fields(
    state: NormifierView,
    table: Seq<char>,
    id: Seq<char>,
    fields: FieldsView,
    n: int,
    row: RowView,
    ids: Seq<Seq<char>>,
) -> (NormifierView, RowView)
    decreases fields, 0int, n,
{
    if n <= 0 || n > fields.len() {
        (state, row)
    } else {
        let cut = ids.len() - demand_value(fields[n - 1].1);
        let (before, so_far) = decompose_fields(
            state,
            table,
            id,
            fields,
            n - 1,
            row,
            ids.take(cut),
        );
        decompose_value(before, so_far, table, id, fields[n - 1].0, fields[n - 1].1, ids.skip(cut))
    }
}

/// The state and the row after one field: what is nested goes to the child
/// table, a cell into the row, and an array of mixed items nowhere.
pub open spec fn decompose_value(
    state: NormifierView,
    row: RowView,
    table: Seq<char>,
    id: Seq<char>,
    key: Seq<char>,
    value: JsonView,
    ids: Seq<Seq<char>>,
) -> (NormifierView, RowView)
    decreases value, 0int, 0int,
{
    match value {
        JsonView::Object(fields) => (
            decompose_object(
                link(state, table, key),
                child_table(key),
                fields,
                Some((table, id)),
                ids,
            ),
            row,
        ),
        JsonView::Array(items) => if all_objects(items, items.len() as int) {
            (
                decompose_items(
                    link(state, table, key),
                    child_table(key),
                    items,
                    items.len() as int,
                    Some((table, id)),
                    ids,
                ),
                row,
            )
        } else if some_object(items, items.len() as int) {
            (state, row)
        } else {
            (state, put(row, key, cell_of(value)))
        },
        _ => (state, put(row, key, cell_of(value))),
    }
}

/// The state after one item of an array of rows.
pub open spec fn decompose_item(
    state: NormifierView,
    table: Seq<char>,
    item: JsonView,
    parent: ParentView,
    ids: Seq<Seq<char>>,
) -> NormifierView
    decreases item, 0int, 0int,
{
    match item {
        JsonView::Object(fields) => decompose_object(state, table, fields, parent, ids),
        _ => state,
    }
}

/// The state after the first `n` items of an array of rows, where `ids` are
/// the ids those items draw.
pub open spec fn decompose_items(
    state: NormifierView,
    table: Seq<char>,
    items: Seq<JsonView>,
    n: int,
    parent: ParentView,
    ids: Seq<Seq<char>>,
) -> NormifierView
    decreases items, 0int, n,
{
    if n <= 0 || n > items.len() {
        state
    } else {
        let cut = ids.len() - demand_item(items[n - 1]);
        let before = decompose_items(state, table, items, n - 1, parent, ids.take(cut));
        decompose_item(before, table, items[n - 1], parent, ids.skip(cut))
    }
}

/// Why a document cannot be normalized, if it cannot.
pub open spec fn root_error(document: JsonView) -> Option<NormalizationError> {
    match document {
        JsonView::Object(fields) => object_error(fields),
        JsonView::Array(items) => items_error(items, items.len() as int),
        _ => Some(NormalizationError::InputShape),
    }
}

/// The number of ids that a document draws.
pub open spec fn demand_root(document: JsonView) -> nat {
    match document {
        JsonView::Object(fields) => demand_object(fields),
        JsonView::Array(items) => demand_items(items, items.len() as int),
        _ => 0,
    }
}

/// The state after a document was taken apart into it: a root object is one
/// row of the root table, a root array one row for each of its objects.
pub open spec fn decompose_root(
    state: NormifierView,
    document: JsonView,
    root: Seq<char>,
    ids: Seq<Seq<char>>,
) -> NormifierView {
    match document {
        JsonView::Object(fields) => decompose_object(state, root, fields, None, ids),
        JsonView::Array(items) => decompose_items(
            state,
            root,
            items,
            items.len() as int,
            None,
            ids,
        ),
        _ => state,
    }
}

/// The table set of a document.
pub open spec fn normalize(
    document: JsonView,
    root: Seq<char>,
    ids: Seq<Seq<char>>,
) -> NormifierView {
    decompose_root(
        NormifierView { tables: Seq::empty(), relationships: Seq::empty() },
        document,
        root,
        ids,
    )
}

/// The name of the table of the document's own rows.
pub open spec fn root_table() -> Seq<char> {
    seq!['r', 'o', 'o', 't']
}

/// Ids as the id source gives them: `count` of them, each of the fixed
/// length.
pub open spec fn drawn(ids: Seq<Seq<char>>, count: nat) -> bool {
    &&& ids.len() == count
    &&& forall|k: int| 0 <= k < ids.len() ==> (#[trigger] ids[k]).len() == crate::ids::ID_LENGTH
}

} // verus!
