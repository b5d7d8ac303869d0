//! Row ids: every row keeps the id that was drawn for it, and no two rows
//! share one.

use vstd::prelude::*;
use crate::dtype::DtypeView;
use crate::json::JsonView;
use crate::model::all_objects;
use crate::model::decompose_fields;
use crate::model::decompose_item;
use crate::model::decompose_items;
use crate::model::decompose_object;
use crate::model::decompose_value;
use crate::model::demand_fields;
use crate::model::demand_item;
use crate::model::demand_items;
use crate::model::demand_object;
use crate::model::demand_root;
use crate::model::demand_value;
use crate::model::FieldsView;
use crate::model::foreign_key;
use crate::model::id_key;
use crate::model::link;
use crate::model::normalize;
use crate::model::ParentView;
use crate::model::place;
use crate::model::start_row;
use crate::normalizer::add_record;
use crate::normalizer::NormifierView;
use crate::ordered::index_of;
use crate::ordered::lemma_index_of;
use crate::ordered::lookup;
use crate::ordered::put;
use crate::ordered::RowView;
use crate::ordered::TablesView;
use crate::shape::lemma_index_of_by_keys;

verus! {

/// What stands under a key after a value was stored: the value under the
/// key it was stored under, and what stood there before under any other.
pub proof fn lemma_lookup_put<V>(
    entries: Seq<(Seq<char>, V)>,
    key: Seq<char>,
    value: V,
    other: Seq<char>,
)
    ensures
        lookup(put(entries, key, value), other) == if other == key {
            Some(value)
        } else {
            lookup(entries, other)
        },
{
    let after = put(entries, key, value);
    lemma_index_of(entries, key);
    lemma_index_of(entries, other);
    lemma_index_of(after, other);
    match index_of(entries, key) {
        Some(i) => {
            lemma_index_of_by_keys(after, entries, other);
        },
        None => {
            assert(after.drop_last() =~= entries);
        },
    }
}

/// Whether the keys under which the first `n` fields of an object, and the
/// fields of what is nested in them, store a cell are all accepted by `ok`.
pub open spec fn stored_keys(fields: FieldsView, n: int, ok: spec_fn(Seq<char>) -> bool) -> bool
    decreases fields, 0int, n,
{
    if n <= 0 || n > fields.len() {
        true
    } else {
        &&& stored_keys(fields, n - 1, ok)
        &&& place(fields[n - 1].1) is Cell ==> ok(fields[n - 1].0)
        &&& stored_keys_below(fields[n - 1].1, ok)
    }
}

/// The same for what is nested under one field.
pub open spec fn stored_keys_below(value: JsonView, ok: spec_fn(Seq<char>) -> bool) -> bool
    decreases value, 0int, 0int,
{
    match value {
        JsonView::Object(fields) => stored_keys(fields, fields.len() as int, ok),
        JsonView::Array(items) => all_objects(items, items.len() as int) ==> stored_keys_in(
            items,
            items.len() as int,
            ok,
        ),
        _ => true,
    }
}

/// The same for one item of an array of rows.
pub open spec fn stored_keys_of(item: JsonView, ok: spec_fn(Seq<char>) -> bool) -> bool
    decreases item, 0int, 0int,
{
    match item {
        JsonView::Object(fields) => stored_keys(fields, fields.len() as int, ok),
        _ => true,
    }
}

/// The same for the first `n` items of an array of rows.
pub open spec fn stored_keys_in(
    items: Seq<JsonView>,
    n: int,
    ok: spec_fn(Seq<char>) -> bool,
) -> bool
    decreases items, 0int, n,
{
    if n <= 0 || n > items.len() {
        true
    } else {
        stored_keys_in(items, n - 1, ok) && stored_keys_of(items[n - 1], ok)
    }
}

/// The same for a whole document.
pub open spec fn stored_keys_of_root(document: JsonView, ok: spec_fn(Seq<char>) -> bool) -> bool {
    match document {
        JsonView::Object(fields) => stored_keys(fields, fields.len() as int, ok),
        JsonView::Array(items) => stored_keys_in(items, items.len() as int, ok),
        _ => true,
    }
}

/// A row keeps what it holds under a key that none of its fields is stored
/// under.
pub proof fn lemma_fields_keep(
    state: NormifierView,
    table: Seq<char>,
    id: Seq<char>,
    fields: FieldsView,
    n: int,
    row: RowView,
    ids: Seq<Seq<char>>,
    ok: spec_fn(Seq<char>) -> bool,
    key: Seq<char>,
)
    requires
        stored_keys(fields, n, ok),
        !ok(key),
    ensures
        lookup(decompose_fields(state, table, id, fields, n, row, ids).1, key) == lookup(row, key),
    decreases n,
{
    if 0 < n <= fields.len() {
        let cut = ids.len() - demand_value(fields[n - 1].1);
        lemma_fields_keep(state, table, id, fields, n - 1, row, ids.take(cut), ok, key);
        let before = decompose_fields(state, table, id, fields, n - 1, row, ids.take(cut));
        let value = fields[n - 1].1;
        let after = decompose_value(
            before.0,
            before.1,
            table,
            id,
            fields[n - 1].0,
            value,
            ids.skip(cut),
        );
        if place(value) is Cell {
            lemma_lookup_put(before.1, fields[n - 1].0, crate::dtype::cell_of(value), key);
        }
    }
}

/// The id of a row: the text it holds under `id`.
pub open spec fn row_id(row: RowView) -> Option<Seq<char>> {
    match lookup(row, id_key()) {
        Some(DtypeView::String(s)) => Some(s),
        _ => None,
    }
}

/// A key other than `id`.
pub open spec fn not_id() -> spec_fn(Seq<char>) -> bool {
    |key: Seq<char>| key != id_key()
}

/// A row starts with its id under `id`.
pub proof fn lemma_start_row_id(id: Seq<char>, parent: ParentView)
    ensures
        row_id(start_row(id, parent)) == Some(id),
{
    let empty: RowView = Seq::empty();
    lemma_lookup_put(empty, id_key(), DtypeView::String(id), id_key());
    let first = put(empty, id_key(), DtypeView::String(id));
    match parent {
        Some((table, parent_id)) => {
            assert(foreign_key(table).len() == table.len() + 3);
            lemma_lookup_put(first, foreign_key(table), DtypeView::String(parent_id), id_key());
        },
        None => {},
    }
}

/// Whether every row of the table set has an id that is not empty and is in
/// `pool`, and no two rows share an id.
pub open spec fn ids_in_order(tables: TablesView, pool: Set<Seq<char>>) -> bool {
    &&& forall|t: int, r: int|
        0 <= t < tables.len() && 0 <= r < tables[t].1.len() ==> {
            &&& (#[trigger] row_id(tables[t].1[r])) is Some
            &&& row_id(tables[t].1[r])->0.len() > 0
            &&& pool.contains(row_id(tables[t].1[r])->0)
        }
    &&& unique_ids(tables)
}

/// Whether no two rows of the table set, in one table or in two, share an
/// id.
pub open spec fn unique_ids(tables: TablesView) -> bool {
    forall|t: int, r: int, u: int, s: int|
        0 <= t < tables.len() && 0 <= r < tables[t].1.len() && 0 <= u < tables.len() && 0 <= s
            < tables[u].1.len() && (t != u || r != s) ==> #[trigger] row_id(tables[t].1[r])
            != #[trigger] row_id(tables[u].1[s])
}

/// Ids that are not empty, differ from each other, and are not in `pool`.
pub open spec fn fresh(ids: Seq<Seq<char>>, pool: Set<Seq<char>>) -> bool {
    &&& forall|k: int|
        0 <= k < ids.len() ==> (#[trigger] ids[k]).len() > 0 && !pool.contains(ids[k])
    &&& forall|j: int, k: int| 0 <= j < k < ids.len() ==> ids[j] != ids[k]
}

/// The pool after the ids were drawn.
pub open spec fn drawn_into(pool: Set<Seq<char>>, ids: Seq<Seq<char>>) -> Set<Seq<char>> {
    Set::new(|s: Seq<char>| pool.contains(s) || ids.contains(s))
}

/// A row with a new id goes into a table set in order, and the set stays in
/// order.
pub proof fn lemma_add_record_in_order(
    tables: TablesView,
    pool: Set<Seq<char>>,
    name: Seq<char>,
    row: RowView,
    id: Seq<char>,
)
    requires
        ids_in_order(tables, pool),
        row_id(row) == Some(id),
        id.len() > 0,
        !pool.contains(id),
    ensures
        ids_in_order(add_record(tables, name, row), pool.insert(id)),
{
    let after = add_record(tables, name, row);
    lemma_index_of(tables, name);
    assert forall|t: int, r: int| 0 <= t < after.len() && 0 <= r < after[t].1.len() implies {
        &&& (#[trigger] row_id(after[t].1[r])) is Some
        &&& row_id(after[t].1[r])->0.len() > 0
        &&& pool.insert(id).contains(row_id(after[t].1[r])->0)
    } by {
    }
}

/// A table set in order stays in order when the pool grows.
pub proof fn lemma_in_order_grows(tables: TablesView, small: Set<Seq<char>>, large: Set<Seq<char>>)
    requires
        ids_in_order(tables, small),
        forall|s: Seq<char>| small.contains(s) ==> large.contains(s),
    ensures
        ids_in_order(tables, large),
{
    assert forall|t: int, r: int| 0 <= t < tables.len() && 0 <= r < tables[t].1.len() implies {
        &&& (#[trigger] row_id(tables[t].1[r])) is Some
        &&& row_id(tables[t].1[r])->0.len() > 0
        &&& large.contains(row_id(tables[t].1[r])->0)
    } by {
    }
}

/// The two parts of fresh ids are fresh, the second also after the first
/// was drawn.
pub proof fn lemma_fresh_parts(ids: Seq<Seq<char>>, cut: int, pool: Set<Seq<char>>)
    requires
        fresh(ids, pool),
        0 <= cut <= ids.len(),
    ensures
        fresh(ids.take(cut), pool),
        fresh(ids.skip(cut), drawn_into(pool, ids.take(cut))),
        forall|s: Seq<char>|
            drawn_into(drawn_into(pool, ids.take(cut)), ids.skip(cut)).contains(s) ==> drawn_into(
                pool,
                ids,
            ).contains(s),
{
}

/// An object taken apart with fresh ids leaves the table set in order.
pub proof fn lemma_object_in_order(
    state: NormifierView,
    table: Seq<char>,
    fields: FieldsView,
    parent: ParentView,
    ids: Seq<Seq<char>>,
    pool: Set<Seq<char>>,
)
    requires
        ids_in_order(state.tables, pool),
        fresh(ids, pool),
        ids.len() == demand_object(fields),
        stored_keys(fields, fields.len() as int, not_id()),
    ensures
        ids_in_order(
            decompose_object(state, table, fields, parent, ids).tables,
            drawn_into(pool, ids),
        ),
    decreases fields, 1int, 0int,
{
    let id = ids[0];
    let rest = ids.skip(1);
    let n = fields.len() as int;
    lemma_fresh_parts(ids, 1, pool);
    lemma_fields_in_order(state, table, id, fields, n, start_row(id, parent), rest, pool);
    let filled = decompose_fields(state, table, id, fields, n, start_row(id, parent), rest);
    lemma_fields_keep(state, table, id, fields, n, start_row(id, parent), rest, not_id(), id_key());
    lemma_start_row_id(id, parent);
    let drawn = drawn_into(pool, rest);
    lemma_add_record_in_order(filled.0.tables, drawn, table, filled.1, id);
    lemma_in_order_grows(
        add_record(filled.0.tables, table, filled.1),
        drawn.insert(id),
        drawn_into(pool, ids),
    );
}

/// The fields of an object taken apart with fresh ids leave the table set
/// in order.
pub proof fn lemma_fields_in_order(
    state: NormifierView,
    table: Seq<char>,
    id: Seq<char>,
    fields: FieldsView,
    n: int,
    row: RowView,
    ids: Seq<Seq<char>>,
    pool: Set<Seq<char>>,
)
    requires
        ids_in_order(state.tables, pool),
        fresh(ids, pool),
        ids.len() == demand_fields(fields, n),
        stored_keys(fields, n, not_id()),
    ensures
        ids_in_order(
            decompose_fields(state, table, id, fields, n, row, ids).0.tables,
            drawn_into(pool, ids),
        ),
    decreases fields, 0int, n,
{
    if 0 < n <= fields.len() {
        let cut = ids.len() - demand_value(fields[n - 1].1);
        lemma_fresh_parts(ids, cut, pool);
        lemma_fields_in_order(state, table, id, fields, n - 1, row, ids.take(cut), pool);
        let before = decompose_fields(state, table, id, fields, n - 1, row, ids.take(cut));
        let middle = drawn_into(pool, ids.take(cut));
        lemma_value_in_order(
            before.0,
            before.1,
            table,
            id,
            fields[n - 1].0,
            fields[n - 1].1,
            ids.skip(cut),
            middle,
        );
        let after = decompose_value(
            before.0,
            before.1,
            table,
            id,
            fields[n - 1].0,
            fields[n - 1].1,
            ids.skip(cut),
        );
        lemma_in_order_grows(
            after.0.tables,
            drawn_into(middle, ids.skip(cut)),
            drawn_into(pool, ids),
        );
    } else {
        lemma_in_order_grows(state.tables, pool, drawn_into(pool, ids));
    }
}

/// One field taken apart with fresh ids leaves the table set in order.
pub proof fn lemma_value_in_order(
    state: NormifierView,
    row: RowView,
    table: Seq<char>,
    id: Seq<char>,
    key: Seq<char>,
    value: JsonView,
    ids: Seq<Seq<char>>,
    pool: Set<Seq<char>>,
)
    requires
        ids_in_order(state.tables, pool),
        fresh(ids, pool),
        ids.len() == demand_value(value),
        stored_keys_below(value, not_id()),
    ensures
        ids_in_order(
            decompose_value(state, row, table, id, key, value, ids).0.tables,
            drawn_into(pool, ids),
        ),
    decreases value, 0int, 0int,
{
    match value {
        JsonView::Object(fields) => {
            lemma_object_in_order(
                link(state, table, key),
                crate::model::child_table(key),
                fields,
                Some((table, id)),
                ids,
                pool,
            );
        },
        JsonView::Array(items) => {
            if all_objects(items, items.len() as int) {
                lemma_items_in_order(
                    link(state, table, key),
                    crate::model::child_table(key),
                    items,
                    items.len() as int,
                    Some((table, id)),
                    ids,
                    pool,
                );
            } else {
                lemma_in_order_grows(state.tables, pool, drawn_into(pool, ids));
            }
        },
        _ => {
            lemma_in_order_grows(state.tables, pool, drawn_into(pool, ids));
        },
    }
}

/// The items of an array of rows taken apart with fresh ids leave the table
/// set in order.
pub proof fn lemma_items_in_order(
    state: NormifierView,
    table: Seq<char>,
    items: Seq<JsonView>,
    n: int,
    parent: ParentView,
    ids: Seq<Seq<char>>,
    pool: Set<Seq<char>>,
)
    requires
        ids_in_order(state.tables, pool),
        fresh(ids, pool),
        ids.len() == demand_items(items, n),
        stored_keys_in(items, n, not_id()),
    ensures
        ids_in_order(
            decompose_items(state, table, items, n, parent, ids).tables,
            drawn_into(pool, ids),
        ),
    decreases items, 0int, n,
{
    if 0 < n <= items.len() {
        let cut = ids.len() - demand_item(items[n - 1]);
        lemma_fresh_parts(ids, cut, pool);
        lemma_items_in_order(state, table, items, n - 1, parent, ids.take(cut), pool);
        let before = decompose_items(state, table, items, n - 1, parent, ids.take(cut));
        let middle = drawn_into(pool, ids.take(cut));
        let after = decompose_item(before, table, items[n - 1], parent, ids.skip(cut));
        assert(stored_keys_of(items[n - 1], not_id()));
        match items[n - 1] {
            JsonView::Object(fields) => {
                lemma_object_in_order(before, table, fields, parent, ids.skip(cut), middle);
            },
            _ => {
                lemma_in_order_grows(before.tables, middle, drawn_into(middle, ids.skip(cut)));
            },
        }
        lemma_in_order_grows(
            after.tables,
            drawn_into(middle, ids.skip(cut)),
            drawn_into(pool, ids),
        );
    } else {
        lemma_in_order_grows(state.tables, pool, drawn_into(pool, ids));
    }
}

/// Every row of a normalized document has an id that is not empty, and no
/// two rows anywhere in the table set share an id: provided the ids drawn
/// are not empty and differ from each other, and no field of the document
/// that is stored as a cell is named `id`.
pub proof fn lemma_rows_have_unique_ids(document: JsonView, root: Seq<char>, ids: Seq<Seq<char>>)
    requires
        ids.len() == demand_root(document),
        forall|k: int| 0 <= k < ids.len() ==> (#[trigger] ids[k]).len() > 0,
        forall|j: int, k: int| 0 <= j < k < ids.len() ==> ids[j] != ids[k],
        stored_keys_of_root(document, not_id()),
    ensures
        forall|t: int, r: int|
            0 <= t < normalize(document, root, ids).tables.len() && 0 <= r < normalize(
                document,
                root,
                ids,
            ).tables[t].1.len() ==> {
                &&& (#[trigger] row_id(normalize(document, root, ids).tables[t].1[r])) is Some
                &&& row_id(normalize(document, root, ids).tables[t].1[r])->0.len() > 0
            },
        unique_ids(normalize(document, root, ids).tables),
{
    let empty = NormifierView { tables: Seq::empty(), relationships: Seq::empty() };
    let pool: Set<Seq<char>> = Set::empty();
    match document {
        JsonView::Object(fields) => {
            lemma_object_in_order(empty, root, fields, None, ids, pool);
        },
        JsonView::Array(items) => {
            lemma_items_in_order(empty, root, items, items.len() as int, None, ids, pool);
        },
        _ => {},
    }
}

} // verus!
