//! Links between tables: the row that a nested row points back to is there,
//! once.

use vstd::prelude::*;
use crate::dtype::DtypeView;
use crate::identity::lemma_fields_keep;
use crate::identity::lemma_lookup_put;
use crate::identity::lemma_rows_have_unique_ids;
use crate::identity::lemma_start_row_id;
use crate::identity::not_id;
use crate::identity::row_id;
use crate::identity::stored_keys;
use crate::identity::stored_keys_below;
use crate::identity::stored_keys_in;
use crate::identity::stored_keys_of;
use crate::identity::stored_keys_of_root;
use crate::json::JsonView;
use crate::model::all_objects;
use crate::model::child_table;
use crate::model::decompose_fields;
use crate::model::decompose_item;
use crate::model::decompose_items;
use crate::model::decompose_object;
use crate::model::decompose_value;
use crate::model::demand_item;
use crate::model::demand_root;
use crate::model::demand_value;
use crate::model::FieldsView;
use crate::model::foreign_key;
use crate::model::id_key;
use crate::model::link;
use crate::model::normalize;
use crate::model::ParentView;
use crate::model::start_row;
use crate::normalizer::add_record;
use crate::normalizer::NormifierView;
use crate::ordered::index_of;
use crate::ordered::lemma_index_of;
use crate::ordered::lookup;
use crate::ordered::put;
use crate::ordered::RowView;
use crate::ordered::TablesView;

verus! {

/// A key of the form that names the id of a row of another table.
pub open spec fn is_foreign_key(key: Seq<char>) -> bool {
    exists|table: Seq<char>| key == #[trigger] foreign_key(table)
}

/// A key that is neither `id` nor of the form of a foreign key.
pub open spec fn plain() -> spec_fn(Seq<char>) -> bool {
    |key: Seq<char>| key != id_key() && !is_foreign_key(key)
}

/// Two tables with the same foreign key are one table.
pub proof fn lemma_foreign_key_names_one_table(a: Seq<char>, b: Seq<char>)
    requires
        foreign_key(a) == foreign_key(b),
    ensures
        a == b,
{
    assert(foreign_key(a).len() == a.len() + 3);
    assert forall|i: int| 0 <= i < a.len() implies a[i] == b[i] by {
        assert(foreign_key(a)[i] == a[i]);
    }
}

/// Whether the table `table` has a row with the id `id`.
pub open spec fn has_row(tables: TablesView, table: Seq<char>, id: Seq<char>) -> bool {
    exists|t: int, r: int|
        0 <= t < tables.len() && 0 <= r < tables[t].1.len() && tables[t].0 == table
            && #[trigger] row_id(tables[t].1[r]) == Some(id)
}

/// Whether each foreign key of the row names a row that is there, or one
/// that is still open: being taken apart and not yet put into its table.
pub open spec fn row_points(
    row: RowView,
    tables: TablesView,
    open: Set<(Seq<char>, Seq<char>)>,
) -> bool {
    forall|table: Seq<char>|
        match lookup(row, #[trigger] foreign_key(table)) {
            Some(DtypeView::String(id)) => open.contains((table, id)) || has_row(tables, table, id),
            Some(_) => false,
            None => true,
        }
}

/// Whether every row of the table set points to rows that are there or
/// open.
pub open spec fn all_point(tables: TablesView, open: Set<(Seq<char>, Seq<char>)>) -> bool {
    forall|t: int, r: int|
        0 <= t < tables.len() && 0 <= r < tables[t].1.len() ==> row_points(
            #[trigger] tables[t].1[r],
            tables,
            open,
        )
}

/// Whether `large` has the tables of `small` in the same places, each with
/// the rows it had, in the same places.
pub open spec fn grown(small: TablesView, large: TablesView) -> bool {
    &&& small.len() <= large.len()
    &&& forall|t: int|
        0 <= t < small.len() ==> (#[trigger] large[t]).0 == small[t].0 && small[t].1.len()
            <= large[t].1.len()
    &&& forall|t: int, r: int|
        0 <= t < small.len() && 0 <= r < small[t].1.len() ==> #[trigger] large[t].1[r]
            == small[t].1[r]
}

pub proof fn lemma_grown_chain(a: TablesView, b: TablesView, c: TablesView)
    requires
        grown(a, b),
        grown(b, c),
    ensures
        grown(a, c),
{
}

/// A row that is there stays there when the table set grows.
pub proof fn lemma_has_row_stays(
    small: TablesView,
    large: TablesView,
    table: Seq<char>,
    id: Seq<char>,
)
    requires
        grown(small, large),
        has_row(small, table, id),
    ensures
        has_row(large, table, id),
{
    let (t, r) = choose|t: int, r: int|
        0 <= t < small.len() && 0 <= r < small[t].1.len() && small[t].0 == table
            && #[trigger] row_id(small[t].1[r]) == Some(id);
    assert(large[t].1[r] == small[t].1[r]);
}

/// A table set whose rows point well keeps that when more rows count as
/// open.
pub proof fn lemma_all_point_same_rows(
    tables: TablesView,
    open: Set<(Seq<char>, Seq<char>)>,
    wider: Set<(Seq<char>, Seq<char>)>,
)
    requires
        all_point(tables, open),
        forall|e: (Seq<char>, Seq<char>)| open.contains(e) ==> wider.contains(e),
    ensures
        all_point(tables, wider),
{
}

/// What a table set looks like after a row was added: the rows it had, in
/// their places, and the new row last in the table of the given name.
pub proof fn lemma_add_record_rows(tables: TablesView, name: Seq<char>, row: RowView)
    ensures
        grown(tables, add_record(tables, name, row)),
        forall|t: int, r: int|
            0 <= t < add_record(tables, name, row).len() && 0 <= r < add_record(
                tables,
                name,
                row,
            )[t].1.len() ==> (#[trigger] add_record(tables, name, row)[t].1[r] == row
                && add_record(tables, name, row)[t].0 == name) || (t < tables.len() && r
                < tables[t].1.len() && add_record(tables, name, row)[t].1[r] == tables[t].1[r]),
        exists|t: int, r: int|
            0 <= t < add_record(tables, name, row).len() && 0 <= r < add_record(
                tables,
                name,
                row,
            )[t].1.len() && add_record(tables, name, row)[t].0 == name && #[trigger] add_record(
                tables,
                name,
                row,
            )[t].1[r] == row,
{
    let after = add_record(tables, name, row);
    lemma_index_of(tables, name);
    let at = match index_of(tables, name) {
        Some(i) => i,
        None => tables.len() as int,
    };
    let last = after[at].1.len() - 1;
    assert(after[at].1[last] == row);
}

/// The foreign keys of a row as it starts: the one of its parent, and no
/// other.
pub proof fn lemma_start_row_points(id: Seq<char>, parent: ParentView, table: Seq<char>)
    ensures
        lookup(start_row(id, parent), foreign_key(table)) == match parent {
            Some((parent_table, parent_id)) => if parent_table == table {
                Some(DtypeView::String(parent_id))
            } else {
                None
            },
            None => None,
        },
{
    let empty: RowView = Seq::empty();
    assert(foreign_key(table).len() == table.len() + 3);
    lemma_lookup_put(empty, id_key(), DtypeView::String(id), foreign_key(table));
    let first = put(empty, id_key(), DtypeView::String(id));
    match parent {
        Some((parent_table, parent_id)) => {
            lemma_lookup_put(
                first,
                foreign_key(parent_table),
                DtypeView::String(parent_id),
                foreign_key(table),
            );
            if foreign_key(parent_table) == foreign_key(table) {
                lemma_foreign_key_names_one_table(parent_table, table);
            }
        },
        None => {},
    }
}

/// An object taken apart leaves every row pointing well, its own among
/// them, and takes no row away.
pub proof fn lemma_object_points(
    state: NormifierView,
    table: Seq<char>,
    fields: FieldsView,
    parent: ParentView,
    ids: Seq<Seq<char>>,
    open: Set<(Seq<char>, Seq<char>)>,
)
    requires
        all_point(state.tables, open),
        parent matches Some(p) ==> open.contains(p),
        stored_keys(fields, fields.len() as int, plain()),
    ensures
        all_point(decompose_object(state, table, fields, parent, ids).tables, open),
        grown(state.tables, decompose_object(state, table, fields, parent, ids).tables),
    decreases fields, 1int, 0int,
{
    let id = ids[0];
    let rest = ids.skip(1);
    let n = fields.len() as int;
    let wider = open.insert((table, id));
    lemma_all_point_same_rows(state.tables, open, wider);
    lemma_fields_points(state, table, id, fields, n, start_row(id, parent), rest, wider);
    let filled = decompose_fields(state, table, id, fields, n, start_row(id, parent), rest);
    let row = filled.1;
    let after = add_record(filled.0.tables, table, row);
    lemma_add_record_rows(filled.0.tables, table, row);
    lemma_grown_chain(state.tables, filled.0.tables, after);
    lemma_fields_keep(state, table, id, fields, n, start_row(id, parent), rest, plain(), id_key());
    lemma_start_row_id(id, parent);
    assert(row_id(row) == Some(id));
    assert(row_points(row, after, open)) by {
        assert forall|other: Seq<char>|
            match lookup(row, #[trigger] foreign_key(other)) {
                Some(DtypeView::String(x)) => open.contains((other, x)) || has_row(after, other, x),
                Some(_) => false,
                None => true,
            } by {
            lemma_fields_keep(
                state,
                table,
                id,
                fields,
                n,
                start_row(id, parent),
                rest,
                plain(),
                foreign_key(other),
            );
            lemma_start_row_points(id, parent, other);
        }
    }
    assert forall|t: int, r: int|
        0 <= t < after.len() && 0 <= r < after[t].1.len() implies row_points(
        #[trigger] after[t].1[r],
        after,
        open,
    ) by {
        if !(after[t].1[r] == row) {
            let old_row = filled.0.tables[t].1[r];
            assert forall|other: Seq<char>|
                match lookup(old_row, #[trigger] foreign_key(other)) {
                    Some(DtypeView::String(x)) => open.contains((other, x)) || has_row(
                        after,
                        other,
                        x,
                    ),
                    Some(_) => false,
                    None => true,
                } by {
                match lookup(old_row, foreign_key(other)) {
                    Some(DtypeView::String(x)) => {
                        if has_row(filled.0.tables, other, x) {
                            lemma_has_row_stays(filled.0.tables, after, other, x);
                        } else if !open.contains((other, x)) {
                        }
                    },
                    _ => {},
                }
            }
        }
    }
}

/// The fields of an object taken apart leave every row pointing well, as
/// long as the row of the object itself counts as open.
pub proof fn lemma_fields_points(
    state: NormifierView,
    table: Seq<char>,
    id: Seq<char>,
    fields: FieldsView,
    n: int,
    row: RowView,
    ids: Seq<Seq<char>>,
    open: Set<(Seq<char>, Seq<char>)>,
)
    requires
        all_point(state.tables, open),
        open.contains((table, id)),
        stored_keys(fields, n, plain()),
    ensures
        all_point(decompose_fields(state, table, id, fields, n, row, ids).0.tables, open),
        grown(state.tables, decompose_fields(state, table, id, fields, n, row, ids).0.tables),
    decreases fields, 0int, n,
{
    if 0 < n <= fields.len() {
        let cut = ids.len() - demand_value(fields[n - 1].1);
        lemma_fields_points(state, table, id, fields, n - 1, row, ids.take(cut), open);
        let before = decompose_fields(state, table, id, fields, n - 1, row, ids.take(cut));
        lemma_value_points(
            before.0,
            before.1,
            table,
            id,
            fields[n - 1].0,
            fields[n - 1].1,
            ids.skip(cut),
            open,
        );
        let after = decompose_value(
            before.0,
            before.1,
            table,
            id,
            fields[n - 1].0,
            fields[n - 1].1,
            ids.skip(cut),
        );
        lemma_grown_chain(state.tables, before.0.tables, after.0.tables);
    }
}

/// One field taken apart leaves every row pointing well.
pub proof fn lemma_value_points(
    state: NormifierView,
    row: RowView,
    table: Seq<char>,
    id: Seq<char>,
    key: Seq<char>,
    value: JsonView,
    ids: Seq<Seq<char>>,
    open: Set<(Seq<char>, Seq<char>)>,
)
    requires
        all_point(state.tables, open),
        open.contains((table, id)),
        stored_keys_below(value, plain()),
    ensures
        all_point(decompose_value(state, row, table, id, key, value, ids).0.tables, open),
        grown(state.tables, decompose_value(state, row, table, id, key, value, ids).0.tables),
    decreases value, 0int, 0int,
{
    match value {
        JsonView::Object(fields) => {
            lemma_object_points(
                link(state, table, key),
                child_table(key),
                fields,
                Some((table, id)),
                ids,
                open,
            );
        },
        JsonView::Array(items) => {
            if all_objects(items, items.len() as int) {
                lemma_items_points(
                    link(state, table, key),
                    child_table(key),
                    items,
                    items.len() as int,
                    Some((table, id)),
                    ids,
                    open,
                );
            }
        },
        _ => {},
    }
}

/// The items of an array of rows taken apart leave every row pointing well.
pub proof fn lemma_items_points(
    state: NormifierView,
    table: Seq<char>,
    items: Seq<JsonView>,
    n: int,
    parent: ParentView,
    ids: Seq<Seq<char>>,
    open: Set<(Seq<char>, Seq<char>)>,
)
    requires
        all_point(state.tables, open),
        parent matches Some(p) ==> open.contains(p),
        stored_keys_in(items, n, plain()),
    ensures
        all_point(decompose_items(state, table, items, n, parent, ids).tables, open),
        grown(state.tables, decompose_items(state, table, items, n, parent, ids).tables),
    decreases items, 0int, n,
{
    if 0 < n <= items.len() {
        let cut = ids.len() - demand_item(items[n - 1]);
        lemma_items_points(state, table, items, n - 1, parent, ids.take(cut), open);
        let before = decompose_items(state, table, items, n - 1, parent, ids.take(cut));
        let after = decompose_item(before, table, items[n - 1], parent, ids.skip(cut));
        assert(stored_keys_of(items[n - 1], plain()));
        match items[n - 1] {
            JsonView::Object(fields) => {
                lemma_object_points(before, table, fields, parent, ids.skip(cut), open);
            },
            _ => {},
        }
        lemma_grown_chain(state.tables, before.tables, after.tables);
    }
}

/// Keys that are plain are not `id`.
pub proof fn lemma_plain_keys_are_not_id(fields: FieldsView, n: int)
    requires
        stored_keys(fields, n, plain()),
    ensures
        stored_keys(fields, n, not_id()),
    decreases fields, 0int, n,
{
    if 0 < n <= fields.len() {
        lemma_plain_keys_are_not_id(fields, n - 1);
        lemma_plain_below(fields[n - 1].1);
    }
}

pub proof fn lemma_plain_below(value: JsonView)
    requires
        stored_keys_below(value, plain()),
    ensures
        stored_keys_below(value, not_id()),
    decreases value, 0int, 0int,
{
    match value {
        JsonView::Object(fields) => {
            lemma_plain_keys_are_not_id(fields, fields.len() as int);
        },
        JsonView::Array(items) => {
            if all_objects(items, items.len() as int) {
                lemma_plain_in(items, items.len() as int);
            }
        },
        _ => {},
    }
}

pub proof fn lemma_plain_in(items: Seq<JsonView>, n: int)
    requires
        stored_keys_in(items, n, plain()),
    ensures
        stored_keys_in(items, n, not_id()),
    decreases items, 0int, n,
{
    if 0 < n <= items.len() {
        lemma_plain_in(items, n - 1);
        assert(stored_keys_of(items[n - 1], plain()));
        match items[n - 1] {
            JsonView::Object(fields) => {
                lemma_plain_keys_are_not_id(fields, fields.len() as int);
            },
            _ => {},
        }
        assert(stored_keys_of(items[n - 1], not_id()));
    }
}

/// Whether exactly one row of the table set has the id `id`, and that row
/// is in the table `table`.
pub open spec fn points_to_one_row(tables: TablesView, table: Seq<char>, id: Seq<char>) -> bool {
    exists|t: int, r: int|
        {
            &&& 0 <= t < tables.len() && 0 <= r < tables[t].1.len()
            &&& tables[t].0 == table
            &&& #[trigger] row_id(tables[t].1[r]) == Some(id)
            &&& forall|u: int, s: int|
                0 <= u < tables.len() && 0 <= s < tables[u].1.len() && #[trigger] row_id(
                    tables[u].1[s],
                ) == Some(id) ==> u == t && s == r
        }
}

/// In a normalized document, whatever a row holds under the foreign key of
/// a table is the id of exactly one row, and that row is in that table:
/// provided the ids drawn are not empty and differ from each other, and no
/// field of the document that is stored as a cell is named `id` or like a
/// foreign key.
pub proof fn lemma_links_point_to_one_row(document: JsonView, root: Seq<char>, ids: Seq<Seq<char>>)
    requires
        ids.len() == demand_root(document),
        forall|k: int| 0 <= k < ids.len() ==> (#[trigger] ids[k]).len() > 0,
        forall|j: int, k: int| 0 <= j < k < ids.len() ==> ids[j] != ids[k],
        stored_keys_of_root(document, plain()),
    ensures
        forall|t: int, r: int, table: Seq<char>|
            0 <= t < normalize(document, root, ids).tables.len() && 0 <= r < normalize(
                document,
                root,
                ids,
            ).tables[t].1.len() ==> match #[trigger] lookup(
                normalize(document, root, ids).tables[t].1[r],
                foreign_key(table),
            ) {
                Some(DtypeView::String(id)) => points_to_one_row(
                    normalize(document, root, ids).tables,
                    table,
                    id,
                ),
                Some(_) => false,
                None => true,
            },
{
    let empty = NormifierView { tables: Seq::empty(), relationships: Seq::empty() };
    let open: Set<(Seq<char>, Seq<char>)> = Set::empty();
    let tables = normalize(document, root, ids).tables;
    match document {
        JsonView::Object(fields) => {
            lemma_object_points(empty, root, fields, None, ids, open);
            lemma_plain_keys_are_not_id(fields, fields.len() as int);
        },
        JsonView::Array(items) => {
            lemma_items_points(empty, root, items, items.len() as int, None, ids, open);
            lemma_plain_in(items, items.len() as int);
        },
        _ => {},
    }
    lemma_rows_have_unique_ids(document, root, ids);
    assert forall|t: int, r: int, table: Seq<char>|
        0 <= t < tables.len() && 0 <= r < tables[t].1.len() implies match #[trigger] lookup(
        tables[t].1[r],
        foreign_key(table),
    ) {
        Some(DtypeView::String(id)) => points_to_one_row(tables, table, id),
        Some(_) => false,
        None => true,
    } by {
        let row = tables[t].1[r];
        match lookup(row, foreign_key(table)) {
            Some(DtypeView::String(id)) => {
                let (u, s) = choose|u: int, s: int|
                    0 <= u < tables.len() && 0 <= s < tables[u].1.len() && tables[u].0 == table
                        && #[trigger] row_id(tables[u].1[s]) == Some(id);
            },
            _ => {},
        }
    }
}

} // verus!
