//! The shape of a normalized document does not depend on the ids drawn:
//! tables, rows, field names, links and resolved kinds are the same
//! whatever the ids are.

use vstd::prelude::*;
use crate::columns::absorb;
use crate::columns::cell;
use crate::columns::column_names;
use crate::columns::column_values;
use crate::columns::determinant;
use crate::columns::inner_lists;
use crate::columns::resolve;
use crate::columns::table_columns;
use crate::database_builder::build_columns;
use crate::database_builder::DataBaseView;
use crate::database_builder::schema_of;
use crate::database_builder::with_tables;
use crate::dtype::DtypeView;
use crate::dtype::Kind;
use crate::dtype::kind_of;
use crate::json::JsonView;
use crate::laws::lemma_table_columns_make_a_table;
use crate::model::decompose_fields;
use crate::model::decompose_item;
use crate::model::decompose_items;
use crate::model::decompose_object;
use crate::model::decompose_value;
use crate::model::demand_item;
use crate::model::demand_value;
use crate::model::FieldsView;
use crate::model::link;
use crate::model::normalize;
use crate::model::ParentView;
use crate::model::start_row;
use crate::normalizer::add_record;
use crate::normalizer::NormifierView;
use crate::ordered::index_of;
use crate::ordered::lemma_index_of;
use crate::ordered::put;
use crate::ordered::RowView;
use crate::ordered::TablesView;
use crate::series::values_type;

verus! {

/// Two values that differ in nothing, or in the text of a string only.
pub open spec fn alike(a: DtypeView, b: DtypeView) -> bool {
    a == b || (a is String && b is String)
}

/// Two rows with the same field names in the same order and values alike.
pub open spec fn rows_alike(a: RowView, b: RowView) -> bool {
    &&& a.len() == b.len()
    &&& forall|i: int|
        #![trigger a[i]]
        #![trigger b[i]]
        0 <= i < a.len() ==> a[i].0 == b[i].0 && alike(a[i].1, b[i].1)
}

/// Two runs of rows of the same length, the rows alike one for one.
pub open spec fn row_runs_alike(a: Seq<RowView>, b: Seq<RowView>) -> bool {
    &&& a.len() == b.len()
    &&& forall|r: int|
        #![trigger a[r]]
        #![trigger b[r]]
        0 <= r < a.len() ==> rows_alike(a[r], b[r])
}

/// Two table sets with the same table names in the same order and rows
/// alike.
pub open spec fn tables_alike(a: TablesView, b: TablesView) -> bool {
    &&& a.len() == b.len()
    &&& forall|t: int|
        #![trigger a[t]]
        #![trigger b[t]]
        0 <= t < a.len() ==> a[t].0 == b[t].0 && row_runs_alike(a[t].1, b[t].1)
}

/// Two states with tables alike and the same links.
pub open spec fn states_alike(a: NormifierView, b: NormifierView) -> bool {
    tables_alike(a.tables, b.tables) && a.relationships == b.relationships
}

/// Two parents in the same table, or none on either side.
pub open spec fn parents_alike(a: ParentView, b: ParentView) -> bool {
    match (a, b) {
        (Some(x), Some(y)) => x.0 == y.0,
        (None, None) => true,
        _ => false,
    }
}

/// Where a key stands depends on the keys alone.
pub proof fn lemma_index_of_by_keys<V, W>(
    a: Seq<(Seq<char>, V)>,
    b: Seq<(Seq<char>, W)>,
    key: Seq<char>,
)
    requires
        a.len() == b.len(),
        forall|i: int| 0 <= i < a.len() ==> (#[trigger] a[i]).0 == b[i].0,
    ensures
        index_of(a, key) == index_of(b, key),
    decreases a.len(),
{
    if a.len() > 0 {
        lemma_index_of_by_keys(a.drop_last(), b.drop_last(), key);
    }
}

/// Storing values alike under one key in rows alike leaves rows alike.
pub proof fn lemma_put_alike(a: RowView, b: RowView, key: Seq<char>, x: DtypeView, y: DtypeView)
    requires
        rows_alike(a, b),
        alike(x, y),
    ensures
        rows_alike(put(a, key, x), put(b, key, y)),
{
    lemma_index_of_by_keys(a, b, key);
    lemma_index_of(a, key);
    lemma_index_of(b, key);
}

/// Rows start alike whatever their ids are.
pub proof fn lemma_start_row_alike(id_a: Seq<char>, id_b: Seq<char>, pa: ParentView, pb: ParentView)
    requires
        parents_alike(pa, pb),
    ensures
        rows_alike(start_row(id_a, pa), start_row(id_b, pb)),
{
    let ea: RowView = Seq::empty();
    let eb: RowView = Seq::empty();
    lemma_put_alike(
        ea,
        eb,
        crate::model::id_key(),
        DtypeView::String(id_a),
        DtypeView::String(id_b),
    );
    match (pa, pb) {
        (Some((table, parent_a)), Some((_, parent_b))) => {
            lemma_put_alike(
                put(ea, crate::model::id_key(), DtypeView::String(id_a)),
                put(eb, crate::model::id_key(), DtypeView::String(id_b)),
                crate::model::foreign_key(table),
                DtypeView::String(parent_a),
                DtypeView::String(parent_b),
            );
        },
        _ => {},
    }
}

/// Adding rows alike to the same table of table sets alike leaves them
/// alike.
pub proof fn lemma_add_record_alike(
    a: TablesView,
    b: TablesView,
    name: Seq<char>,
    row_a: RowView,
    row_b: RowView,
)
    requires
        tables_alike(a, b),
        rows_alike(row_a, row_b),
    ensures
        tables_alike(add_record(a, name, row_a), add_record(b, name, row_b)),
{
    lemma_index_of_by_keys(a, b, name);
    lemma_index_of(a, name);
    lemma_index_of(b, name);
}

/// Taking an object apart from states alike gives states alike, whatever
/// ids are drawn on either side.
pub proof fn lemma_object_alike(
    a: NormifierView,
    b: NormifierView,
    table: Seq<char>,
    fields: FieldsView,
    pa: ParentView,
    pb: ParentView,
    ids_a: Seq<Seq<char>>,
    ids_b: Seq<Seq<char>>,
)
    requires
        states_alike(a, b),
        parents_alike(pa, pb),
    ensures
        states_alike(
            decompose_object(a, table, fields, pa, ids_a),
            decompose_object(b, table, fields, pb, ids_b),
        ),
    decreases fields, 1int, 0int,
{
    let id_a = ids_a[0];
    let id_b = ids_b[0];
    lemma_start_row_alike(id_a, id_b, pa, pb);
    lemma_fields_alike(
        a,
        b,
        table,
        id_a,
        id_b,
        fields,
        fields.len() as int,
        start_row(id_a, pa),
        start_row(id_b, pb),
        ids_a.skip(1),
        ids_b.skip(1),
    );
    let ra = decompose_fields(
        a,
        table,
        id_a,
        fields,
        fields.len() as int,
        start_row(id_a, pa),
        ids_a.skip(1),
    );
    let rb = decompose_fields(
        b,
        table,
        id_b,
        fields,
        fields.len() as int,
        start_row(id_b, pb),
        ids_b.skip(1),
    );
    lemma_add_record_alike(ra.0.tables, rb.0.tables, table, ra.1, rb.1);
}

/// The fields of an object, taken from states and rows alike, give states
/// and rows alike.
pub proof fn lemma_fields_alike(
    a: NormifierView,
    b: NormifierView,
    table: Seq<char>,
    id_a: Seq<char>,
    id_b: Seq<char>,
    fields: FieldsView,
    n: int,
    row_a: RowView,
    row_b: RowView,
    ids_a: Seq<Seq<char>>,
    ids_b: Seq<Seq<char>>,
)
    requires
        states_alike(a, b),
        rows_alike(row_a, row_b),
    ensures
        states_alike(
            decompose_fields(a, table, id_a, fields, n, row_a, ids_a).0,
            decompose_fields(b, table, id_b, fields, n, row_b, ids_b).0,
        ),
        rows_alike(
            decompose_fields(a, table, id_a, fields, n, row_a, ids_a).1,
            decompose_fields(b, table, id_b, fields, n, row_b, ids_b).1,
        ),
    decreases fields, 0int, n,
{
    if 0 < n <= fields.len() {
        let cut_a = ids_a.len() - demand_value(fields[n - 1].1);
        let cut_b = ids_b.len() - demand_value(fields[n - 1].1);
        lemma_fields_alike(
            a,
            b,
            table,
            id_a,
            id_b,
            fields,
            n - 1,
            row_a,
            row_b,
            ids_a.take(cut_a),
            ids_b.take(cut_b),
        );
        let before_a = decompose_fields(a, table, id_a, fields, n - 1, row_a, ids_a.take(cut_a));
        let before_b = decompose_fields(b, table, id_b, fields, n - 1, row_b, ids_b.take(cut_b));
        lemma_value_alike(
            before_a.0,
            before_b.0,
            before_a.1,
            before_b.1,
            table,
            id_a,
            id_b,
            fields[n - 1].0,
            fields[n - 1].1,
            ids_a.skip(cut_a),
            ids_b.skip(cut_b),
        );
    }
}

/// One field, taken from states and rows alike, gives states and rows alike.
pub proof fn lemma_value_alike(
    a: NormifierView,
    b: NormifierView,
    row_a: RowView,
    row_b: RowView,
    table: Seq<char>,
    id_a: Seq<char>,
    id_b: Seq<char>,
    key: Seq<char>,
    value: JsonView,
    ids_a: Seq<Seq<char>>,
    ids_b: Seq<Seq<char>>,
)
    requires
        states_alike(a, b),
        rows_alike(row_a, row_b),
    ensures
        states_alike(
            decompose_value(a, row_a, table, id_a, key, value, ids_a).0,
            decompose_value(b, row_b, table, id_b, key, value, ids_b).0,
        ),
        rows_alike(
            decompose_value(a, row_a, table, id_a, key, value, ids_a).1,
            decompose_value(b, row_b, table, id_b, key, value, ids_b).1,
        ),
    decreases value, 0int, 0int,
{
    match value {
        JsonView::Object(fields) => {
            lemma_object_alike(
                link(a, table, key),
                link(b, table, key),
                crate::model::child_table(key),
                fields,
                Some((table, id_a)),
                Some((table, id_b)),
                ids_a,
                ids_b,
            );
        },
        JsonView::Array(items) => {
            if crate::model::all_objects(items, items.len() as int) {
                lemma_items_alike(
                    link(a, table, key),
                    link(b, table, key),
                    crate::model::child_table(key),
                    items,
                    items.len() as int,
                    Some((table, id_a)),
                    Some((table, id_b)),
                    ids_a,
                    ids_b,
                );
            } else if !crate::model::some_object(items, items.len() as int) {
                lemma_put_alike(
                    row_a,
                    row_b,
                    key,
                    crate::dtype::cell_of(value),
                    crate::dtype::cell_of(value),
                );
            }
        },
        _ => {
            lemma_put_alike(
                row_a,
                row_b,
                key,
                crate::dtype::cell_of(value),
                crate::dtype::cell_of(value),
            );
        },
    }
}

/// The items of an array of rows, taken from states alike, give states
/// alike.
pub proof fn lemma_items_alike(
    a: NormifierView,
    b: NormifierView,
    table: Seq<char>,
    items: Seq<JsonView>,
    n: int,
    pa: ParentView,
    pb: ParentView,
    ids_a: Seq<Seq<char>>,
    ids_b: Seq<Seq<char>>,
)
    requires
        states_alike(a, b),
        parents_alike(pa, pb),
    ensures
        states_alike(
            decompose_items(a, table, items, n, pa, ids_a),
            decompose_items(b, table, items, n, pb, ids_b),
        ),
    decreases items, 0int, n,
{
    if 0 < n <= items.len() {
        let cut_a = ids_a.len() - demand_item(items[n - 1]);
        let cut_b = ids_b.len() - demand_item(items[n - 1]);
        lemma_items_alike(a, b, table, items, n - 1, pa, pb, ids_a.take(cut_a), ids_b.take(cut_b));
        let before_a = decompose_items(a, table, items, n - 1, pa, ids_a.take(cut_a));
        let before_b = decompose_items(b, table, items, n - 1, pb, ids_b.take(cut_b));
        assert(decompose_items(a, table, items, n, pa, ids_a) == decompose_item(
            before_a,
            table,
            items[n - 1],
            pa,
            ids_a.skip(cut_a),
        ));
        assert(decompose_items(b, table, items, n, pb, ids_b) == decompose_item(
            before_b,
            table,
            items[n - 1],
            pb,
            ids_b.skip(cut_b),
        ));
        match items[n - 1] {
            JsonView::Object(fields) => {
                lemma_object_alike(
                    before_a,
                    before_b,
                    table,
                    fields,
                    pa,
                    pb,
                    ids_a.skip(cut_a),
                    ids_b.skip(cut_b),
                );
            },
            _ => {},
        }
    }
}

/// The names met in rows alike are the same.
pub proof fn lemma_absorb_alike(names: Seq<Seq<char>>, a: RowView, b: RowView, k: int)
    requires
        rows_alike(a, b),
    ensures
        absorb(names, a, k) == absorb(names, b, k),
    decreases k,
{
    if 0 < k <= a.len() {
        lemma_absorb_alike(names, a, b, k - 1);
    }
}

/// Tables with rows alike have the same column names.
pub proof fn lemma_column_names_alike(a: Seq<RowView>, b: Seq<RowView>, n: int)
    requires
        row_runs_alike(a, b),
    ensures
        column_names(a, n) == column_names(b, n),
    decreases n,
{
    if 0 < n <= a.len() {
        lemma_column_names_alike(a, b, n - 1);
        lemma_absorb_alike(column_names(a, n - 1), a[n - 1], b[n - 1], a[n - 1].len() as int);
    }
}

/// What rows alike hold under a name is alike.
pub proof fn lemma_cell_alike(a: RowView, b: RowView, name: Seq<char>)
    requires
        rows_alike(a, b),
    ensures
        alike(cell(a, name), cell(b, name)),
{
    lemma_index_of_by_keys(a, b, name);
    lemma_index_of(a, name);
}

/// Values alike one for one.
pub open spec fn values_alike(a: Seq<DtypeView>, b: Seq<DtypeView>) -> bool {
    &&& a.len() == b.len()
    &&& forall|i: int| #![trigger a[i]] #![trigger b[i]] 0 <= i < a.len() ==> alike(a[i], b[i])
}

/// The determinants of values alike are alike.
pub proof fn lemma_determinant_alike(a: Seq<DtypeView>, b: Seq<DtypeView>, n: int)
    requires
        values_alike(a, b),
    ensures
        alike(determinant(a, n), determinant(b, n)),
    decreases n,
{
    if 0 < n <= a.len() {
        lemma_determinant_alike(a, b, n - 1);
    }
}

/// Columns of values alike resolve to the same type, by fallback in both or
/// in neither.
pub proof fn lemma_resolve_alike(a: Seq<DtypeView>, b: Seq<DtypeView>)
    requires
        values_alike(a, b),
    ensures
        values_type(resolve(a).0) == values_type(resolve(b).0),
        resolve(a).1 == resolve(b).1,
{
    lemma_determinant_alike(a, b, a.len() as int);
    let kind = kind_of(determinant(a, a.len() as int));
    if kind == Kind::Array {
        assert(inner_lists(a) =~= inner_lists(b));
    }
}

/// Tables with rows alike have the same schema.
pub proof fn lemma_schema_alike(a: Seq<RowView>, b: Seq<RowView>)
    requires
        row_runs_alike(a, b),
    ensures
        schema_of(table_columns(a)) == schema_of(table_columns(b)),
{
    lemma_column_names_alike(a, b, a.len() as int);
    let names = column_names(a, a.len() as int);
    assert forall|c: int| 0 <= c < names.len() implies crate::series::field_of(
        table_columns(a)[c],
    ) == crate::series::field_of(table_columns(b)[c]) by {
        let va = column_values(a, names[c]);
        let vb = column_values(b, names[c]);
        assert forall|r: int| 0 <= r < va.len() implies alike(#[trigger] va[r], vb[r]) by {
            lemma_cell_alike(a[r], b[r], names[c]);
        }
        lemma_resolve_alike(va, vb);
    }
}

/// Table sets alike give databases with the same schemas.
pub proof fn lemma_schemas_alike(
    da: DataBaseView,
    db: DataBaseView,
    a: TablesView,
    b: TablesView,
    n: int,
)
    requires
        tables_alike(a, b),
        da.schemas == db.schemas,
    ensures
        with_tables(da, a, n).schemas == with_tables(db, b, n).schemas,
    decreases n,
{
    if 0 < n <= a.len() {
        lemma_schemas_alike(da, db, a, b, n - 1);
        lemma_schema_alike(a[n - 1].1, b[n - 1].1);
        lemma_table_columns_make_a_table(a[n - 1].1);
        lemma_table_columns_make_a_table(b[n - 1].1);
    }
}

/// Normalizing one document with any two runs of ids gives the same tables
/// in the same order, the same number of rows in each, the same field names
/// in every row, the same links, and columns that resolve to the same types:
/// only the text of ids differs.
pub proof fn lemma_shape_is_independent_of_ids(
    document: JsonView,
    root: Seq<char>,
    ids_a: Seq<Seq<char>>,
    ids_b: Seq<Seq<char>>,
)
    ensures
        tables_alike(
            normalize(document, root, ids_a).tables,
            normalize(document, root, ids_b).tables,
        ),
        normalize(document, root, ids_a).relationships == normalize(
            document,
            root,
            ids_b,
        ).relationships,
        build_columns(normalize(document, root, ids_a).tables).schemas == build_columns(
            normalize(document, root, ids_b).tables,
        ).schemas,
{
    let empty = NormifierView { tables: Seq::empty(), relationships: Seq::empty() };
    match document {
        JsonView::Object(fields) => {
            lemma_object_alike(empty, empty, root, fields, None, None, ids_a, ids_b);
        },
        JsonView::Array(items) => {
            lemma_items_alike(
                empty,
                empty,
                root,
                items,
                items.len() as int,
                None,
                None,
                ids_a,
                ids_b,
            );
        },
        _ => {},
    }
    let a = normalize(document, root, ids_a).tables;
    let b = normalize(document, root, ids_b).tables;
    let none = crate::database_builder::no_tables();
    lemma_schemas_alike(none, none, a, b, a.len() as int);
}

} // verus!
