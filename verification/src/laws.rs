//! What holds of column building whatever the rows are.

use vstd::prelude::*;
use crate::columns::absorb;
use crate::columns::column_names;
use crate::columns::determinant;
use crate::columns::rendered;
use crate::columns::resolve;
use crate::columns::table_columns;
use crate::database_builder::aligned;
use crate::database_builder::build_columns;
use crate::database_builder::no_tables;
use crate::database_builder::schema_of;
use crate::database_builder::with_tables;
use crate::dtype::all_of_kind;
use crate::dtype::DtypeView;
use crate::dtype::Kind;
use crate::dtype::kind_of;
use crate::ordered::index_of;
use crate::ordered::lemma_index_of;
use crate::ordered::RowView;
use crate::ordered::TablesView;
use crate::series::ChunkedArrayView;
use crate::series::DataType;
use crate::series::frame_fault;
use crate::series::values_len;
use crate::series::values_type;
use crate::series::ValuesView;
use crate::text::decimal;
use crate::text::signed_decimal;

verus! {

/// A column of values of two different kinds, whose first value that is not
/// null is no array, resolves to text by fallback: every value that is not
/// null stands as its text, a whole number as its decimal digits, a string
/// as it is.
pub proof fn lemma_mixed_column_degrades(values: Seq<DtypeView>, i: int, j: int)
    requires
        0 <= i < values.len(),
        0 <= j < values.len(),
        !(values[i] is Null),
        !(values[j] is Null),
        kind_of(values[i]) != kind_of(values[j]),
        !(determinant(values, values.len() as int) is Array),
    ensures
        resolve(values) == (ValuesView::Flat(ChunkedArrayView::String(rendered(values))), true),
        values_type(resolve(values).0) == DataType::String,
        forall|k: int|
            0 <= k < values.len() ==> match #[trigger] values[k] {
                DtypeView::Null => rendered(values)[k] is None,
                DtypeView::UInt(u) => rendered(values)[k] == Some(decimal(u as nat)),
                DtypeView::Int(n) => rendered(values)[k] == Some(signed_decimal(n as int)),
                DtypeView::String(s) => rendered(values)[k] == Some(s),
                _ => rendered(values)[k] is Some,
            },
{
}

/// The determinant of values of which none is an array is no array.
pub proof fn lemma_determinant_of_scalars(values: Seq<DtypeView>, n: int)
    requires
        forall|i: int| 0 <= i < values.len() ==> !((#[trigger] values[i]) is Array),
    ensures
        !(determinant(values, n) is Array),
    decreases n,
{
    if 0 < n <= values.len() {
        lemma_determinant_of_scalars(values, n - 1);
    }
}

/// A column with a string at one place and whole numbers at all others, of
/// which there is at least one, resolves to text by fallback: the string
/// stands as it is and every number as its decimal digits.
pub proof fn lemma_string_among_integers_degrades(values: Seq<DtypeView>, i: int)
    requires
        0 <= i < values.len(),
        values.len() >= 2,
        values[i] is String,
        forall|k: int|
            0 <= k < values.len() && k != i ==> (#[trigger] values[k]) is UInt || values[k] is Int,
    ensures
        resolve(values).1,
        values_type(resolve(values).0) == DataType::String,
        resolve(values).0 == ValuesView::Flat(ChunkedArrayView::String(rendered(values))),
        forall|k: int|
            0 <= k < values.len() ==> match #[trigger] values[k] {
                DtypeView::UInt(u) => rendered(values)[k] == Some(decimal(u as nat)),
                DtypeView::Int(n) => rendered(values)[k] == Some(signed_decimal(n as int)),
                DtypeView::String(s) => rendered(values)[k] == Some(s),
                _ => true,
            },
{
    let j = if i == 0 {
        1int
    } else {
        0int
    };
    assert(values[j] is UInt || values[j] is Int);
    lemma_determinant_of_scalars(values, values.len() as int);
    lemma_mixed_column_degrades(values, i, j);
}

/// The determinant of values that are all null is null.
pub proof fn lemma_determinant_of_nulls(values: Seq<DtypeView>, n: int)
    requires
        forall|i: int| 0 <= i < values.len() ==> (#[trigger] values[i]) is Null,
    ensures
        determinant(values, n) is Null,
    decreases n,
{
    if 0 < n <= values.len() {
        lemma_determinant_of_nulls(values, n - 1);
    }
}

/// A column of nulls only stays a column of nulls: it is never an error and
/// never text.
pub proof fn lemma_null_column_stays(values: Seq<DtypeView>)
    requires
        forall|i: int| 0 <= i < values.len() ==> (#[trigger] values[i]) is Null,
    ensures
        resolve(values) == (ValuesView::Flat(ChunkedArrayView::Null(values.len())), false),
{
    lemma_determinant_of_nulls(values, values.len() as int);
}

/// Whatever the values are, the column has one position for each of them.
pub proof fn lemma_resolve_keeps_rows(values: Seq<DtypeView>)
    ensures
        values_len(resolve(values).0) == values.len(),
{
    let kind = kind_of(determinant(values, values.len() as int));
    if kind == Kind::Array {
    } else if all_of_kind(values, kind) {
    }
}

/// No name stands twice among the names.
pub open spec fn no_repeats(names: Seq<Seq<char>>) -> bool {
    forall|i: int, j: int| 0 <= i < j < names.len() ==> names[i] != names[j]
}

/// Looking at more fields of a row never makes a name stand twice.
pub proof fn lemma_absorb_no_repeats(names: Seq<Seq<char>>, row: RowView, k: int)
    requires
        no_repeats(names),
    ensures
        no_repeats(absorb(names, row, k)),
    decreases k,
{
    if 0 < k <= row.len() {
        lemma_absorb_no_repeats(names, row, k - 1);
    }
}

/// Every column name of a table stands once.
pub proof fn lemma_column_names_no_repeats(rows: Seq<RowView>, n: int)
    ensures
        no_repeats(column_names(rows, n)),
    decreases n,
{
    if 0 < n <= rows.len() {
        lemma_column_names_no_repeats(rows, n - 1);
        lemma_absorb_no_repeats(column_names(rows, n - 1), rows[n - 1], rows[n - 1].len() as int);
    }
}

/// The columns built from the rows of a table always make a table: they
/// have distinct names and one position for each row.
pub proof fn lemma_table_columns_make_a_table(rows: Seq<RowView>)
    ensures
        frame_fault(table_columns(rows)) is None,
        forall|c: int|
            0 <= c < table_columns(rows).len() ==> values_len(
                (#[trigger] table_columns(rows)[c]).values,
            ) == rows.len(),
{
    lemma_column_names_no_repeats(rows, rows.len() as int);
}

/// Whether every table of the set has a name of its own.
pub open spec fn names_differ(tables: TablesView) -> bool {
    forall|t: int| 0 <= t < tables.len() ==> index_of(tables, (#[trigger] tables[t]).0) == Some(t)
}

/// Building the first `n` tables of a set whose names differ leaves no table
/// out and adds no note: the database has those tables under their names,
/// in the same order, each with its schema.
pub proof fn lemma_tables_are_built(tables: TablesView, n: int)
    requires
        0 <= n <= tables.len(),
        names_differ(tables),
    ensures
        with_tables(no_tables(), tables, n).diagnostics.len() == 0,
        with_tables(no_tables(), tables, n).tables.len() == n,
        with_tables(no_tables(), tables, n).schemas.len() == n,
        forall|t: int|
            0 <= t < n ==> (#[trigger] with_tables(no_tables(), tables, n).schemas[t]) == (
                tables[t].0,
                schema_of(table_columns(tables[t].1)),
            ),
        forall|t: int|
            0 <= t < n ==> (#[trigger] with_tables(no_tables(), tables, n).tables[t])
                == table_columns(tables[t].1),
    decreases n,
{
    if n > 0 {
        lemma_tables_are_built(tables, n - 1);
        lemma_table_columns_make_a_table(tables[n - 1].1);
        let before = with_tables(no_tables(), tables, n - 1);
        let name = tables[n - 1].0;
        lemma_index_of(tables, name);
        lemma_index_of(before.schemas, name);
    }
}

/// The database of a table set whose table names differ has one table for
/// each table of the set, in the same order and under the same name, each
/// with its schema, and no note of a table left out.
pub proof fn lemma_build_columns_is_total(tables: TablesView)
    requires
        names_differ(tables),
    ensures
        aligned(build_columns(tables)),
        build_columns(tables).diagnostics.len() == 0,
        build_columns(tables).tables.len() == tables.len(),
        forall|t: int|
            0 <= t < tables.len() ==> (#[trigger] build_columns(tables).schemas[t]).0
                == tables[t].0 && build_columns(tables).tables[t] == table_columns(tables[t].1),
{
    lemma_tables_are_built(tables, tables.len() as int);
    let built = with_tables(no_tables(), tables, tables.len() as int);
    assert forall|t: int| 0 <= t < built.tables.len() implies frame_fault(
        #[trigger] built.tables[t],
    ) is None by {
        lemma_table_columns_make_a_table(tables[t].1);
    }
}

} // verus!
