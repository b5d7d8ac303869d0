//! The insertion-ordered maps that rows and table sets are kept in, and what
//! the library takes for granted of them.

use indexmap::IndexMap;
use vstd::prelude::*;
use crate::dtype::Dtype;
use crate::dtype::DtypeView;
use crate::normalizer::TableData;
use crate::series::FieldView;
use crate::series::Schema;

verus! {

/// `indexmap::IndexMap`, carried through as it is.
#[verifier::external_type_specification]
#[verifier::external_body]
#[verifier::reject_recursive_types(K)]
#[verifier::reject_recursive_types(V)]
#[verifier::reject_recursive_types(S)]
pub struct ExIndexMap<K, V, S>(IndexMap<K, V, S>);

/// One record: field names paired with cell values.
pub type Row = IndexMap<String, Dtype>;

/// A row in contracts: its fields in insertion order.
pub type RowView = Seq<(Seq<char>, DtypeView)>;

/// A table set in contracts: table names, each with its rows, in the order
/// the tables were first used.
pub type TablesView = Seq<(Seq<char>, Seq<RowView>)>;

/// Where the first entry under `key` stands, if there is one.
pub open spec fn index_of<V>(entries: Seq<(Seq<char>, V)>, key: Seq<char>) -> Option<int>
    decreases entries.len(),
{
    if entries.len() == 0 {
        None
    } else {
        match index_of(entries.drop_last(), key) {
            Some(i) => Some(i),
            None => if entries.last().0 == key {
                Some(entries.len() - 1)
            } else {
                None
            },
        }
    }
}

/// The entries after `value` is stored under `key`: in the place of the entry
/// that `key` already has, or else last.
pub open spec fn put<V>(entries: Seq<(Seq<char>, V)>, key: Seq<char>, value: V) -> Seq<
    (Seq<char>, V),
> {
    match index_of(entries, key) {
        Some(i) => entries.update(i, (key, value)),
        None => entries.push((key, value)),
    }
}

/// The place at which a value stored under `key` comes to stand: that of the
/// entry that `key` already has, or else the end.
pub open spec fn place_of<V>(entries: Seq<(Seq<char>, V)>, key: Seq<char>) -> int {
    match index_of(entries, key) {
        Some(i) => i,
        None => entries.len() as int,
    }
}

/// What stands under `key`, if anything.
pub open spec fn lookup<V>(entries: Seq<(Seq<char>, V)>, key: Seq<char>) -> Option<V> {
    match index_of(entries, key) {
        Some(i) => Some(entries[i].1),
        None => None,
    }
}

/// `index_of` finds the first entry under the key, and finds none only where
/// there is none.
pub proof fn lemma_index_of<V>(entries: Seq<(Seq<char>, V)>, key: Seq<char>)
    ensures
        match index_of(entries, key) {
            Some(i) => 0 <= i < entries.len() && entries[i].0 == key && forall|j: int|
                0 <= j < i ==> (#[trigger] entries[j]).0 != key,
            None => forall|j: int| 0 <= j < entries.len() ==> (#[trigger] entries[j]).0 != key,
        },
    decreases entries.len(),
{
    if entries.len() > 0 {
        lemma_index_of(entries.drop_last(), key);
        assert(forall|j: int|
            0 <= j < entries.len() - 1 ==> entries.drop_last()[j] == #[trigger] entries[j]);
    }
}

/// The fields of a row, in the order in which the map holds them.
pub uninterp spec fn row_fields(row: IndexMap<String, Dtype>) -> Seq<(Seq<char>, DtypeView)>;

/// The tables of a table set, in the order in which the map holds them.
pub uninterp spec fn table_entries(tables: IndexMap<String, TableData>) -> Seq<
    (Seq<char>, Seq<Seq<(Seq<char>, DtypeView)>>),
>;

/// `IndexMap::new`: a map without entries.
#[verifier::external_body]
pub(crate) fn row_new() -> (row: IndexMap<String, Dtype>)
    ensures
        row_fields(row) == Seq::<(Seq<char>, DtypeView)>::empty(),
{
    IndexMap::new()
}

/// `IndexMap::insert`: an equal key keeps its place and gets the new value;
/// a new key goes last. The result tells whether the key was there.
#[verifier::external_body]
pub(crate) fn row_insert(row: &mut IndexMap<String, Dtype>, key: String, value: Dtype) -> (previous:
    Option<Dtype>)
    ensures
        row_fields(*final(row)) == put(row_fields(*old(row)), key@, value@),
        match lookup(row_fields(*old(row)), key@) {
            Some(v) => previous is Some && previous->0@ == v,
            None => previous is None,
        },
{
    row.insert(key, value)
}

/// `IndexMap::len`: the number of entries.
#[verifier::external_body]
pub(crate) fn row_len(row: &IndexMap<String, Dtype>) -> (n: usize)
    ensures
        n == row_fields(*row).len(),
{
    row.len()
}

/// `IndexMap::get_index`: the entry at a position of the order, and nothing
/// past the last.
#[verifier::external_body]
pub(crate) fn row_get_index<'a>(row: &'a IndexMap<String, Dtype>, index: usize) -> (entry: Option<
    (&'a String, &'a Dtype),
>)
    ensures
        entry is Some <==> index < row_fields(*row).len(),
        entry matches Some(e) ==> (e.0@, e.1@) == row_fields(*row)[index as int],
{
    row.get_index(index)
}

/// `IndexMap::get`: the value under an equal key, if the map has one.
#[verifier::external_body]
pub(crate) fn row_get<'a>(row: &'a IndexMap<String, Dtype>, key: &str) -> (value: Option<
    &'a Dtype,
>)
    ensures
        match lookup(row_fields(*row), key@) {
            Some(v) => value is Some && value->0@ == v,
            None => value is None,
        },
{
    row.get(key)
}

/// `IndexMap::new`: a map without entries.
#[verifier::external_body]
pub(crate) fn tables_new() -> (tables: IndexMap<String, TableData>)
    ensures
        table_entries(tables) == Seq::<(Seq<char>, Seq<Seq<(Seq<char>, DtypeView)>>)>::empty(),
{
    IndexMap::new()
}

/// `IndexMap::len`: the number of entries.
#[verifier::external_body]
pub(crate) fn tables_len(tables: &IndexMap<String, TableData>) -> (n: usize)
    ensures
        n == table_entries(*tables).len(),
{
    tables.len()
}

/// `IndexMap::get_index`: the entry at a position of the order, and nothing
/// past the last. The key found there is the only one equal to it: looking
/// it up leads back to the position.
#[verifier::external_body]
pub(crate) fn tables_get_index<'a>(tables: &'a IndexMap<String, TableData>, index: usize) -> (entry:
    Option<(&'a String, &'a TableData)>)
    ensures
        entry is Some <==> index < table_entries(*tables).len(),
        entry matches Some(e) ==> (e.0@, e.1@) == table_entries(*tables)[index as int],
        entry matches Some(e) ==> index_of(table_entries(*tables), e.0@) == Some(index as int),
{
    tables.get_index(index)
}

/// `IndexMap::entry` and `Entry::or_insert_with`: the table under an equal
/// name where the map has one, else a new empty table that goes last. What
/// the caller leaves in the table is what the map holds under the name.
#[verifier::external_body]
pub(crate) fn tables_slot(tables: &mut IndexMap<String, TableData>, name: String) -> (table:
    &mut TableData)
    ensures
        table@ == match lookup(table_entries(*old(tables)), name@) {
            Some(rows) => rows,
            None => Seq::empty(),
        },
        table_entries(*final(tables)) == put(table_entries(*old(tables)), name@, final(table)@),
{
    tables.entry(name).or_insert_with(TableData::new)
}

/// The schemas of a database by table name, in the order in which the map
/// holds them.
pub uninterp spec fn schema_entries(schemas: IndexMap<String, Schema>) -> Seq<
    (Seq<char>, Seq<FieldView>),
>;

/// `IndexMap::new`: a map without entries.
#[verifier::external_body]
pub(crate) fn schemas_new() -> (schemas: IndexMap<String, Schema>)
    ensures
        schema_entries(schemas) == Seq::<(Seq<char>, Seq<FieldView>)>::empty(),
{
    IndexMap::new()
}

/// `IndexMap::insert_full`: an equal key keeps its place and gets the new
/// value; a new key goes last. The result is the place of the entry, and the
/// value that stood there before.
#[verifier::external_body]
pub(crate) fn schemas_insert_full(
    schemas: &mut IndexMap<String, Schema>,
    name: String,
    schema: Schema,
) -> (placed: (usize, Option<Schema>))
    ensures
        schema_entries(*final(schemas)) == put(schema_entries(*old(schemas)), name@, schema@),
        placed.0 == place_of(schema_entries(*old(schemas)), name@),
        match lookup(schema_entries(*old(schemas)), name@) {
            Some(s) => placed.1 is Some && placed.1->0@ == s,
            None => placed.1 is None,
        },
{
    schemas.insert_full(name, schema)
}

} // verus!
