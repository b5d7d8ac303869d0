//! Building typed columns from the rows of a table set.

use indexmap::IndexMap;
use vstd::prelude::*;
use crate::columns::all_normal;
use crate::columns::determinant;
use crate::columns::gather;
use crate::columns::inner_list;
use crate::columns::inner_lists;
use crate::columns::max_len;
use crate::columns::nested_determinant;
use crate::columns::rendered;
use crate::columns::rendered_rows;
use crate::columns::rendered_value;
use crate::columns::resolve;
use crate::columns::table_columns;
use crate::columns::typed;
use crate::columns::typed_rows;
use crate::dtype::all_of_kind;
use crate::dtype::Dtype;
use crate::dtype::DtypeView;
use crate::dtype::fits;
use crate::dtype::Kind;
use crate::dtype::kind_of;
use crate::dtype::lemma_array_view;
use crate::dtype::values_view;
use crate::json::Float;
use crate::normalizer::named_columns_view;
use crate::normalizer::Normifier;
use crate::normalizer::TableData;
use crate::ordered::index_of;
use crate::ordered::lemma_index_of;
use crate::ordered::place_of;
use crate::ordered::put;
use crate::ordered::RowView;
use crate::ordered::schema_entries;
use crate::ordered::schemas_insert_full;
use crate::ordered::schemas_new;
use crate::ordered::tables_get_index;
use crate::ordered::tables_len;
use crate::ordered::TablesView;
use crate::series::array_kind;
use crate::series::arrays_view;
use crate::series::ChunkedArray;
use crate::series::ChunkedArrayView;
use crate::series::ColumnBuildError;
use crate::series::columns_view;
use crate::series::DataFrame;
use crate::series::field_of;
use crate::series::FieldView;
use crate::series::frame_fault;
use crate::series::ListChunked;
use crate::series::ListChunkedView;
use crate::series::options_view;
use crate::series::Schema;
use crate::series::Series;
use crate::series::SeriesView;
use crate::series::Values;
use crate::series::ValuesView;

verus! {

/// Lists of values, each value by its view.
pub open spec fn lists_view(lists: Seq<Vec<Dtype>>) -> Seq<Seq<DtypeView>> {
    Seq::new(lists.len(), |i: int| values_view(lists[i]@))
}

/// A column of lists in the making: the kind of its items, the room asked
/// for, and the rows put into it so far.
#[derive(Debug, PartialEq)]
pub struct ListBuilder {
    pub inner: Kind,
    pub capacity: usize,
    pub values_capacity: usize,
    pub rows: Vec<ChunkedArray>,
}

impl ListBuilder {
    /// Puts one more row into the column.
    pub fn append_series(&mut self, row: ChunkedArray)
        requires
            array_kind(row@) == old(self).inner,
        ensures
            final(self).inner == old(self).inner,
            final(self).capacity == old(self).capacity,
            final(self).values_capacity == old(self).values_capacity,
            arrays_view(final(self).rows@) == arrays_view(old(self).rows@).push(row@),
    {
        self.rows.push(row);
    }

    /// Hands out the column and leaves the builder without rows.
    pub fn finish(&mut self) -> (list: ListChunked)
        ensures
            list@ == (ListChunkedView {
                inner: old(self).inner,
                rows: arrays_view(old(self).rows@),
            }),
            final(self).inner == old(self).inner,
            final(self).capacity == old(self).capacity,
            final(self).values_capacity == old(self).values_capacity,
            final(self).rows@.len() == 0,
    {
        let mut rows: Vec<ChunkedArray> = Vec::new();
        std::mem::swap(&mut rows, &mut self.rows);
        ListChunked { inner: self.inner, rows }
    }
}

/// The database: for each table that could be built its schema and its
/// columns, and a note for each table that could not.
#[derive(Debug, PartialEq)]
pub struct DataBase {
    pub schemas: IndexMap<String, Schema>,
    pub tables: Vec<DataFrame>,
    pub diagnostics: Vec<Diagnostic>,
}

/// A table that was left out, and why.
#[derive(Debug, PartialEq)]
pub struct Diagnostic {
    pub table: String,
    pub error: ColumnBuildError,
}

pub struct DataBaseView {
    pub schemas: Seq<(Seq<char>, Seq<FieldView>)>,
    pub tables: Seq<Seq<SeriesView>>,
    pub diagnostics: Seq<(Seq<char>, ColumnBuildError)>,
}

impl View for DataBase {
    type V = DataBaseView;

    open spec fn view(&self) -> DataBaseView {
        DataBaseView {
            schemas: schema_entries(self.schemas),
            tables: Seq::new(self.tables@.len(), |i: int| self.tables@[i]@),
            diagnostics: Seq::new(
                self.diagnostics@.len(),
                |i: int| (self.diagnostics@[i].table@, self.diagnostics@[i].error),
            ),
        }
    }
}

/// The schema of a table built from the given columns.
pub open spec fn schema_of(columns: Seq<SeriesView>) -> Seq<FieldView> {
    Seq::new(columns.len(), |i: int| field_of(columns[i]))
}

/// The database after the table `name` was built from its rows: its columns
/// and its schema are added, or take the place of those that the name had;
/// where the columns make no table, the table is left out and a note says
/// why.
pub open spec fn with_table(
    database: DataBaseView,
    name: Seq<char>,
    rows: Seq<RowView>,
) -> DataBaseView {
    let columns = table_columns(rows);
    let place = place_of(database.schemas, name);
    match frame_fault(columns) {
        None => DataBaseView {
            schemas: put(database.schemas, name, schema_of(columns)),
            tables: if place < database.tables.len() {
                database.tables.update(place, columns)
            } else {
                database.tables.push(columns)
            },
            diagnostics: database.diagnostics,
        },
        Some(e) => DataBaseView {
            schemas: database.schemas,
            tables: database.tables,
            diagnostics: database.diagnostics.push((name, e)),
        },
    }
}

/// Whether every table of the database stands at the place of its schema,
/// has that schema, and is a table.
pub open spec fn aligned(database: DataBaseView) -> bool {
    &&& database.schemas.len() == database.tables.len()
    &&& forall|t: int|
        0 <= t < database.tables.len() ==> (#[trigger] database.schemas[t]).1 == schema_of(
            database.tables[t],
        )
    &&& forall|t: int|
        0 <= t < database.tables.len() ==> frame_fault(#[trigger] database.tables[t]) is None
}

/// The database after the first `n` tables of a table set were built, one
/// after the other.
pub open spec fn with_tables(database: DataBaseView, tables: TablesView, n: int) -> DataBaseView
    decreases n,
{
    if n <= 0 || n > tables.len() {
        database
    } else {
        with_table(with_tables(database, tables, n - 1), tables[n - 1].0, tables[n - 1].1)
    }
}

/// The database of a table set.
pub open spec fn build_columns(tables: TablesView) -> DataBaseView {
    with_tables(no_tables(), tables, tables.len() as int)
}

/// The database without tables.
pub open spec fn no_tables() -> DataBaseView {
    DataBaseView { schemas: Seq::empty(), tables: Seq::empty(), diagnostics: Seq::empty() }
}

impl DataBase {
    pub fn new() -> (database: DataBase)
        ensures
            database@ == no_tables(),
    {
        let database = DataBase {
            schemas: schemas_new(),
            tables: Vec::new(),
            diagnostics: Vec::new(),
        };
        assert(database@.tables =~= Seq::empty());
        assert(database@.diagnostics =~= Seq::empty());
        database
    }

    /// The values as text: null stays null, every other value is rendered.
    pub fn stringify_collection(collection: Vec<Dtype>) -> (array: ChunkedArray)
        ensures
            array@ == ChunkedArrayView::String(rendered(values_view(collection@))),
    {
        let mut texts: Vec<Option<String>> = Vec::new();
        let mut i: usize = 0;
        while i < collection.len()
            invariant
                i <= collection.len(),
                texts.len() == i,
                forall|j: int|
                    0 <= j < i ==> crate::dtype::option_view(#[trigger] texts[j]) == rendered_value(
                        collection[j]@,
                    ),
            decreases collection.len() - i,
        {
            if collection[i].is_null() {
                texts.push(None);
            } else {
                texts.push(Some(collection[i].render()));
            }
            i += 1;
        }
        assert(options_view(texts@) =~= rendered(values_view(collection@)));
        ChunkedArray::String(texts)
    }

    /// The length of the longest list.
    pub fn longest(lists: &[Vec<Dtype>]) -> (n: usize)
        ensures
            n == max_len(lists_view(lists@), lists.len() as int),
    {
        let mut longest: usize = 0;
        let mut i: usize = 0;
        while i < lists.len()
            invariant
                i <= lists.len(),
                longest == max_len(lists_view(lists@), i as int),
            decreases lists.len() - i,
        {
            if lists[i].len() > longest {
                longest = lists[i].len();
            }
            i += 1;
        }
        longest
    }

    /// A column of lists of text: every item of every list rendered, the
    /// rows as they were.
    pub fn stringify_nested_collection(name: String, n_collection: Vec<Vec<Dtype>>) -> (series:
        Series)
        ensures
            series@ == (SeriesView {
                name: name@,
                values: ValuesView::List(
                    ListChunkedView {
                        inner: Kind::String,
                        rows: rendered_rows(lists_view(n_collection@)),
                    },
                ),
                fallback: true,
            }),
    {
        let values_cap: usize = Self::longest(n_collection.as_slice());
        let mut s_builder = ListBuilder {
            inner: Kind::String,
            capacity: n_collection.len(),
            values_capacity: values_cap,
            rows: Vec::new(),
        };
        let ghost lists = lists_view(n_collection@);
        for inner_array in it: n_collection
            invariant
                it.seq() == n_collection@,
                lists == lists_view(n_collection@),
                s_builder.inner == Kind::String,
                arrays_view(s_builder.rows@) == rendered_rows(lists).take(it.index() as int),
        {
            let row: ChunkedArray = Self::stringify_collection(inner_array);
            s_builder.append_series(row);
        }
        assert(rendered_rows(lists).take(lists.len() as int) =~= rendered_rows(lists));
        let list: ListChunked = s_builder.finish();
        Series { name, values: Values::List(list), fallback: true }
    }

    /// Whether every value is null or of the kind of `determinant`.
    pub fn is_normal_collection(determinant: &Dtype, collection: &[Dtype]) -> (normal: bool)
        ensures
            normal == all_of_kind(values_view(collection@), kind_of(determinant@)),
    {
        let kind: Kind = determinant.kind();
        let mut i: usize = 0;
        while i < collection.len()
            invariant
                i <= collection.len(),
                kind == kind_of(determinant@),
                forall|j: int| 0 <= j < i ==> fits(#[trigger] values_view(collection@)[j], kind),
            decreases collection.len() - i,
        {
            let k: Kind = collection[i].kind();
            if !(k == Kind::Null || k == kind) {
                assert(!fits(values_view(collection@)[i as int], kind));
                return false;
            }
            i += 1;
        }
        true
    }

    /// The values as an array of the kind of `determinant`: a value of
    /// another kind leaves a null. A determinant that is null gives the
    /// array of nulls.
    pub fn collection_to_series(determinant: &Dtype, collection: Vec<Dtype>) -> (array:
        ChunkedArray)
        requires
            !(determinant@ is Array),
        ensures
            array@ == typed(kind_of(determinant@), values_view(collection@)),
    {
        let ghost values = values_view(collection@);
        match determinant {
            Dtype::Bool(_) => {
                let taken: Vec<Option<bool>> = Dtype::cast_to_option::<bool>(collection);
                assert(taken@ =~= typed(Kind::Bool, values)->Bool_0);
                ChunkedArray::Bool(taken)
            },
            Dtype::UInt(_) => {
                let taken: Vec<Option<u64>> = Dtype::cast_to_option::<u64>(collection);
                assert(taken@ =~= typed(Kind::UInt, values)->UInt_0);
                ChunkedArray::UInt(taken)
            },
            Dtype::Int(_) => {
                let taken: Vec<Option<i64>> = Dtype::cast_to_option::<i64>(collection);
                assert(taken@ =~= typed(Kind::Int, values)->Int_0);
                ChunkedArray::Int(taken)
            },
            Dtype::Float(_) => {
                let taken: Vec<Option<Float>> = Dtype::cast_to_option::<Float>(collection);
                assert(options_view(taken@) =~= typed(Kind::Float, values)->Float_0);
                ChunkedArray::Float(taken)
            },
            Dtype::String(_) => {
                let taken: Vec<Option<String>> = Dtype::cast_to_option::<String>(collection);
                assert(options_view(taken@) =~= typed(Kind::String, values)->String_0);
                ChunkedArray::String(taken)
            },
            _ => ChunkedArray::Null(collection.len()),
        }
    }

    /// Puts the rows into the builder and hands out the finished column.
    pub fn build_list_chunked(data: Vec<ChunkedArray>, builder: &mut ListBuilder) -> (list:
        ListChunked)
        requires
            forall|i: int|
                0 <= i < data.len() ==> array_kind(#[trigger] data[i]@) == old(builder).inner,
        ensures
            list@ == (ListChunkedView {
                inner: old(builder).inner,
                rows: arrays_view(old(builder).rows@) + arrays_view(data@),
            }),
            final(builder).inner == old(builder).inner,
            final(builder).capacity == old(builder).capacity,
            final(builder).values_capacity == old(builder).values_capacity,
            final(builder).rows@.len() == 0,
    {
        let ghost before = arrays_view(builder.rows@);
        let ghost rows = arrays_view(data@);
        for s in it: data
            invariant
                it.seq() == data@,
                rows == arrays_view(data@),
                builder.inner == old(builder).inner,
                builder.capacity == old(builder).capacity,
                builder.values_capacity == old(builder).values_capacity,
                forall|i: int|
                    0 <= i < data.len() ==> array_kind(#[trigger] data[i]@) == builder.inner,
                arrays_view(builder.rows@) == before + rows.take(it.index() as int),
        {
            builder.append_series(s);
        }
        assert(rows.take(rows.len() as int) =~= rows);
        builder.finish()
    }

    /// A builder for a column of lists of the kind of `determinant`, with
    /// room for as many rows as there are lists and for the longest of them.
    pub fn get_list_builder(determinant: &Dtype, data: &[Vec<Dtype>]) -> (builder: ListBuilder)
        requires
            !(determinant@ is Array),
        ensures
            builder.inner == kind_of(determinant@),
            builder.capacity == data.len(),
            builder.values_capacity == max_len(lists_view(data@), data.len() as int),
            builder.rows@.len() == 0,
    {
        let capacity: usize = data.len();
        let values_capacity: usize = Self::longest(data);
        ListBuilder { inner: determinant.kind(), capacity, values_capacity, rows: Vec::new() }
    }

    /// The list of every value: the items of an array, and no items for a
    /// value that is no array.
    pub fn unwrap_nested(nested: Vec<Dtype>) -> (lists: Vec<Vec<Dtype>>)
        ensures
            lists_view(lists@) == inner_lists(values_view(nested@)),
    {
        let mut unnested: Vec<Vec<Dtype>> = Vec::new();
        let ghost values = values_view(nested@);
        for sub_array in it: nested
            invariant
                it.seq() == nested@,
                values == values_view(nested@),
                lists_view(unnested@) == inner_lists(values).take(it.index() as int),
        {
            let ghost so_far = lists_view(unnested@);
            let ghost at = it.index();
            if let Dtype::Array(a) = sub_array {
                proof {
                    lemma_array_view(a);
                }
                unnested.push(a);
            } else {
                let none: Vec<Dtype> = Vec::new();
                assert(values_view(none@) =~= Seq::empty());
                unnested.push(none);
            }
            assert(lists_view(unnested@) =~= so_far.push(inner_list(nested@[at]@)));
        }
        unnested
    }

    /// A copy of the first value that is not null, or null.
    pub fn first_present(data: &[Dtype]) -> (first: Dtype)
        ensures
            first@ == determinant(values_view(data@), data.len() as int),
    {
        let mut i: usize = 0;
        while i < data.len()
            invariant
                i <= data.len(),
                determinant(values_view(data@), i as int) is Null,
            decreases data.len() - i,
        {
            if !data[i].is_null() {
                proof {
                    lemma_determinant_stays(values_view(data@), i as int + 1, data.len() as int);
                }
                return data[i].duplicate();
            }
            i += 1;
        }
        Dtype::Null
    }

    /// A copy of the first item that is not null, row by row, or null.
    pub fn first_present_nested(lists: &[Vec<Dtype>]) -> (first: Dtype)
        ensures
            first@ == nested_determinant(lists_view(lists@), lists.len() as int),
    {
        let mut i: usize = 0;
        while i < lists.len()
            invariant
                i <= lists.len(),
                nested_determinant(lists_view(lists@), i as int) is Null,
            decreases lists.len() - i,
        {
            let found: Dtype = Self::first_present(lists[i].as_slice());
            if !found.is_null() {
                proof {
                    lemma_nested_determinant_stays(
                        lists_view(lists@),
                        i as int + 1,
                        lists.len() as int,
                    );
                }
                return found;
            }
            i += 1;
        }
        Dtype::Null
    }

    /// Whether every item of every list is null or of the kind of
    /// `determinant`.
    pub fn all_normal_collections(determinant: &Dtype, lists: &[Vec<Dtype>]) -> (normal: bool)
        ensures
            normal == all_normal(lists_view(lists@), kind_of(determinant@)),
    {
        let mut i: usize = 0;
        while i < lists.len()
            invariant
                i <= lists.len(),
                forall|j: int|
                    0 <= j < i ==> all_of_kind(
                        #[trigger] lists_view(lists@)[j],
                        kind_of(determinant@),
                    ),
            decreases lists.len() - i,
        {
            if !Self::is_normal_collection(determinant, lists[i].as_slice()) {
                assert(!all_of_kind(lists_view(lists@)[i as int], kind_of(determinant@)));
                return false;
            }
            i += 1;
        }
        true
    }

    /// The column of the given values under the given name. The first value
    /// that is not null decides the kind; values of mixed kinds fall back to
    /// text, so that a column is built whatever the values are.
    pub fn build_series(name: String, data: Vec<Dtype>) -> (series: Series)
        ensures
            series@.name == name@,
            (series@.values, series@.fallback) == resolve(values_view(data@)),
            crate::series::values_len(series@.values) == data.len(),
    {
        proof {
            crate::laws::lemma_resolve_keeps_rows(values_view(data@));
        }
        let determining_element: Dtype = Self::first_present(data.as_slice());
        if determining_element.is_array() {
            let ghost values = values_view(data@);
            let unnested_data: Vec<Vec<Dtype>> = Self::unwrap_nested(data);
            let ghost lists = lists_view(unnested_data@);
            let array_determinant: Dtype = Self::first_present_nested(unnested_data.as_slice());
            let normal: bool = !array_determinant.is_array() && Self::all_normal_collections(
                &array_determinant,
                unnested_data.as_slice(),
            );
            if normal {
                let ghost kind = kind_of(array_determinant@);
                let mut list_builder: ListBuilder = Self::get_list_builder(
                    &array_determinant,
                    unnested_data.as_slice(),
                );
                let mut series_vec: Vec<ChunkedArray> = Vec::new();
                for sub_array in it: unnested_data
                    invariant
                        it.seq() == unnested_data@,
                        lists == lists_view(unnested_data@),
                        kind == kind_of(array_determinant@),
                        !(array_determinant@ is Array),
                        arrays_view(series_vec@) == typed_rows(kind, lists).take(
                            it.index() as int,
                        ),
                {
                    let ghost at = it.index();
                    let ghost so_far = arrays_view(series_vec@);
                    let row: ChunkedArray = Self::collection_to_series(
                        &array_determinant,
                        sub_array,
                    );
                    series_vec.push(row);
                    assert(arrays_view(series_vec@) =~= so_far.push(typed(kind, lists[at])));
                }
                assert(typed_rows(kind, lists).take(lists.len() as int) =~= typed_rows(
                    kind,
                    lists,
                ));
                assert forall|i: int| 0 <= i < series_vec.len() implies array_kind(
                    #[trigger] series_vec[i]@,
                ) == list_builder.inner by {
                    assert(series_vec[i]@ == arrays_view(series_vec@)[i]);
                }
                let list: ListChunked = Self::build_list_chunked(series_vec, &mut list_builder);
                Series { name, values: Values::List(list), fallback: false }
            } else {
                Self::stringify_nested_collection(name, unnested_data)
            }
        } else {
            let normal: bool = Self::is_normal_collection(&determining_element, data.as_slice());
            if normal {
                let array: ChunkedArray = Self::collection_to_series(&determining_element, data);
                Series { name, values: Values::Flat(array), fallback: false }
            } else {
                let array: ChunkedArray = Self::stringify_collection(data);
                Series { name, values: Values::Flat(array), fallback: true }
            }
        }
    }
}

impl DataBase {
    /// Builds the columns of one table and takes them into the database, in
    /// the place of the table that the name had, if it had one. Columns that
    /// make no table would leave the database as it was but for a note; the
    /// columns gathered from rows always make one, so no note is added.
    pub fn build_df(&mut self, name: String, data: &TableData)
        ensures
            final(self)@ == with_table(old(self)@, name@, data@),
            final(self)@.diagnostics == old(self)@.diagnostics,
            aligned(old(self)@) ==> aligned(final(self)@),
    {
        proof {
            crate::laws::lemma_table_columns_make_a_table(data@);
        }
        let columns: Vec<(String, Vec<Dtype>)> = data.iter_columns();
        let ghost gathered = gather(data@);
        let ghost wanted = table_columns(data@);
        let mut df_data: Vec<Series> = Vec::new();
        for column in it: columns
            invariant
                it.seq() == columns@,
                named_columns_view(columns@) == gathered,
                gathered == gather(data@),
                wanted == table_columns(data@),
                columns_view(df_data@) == wanted.take(it.index() as int),
        {
            let ghost at = it.index();
            let ghost so_far = columns_view(df_data@);
            let s: Series = Self::build_series(column.0, column.1);
            df_data.push(s);
            assert(columns_view(df_data@) =~= so_far.push(wanted[at]));
        }
        assert(wanted.take(wanted.len() as int) =~= wanted);
        proof {
            lemma_index_of(old(self)@.schemas, name@);
        }
        match DataFrame::new(df_data) {
            Ok(df) => {
                let schema: Schema = df.schema();
                let placed: (usize, Option<Schema>) = schemas_insert_full(
                    &mut self.schemas,
                    name,
                    schema,
                );
                if placed.0 < self.tables.len() {
                    self.tables.set(placed.0, df);
                    assert(self@.tables =~= old(self)@.tables.update(placed.0 as int, wanted));
                } else {
                    self.tables.push(df);
                    assert(self@.tables =~= old(self)@.tables.push(wanted));
                }
            },
            Err(e) => {
                self.diagnostics.push(Diagnostic { table: name, error: e });
                assert(self@.diagnostics =~= old(self)@.diagnostics.push((name@, e)));
            },
        }
    }

    /// The database of a table set: every table built in turn. No table is
    /// left out: the database has the tables of the set under their names,
    /// in the same order, each with its schema.
    pub fn from_norm(norm: Normifier) -> (database: DataBase)
        ensures
            database@ == build_columns(norm@.tables),
            aligned(database@),
            database@.diagnostics.len() == 0,
            database@.tables.len() == norm@.tables.len(),
            forall|t: int|
                0 <= t < norm@.tables.len() ==> (#[trigger] database@.schemas[t]).0
                    == norm@.tables[t].0 && database@.tables[t] == table_columns(
                    norm@.tables[t].1,
                ),
    {
        let mut this_db: DataBase = DataBase::new();
        let n: usize = tables_len(&norm.tables);
        let mut i: usize = 0;
        while i < n
            invariant
                i <= n,
                n == norm@.tables.len(),
                forall|t: int|
                    0 <= t < i ==> index_of(norm@.tables, (#[trigger] norm@.tables[t]).0)
                        == Some(t),
                this_db@ == with_tables(no_tables(), norm@.tables, i as int),
            decreases n - i,
        {
            match tables_get_index(&norm.tables, i) {
                Some(entry) => {
                    this_db.build_df(entry.0.clone(), entry.1);
                },
                None => {},
            }
            i += 1;
        }
        proof {
            crate::laws::lemma_build_columns_is_total(norm@.tables);
        }
        this_db
    }
}

/// Once a value that is not null was met, it stays the determinant.
pub proof fn lemma_determinant_stays(values: Seq<DtypeView>, n: int, m: int)
    requires
        0 <= n <= m <= values.len(),
        !(determinant(values, n) is Null),
    ensures
        determinant(values, m) == determinant(values, n),
    decreases m - n,
{
    if n < m {
        lemma_determinant_stays(values, n, m - 1);
    }
}

/// Once an item that is not null was met, it stays the determinant.
pub proof fn lemma_nested_determinant_stays(lists: Seq<Seq<DtypeView>>, n: int, m: int)
    requires
        0 <= n <= m <= lists.len(),
        !(nested_determinant(lists, n) is Null),
    ensures
        nested_determinant(lists, m) == nested_determinant(lists, n),
    decreases m - n,
{
    if n < m {
        lemma_nested_determinant_stays(lists, n, m - 1);
    }
}

} // verus!
