//! Taking a document apart into tables.

use indexmap::IndexMap;
use vstd::prelude::*;
use crate::columns::absorb;
use crate::columns::cell;
use crate::columns::column_names;
use crate::columns::column_values;
use crate::columns::gather;
use crate::dtype::Dtype;
use crate::dtype::DtypeView;
use crate::dtype::values_view;
use crate::error::NormalizationError;
use crate::ids::fresh_id;
use crate::json::fields_view;
use crate::json::items_view;
use crate::json::Json;
use crate::json::JsonField;
use crate::json::JsonView;
use crate::json::lemma_array_view;
use crate::json::lemma_object_view;
use crate::model::all_objects;
use crate::model::child_table;
use crate::model::decompose_fields;
use crate::model::decompose_item;
use crate::model::decompose_items;
use crate::model::decompose_object;
use crate::model::decompose_root;
use crate::model::decompose_value;
use crate::model::demand_fields;
use crate::model::demand_item;
use crate::model::demand_items;
use crate::model::demand_object;
use crate::model::demand_root;
use crate::model::demand_value;
use crate::model::drawn;
use crate::model::fields_error;
use crate::model::foreign_key;
use crate::model::id_key;
use crate::model::item_error;
use crate::model::items_error;
use crate::model::link;
use crate::model::normalize;
use crate::model::object_error;
use crate::model::ParentView;
use crate::model::root_error;
use crate::model::root_table;
use crate::model::some_object;
use crate::model::start_row;
use crate::model::value_error;
use crate::ordered::lookup;
use crate::ordered::put;
use crate::ordered::Row;
use crate::ordered::row_fields;
use crate::ordered::row_get;
use crate::ordered::row_get_index;
use crate::ordered::row_insert;
use crate::ordered::row_len;
use crate::ordered::row_new;
use crate::ordered::RowView;
use crate::ordered::table_entries;
use crate::ordered::tables_get_index;
use crate::ordered::tables_len;
use crate::ordered::tables_new;
use crate::ordered::tables_slot;
use crate::ordered::TablesView;

verus! {

/// The rows of one table. No schema is fixed: rows may differ in their
/// fields.
#[derive(Debug, PartialEq)]
pub struct TableData {
    pub records: Vec<Row>,
}

impl View for TableData {
    type V = Seq<RowView>;

    open spec fn view(&self) -> Seq<RowView> {
        Seq::new(self.records@.len(), |i: int| row_fields(self.records@[i]))
    }
}

impl TableData {
    pub fn new() -> (table: TableData)
        ensures
            table@ == Seq::<RowView>::empty(),
    {
        let table = TableData { records: Vec::new() };
        table
    }

    /// Puts a finished row at the end of the table.
    pub fn append_row(&mut self, row: Row)
        ensures
            final(self)@ == old(self)@.push(row_fields(row)),
    {
        self.records.push(row);
    }
}

/// A link from a table to the table made of what was nested under one of its
/// fields.
#[derive(Debug, PartialEq)]
pub struct Relationship {
    pub parent: Option<String>,
    pub child: Option<String>,
    pub fk_field: Option<String>,
}

pub struct RelationshipView {
    pub parent: Option<Seq<char>>,
    pub child: Option<Seq<char>>,
    pub fk_field: Option<Seq<char>>,
}

pub open spec fn name_view(name: Option<String>) -> Option<Seq<char>> {
    match name {
        Some(s) => Some(s@),
        None => None,
    }
}

impl View for Relationship {
    type V = RelationshipView;

    open spec fn view(&self) -> RelationshipView {
        RelationshipView {
            parent: name_view(self.parent),
            child: name_view(self.child),
            fk_field: name_view(self.fk_field),
        }
    }
}

/// The table set under construction, with the links found so far.
#[derive(Debug, PartialEq)]
pub struct Normifier {
    pub tables: IndexMap<String, TableData>,
    pub relationships: Vec<Relationship>,
}

pub struct NormifierView {
    pub tables: TablesView,
    pub relationships: Seq<RelationshipView>,
}

impl View for Normifier {
    type V = NormifierView;

    open spec fn view(&self) -> NormifierView {
        NormifierView {
            tables: table_entries(self.tables),
            relationships: Seq::new(
                self.relationships@.len(),
                |i: int| self.relationships@[i]@,
            ),
        }
    }
}

/// The table set after `row` is put at the end of the table `name`, which is
/// made, last among the tables, where it is not there yet.
pub open spec fn add_record(tables: TablesView, name: Seq<char>, row: RowView) -> TablesView {
    let rows = match lookup(tables, name) {
        Some(rows) => rows,
        None => Seq::empty(),
    };
    put(tables, name, rows.push(row))
}

impl Normifier {
    pub fn new() -> (context: Normifier)
        ensures
            context@ == (NormifierView { tables: Seq::empty(), relationships: Seq::empty() }),
    {
        let context = Normifier { tables: tables_new(), relationships: Vec::new() };
        assert(context@.relationships =~= Seq::empty());
        context
    }

    /// Puts a finished row into its table, making the table on first use.
    pub fn add_record(&mut self, table_name: String, record: Row)
        ensures
            final(self)@.tables == add_record(old(self)@.tables, table_name@, row_fields(record)),
            final(self)@.relationships == old(self)@.relationships,
    {
        let table = tables_slot(&mut self.tables, table_name);
        table.append_row(record);
    }
}

/// The parent a row hangs under: both the table and the id must be given.
pub open spec fn parent_of(table: Option<&String>, id: Option<&String>) -> ParentView {
    match (table, id) {
        (Some(t), Some(i)) => Some((t@, i@)),
        _ => None,
    }
}

/// The name of the field that holds the id of a row of `table`.
pub fn foreign_key_name(table: &String) -> (name: String)
    ensures
        name@ == foreign_key(table@),
{
    proof {
        reveal_strlit("_id");
    }
    let mut name: String = table.clone();
    name.append("_id");
    name
}

/// The name of the table made of what is nested under the field `key`.
pub fn child_table_name(key: &String) -> (name: String)
    ensures
        name@ == child_table(key@),
{
    proof {
        reveal_strlit("_table");
    }
    let mut name: String = key.clone();
    name.append("_table");
    name
}

/// A row as it starts, for an id that was drawn for it.
pub fn new_record(id: &String, parent_table: Option<&String>, parent_id: Option<&String>) -> (row:
    Row)
    ensures
        row_fields(row) == start_row(id@, parent_of(parent_table, parent_id)),
{
    proof {
        reveal_strlit("id");
    }
    let mut row: Row = row_new();
    let key: String = String::from_str("id");
    assert(key@ =~= id_key());
    row_insert(&mut row, key, Dtype::String(id.clone()));
    if let (Some(table), Some(pid)) = (parent_table, parent_id) {
        let fk: String = foreign_key_name(table);
        row_insert(&mut row, fk, Dtype::String(pid.clone()));
    }
    row
}

/// Whether the items are all objects, and whether one of them is.
pub fn scan_items(items: &Vec<Json>) -> (found: (bool, bool))
    ensures
        found.0 == all_objects(items_view(items@), items.len() as int),
        found.1 == some_object(items_view(items@), items.len() as int),
{
    let mut all: bool = true;
    let mut some: bool = false;
    let mut i: usize = 0;
    while i < items.len()
        invariant
            i <= items.len(),
            all == all_objects(items_view(items@), i as int),
            some == some_object(items_view(items@), i as int),
        decreases items.len() - i,
    {
        if items[i].is_object() {
            some = true;
        } else {
            all = false;
        }
        i += 1;
    }
    (all, some)
}

/// A fault among the first `n` fields stays the fault of any longer run.
pub proof fn lemma_fields_error_stays(fields: crate::model::FieldsView, n: int, m: int)
    requires
        0 <= n <= m <= fields.len(),
        fields_error(fields, n) is Some,
    ensures
        fields_error(fields, m) == fields_error(fields, n),
    decreases m - n,
{
    if n < m {
        lemma_fields_error_stays(fields, n, m - 1);
    }
}

/// A fault among the first `n` items stays the fault of any longer run.
pub proof fn lemma_items_error_stays(items: Seq<JsonView>, n: int, m: int)
    requires
        0 <= n <= m <= items.len(),
        items_error(items, n) is Some,
    ensures
        items_error(items, m) == items_error(items, n),
    decreases m - n,
{
    if n < m {
        lemma_items_error_stays(items, n, m - 1);
    }
}

impl Normifier {
    /// Notes that what is nested under `key` in a row of `table` makes a
    /// table of its own, and names that table.
    pub fn link(&mut self, table: &String, key: &String) -> (child: String)
        ensures
            child@ == child_table(key@),
            final(self)@ == link(old(self)@, table@, key@),
    {
        let child: String = child_table_name(key);
        let relationship = Relationship {
            parent: Some(table.clone()),
            child: Some(child.clone()),
            fk_field: Some(foreign_key_name(table)),
        };
        self.relationships.push(relationship);
        assert(self@.relationships =~= link(old(self)@, table@, key@).relationships);
        child
    }

    /// Takes an object apart: what is nested in it goes to child tables,
    /// everything else into one new row of the table `t_name`, which points
    /// back to the given parent row.
    pub fn parse_object(
        &mut self,
        t_name: &String,
        obj: &Vec<JsonField>,
        p_id: Option<&String>,
        pt_name: Option<&String>,
    ) -> (done: Result<(), NormalizationError>)
        ensures
            done is Err <==> object_error(fields_view(obj@)) is Some,
            done matches Err(e) ==> object_error(fields_view(obj@)) == Some(e),
            done is Ok ==> exists|ids: Seq<Seq<char>>|
                #[trigger] drawn(ids, demand_object(fields_view(obj@))) && final(self)@
                    == decompose_object(
                    old(self)@,
                    t_name@,
                    fields_view(obj@),
                    parent_of(pt_name, p_id),
                    ids,
                ),
        decreases obj,
    {
        let this_id: String = fresh_id();
        let mut this_record: Row = new_record(&this_id, pt_name, p_id);
        let ghost fields = fields_view(obj@);
        let ghost start = self@;
        let ghost row_start = row_fields(this_record);
        let ghost mut used: Seq<Seq<char>> = Seq::empty();
        let mut i: usize = 0;
        while i < obj.len()
            invariant
                i <= obj.len(),
                fields == fields_view(obj@),
                drawn(used, demand_fields(fields, i as int)),
                fields_error(fields, i as int) is None,
                (self@, row_fields(this_record)) == decompose_fields(
                    start,
                    t_name@,
                    this_id@,
                    fields,
                    i as int,
                    row_start,
                    used,
                ),
            decreases obj.len() - i,
        {
            let field: &JsonField = &obj[i];
            let ghost before = self@;
            let ghost row_before = row_fields(this_record);
            let ghost step: Seq<Seq<char>>;
            match &field.value {
                Json::Object(child) => {
                    proof {
                        lemma_object_view(*child);
                    }
                    let child_table: String = self.link(t_name, &field.key);
                    let ghost linked = self@;
                    match self.parse_object(&child_table, child, Some(&this_id), Some(t_name)) {
                        Err(e) => {
                            proof {
                                assert(value_error(field.value@) == object_error(
                                    fields_view(child@),
                                ));
                                lemma_fields_error_stays(fields, i as int + 1, obj.len() as int);
                            }
                            return Err(e);
                        },
                        Ok(()) => {
                            proof {
                                step = choose|ids: Seq<Seq<char>>|
                                    #[trigger] drawn(ids, demand_object(fields_view(child@)))
                                        && self@ == decompose_object(
                                        linked,
                                        child_table@,
                                        fields_view(child@),
                                        Some((t_name@, this_id@)),
                                        ids,
                                    );
                                assert(demand_value(field.value@) == demand_object(
                                    fields_view(child@),
                                ));
                            }
                        },
                    }
                },
                Json::Array(arr) => {
                    proof {
                        lemma_array_view(*arr);
                    }
                    let found: (bool, bool) = scan_items(arr);
                    if found.0 {
                        let child_table: String = self.link(t_name, &field.key);
                        let ghost linked = self@;
                        match self.parse_object_array(
                            &child_table,
                            arr,
                            Some(t_name),
                            Some(&this_id),
                        ) {
                            Err(e) => {
                                proof {
                                    lemma_fields_error_stays(
                                        fields,
                                        i as int + 1,
                                        obj.len() as int,
                                    );
                                }
                                return Err(e);
                            },
                            Ok(()) => {
                                proof {
                                    step = choose|ids: Seq<Seq<char>>|
                                        #[trigger] drawn(
                                            ids,
                                            demand_items(items_view(arr@), arr.len() as int),
                                        ) && self@ == decompose_items(
                                            linked,
                                            child_table@,
                                            items_view(arr@),
                                            arr.len() as int,
                                            Some((t_name@, this_id@)),
                                            ids,
                                        );
                                    assert(demand_value(field.value@) == demand_items(
                                        items_view(arr@),
                                        arr.len() as int,
                                    ));
                                }
                            },
                        }
                    } else if found.1 {
                        proof {
                            lemma_fields_error_stays(fields, i as int + 1, obj.len() as int);
                        }
                        return Err(NormalizationError::InputShape);
                    } else {
                        match Dtype::from_value(&field.value) {
                            Err(e) => {
                                proof {
                                    lemma_fields_error_stays(
                                        fields,
                                        i as int + 1,
                                        obj.len() as int,
                                    );
                                }
                                return Err(e);
                            },
                            Ok(cell) => {
                                row_insert(&mut this_record, field.key.clone(), cell);
                                proof {
                                    step = Seq::empty();
                                    assert(demand_value(field.value@) == 0);
                                }
                            },
                        }
                    }
                },
                _ => {
                    match Dtype::from_value(&field.value) {
                        Err(e) => {
                            return Err(e);
                        },
                        Ok(cell) => {
                            row_insert(&mut this_record, field.key.clone(), cell);
                            proof {
                                step = Seq::empty();
                                assert(demand_value(field.value@) == 0);
                            }
                        },
                    }
                },
            }
            proof {
                let grown = used + step;
                assert(grown.take(grown.len() - step.len()) =~= used);
                assert(grown.skip(grown.len() - step.len()) =~= step);
                assert(decompose_value(
                    before,
                    row_before,
                    t_name@,
                    this_id@,
                    fields[i as int].0,
                    fields[i as int].1,
                    step,
                ) == (self@, row_fields(this_record)));
                used = grown;
            }
            i += 1;
        }
        self.add_record(t_name.clone(), this_record);
        proof {
            let ids = seq![this_id@] + used;
            assert(ids.skip(1) =~= used);
            assert(drawn(ids, demand_object(fields)));
        }
        Ok(())
    }

    /// Takes the objects of an array apart, each into one row of the table
    /// `t_name` under the same parent row. An item that is no object is
    /// refused.
    pub fn parse_object_array(
        &mut self,
        t_name: &String,
        arr: &Vec<Json>,
        p_name: Option<&String>,
        row_id: Option<&String>,
    ) -> (done: Result<(), NormalizationError>)
        ensures
            done is Err <==> items_error(items_view(arr@), arr.len() as int) is Some,
            done matches Err(e) ==> items_error(items_view(arr@), arr.len() as int) == Some(e),
            done is Ok ==> exists|ids: Seq<Seq<char>>|
                #[trigger] drawn(ids, demand_items(items_view(arr@), arr.len() as int))
                    && final(self)@ == decompose_items(
                    old(self)@,
                    t_name@,
                    items_view(arr@),
                    arr.len() as int,
                    parent_of(p_name, row_id),
                    ids,
                ),
        decreases arr,
    {
        let ghost items = items_view(arr@);
        let ghost start = self@;
        let ghost mut used: Seq<Seq<char>> = Seq::empty();
        let mut i: usize = 0;
        while i < arr.len()
            invariant
                i <= arr.len(),
                items == items_view(arr@),
                drawn(used, demand_items(items, i as int)),
                items_error(items, i as int) is None,
                self@ == decompose_items(
                    start,
                    t_name@,
                    items,
                    i as int,
                    parent_of(p_name, row_id),
                    used,
                ),
            decreases arr.len() - i,
        {
            let ghost before = self@;
            let ghost step: Seq<Seq<char>>;
            match &arr[i] {
                Json::Object(fields) => {
                    proof {
                        lemma_object_view(*fields);
                    }
                    match self.parse_object(t_name, fields, row_id, p_name) {
                        Err(e) => {
                            proof {
                                assert(item_error(items[i as int]) == object_error(
                                    fields_view(fields@),
                                ));
                                lemma_items_error_stays(items, i as int + 1, arr.len() as int);
                            }
                            return Err(e);
                        },
                        Ok(()) => {
                            proof {
                                step = choose|ids: Seq<Seq<char>>|
                                    #[trigger] drawn(ids, demand_object(fields_view(fields@)))
                                        && self@ == decompose_object(
                                        before,
                                        t_name@,
                                        fields_view(fields@),
                                        parent_of(p_name, row_id),
                                        ids,
                                    );
                                assert(demand_item(items[i as int]) == demand_object(
                                    fields_view(fields@),
                                ));
                                assert(decompose_item(
                                    before,
                                    t_name@,
                                    items[i as int],
                                    parent_of(p_name, row_id),
                                    step,
                                ) == self@);
                            }
                        },
                    }
                },
                _ => {
                    proof {
                        lemma_items_error_stays(items, i as int + 1, arr.len() as int);
                    }
                    return Err(NormalizationError::InputShape);
                },
            }
            proof {
                let grown = used + step;
                assert(grown.take(grown.len() - step.len()) =~= used);
                assert(grown.skip(grown.len() - step.len()) =~= step);
                used = grown;
            }
            i += 1;
        }
        Ok(())
    }
}

impl Normifier {
    /// Takes the objects of an array apart. Without a key they become rows
    /// of the table `table_name` that hang under nothing. With a key they
    /// are what is nested under that field of a row of `table_name`: the link
    /// is noted, and they become rows of the child table under that row.
    pub fn parse_objects_array(
        &mut self,
        table_name: &String,
        key: Option<String>,
        row_id: Option<&String>,
        arr: &Vec<Json>,
    ) -> (done: Result<(), NormalizationError>)
        ensures
            done is Err <==> items_error(items_view(arr@), arr.len() as int) is Some,
            done matches Err(e) ==> items_error(items_view(arr@), arr.len() as int) == Some(e),
            done is Ok ==> exists|ids: Seq<Seq<char>>|
                #[trigger] drawn(ids, demand_items(items_view(arr@), arr.len() as int))
                    && final(self)@ == match key {
                    Some(k) => decompose_items(
                        link(old(self)@, table_name@, k@),
                        child_table(k@),
                        items_view(arr@),
                        arr.len() as int,
                        parent_of(Some(table_name), row_id),
                        ids,
                    ),
                    None => decompose_items(
                        old(self)@,
                        table_name@,
                        items_view(arr@),
                        arr.len() as int,
                        None,
                        ids,
                    ),
                },
    {
        match key {
            None => {
                let done = self.parse_object_array(table_name, arr, None, None);
                done
            },
            Some(k) => {
                let new_table_name: String = self.link(table_name, &k);
                let done = self.parse_object_array(&new_table_name, arr, Some(table_name), row_id);
                done
            },
        }
    }
}

impl Normifier {
    /// Takes a whole document apart into this table set, under the given
    /// name for the table of its own rows.
    pub fn process_root(&mut self, root_value: &Json, root_name: String) -> (done: Result<
        (),
        NormalizationError,
    >)
        ensures
            done is Err <==> root_error(root_value@) is Some,
            done matches Err(e) ==> root_error(root_value@) == Some(e),
            done is Ok ==> exists|ids: Seq<Seq<char>>|
                #[trigger] drawn(ids, demand_root(root_value@)) && final(self)@ == decompose_root(
                    old(self)@,
                    root_value@,
                    root_name@,
                    ids,
                ),
    {
        match root_value {
            Json::Object(root_obj) => {
                proof {
                    lemma_object_view(*root_obj);
                }
                let done = self.parse_object(&root_name, root_obj, None, None);
                proof {
                    if done is Ok {
                        let ids = choose|ids: Seq<Seq<char>>|
                            #[trigger] drawn(ids, demand_object(fields_view(root_obj@)))
                                && self@ == decompose_object(
                                old(self)@,
                                root_name@,
                                fields_view(root_obj@),
                                parent_of(None, None),
                                ids,
                            );
                        assert(drawn(ids, demand_root(root_value@)));
                    }
                }
                done
            },
            Json::Array(arr) => {
                proof {
                    lemma_array_view(*arr);
                }
                let done = self.parse_object_array(&root_name, arr, None, None);
                proof {
                    if done is Ok {
                        let ids = choose|ids: Seq<Seq<char>>|
                            #[trigger] drawn(ids, demand_items(items_view(arr@), arr.len() as int))
                                && self@ == decompose_items(
                                old(self)@,
                                root_name@,
                                items_view(arr@),
                                arr.len() as int,
                                parent_of(None, None),
                                ids,
                            );
                        assert(drawn(ids, demand_root(root_value@)));
                    }
                }
                done
            },
            _ => Err(NormalizationError::InputShape),
        }
    }

    /// The table set of a document, with `root` as the table of the
    /// document's own rows. A document that is refused leaves nothing behind.
    pub fn from_value(payload: &Json) -> (tables: Result<Normifier, NormalizationError>)
        ensures
            tables is Err <==> root_error(payload@) is Some,
            tables matches Err(e) ==> root_error(payload@) == Some(e),
            tables matches Ok(context) ==> exists|ids: Seq<Seq<char>>|
                #[trigger] drawn(ids, demand_root(payload@)) && context@ == normalize(
                    payload@,
                    root_table(),
                    ids,
                ),
    {
        proof {
            reveal_strlit("root");
        }
        let root_name: String = String::from_str("root");
        assert(root_name@ =~= root_table());
        let mut norm_context: Normifier = Normifier::new();
        match norm_context.process_root(payload, root_name) {
            Ok(()) => Ok(norm_context),
            Err(e) => Err(e),
        }
    }
}

/// Names, each by its view.
pub open spec fn names_view(names: Seq<String>) -> Seq<Seq<char>> {
    Seq::new(names.len(), |i: int| names[i]@)
}

/// Named columns, each by its view.
pub open spec fn named_columns_view(columns: Seq<(String, Vec<Dtype>)>) -> Seq<
    (Seq<char>, Seq<DtypeView>),
> {
    Seq::new(columns.len(), |i: int| (columns[i].0@, values_view(columns[i].1@)))
}

/// Whether a name is among the names.
pub fn contains_name(names: &Vec<String>, name: &String) -> (found: bool)
    ensures
        found == names_view(names@).contains(name@),
{
    let mut i: usize = 0;
    while i < names.len()
        invariant
            i <= names.len(),
            forall|j: int| 0 <= j < i ==> names_view(names@)[j] != name@,
        decreases names.len() - i,
    {
        if names[i] == *name {
            assert(names_view(names@)[i as int] == name@);
            return true;
        }
        i += 1;
    }
    false
}

impl TableData {
    /// The field names met in any row, each once, in the order in which they
    /// were first met.
    pub fn column_names(&self) -> (names: Vec<String>)
        ensures
            names_view(names@) == column_names(self@, self@.len() as int),
    {
        let mut names: Vec<String> = Vec::new();
        let mut r: usize = 0;
        while r < self.records.len()
            invariant
                r <= self.records.len(),
                names_view(names@) == column_names(self@, r as int),
            decreases self.records.len() - r,
        {
            let row: &Row = &self.records[r];
            let ghost fields = row_fields(*row);
            let n: usize = row_len(row);
            let mut k: usize = 0;
            while k < n
                invariant
                    k <= n,
                    n == fields.len(),
                    fields == row_fields(*row),
                    names_view(names@) == absorb(column_names(self@, r as int), fields, k as int),
                decreases n - k,
            {
                match row_get_index(row, k) {
                    Some(entry) => {
                        if !contains_name(&names, entry.0) {
                            names.push(entry.0.clone());
                        }
                    },
                    None => {},
                }
                k += 1;
            }
            r += 1;
        }
        names
    }

    /// The values of all rows under one name, null where a row has no such
    /// field.
    pub fn column(&self, name: &String) -> (values: Vec<Dtype>)
        ensures
            values_view(values@) == column_values(self@, name@),
    {
        let mut values: Vec<Dtype> = Vec::new();
        let mut r: usize = 0;
        while r < self.records.len()
            invariant
                r <= self.records.len(),
                values.len() == r,
                forall|j: int| 0 <= j < r ==> (#[trigger] values[j])@ == cell(self@[j], name@),
            decreases self.records.len() - r,
        {
            match row_get(&self.records[r], name.as_str()) {
                Some(value) => values.push(value.duplicate()),
                None => values.push(Dtype::Null),
            }
            r += 1;
        }
        values
    }

    /// The table as columns, in the order in which the field names were first
    /// met: every column has one value for each row.
    pub fn iter_columns(&self) -> (columns: Vec<(String, Vec<Dtype>)>)
        ensures
            named_columns_view(columns@) == gather(self@),
    {
        let names: Vec<String> = self.column_names();
        let mut columns: Vec<(String, Vec<Dtype>)> = Vec::new();
        let mut c: usize = 0;
        while c < names.len()
            invariant
                c <= names.len(),
                columns.len() == c,
                names_view(names@) == column_names(self@, self@.len() as int),
                forall|j: int|
                    0 <= j < c ==> ((#[trigger] columns[j]).0@, values_view(columns[j].1@)) == (
                        names_view(names@)[j],
                        column_values(self@, names_view(names@)[j]),
                    ),
            decreases names.len() - c,
        {
            let values: Vec<Dtype> = self.column(&names[c]);
            columns.push((names[c].clone(), values));
            c += 1;
        }
        columns
    }

    /// Every cell of the table, column by column.
    pub fn iter_items(&self) -> (items: Vec<Dtype>)
        ensures
            values_view(items@) == flatten(gather(self@), gather(self@).len() as int),
    {
        let columns: Vec<(String, Vec<Dtype>)> = self.iter_columns();
        let mut items: Vec<Dtype> = Vec::new();
        let mut c: usize = 0;
        while c < columns.len()
            invariant
                c <= columns.len(),
                named_columns_view(columns@) == gather(self@),
                values_view(items@) == flatten(gather(self@), c as int),
            decreases columns.len() - c,
        {
            let ghost before = values_view(items@);
            let column: &Vec<Dtype> = &columns[c].1;
            let mut r: usize = 0;
            while r < column.len()
                invariant
                    r <= column.len(),
                    values_view(items@) == before + values_view(column@).take(r as int),
                decreases column.len() - r,
            {
                let ghost so_far = values_view(items@);
                items.push(column[r].duplicate());
                assert(values_view(items@) =~= so_far.push(column[r as int]@));
                r += 1;
            }
            c += 1;
        }
        items
    }
}

/// The values of the first `n` columns, one column after the other.
pub open spec fn flatten(columns: Seq<(Seq<char>, Seq<DtypeView>)>, n: int) -> Seq<DtypeView>
    decreases n,
{
    if n <= 0 || n > columns.len() {
        Seq::empty()
    } else {
        flatten(columns, n - 1) + columns[n - 1].1
    }
}

impl Normifier {
    /// The tables by name, in the order in which they were first used.
    pub fn iter_tables<'a>(&'a self) -> (tables: Vec<(&'a String, &'a TableData)>)
        ensures
            tables.len() == self@.tables.len(),
            forall|i: int|
                0 <= i < tables.len() ==> ((#[trigger] tables[i]).0@, tables[i].1@)
                    == self@.tables[i],
    {
        let n: usize = tables_len(&self.tables);
        let mut tables: Vec<(&'a String, &'a TableData)> = Vec::new();
        let mut i: usize = 0;
        while i < n
            invariant
                i <= n,
                n == self@.tables.len(),
                tables.len() == i,
                forall|j: int|
                    0 <= j < i ==> ((#[trigger] tables[j]).0@, tables[j].1@) == self@.tables[j],
            decreases n - i,
        {
            match tables_get_index(&self.tables, i) {
                Some(entry) => tables.push(entry),
                None => {},
            }
            i += 1;
        }
        tables
    }
}

} // verus!
