use indexmap::IndexMap;
use normify::dtype::Dtype;
use normify::error::NormalizationError;
use normify::from_value_with_name;
use normify::json::Json;
use normify::json::JsonField;
use normify::json::JsonNumber;
use normify::normalizer::child_table_name;
use normify::normalizer::contains_name;
use normify::normalizer::foreign_key_name;
use normify::normalizer::new_record;
use normify::normalizer::scan_items;
use normify::normalizer::Normifier;
use normify::normalizer::Relationship;
use normify::normalizer::TableData;

fn member(key: &str, value: Json) -> JsonField {
    JsonField { key: key.to_string(), value }
}

fn unsigned(n: u64) -> Json {
    Json::Number(JsonNumber::unsigned(n))
}

fn string(s: &str) -> Json {
    Json::String(s.to_string())
}

fn row_id(row: &IndexMap<String, Dtype>) -> String {
    match row.get("id") {
        Some(Dtype::String(id)) => id.clone(),
        other => panic!("row without a text id: {:?}", other),
    }
}

fn keys(row: &IndexMap<String, Dtype>) -> Vec<String> {
    row.keys().cloned().collect()
}

fn all_ids(tables: &Normifier) -> Vec<String> {
    let mut ids = Vec::new();
    for (_, table) in tables.iter_tables() {
        for row in &table.records {
            ids.push(row_id(row));
        }
    }
    ids
}

fn library() -> Json {
    Json::Object(vec![
        member("name", string("city library")),
        member(
            "address",
            Json::Object(vec![member("street", string("Main")), member("no", unsigned(5))]),
        ),
        member(
            "books",
            Json::Array(vec![
                Json::Object(vec![
                    member("title", string("A")),
                    member(
                        "authors",
                        Json::Array(vec![
                            Json::Object(vec![member("name", string("X"))]),
                            Json::Object(vec![member("name", string("Y"))]),
                        ]),
                    ),
                ]),
                Json::Object(vec![member("title", string("B")), member("pages", unsigned(10))]),
            ]),
        ),
        member("open", Json::Bool(true)),
    ])
}

#[test]
fn names_of_child_tables_and_foreign_keys() {
    assert_eq!(child_table_name(&"books".to_string()), "books_table");
    assert_eq!(child_table_name(&"".to_string()), "_table");
    assert_eq!(foreign_key_name(&"root".to_string()), "root_id");
    assert_eq!(foreign_key_name(&"books_table".to_string()), "books_table_id");
}

#[test]
fn a_row_starts_with_its_id_and_its_parent() {
    let id = "row-1".to_string();
    let alone = new_record(&id, None, None);
    assert_eq!(keys(&alone), vec!["id"]);
    assert_eq!(alone.get("id"), Some(&Dtype::String("row-1".to_string())));

    let table = "root".to_string();
    let parent = "row-0".to_string();
    let linked = new_record(&id, Some(&table), Some(&parent));
    assert_eq!(keys(&linked), vec!["id", "root_id"]);
    assert_eq!(linked.get("root_id"), Some(&Dtype::String("row-0".to_string())));

    let half = new_record(&id, Some(&table), None);
    assert_eq!(keys(&half), vec!["id"]);
    let other_half = new_record(&id, None, Some(&parent));
    assert_eq!(keys(&other_half), vec!["id"]);
}

#[test]
fn scan_items_tells_all_from_some() {
    assert_eq!(scan_items(&vec![]), (true, false));
    assert_eq!(scan_items(&vec![Json::Object(vec![]), Json::Object(vec![])]), (true, true));
    assert_eq!(scan_items(&vec![Json::Object(vec![]), Json::Null]), (false, true));
    assert_eq!(scan_items(&vec![Json::Null, Json::Bool(true)]), (false, false));
}

#[test]
fn contains_name_compares_by_content() {
    let names = vec!["a".to_string(), "b".to_string()];
    assert!(contains_name(&names, &"b".to_string()));
    assert!(!contains_name(&names, &"c".to_string()));
    assert!(!contains_name(&vec![], &"a".to_string()));
}

#[test]
fn nested_document_is_laid_out_in_tables() {
    let tables = Normifier::from_value(&library()).expect("the document is well shaped");
    let names: Vec<&str> = tables.tables.keys().map(|k| k.as_str()).collect();
    assert_eq!(names, vec!["address_table", "authors_table", "books_table", "root"]);

    let root = &tables.tables["root"].records;
    assert_eq!(root.len(), 1);
    assert_eq!(keys(&root[0]), vec!["id", "name", "open"]);
    let root_id = row_id(&root[0]);

    let address = &tables.tables["address_table"].records;
    assert_eq!(address.len(), 1);
    assert_eq!(keys(&address[0]), vec!["id", "root_id", "street", "no"]);
    assert_eq!(address[0].get("root_id"), Some(&Dtype::String(root_id.clone())));
    assert_eq!(address[0].get("no"), Some(&Dtype::UInt(5)));

    let books = &tables.tables["books_table"].records;
    assert_eq!(books.len(), 2);
    assert_eq!(keys(&books[0]), vec!["id", "root_id", "title"]);
    assert_eq!(keys(&books[1]), vec!["id", "root_id", "title", "pages"]);
    assert_eq!(books[0].get("root_id"), Some(&Dtype::String(root_id.clone())));
    assert_eq!(books[1].get("root_id"), Some(&Dtype::String(root_id.clone())));

    let authors = &tables.tables["authors_table"].records;
    assert_eq!(authors.len(), 2);
    assert_eq!(keys(&authors[0]), vec!["id", "books_table_id", "name"]);
    let first_book = row_id(&books[0]);
    assert_eq!(authors[0].get("books_table_id"), Some(&Dtype::String(first_book.clone())));
    assert_eq!(authors[1].get("books_table_id"), Some(&Dtype::String(first_book)));
    assert_eq!(authors[1].get("name"), Some(&Dtype::String("Y".to_string())));
}

#[test]
fn links_are_noted_where_they_are_found() {
    let tables = Normifier::from_value(&library()).unwrap();
    let link = |parent: &str, child: &str| Relationship {
        parent: Some(parent.to_string()),
        child: Some(child.to_string()),
        fk_field: Some(format!("{}_id", parent)),
    };
    assert_eq!(
        tables.relationships,
        vec![
            link("root", "address_table"),
            link("root", "books_table"),
            link("books_table", "authors_table"),
        ]
    );
}

#[test]
fn every_row_has_its_own_id() {
    let tables = Normifier::from_value(&library()).unwrap();
    let ids = all_ids(&tables);
    assert_eq!(ids.len(), 6);
    for id in &ids {
        assert_eq!(id.len(), 36);
    }
    for i in 0..ids.len() {
        for j in (i + 1)..ids.len() {
            assert_ne!(ids[i], ids[j]);
        }
    }
}

#[test]
fn every_foreign_key_names_one_row_of_the_parent_table() {
    let tables = Normifier::from_value(&library()).unwrap();
    let mut links = 0;
    for (_, table) in tables.iter_tables() {
        for row in &table.records {
            for (key, value) in row {
                if let Some(parent) = key.strip_suffix("_id") {
                    let wanted = match value {
                        Dtype::String(id) => id.clone(),
                        other => panic!("a foreign key holds {:?}", other),
                    };
                    let hits = tables.tables[parent]
                        .records
                        .iter()
                        .filter(|r| row_id(r) == wanted)
                        .count();
                    assert_eq!(hits, 1);
                    links += 1;
                }
            }
        }
    }
    assert_eq!(links, 5);
}

#[test]
fn normalizing_twice_gives_the_same_shape() {
    let first = Normifier::from_value(&library()).unwrap();
    let second = Normifier::from_value(&library()).unwrap();
    assert_eq!(first.relationships, second.relationships);
    let a = first.iter_tables();
    let b = second.iter_tables();
    assert_eq!(a.len(), b.len());
    for t in 0..a.len() {
        assert_eq!(a[t].0, b[t].0);
        assert_eq!(a[t].1.records.len(), b[t].1.records.len());
        for r in 0..a[t].1.records.len() {
            assert_eq!(keys(&a[t].1.records[r]), keys(&b[t].1.records[r]));
        }
    }
    assert_ne!(all_ids(&first), all_ids(&second));
}

#[test]
fn root_array_gives_one_root_row_for_each_object() {
    let doc = Json::Array(vec![
        Json::Object(vec![member("a", unsigned(1))]),
        Json::Object(vec![member("b", Json::Null)]),
    ]);
    let tables = Normifier::from_value(&doc).unwrap();
    assert_eq!(tables.tables.len(), 1);
    let rows = &tables.tables["root"].records;
    assert_eq!(rows.len(), 2);
    assert_eq!(keys(&rows[0]), vec!["id", "a"]);
    assert_eq!(keys(&rows[1]), vec!["id", "b"]);
    assert_eq!(rows[1].get("b"), Some(&Dtype::Null));
}

#[test]
fn root_table_can_be_named() {
    let doc = Json::Object(vec![member("kid", Json::Object(vec![]))]);
    let tables = from_value_with_name(&doc, "top").unwrap();
    let names: Vec<&str> = tables.tables.keys().map(|k| k.as_str()).collect();
    assert_eq!(names, vec!["kid_table", "top"]);
    assert_eq!(keys(&tables.tables["kid_table"].records[0]), vec!["id", "top_id"]);
}

#[test]
fn empty_array_field_gives_no_rows_and_no_cell() {
    let doc = Json::Object(vec![member("items", Json::Array(vec![])), member("n", unsigned(1))]);
    let tables = Normifier::from_value(&doc).unwrap();
    assert_eq!(tables.tables.len(), 1);
    assert_eq!(keys(&tables.tables["root"].records[0]), vec!["id", "n"]);
    assert_eq!(tables.relationships.len(), 1);
    assert_eq!(tables.relationships[0].child, Some("items_table".to_string()));
}

#[test]
fn nested_arrays_of_scalars_are_kept_as_they_are() {
    let doc = Json::Object(vec![member(
        "grid",
        Json::Array(vec![Json::Array(vec![unsigned(1)]), Json::Array(vec![])]),
    )]);
    let tables = Normifier::from_value(&doc).unwrap();
    assert_eq!(
        tables.tables["root"].records[0].get("grid"),
        Some(&Dtype::Array(vec![
            Dtype::Array(vec![Dtype::UInt(1)]),
            Dtype::Array(vec![Dtype::Null]),
        ]))
    );
}

#[test]
fn array_mixing_objects_and_scalars_is_refused() {
    let doc = Json::Object(vec![member(
        "mixed",
        Json::Array(vec![Json::Object(vec![]), unsigned(1)]),
    )]);
    assert_eq!(Normifier::from_value(&doc).err(), Some(NormalizationError::InputShape));
    let deep = Json::Object(vec![member("a", Json::Object(vec![member(
        "mixed",
        Json::Array(vec![unsigned(1), Json::Object(vec![])]),
    )]))]);
    assert_eq!(Normifier::from_value(&deep).err(), Some(NormalizationError::InputShape));
}

#[test]
fn object_below_a_kept_array_is_refused() {
    let doc = Json::Object(vec![member(
        "grid",
        Json::Array(vec![Json::Array(vec![Json::Object(vec![])]), unsigned(1)]),
    )]);
    assert_eq!(Normifier::from_value(&doc).err(), Some(NormalizationError::ObjectType));
}

#[test]
fn first_fault_in_source_order_is_reported() {
    let doc = Json::Object(vec![
        member("grid", Json::Array(vec![Json::Array(vec![Json::Object(vec![])])])),
        member("mixed", Json::Array(vec![Json::Object(vec![]), unsigned(1)])),
    ]);
    assert_eq!(Normifier::from_value(&doc).err(), Some(NormalizationError::ObjectType));
}

#[test]
fn scalar_root_is_refused() {
    assert_eq!(Normifier::from_value(&unsigned(1)).err(), Some(NormalizationError::InputShape));
    assert_eq!(Normifier::from_value(&Json::Null).err(), Some(NormalizationError::InputShape));
    assert_eq!(Normifier::from_value(&string("x")).err(), Some(NormalizationError::InputShape));
}

#[test]
fn root_array_with_a_scalar_is_refused() {
    let doc = Json::Array(vec![Json::Object(vec![]), unsigned(1)]);
    assert_eq!(Normifier::from_value(&doc).err(), Some(NormalizationError::InputShape));
}

#[test]
fn document_field_named_id_takes_the_place_of_the_row_id() {
    let doc = Json::Array(vec![
        Json::Object(vec![member("id", unsigned(1))]),
        Json::Object(vec![member("id", unsigned(1))]),
    ]);
    let tables = Normifier::from_value(&doc).unwrap();
    let rows = &tables.tables["root"].records;
    assert_eq!(keys(&rows[0]), vec!["id"]);
    assert_eq!(rows[0].get("id"), Some(&Dtype::UInt(1)));
    assert_eq!(rows[1].get("id"), Some(&Dtype::UInt(1)));
}

#[test]
fn repeated_key_keeps_its_place_and_the_last_value() {
    let doc = Json::Object(vec![
        member("a", unsigned(1)),
        member("b", unsigned(2)),
        member("a", unsigned(3)),
    ]);
    let tables = Normifier::from_value(&doc).unwrap();
    let row = &tables.tables["root"].records[0];
    assert_eq!(keys(row), vec!["id", "a", "b"]);
    assert_eq!(row.get("a"), Some(&Dtype::UInt(3)));
}

#[test]
fn add_record_makes_a_table_on_first_use() {
    let mut tables = Normifier::new();
    assert!(tables.tables.is_empty());
    let mut one: IndexMap<String, Dtype> = IndexMap::new();
    one.insert("x".to_string(), Dtype::UInt(1));
    let mut two: IndexMap<String, Dtype> = IndexMap::new();
    two.insert("y".to_string(), Dtype::UInt(2));
    let mut three: IndexMap<String, Dtype> = IndexMap::new();
    three.insert("z".to_string(), Dtype::UInt(3));
    tables.add_record("t".to_string(), one.clone());
    tables.add_record("u".to_string(), two.clone());
    tables.add_record("t".to_string(), three.clone());
    let listed = tables.iter_tables();
    assert_eq!(listed.len(), 2);
    assert_eq!(listed[0].0, "t");
    assert_eq!(listed[0].1.records, vec![one, three]);
    assert_eq!(listed[1].0, "u");
    assert_eq!(listed[1].1.records, vec![two]);
}

#[test]
fn link_names_the_child_table_and_notes_the_relationship() {
    let mut tables = Normifier::new();
    let child = tables.link(&"root".to_string(), &"kids".to_string());
    assert_eq!(child, "kids_table");
    assert_eq!(
        tables.relationships,
        vec![Relationship {
            parent: Some("root".to_string()),
            child: Some("kids_table".to_string()),
            fk_field: Some("root_id".to_string()),
        }]
    );
}

#[test]
fn parse_object_adds_to_what_is_there() {
    let mut tables = Normifier::new();
    let name = "t".to_string();
    let fields = vec![member("a", unsigned(1))];
    assert_eq!(tables.parse_object(&name, &fields, None, None), Ok(()));
    assert_eq!(tables.parse_object(&name, &fields, None, None), Ok(()));
    assert_eq!(tables.tables["t"].records.len(), 2);
    let parent_table = "p".to_string();
    let parent_id = "p-1".to_string();
    let items = vec![Json::Object(vec![]), Json::Object(vec![])];
    assert_eq!(
        tables.parse_object_array(&name, &items, Some(&parent_table), Some(&parent_id)),
        Ok(())
    );
    assert_eq!(tables.tables["t"].records.len(), 4);
    assert_eq!(
        tables.tables["t"].records[3].get("p_id"),
        Some(&Dtype::String("p-1".to_string()))
    );
    assert_eq!(
        tables.parse_object_array(&name, &vec![Json::Null], None, None),
        Err(NormalizationError::InputShape)
    );
}

#[test]
fn process_root_takes_documents_into_one_table_set() {
    let mut tables = Normifier::new();
    let doc = Json::Object(vec![member("a", unsigned(1))]);
    assert_eq!(tables.process_root(&doc, "docs".to_string()), Ok(()));
    assert_eq!(tables.process_root(&doc, "docs".to_string()), Ok(()));
    assert_eq!(tables.tables["docs"].records.len(), 2);
    assert_eq!(
        tables.process_root(&Json::Bool(true), "docs".to_string()),
        Err(NormalizationError::InputShape)
    );
}

#[test]
fn rows_become_columns_with_nulls_where_a_field_is_missing() {
    let mut table = TableData::new();
    let mut first: IndexMap<String, Dtype> = IndexMap::new();
    first.insert("a".to_string(), Dtype::UInt(1));
    first.insert("b".to_string(), Dtype::Bool(true));
    let mut second: IndexMap<String, Dtype> = IndexMap::new();
    second.insert("c".to_string(), Dtype::String("x".to_string()));
    second.insert("a".to_string(), Dtype::UInt(2));
    table.append_row(first);
    table.append_row(second);
    table.append_row(IndexMap::new());
    assert_eq!(table.column_names(), vec!["a", "b", "c"]);
    assert_eq!(
        table.column(&"b".to_string()),
        vec![Dtype::Bool(true), Dtype::Null, Dtype::Null]
    );
    assert_eq!(table.column(&"none".to_string()), vec![Dtype::Null, Dtype::Null, Dtype::Null]);
    assert_eq!(
        table.iter_columns(),
        vec![
            ("a".to_string(), vec![Dtype::UInt(1), Dtype::UInt(2), Dtype::Null]),
            ("b".to_string(), vec![Dtype::Bool(true), Dtype::Null, Dtype::Null]),
            ("c".to_string(), vec![Dtype::Null, Dtype::String("x".to_string()), Dtype::Null]),
        ]
    );
    assert_eq!(
        table.iter_items(),
        vec![
            Dtype::UInt(1),
            Dtype::UInt(2),
            Dtype::Null,
            Dtype::Bool(true),
            Dtype::Null,
            Dtype::Null,
            Dtype::Null,
            Dtype::String("x".to_string()),
            Dtype::Null,
        ]
    );
}

#[test]
fn empty_table_has_no_columns() {
    let table = TableData::new();
    assert!(table.column_names().is_empty());
    assert!(table.iter_columns().is_empty());
    assert!(table.iter_items().is_empty());
}

#[test]
fn parse_objects_array_without_a_key_gives_rows_under_nothing() {
    let mut tables = Normifier::new();
    let name = "t".to_string();
    let parent = "p-1".to_string();
    let items = vec![Json::Object(vec![member("a", unsigned(1))]), Json::Object(vec![])];
    assert_eq!(tables.parse_objects_array(&name, None, Some(&parent), &items), Ok(()));
    assert!(tables.relationships.is_empty());
    let rows = &tables.tables["t"].records;
    assert_eq!(rows.len(), 2);
    assert_eq!(keys(&rows[0]), vec!["id", "a"]);
    assert_eq!(keys(&rows[1]), vec!["id"]);
}

#[test]
fn parse_objects_array_with_a_key_gives_rows_of_the_child_table() {
    let mut tables = Normifier::new();
    let name = "t".to_string();
    let parent = "p-1".to_string();
    let items = vec![Json::Object(vec![member("a", unsigned(1))])];
    assert_eq!(
        tables.parse_objects_array(&name, Some("kids".to_string()), Some(&parent), &items),
        Ok(())
    );
    assert_eq!(
        tables.relationships,
        vec![Relationship {
            parent: Some("t".to_string()),
            child: Some("kids_table".to_string()),
            fk_field: Some("t_id".to_string()),
        }]
    );
    assert!(tables.tables.get("t").is_none());
    let rows = &tables.tables["kids_table"].records;
    assert_eq!(keys(&rows[0]), vec!["id", "t_id", "a"]);
    assert_eq!(rows[0].get("t_id"), Some(&Dtype::String("p-1".to_string())));
    assert_eq!(
        tables.parse_objects_array(&name, Some("kids".to_string()), None, &vec![Json::Null]),
        Err(NormalizationError::InputShape)
    );
}
