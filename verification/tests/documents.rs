use normify::database_builder::DataBase;
use normify::dtype::Dtype;
use normify::dtype::Kind;
use normify::from_value;
use normify::json::Json;
use normify::json::JsonField;
use normify::json::JsonNumber;
use normify::series::ChunkedArray;
use normify::series::DataType;
use normify::series::Values;

fn field(key: &str, value: Json) -> JsonField {
    JsonField { key: key.to_string(), value }
}

fn number(n: u64) -> Json {
    Json::Number(JsonNumber::unsigned(n))
}

fn text(s: &str) -> Json {
    Json::String(s.to_string())
}

fn id_of(row: &normify::ordered::Row) -> String {
    match row.get("id") {
        Some(Dtype::String(id)) => id.clone(),
        other => panic!("row without a text id: {:?}", other),
    }
}

#[test]
fn flat_object_is_one_root_row() {
    let doc = Json::Object(vec![field("name", text("Ann")), field("age", number(30))]);
    let tables = from_value(&doc).expect("a flat object is accepted");
    assert_eq!(tables.tables.len(), 1);
    let (name, table) = tables.tables.get_index(0).unwrap();
    assert_eq!(name, "root");
    assert_eq!(table.records.len(), 1);
    let row = &table.records[0];
    let keys: Vec<&str> = row.keys().map(|k| k.as_str()).collect();
    assert_eq!(keys, vec!["id", "name", "age"]);
    assert_eq!(id_of(row).len(), 36);
    assert_eq!(row.get("name"), Some(&Dtype::String("Ann".to_string())));
    assert_eq!(row.get("age"), Some(&Dtype::UInt(30)));
    assert!(tables.relationships.is_empty());

    let db = DataBase::from_norm(tables);
    assert!(db.diagnostics.is_empty());
    assert_eq!(db.tables.len(), 1);
    let schema = db.schemas.get("root").expect("the root table has a schema");
    let resolved: Vec<(&str, DataType, bool)> =
        schema.fields.iter().map(|f| (f.name.as_str(), f.dtype, f.fallback)).collect();
    assert_eq!(
        resolved,
        vec![
            ("id", DataType::String, false),
            ("name", DataType::String, false),
            ("age", DataType::UInt64, false),
        ]
    );
    let frame = &db.tables[0];
    assert_eq!(frame.columns[2].values, Values::Flat(ChunkedArray::UInt(vec![Some(30)])));
    assert_eq!(
        frame.columns[1].values,
        Values::Flat(ChunkedArray::String(vec![Some("Ann".to_string())]))
    );
}

#[test]
fn array_of_scalars_stays_in_the_row() {
    let doc = Json::Object(vec![field("tags", Json::Array(vec![text("x"), text("y")]))]);
    let tables = from_value(&doc).expect("an array of scalars is accepted");
    assert_eq!(tables.tables.len(), 1);
    assert!(tables.relationships.is_empty());
    let (_, table) = tables.tables.get_index(0).unwrap();
    assert_eq!(table.records.len(), 1);
    assert_eq!(
        table.records[0].get("tags"),
        Some(&Dtype::Array(vec![Dtype::String("x".to_string()), Dtype::String("y".to_string())]))
    );

    let db = DataBase::from_norm(tables);
    let schema = db.schemas.get("root").unwrap();
    assert_eq!(schema.fields[1].name, "tags");
    assert_eq!(schema.fields[1].dtype, DataType::List(Kind::String));
    assert!(!schema.fields[1].fallback);
    match &db.tables[0].columns[1].values {
        Values::List(list) => {
            assert_eq!(list.inner, Kind::String);
            assert_eq!(
                list.rows,
                vec![ChunkedArray::String(vec![Some("x".to_string()), Some("y".to_string())])]
            );
        }
        other => panic!("tags is no list column: {:?}", other),
    }
}

#[test]
fn array_of_objects_becomes_a_child_table() {
    let doc = Json::Object(vec![field(
        "children",
        Json::Array(vec![
            Json::Object(vec![field("n", number(1))]),
            Json::Object(vec![field("n", number(2))]),
        ]),
    )]);
    let tables = from_value(&doc).expect("an array of objects is accepted");
    assert_eq!(tables.tables.len(), 2);
    let root = tables.tables.get("root").expect("root table");
    let children = tables.tables.get("children_table").expect("child table");
    assert_eq!(root.records.len(), 1);
    assert!(root.records[0].get("n").is_none());
    assert!(root.records[0].get("children").is_none());
    let root_id = id_of(&root.records[0]);
    assert_eq!(children.records.len(), 2);
    assert_eq!(children.records[0].get("root_id"), Some(&Dtype::String(root_id.clone())));
    assert_eq!(children.records[1].get("root_id"), Some(&Dtype::String(root_id.clone())));
    assert_eq!(children.records[0].get("n"), Some(&Dtype::UInt(1)));
    assert_eq!(children.records[1].get("n"), Some(&Dtype::UInt(2)));
    let keys: Vec<&str> = children.records[0].keys().map(|k| k.as_str()).collect();
    assert_eq!(keys, vec!["id", "root_id", "n"]);
    assert_ne!(id_of(&children.records[0]), id_of(&children.records[1]));
    assert_ne!(id_of(&children.records[0]), root_id);
}

#[test]
fn empty_root_array_gives_no_tables() {
    let tables = from_value(&Json::Array(vec![])).expect("an empty root array is accepted");
    assert!(tables.tables.is_empty());
    assert!(tables.relationships.is_empty());
    let db = DataBase::from_norm(tables);
    assert!(db.tables.is_empty());
    assert!(db.schemas.is_empty());
    assert!(db.diagnostics.is_empty());
}

#[test]
fn unsigned_then_string_falls_back_to_text() {
    let series = DataBase::build_series(
        "v".to_string(),
        vec![Dtype::UInt(5), Dtype::String("five".to_string())],
    );
    assert_eq!(series.name, "v");
    assert!(series.fallback);
    assert_eq!(series.dtype(), DataType::String);
    assert_eq!(
        series.values,
        Values::Flat(ChunkedArray::String(vec![Some("5".to_string()), Some("five".to_string())]))
    );
}
