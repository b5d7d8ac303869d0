use indexmap::IndexMap;
use normify::database_builder::DataBase;
use normify::database_builder::Diagnostic;
use normify::database_builder::ListBuilder;
use normify::dtype::Dtype;
use normify::dtype::Kind;
use normify::json::Float;
use normify::json::Json;
use normify::json::JsonField;
use normify::json::JsonNumber;
use normify::normalizer::Normifier;
use normify::normalizer::TableData;
use normify::series::ChunkedArray;
use normify::series::ColumnBuildError;
use normify::series::DataFrame;
use normify::series::DataType;
use normify::series::Field;
use normify::series::ListChunked;
use normify::series::Series;
use normify::series::Values;

fn s(text: &str) -> Dtype {
    Dtype::String(text.to_string())
}

fn some(text: &str) -> Option<String> {
    Some(text.to_string())
}

fn half() -> Float {
    Float::new(0x3FE0000000000000, "0.5".to_string())
}

fn flat(name: &str, array: ChunkedArray) -> Series {
    Series { name: name.to_string(), values: Values::Flat(array), fallback: false }
}

#[test]
fn column_of_one_kind_keeps_its_kind() {
    let series = DataBase::build_series("b".to_string(), vec![Dtype::Bool(true), Dtype::Null]);
    assert_eq!(series, flat("b", ChunkedArray::Bool(vec![Some(true), None])));
    assert_eq!(series.dtype(), DataType::Boolean);
    assert_eq!(series.len(), 2);

    let series = DataBase::build_series("u".to_string(), vec![Dtype::Null, Dtype::UInt(7)]);
    assert_eq!(series, flat("u", ChunkedArray::UInt(vec![None, Some(7)])));
    assert_eq!(series.dtype(), DataType::UInt64);

    let series = DataBase::build_series("i".to_string(), vec![Dtype::Int(-7)]);
    assert_eq!(series, flat("i", ChunkedArray::Int(vec![Some(-7)])));
    assert_eq!(series.dtype(), DataType::Int64);

    let series = DataBase::build_series("f".to_string(), vec![Dtype::Float(half()), Dtype::Null]);
    assert_eq!(series, flat("f", ChunkedArray::Float(vec![Some(half()), None])));
    assert_eq!(series.dtype(), DataType::Float64);

    let series = DataBase::build_series("s".to_string(), vec![s("a"), s("b")]);
    assert_eq!(series, flat("s", ChunkedArray::String(vec![some("a"), some("b")])));
    assert_eq!(series.dtype(), DataType::String);
}

#[test]
fn column_of_nulls_stays_a_column_of_nulls() {
    let series = DataBase::build_series("n".to_string(), vec![Dtype::Null, Dtype::Null]);
    assert_eq!(series, flat("n", ChunkedArray::Null(2)));
    assert_eq!(series.dtype(), DataType::Null);
    assert_eq!(series.len(), 2);
    let series = DataBase::build_series("e".to_string(), vec![]);
    assert_eq!(series, flat("e", ChunkedArray::Null(0)));
}

#[test]
fn one_string_among_integers_turns_the_column_into_text() {
    let series = DataBase::build_series(
        "mixed".to_string(),
        vec![Dtype::UInt(12), Dtype::Null, Dtype::Int(-3), s("x"), Dtype::UInt(0)],
    );
    assert!(series.fallback);
    assert_eq!(series.dtype(), DataType::String);
    assert_eq!(
        series.values,
        Values::Flat(ChunkedArray::String(vec![
            some("12"),
            None,
            some("-3"),
            some("x"),
            some("0"),
        ]))
    );
}

#[test]
fn numbers_of_different_kinds_do_not_unify() {
    let series = DataBase::build_series(
        "n".to_string(),
        vec![Dtype::Int(-1), Dtype::UInt(1), Dtype::Float(half()), Dtype::Bool(false)],
    );
    assert!(series.fallback);
    assert_eq!(
        series.values,
        Values::Flat(ChunkedArray::String(vec![
            some("-1"),
            some("1"),
            some("0.5"),
            some("false"),
        ]))
    );
}

#[test]
fn column_of_arrays_of_one_kind_is_a_list_column() {
    let series = DataBase::build_series(
        "l".to_string(),
        vec![
            Dtype::Array(vec![Dtype::Null, Dtype::UInt(1)]),
            Dtype::Null,
            Dtype::Array(vec![Dtype::UInt(2), Dtype::UInt(3), Dtype::UInt(4)]),
        ],
    );
    assert!(!series.fallback);
    assert_eq!(series.dtype(), DataType::List(Kind::UInt));
    assert_eq!(series.len(), 3);
    assert_eq!(
        series.values,
        Values::List(ListChunked {
            inner: Kind::UInt,
            rows: vec![
                ChunkedArray::UInt(vec![None, Some(1)]),
                ChunkedArray::UInt(vec![]),
                ChunkedArray::UInt(vec![Some(2), Some(3), Some(4)]),
            ],
        })
    );
}

#[test]
fn value_that_is_no_array_gives_an_empty_list() {
    let series = DataBase::build_series(
        "l".to_string(),
        vec![Dtype::Array(vec![Dtype::Bool(true)]), Dtype::UInt(9), s("x")],
    );
    assert!(!series.fallback);
    assert_eq!(
        series.values,
        Values::List(ListChunked {
            inner: Kind::Bool,
            rows: vec![
                ChunkedArray::Bool(vec![Some(true)]),
                ChunkedArray::Bool(vec![]),
                ChunkedArray::Bool(vec![]),
            ],
        })
    );
}

#[test]
fn column_of_arrays_of_mixed_kinds_is_a_list_of_text() {
    let series = DataBase::build_series(
        "l".to_string(),
        vec![
            Dtype::Array(vec![Dtype::UInt(1), Dtype::Null]),
            Dtype::Array(vec![s("two")]),
            Dtype::Null,
        ],
    );
    assert_eq!(series.name, "l");
    assert!(series.fallback);
    assert_eq!(series.dtype(), DataType::List(Kind::String));
    assert_eq!(
        series.values,
        Values::List(ListChunked {
            inner: Kind::String,
            rows: vec![
                ChunkedArray::String(vec![some("1"), None]),
                ChunkedArray::String(vec![some("two")]),
                ChunkedArray::String(vec![]),
            ],
        })
    );
}

#[test]
fn column_of_arrays_of_arrays_is_a_list_of_text() {
    let series = DataBase::build_series(
        "l".to_string(),
        vec![Dtype::Array(vec![Dtype::Array(vec![Dtype::UInt(1), Dtype::UInt(2)])])],
    );
    assert!(series.fallback);
    assert_eq!(
        series.values,
        Values::List(ListChunked {
            inner: Kind::String,
            rows: vec![ChunkedArray::String(vec![some("1, 2, ")])],
        })
    );
}

#[test]
fn column_of_arrays_of_nulls_is_a_list_of_nulls() {
    let series = DataBase::build_series(
        "l".to_string(),
        vec![Dtype::Array(vec![Dtype::Null]), Dtype::Array(vec![Dtype::Null, Dtype::Null])],
    );
    assert!(!series.fallback);
    assert_eq!(series.dtype(), DataType::List(Kind::Null));
    assert_eq!(
        series.values,
        Values::List(ListChunked {
            inner: Kind::Null,
            rows: vec![ChunkedArray::Null(1), ChunkedArray::Null(2)],
        })
    );
}

#[test]
fn stringify_collection_renders_all_but_null() {
    assert_eq!(
        DataBase::stringify_collection(vec![Dtype::Null, Dtype::UInt(5), Dtype::Bool(true)]),
        ChunkedArray::String(vec![None, some("5"), some("true")])
    );
    assert_eq!(DataBase::stringify_collection(vec![]), ChunkedArray::String(vec![]));
}

#[test]
fn stringify_nested_collection_keeps_the_rows() {
    let series = DataBase::stringify_nested_collection(
        "n".to_string(),
        vec![vec![Dtype::UInt(1), Dtype::Null], vec![], vec![s("x")]],
    );
    assert_eq!(
        series,
        Series {
            name: "n".to_string(),
            values: Values::List(ListChunked {
                inner: Kind::String,
                rows: vec![
                    ChunkedArray::String(vec![some("1"), None]),
                    ChunkedArray::String(vec![]),
                    ChunkedArray::String(vec![some("x")]),
                ],
            }),
            fallback: true,
        }
    );
}

#[test]
fn is_normal_collection_goes_by_the_kind_of_the_determinant() {
    let values = vec![Dtype::UInt(1), Dtype::Null, Dtype::UInt(2)];
    assert!(DataBase::is_normal_collection(&Dtype::UInt(0), &values));
    assert!(!DataBase::is_normal_collection(&Dtype::Int(0), &values));
    assert!(!DataBase::is_normal_collection(&Dtype::Null, &values));
    assert!(DataBase::is_normal_collection(&Dtype::Null, &[Dtype::Null]));
    assert!(DataBase::is_normal_collection(&s("x"), &[]));
}

#[test]
fn collection_to_series_leaves_null_where_the_kind_differs() {
    assert_eq!(
        DataBase::collection_to_series(
            &Dtype::UInt(0),
            vec![Dtype::UInt(1), Dtype::Int(2), Dtype::Null]
        ),
        ChunkedArray::UInt(vec![Some(1), None, None])
    );
    assert_eq!(
        DataBase::collection_to_series(&s(""), vec![s("a"), Dtype::Bool(true)]),
        ChunkedArray::String(vec![some("a"), None])
    );
    assert_eq!(
        DataBase::collection_to_series(&Dtype::Null, vec![Dtype::Null, Dtype::Null]),
        ChunkedArray::Null(2)
    );
}

#[test]
fn determinant_is_the_first_value_that_is_not_null() {
    assert_eq!(DataBase::first_present(&[Dtype::Null, Dtype::UInt(3), s("x")]), Dtype::UInt(3));
    assert_eq!(DataBase::first_present(&[Dtype::Null]), Dtype::Null);
    assert_eq!(DataBase::first_present(&[]), Dtype::Null);
    assert_eq!(
        DataBase::first_present_nested(&[vec![Dtype::Null], vec![], vec![Dtype::Null, s("x")]]),
        s("x")
    );
    assert_eq!(DataBase::first_present_nested(&[vec![Dtype::Null], vec![]]), Dtype::Null);
}

#[test]
fn all_normal_collections_looks_at_every_list() {
    let lists = vec![vec![Dtype::UInt(1)], vec![], vec![Dtype::Null, Dtype::UInt(2)]];
    assert!(DataBase::all_normal_collections(&Dtype::UInt(0), &lists));
    assert!(!DataBase::all_normal_collections(&Dtype::Bool(true), &lists));
    assert!(DataBase::all_normal_collections(&Dtype::Bool(true), &[]));
}

#[test]
fn unwrap_nested_gives_one_list_for_each_value() {
    assert_eq!(
        DataBase::unwrap_nested(vec![
            Dtype::Array(vec![Dtype::UInt(1), Dtype::Null]),
            Dtype::Null,
            Dtype::UInt(5),
            Dtype::Array(vec![]),
        ]),
        vec![vec![Dtype::UInt(1), Dtype::Null], vec![], vec![], vec![]]
    );
}

#[test]
fn list_builder_has_room_for_the_longest_list() {
    let lists =
        vec![vec![Dtype::UInt(1)], vec![Dtype::UInt(1), Dtype::UInt(2), Dtype::Null], vec![]];
    assert_eq!(DataBase::longest(&lists), 3);
    assert_eq!(DataBase::longest(&[]), 0);
    let builder = DataBase::get_list_builder(&Dtype::UInt(0), &lists);
    assert_eq!(
        builder,
        ListBuilder { inner: Kind::UInt, capacity: 3, values_capacity: 3, rows: vec![] }
    );
    let none = DataBase::get_list_builder(&s("x"), &[]);
    assert_eq!(
        none,
        ListBuilder { inner: Kind::String, capacity: 0, values_capacity: 0, rows: vec![] }
    );
}

#[test]
fn build_list_chunked_puts_the_rows_behind_those_in_the_builder() {
    let mut builder =
        ListBuilder { inner: Kind::Bool, capacity: 2, values_capacity: 1, rows: vec![] };
    builder.append_series(ChunkedArray::Bool(vec![Some(true)]));
    let list = DataBase::build_list_chunked(
        vec![ChunkedArray::Bool(vec![]), ChunkedArray::Bool(vec![None])],
        &mut builder,
    );
    assert_eq!(
        list,
        ListChunked {
            inner: Kind::Bool,
            rows: vec![
                ChunkedArray::Bool(vec![Some(true)]),
                ChunkedArray::Bool(vec![]),
                ChunkedArray::Bool(vec![None]),
            ],
        }
    );
    assert!(builder.rows.is_empty());
    assert_eq!(builder.inner, Kind::Bool);
    assert_eq!(builder.finish(), ListChunked { inner: Kind::Bool, rows: vec![] });
}

#[test]
fn arrays_know_their_length_and_kind() {
    assert_eq!(ChunkedArray::Null(4).len(), 4);
    assert_eq!(ChunkedArray::Null(4).kind(), Kind::Null);
    assert_eq!(ChunkedArray::Int(vec![None, Some(1)]).len(), 2);
    assert_eq!(ChunkedArray::Int(vec![]).kind(), Kind::Int);
    assert_eq!(ChunkedArray::Float(vec![None]).kind(), Kind::Float);
    assert_eq!(ChunkedArray::String(vec![None, None, None]).len(), 3);
}

#[test]
fn columns_of_one_height_and_distinct_names_make_a_table() {
    let frame = DataFrame::new(vec![
        flat("a", ChunkedArray::UInt(vec![Some(1), None])),
        flat("b", ChunkedArray::Null(2)),
    ])
    .expect("the columns make a table");
    assert_eq!(frame.columns.len(), 2);
    assert_eq!(
        frame.schema().fields,
        vec![
            Field { name: "a".to_string(), dtype: DataType::UInt64, fallback: false },
            Field { name: "b".to_string(), dtype: DataType::Null, fallback: false },
        ]
    );
    assert!(DataFrame::new(vec![]).is_ok());
}

#[test]
fn columns_of_different_heights_make_no_table() {
    let built = DataFrame::new(vec![
        flat("a", ChunkedArray::UInt(vec![Some(1), None])),
        flat("b", ChunkedArray::Null(3)),
    ]);
    assert_eq!(built, Err(ColumnBuildError::ShapeMismatch));
    let both = DataFrame::new(vec![
        flat("a", ChunkedArray::Null(1)),
        flat("a", ChunkedArray::Null(2)),
    ]);
    assert_eq!(both, Err(ColumnBuildError::ShapeMismatch));
}

#[test]
fn columns_of_one_name_make_no_table() {
    let built = DataFrame::new(vec![
        flat("a", ChunkedArray::Null(1)),
        flat("b", ChunkedArray::Null(1)),
        flat("a", ChunkedArray::Bool(vec![None])),
    ]);
    assert_eq!(built, Err(ColumnBuildError::Duplicate));
}

#[test]
fn build_df_takes_a_table_into_the_database() {
    let mut table = TableData::new();
    let mut first: IndexMap<String, Dtype> = IndexMap::new();
    first.insert("id".to_string(), s("r1"));
    first.insert("n".to_string(), Dtype::UInt(1));
    let mut second: IndexMap<String, Dtype> = IndexMap::new();
    second.insert("id".to_string(), s("r2"));
    second.insert("n".to_string(), s("one"));
    second.insert("extra".to_string(), Dtype::Null);
    table.append_row(first);
    table.append_row(second);

    let mut db = DataBase::new();
    db.build_df("t".to_string(), &table);
    let none: Vec<Diagnostic> = vec![];
    assert_eq!(db.diagnostics, none);
    assert_eq!(db.tables.len(), 1);
    assert_eq!(
        db.tables[0].columns,
        vec![
            flat("id", ChunkedArray::String(vec![some("r1"), some("r2")])),
            Series {
                name: "n".to_string(),
                values: Values::Flat(ChunkedArray::String(vec![some("1"), some("one")])),
                fallback: true,
            },
            flat("extra", ChunkedArray::Null(2)),
        ]
    );
    let names: Vec<&String> = db.schemas.keys().collect();
    assert_eq!(names, vec!["t"]);
    assert_eq!(
        db.schemas["t"].fields,
        vec![
            Field { name: "id".to_string(), dtype: DataType::String, fallback: false },
            Field { name: "n".to_string(), dtype: DataType::String, fallback: true },
            Field { name: "extra".to_string(), dtype: DataType::Null, fallback: false },
        ]
    );

    db.build_df("u".to_string(), &TableData::new());
    assert_eq!(db.tables.len(), 2);
    assert!(db.tables[1].columns.is_empty());
    let names: Vec<&String> = db.schemas.keys().collect();
    assert_eq!(names, vec!["t", "u"]);
}

#[test]
fn database_has_one_table_for_each_table_of_the_set() {
    let member = |key: &str, value: Json| JsonField { key: key.to_string(), value };
    let unsigned = |n: u64| Json::Number(JsonNumber::unsigned(n));
    let doc = Json::Array(vec![
        Json::Object(vec![
            member("n", unsigned(1)),
            member("kids", Json::Array(vec![Json::Object(vec![member("k", Json::Bool(true))])])),
        ]),
        Json::Object(vec![
            member("n", Json::String("two".to_string())),
            member("tags", Json::Array(vec![unsigned(1), unsigned(2)])),
        ]),
    ]);
    let tables = Normifier::from_value(&doc).unwrap();
    let again = Normifier::from_value(&doc).unwrap();
    let db = DataBase::from_norm(tables);
    let db_again = DataBase::from_norm(again);
    assert!(db.diagnostics.is_empty());
    let names: Vec<&str> = db.schemas.keys().map(|k| k.as_str()).collect();
    assert_eq!(names, vec!["kids_table", "root"]);
    assert_eq!(db.tables.len(), 2);
    assert_eq!(db.schemas, db_again.schemas);
    assert_eq!(
        db.schemas["root"].fields,
        vec![
            Field { name: "id".to_string(), dtype: DataType::String, fallback: false },
            Field { name: "n".to_string(), dtype: DataType::String, fallback: true },
            Field { name: "tags".to_string(), dtype: DataType::List(Kind::UInt), fallback: false },
        ]
    );
    assert_eq!(
        db.schemas["kids_table"].fields,
        vec![
            Field { name: "id".to_string(), dtype: DataType::String, fallback: false },
            Field { name: "root_id".to_string(), dtype: DataType::String, fallback: false },
            Field { name: "k".to_string(), dtype: DataType::Boolean, fallback: false },
        ]
    );
    match &db.tables[1].columns[2].values {
        Values::List(list) => assert_eq!(
            list.rows,
            vec![ChunkedArray::UInt(vec![]), ChunkedArray::UInt(vec![Some(1), Some(2)])]
        ),
        other => panic!("tags is no list column: {:?}", other),
    }
    for frame in &db.tables {
        for column in &frame.columns {
            assert_eq!(column.len(), frame.columns[0].len());
        }
    }
}

#[test]
fn building_a_table_again_puts_it_in_the_place_it_had() {
    let mut one = TableData::new();
    let mut row: IndexMap<String, Dtype> = IndexMap::new();
    row.insert("a".to_string(), Dtype::UInt(1));
    one.append_row(row);
    let mut two = TableData::new();
    let mut row: IndexMap<String, Dtype> = IndexMap::new();
    row.insert("b".to_string(), Dtype::Bool(true));
    two.append_row(row);

    let mut db = DataBase::new();
    db.build_df("t".to_string(), &one);
    db.build_df("u".to_string(), &one);
    db.build_df("t".to_string(), &two);
    let names: Vec<&str> = db.schemas.keys().map(|k| k.as_str()).collect();
    assert_eq!(names, vec!["t", "u"]);
    assert_eq!(db.tables.len(), 2);
    assert_eq!(db.tables[0].columns, vec![flat("b", ChunkedArray::Bool(vec![Some(true)]))]);
    assert_eq!(db.tables[1].columns, vec![flat("a", ChunkedArray::UInt(vec![Some(1)]))]);
    assert_eq!(db.schemas["t"], db.tables[0].schema());
    assert_eq!(db.schemas["u"], db.tables[1].schema());
}

#[test]
fn every_table_stands_at_the_place_of_its_schema() {
    let member = |key: &str, value: Json| JsonField { key: key.to_string(), value };
    let doc = Json::Object(vec![
        member("a", Json::Object(vec![member("x", Json::Null)])),
        member("b", Json::Array(vec![Json::Object(vec![]), Json::Object(vec![])])),
        member("c", Json::Bool(true)),
    ]);
    let tables = Normifier::from_value(&doc).unwrap();
    let names: Vec<String> = tables.tables.keys().cloned().collect();
    let heights: Vec<usize> = tables.tables.values().map(|t| t.records.len()).collect();
    let db = DataBase::from_norm(tables);
    assert!(db.diagnostics.is_empty());
    assert_eq!(db.tables.len(), names.len());
    for (t, frame) in db.tables.iter().enumerate() {
        let (name, schema) = db.schemas.get_index(t).unwrap();
        assert_eq!(name, &names[t]);
        assert_eq!(schema, &frame.schema());
        for column in &frame.columns {
            assert_eq!(column.len(), heights[t]);
        }
    }
}

#[test]
fn a_series_has_one_position_for_each_value() {
    let data = vec![Dtype::Null, Dtype::Array(vec![]), s("x"), Dtype::UInt(1)];
    assert_eq!(DataBase::build_series("c".to_string(), data).len(), 4);
    assert_eq!(DataBase::build_series("c".to_string(), vec![s("x"), Dtype::Null]).len(), 2);
}
