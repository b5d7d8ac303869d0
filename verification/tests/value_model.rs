use normify::dtype::Dtype;
use normify::dtype::Kind;
use normify::error::NormalizationError;
use normify::json::Float;
use normify::json::Json;
use normify::json::JsonField;
use normify::json::JsonNumber;
use normify::text::signed_text;
use normify::text::unsigned_text;

fn float(bits: u64, text: &str) -> Float {
    Float::new(bits, text.to_string())
}

#[test]
fn scalars_convert_by_their_tag() {
    assert_eq!(Dtype::from_value(&Json::Null), Ok(Dtype::Null));
    assert_eq!(Dtype::from_value(&Json::Bool(true)), Ok(Dtype::Bool(true)));
    assert_eq!(
        Dtype::from_value(&Json::String("a".to_string())),
        Ok(Dtype::String("a".to_string()))
    );
}

#[test]
fn non_negative_whole_number_is_unsigned() {
    let n = JsonNumber::unsigned(7);
    assert_eq!(n.as_i64, Some(7));
    assert_eq!(Dtype::from_value(&Json::Number(n)), Ok(Dtype::UInt(7)));
    let big = JsonNumber::unsigned(u64::MAX);
    assert_eq!(big.as_i64, None);
    assert_eq!(Dtype::from_value(&Json::Number(big)), Ok(Dtype::UInt(u64::MAX)));
}

#[test]
fn negative_whole_number_is_signed() {
    let n = JsonNumber::negative(-3);
    assert_eq!(Dtype::from_value(&Json::Number(n)), Ok(Dtype::Int(-3)));
}

#[test]
fn fractional_number_is_float() {
    let n = JsonNumber::fractional(float(0x3FF8000000000000, "1.5"));
    assert_eq!(
        Dtype::from_value(&Json::Number(n)),
        Ok(Dtype::Float(float(0x3FF8000000000000, "1.5")))
    );
}

#[test]
fn unsigned_reading_wins_over_the_others() {
    let n = JsonNumber {
        as_u64: Some(4),
        as_i64: Some(4),
        as_f64: Some(float(0x4010000000000000, "4")),
    };
    assert_eq!(Dtype::from_number(&n), Dtype::UInt(4));
    let m = JsonNumber { as_u64: None, as_i64: Some(-4), as_f64: Some(float(0, "0")) };
    assert_eq!(Dtype::from_number(&m), Dtype::Int(-4));
}

#[test]
fn number_without_a_reading_is_null() {
    let n = JsonNumber { as_u64: None, as_i64: None, as_f64: None };
    assert_eq!(Dtype::from_number(&n), Dtype::Null);
}

#[test]
fn empty_array_becomes_array_of_one_null() {
    assert_eq!(Dtype::from_value(&Json::Array(vec![])), Ok(Dtype::Array(vec![Dtype::Null])));
}

#[test]
fn arrays_convert_item_by_item() {
    let doc = Json::Array(vec![
        Json::Number(JsonNumber::unsigned(1)),
        Json::Null,
        Json::Array(vec![Json::Bool(false), Json::Array(vec![])]),
    ]);
    assert_eq!(
        Dtype::from_value(&doc),
        Ok(Dtype::Array(vec![
            Dtype::UInt(1),
            Dtype::Null,
            Dtype::Array(vec![Dtype::Bool(false), Dtype::Array(vec![Dtype::Null])]),
        ]))
    );
}

#[test]
fn object_is_no_cell_value() {
    assert_eq!(Dtype::from_value(&Json::Object(vec![])), Err(NormalizationError::ObjectType));
    let nested = Json::Array(vec![
        Json::Null,
        Json::Array(vec![Json::Object(vec![JsonField {
            key: "a".to_string(),
            value: Json::Null,
        }])]),
    ]);
    assert_eq!(Dtype::from_value(&nested), Err(NormalizationError::ObjectType));
}

#[test]
fn predicates_match_exactly_one_tag() {
    let values = vec![
        Dtype::String("s".to_string()),
        Dtype::Float(float(0, "0")),
        Dtype::UInt(1),
        Dtype::Int(-1),
        Dtype::Bool(true),
        Dtype::Array(vec![]),
        Dtype::Null,
    ];
    let kinds = vec![
        Kind::String,
        Kind::Float,
        Kind::UInt,
        Kind::Int,
        Kind::Bool,
        Kind::Array,
        Kind::Null,
    ];
    for (i, v) in values.iter().enumerate() {
        assert_eq!(v.kind(), kinds[i]);
        let flags = vec![
            v.is_string(),
            v.is_float(),
            v.is_uint(),
            v.is_int(),
            v.is_bool(),
            v.is_array(),
            v.is_null(),
        ];
        for (j, flag) in flags.iter().enumerate() {
            assert_eq!(*flag, i == j);
        }
    }
}

#[test]
fn into_vec_and_get_slice_give_the_items_of_an_array_only() {
    let array = Dtype::Array(vec![Dtype::UInt(1), Dtype::Null]);
    assert_eq!(array.get_slice(), Some(&[Dtype::UInt(1), Dtype::Null][..]));
    assert_eq!(array.into_vec(), Some(vec![Dtype::UInt(1), Dtype::Null]));
    assert_eq!(Dtype::UInt(1).get_slice(), None);
    assert_eq!(Dtype::Null.into_vec(), None);
}

#[test]
fn array_is_type_lets_nulls_pass() {
    let values = vec![Dtype::UInt(1), Dtype::Null, Dtype::UInt(2)];
    assert!(Dtype::array_is_type(&values, Kind::UInt));
    assert!(!Dtype::array_is_type(&values, Kind::Int));
    assert!(Dtype::array_is_type(&vec![], Kind::Bool));
    assert!(Dtype::array_is_type(&vec![Dtype::Null], Kind::String));
}

#[test]
fn cast_to_option_is_strict() {
    let values = vec![Dtype::UInt(1), Dtype::Int(2), Dtype::Null, Dtype::Bool(true)];
    assert_eq!(Dtype::cast_to_option::<u64>(values), vec![Some(1), None, None, None]);
    let values = vec![Dtype::UInt(1), Dtype::Int(2), Dtype::Null, Dtype::Bool(true)];
    assert_eq!(Dtype::cast_to_option::<i64>(values), vec![None, Some(2), None, None]);
    let values = vec![Dtype::UInt(1), Dtype::Int(2), Dtype::Null, Dtype::Bool(true)];
    assert_eq!(Dtype::cast_to_option::<bool>(values), vec![None, None, None, Some(true)]);
    let values = vec![Dtype::String("a".to_string()), Dtype::UInt(1)];
    assert_eq!(Dtype::cast_to_option::<String>(values), vec![Some("a".to_string()), None]);
    let values = vec![Dtype::Float(float(1, "5e-324")), Dtype::UInt(1)];
    assert_eq!(Dtype::cast_to_option::<Float>(values), vec![Some(float(1, "5e-324")), None]);
}

#[test]
fn decimal_text_of_unsigned_numbers() {
    assert_eq!(unsigned_text(0), "0");
    assert_eq!(unsigned_text(9), "9");
    assert_eq!(unsigned_text(10), "10");
    assert_eq!(unsigned_text(1234567890), "1234567890");
    assert_eq!(unsigned_text(u64::MAX), "18446744073709551615");
}

#[test]
fn decimal_text_of_signed_numbers() {
    assert_eq!(signed_text(0), "0");
    assert_eq!(signed_text(-1), "-1");
    assert_eq!(signed_text(42), "42");
    assert_eq!(signed_text(i64::MAX), "9223372036854775807");
    assert_eq!(signed_text(i64::MIN), "-9223372036854775808");
}

#[test]
fn render_gives_the_text_of_each_kind() {
    assert_eq!(Dtype::Null.render(), "null");
    assert_eq!(Dtype::Bool(true).render(), "true");
    assert_eq!(Dtype::Bool(false).render(), "false");
    assert_eq!(Dtype::String("as is".to_string()).render(), "as is");
    assert_eq!(Dtype::UInt(30).render(), "30");
    assert_eq!(Dtype::Int(-30).render(), "-30");
    assert_eq!(Dtype::Float(float(0x3FF8000000000000, "1.5")).render(), "1.5");
    assert_eq!(
        Dtype::Array(vec![Dtype::UInt(1), Dtype::Null, Dtype::String("x".to_string())]).render(),
        "1, null, x, "
    );
    assert_eq!(Dtype::Array(vec![]).render(), "");
    assert_eq!(
        Dtype::Array(vec![Dtype::Array(vec![Dtype::Bool(true)]), Dtype::Int(-2)]).render(),
        "true, , -2, "
    );
}

#[test]
fn duplicate_is_a_deep_copy() {
    let value = Dtype::Array(vec![
        Dtype::String("a".to_string()),
        Dtype::Array(vec![Dtype::Float(float(7, "x"))]),
    ]);
    assert_eq!(value.duplicate(), value);
}

#[test]
fn values_are_made_from_plain_data() {
    assert_eq!(Dtype::from("a".to_string()), Dtype::String("a".to_string()));
    assert_eq!(Dtype::from(3u64), Dtype::UInt(3));
    assert_eq!(Dtype::from(-3i64), Dtype::Int(-3));
    assert_eq!(Dtype::from(true), Dtype::Bool(true));
    assert_eq!(Dtype::from(vec![Dtype::Null]), Dtype::Array(vec![Dtype::Null]));
    assert_eq!(Dtype::from(float(2, "t")), Dtype::Float(float(2, "t")));
}

#[test]
fn error_messages_differ() {
    assert_eq!(NormalizationError::InputShape.message(), "input shape cannot be normalized");
    assert_eq!(
        NormalizationError::ObjectType.message(),
        "cannot convert an object into a cell value"
    );
}

#[test]
fn json_nodes_know_their_shape() {
    assert!(Json::Object(vec![]).is_object());
    assert!(!Json::Array(vec![]).is_object());
    assert!(Json::Array(vec![]).is_array());
    assert!(!Json::Null.is_array());
}
