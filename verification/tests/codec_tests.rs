use tooltrain::errors::ErrorKind;
use tooltrain::parse::parse;
use tooltrain::types::{
    ColorValue, CommanderDataType, CommanderEnumDataType, CommanderValue, JsonString,
};

#[test]
fn parses_enum() {
    let result = parse("enum Number<ONE, TWO>").unwrap();
    assert_eq!(result.type_string(), "enum Number<ONE, TWO>");
    let enum_result: CommanderEnumDataType = result.try_into_enum().unwrap();
    assert_eq!(enum_result.get_name(), "Number");
    assert_eq!(
        enum_result.list_variants(),
        vec!["ONE".to_string(), "TWO".to_string()]
    );
}

#[test]
fn parses_boolean_list() {
    let result = parse("list<boolean>").unwrap();
    assert_eq!(result.type_string(), "list<boolean>");
    let value = CommanderValue::List(vec![
        CommanderValue::Boolean(true),
        CommanderValue::Boolean(false),
        CommanderValue::Boolean(true),
    ]);
    let encoded = result.encode(&value).unwrap();
    let decoded = result.decode(&encoded).unwrap();
    assert_eq!(decoded, value);
}

#[test]
fn prints_and_reparses_struct() {
    let text = "struct File<name: string, size: number, kind: enum Kind<FILE, DIR>>";
    let t = parse(text).unwrap();
    assert_eq!(t.type_string(), text);
}

#[test]
fn parses_empty_struct() {
    let t = parse("struct Unit<>").unwrap();
    assert_eq!(t.type_string(), "struct Unit<>");
}

#[test]
fn parse_is_whitespace_insensitive() {
    let t = parse("  list < boolean >  ").unwrap();
    assert_eq!(t.type_string(), "list<boolean>");
    let t2 = parse("enum  Number< ONE ,TWO >").unwrap();
    assert_eq!(t2.type_string(), "enum Number<ONE, TWO>");
}

#[test]
fn parse_rejects_empty_enum() {
    let e = parse("enum Number<>").unwrap_err();
    assert_eq!(e.kind(), ErrorKind::TypeParse);
}

#[test]
fn parse_rejects_duplicate_variants() {
    let e = parse("enum Number<ONE, ONE>").unwrap_err();
    assert_eq!(e.kind(), ErrorKind::TypeParse);
}

#[test]
fn parse_rejects_duplicate_fields() {
    let e = parse("struct S<a: number, a: string>").unwrap_err();
    assert_eq!(e.kind(), ErrorKind::TypeParse);
}

#[test]
fn parse_rejects_url_and_garbage() {
    assert!(parse("url").is_err());
    assert!(parse("list<trigger>").is_err());
    assert!(parse("number extra").is_err());
    assert!(parse("").is_err());
}

#[test]
fn boolean_wire_form_is_tag_and_byte() {
    let t = parse("boolean").unwrap();
    let bytes = t.encode(&CommanderValue::Boolean(true)).unwrap();
    assert_eq!(bytes, vec![2u8, 1u8]);
}

#[test]
fn number_round_trip_keeps_bits() {
    let t = parse("number").unwrap();
    let v = CommanderValue::Number(f64::to_bits(1.5));
    let decoded = t.decode(&t.encode(&v).unwrap()).unwrap();
    match decoded {
        CommanderValue::Number(bits) => assert_eq!(f64::from_bits(bits), 1.5),
        _ => panic!("expected a number"),
    }
}

#[test]
fn nested_value_round_trip() {
    let t = parse("list<struct Point<x: number, y: number>>").unwrap();
    let point = |x: f64, y: f64| {
        CommanderValue::Struct(vec![
            tooltrain::types::StructFieldValue {
                name: "x".to_string(),
                value: CommanderValue::Number(f64::to_bits(x)),
            },
            tooltrain::types::StructFieldValue {
                name: "y".to_string(),
                value: CommanderValue::Number(f64::to_bits(y)),
            },
        ])
    };
    let v = CommanderValue::List(vec![point(1.0, 2.0), point(-3.5, 0.25)]);
    let decoded = t.decode(&t.encode(&v).unwrap()).unwrap();
    assert_eq!(decoded, v);
}

#[test]
fn path_color_json_round_trips() {
    let t = parse("path").unwrap();
    let v = CommanderValue::Path(vec!["usr".to_string(), "local".to_string()]);
    assert_eq!(t.decode(&t.encode(&v).unwrap()).unwrap(), v);

    let t = parse("color").unwrap();
    let v = CommanderValue::Color(ColorValue { r: 1, g: 2, b: 3, a: 65535 });
    assert_eq!(t.decode(&t.encode(&v).unwrap()).unwrap(), v);

    let t = parse("json").unwrap();
    let v = CommanderValue::Json(JsonString("{\"a\": 1}".to_string()));
    assert_eq!(t.decode(&t.encode(&v).unwrap()).unwrap(), v);
}

#[test]
fn enum_round_trip_resolves_variant_name() {
    let t = parse("enum Number<ONE, TWO>").unwrap();
    let et = match &t {
        CommanderDataType::Enum(e) => e,
        _ => panic!("expected an enum"),
    };
    let two = et.get_variant("TWO").unwrap();
    assert_eq!(two.ordinal, 1);
    let v = CommanderValue::Enum(two);
    let decoded = t.decode(&t.encode(&v).unwrap()).unwrap();
    assert_eq!(decoded, v);
    assert!(et.get_variant("THREE").is_none());
}

#[test]
fn encode_rejects_mismatched_value() {
    let t = parse("number").unwrap();
    let e = t.encode(&CommanderValue::Boolean(true)).unwrap_err();
    assert_eq!(e.kind(), ErrorKind::TypeMismatch);
}

#[test]
fn decode_rejects_wrong_tag() {
    let string_type = parse("string").unwrap();
    let number_type = parse("number").unwrap();
    let blob = string_type
        .encode(&CommanderValue::String("hi".to_string()))
        .unwrap();
    let e = number_type.decode(&blob).unwrap_err();
    assert_eq!(e.kind(), ErrorKind::TypeMismatch);
}

#[test]
fn decode_rejects_truncated_buffer() {
    let t = parse("number").unwrap();
    let mut blob = t.encode(&CommanderValue::Number(7)).unwrap();
    blob.pop();
    let e = t.decode(&blob).unwrap_err();
    assert_eq!(e.kind(), ErrorKind::CodecDecode);
}

#[test]
fn decode_rejects_unknown_ordinal() {
    let small = parse("enum E<A>").unwrap();
    let big = parse("enum E<A, B>").unwrap();
    let bt = match &big {
        CommanderDataType::Enum(e) => e,
        _ => panic!("expected an enum"),
    };
    let blob = big
        .encode(&CommanderValue::Enum(bt.get_variant("B").unwrap()))
        .unwrap();
    let e = small.decode(&blob).unwrap_err();
    assert_eq!(e.kind(), ErrorKind::CodecDecode);
}

#[test]
fn decode_rejects_wrong_struct_arity() {
    let one = parse("struct S<a: number>").unwrap();
    let two = parse("struct S<a: number, b: number>").unwrap();
    let blob = one
        .encode(&CommanderValue::Struct(vec![tooltrain::types::StructFieldValue {
            name: "a".to_string(),
            value: CommanderValue::Number(1),
        }]))
        .unwrap();
    let e = two.decode(&blob).unwrap_err();
    assert_eq!(e.kind(), ErrorKind::CodecDecode);
}

#[test]
fn decode_rejects_trailing_bytes() {
    let t = parse("boolean").unwrap();
    let mut blob = t.encode(&CommanderValue::Boolean(false)).unwrap();
    blob.push(0);
    let e = t.decode(&blob).unwrap_err();
    assert_eq!(e.kind(), ErrorKind::CodecDecode);
}

#[test]
fn type_eq_follows_structure() {
    let a = parse("list<enum E<A, B>>").unwrap();
    let b = parse("list < enum E<A , B> >").unwrap();
    let c = parse("list<enum E<A, C>>").unwrap();
    assert!(tooltrain::types::type_eq(&a, &b));
    assert!(!tooltrain::types::type_eq(&a, &c));
}
