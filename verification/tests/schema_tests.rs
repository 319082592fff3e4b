use scratchback::schema::{
    DecodeError, FieldDef, FieldType, FieldValue, RecordSchema, SchemaError, UnionSchema,
    VariantDef,
};
use scratchback::stringify::{SbStringTo, SbToString};

fn field(id: u8, name: &str, ty: FieldType) -> FieldDef {
    FieldDef { id, name: name.to_string(), ty, flatten: false }
}

fn flatten_field(name: &str) -> FieldDef {
    FieldDef { id: 0, name: name.to_string(), ty: FieldType::StrList, flatten: true }
}

#[test]
fn stringify_integers() {
    assert_eq!(45u32.sb_to_string(), "45");
    assert_eq!(0u8.sb_to_string(), "0");
    assert_eq!(10000000u32.sb_to_string(), "10000000");
    assert_eq!((-7i8).sb_to_string(), "-7");
    assert_eq!(i64::MIN.sb_to_string(), "-9223372036854775808");
    assert_eq!(u64::MAX.sb_to_string(), "18446744073709551615");
    assert_eq!("plain".to_string().sb_to_string(), "plain");
}

#[test]
fn parse_integers_in_range() {
    let r: Option<u8> = "255".to_string().sb_string_to();
    assert_eq!(r, Some(255));
    let r: Option<u8> = "007".to_string().sb_string_to();
    assert_eq!(r, Some(7));
    let r: Option<i8> = "-128".to_string().sb_string_to();
    assert_eq!(r, Some(-128));
    let r: Option<i64> = "-9223372036854775808".to_string().sb_string_to();
    assert_eq!(r, Some(i64::MIN));
    let r: Option<u64> = "18446744073709551615".to_string().sb_string_to();
    assert_eq!(r, Some(u64::MAX));
}

#[test]
fn parse_integers_out_of_range_or_malformed() {
    let r: Option<u8> = "256".to_string().sb_string_to();
    assert_eq!(r, None);
    let r: Option<i8> = "-129".to_string().sb_string_to();
    assert_eq!(r, None);
    let r: Option<u64> = "18446744073709551616".to_string().sb_string_to();
    assert_eq!(r, None);
    let r: Option<u32> = "12a".to_string().sb_string_to();
    assert_eq!(r, None);
    let r: Option<u32> = "".to_string().sb_string_to();
    assert_eq!(r, None);
    let r: Option<i32> = "-".to_string().sb_string_to();
    assert_eq!(r, None);
}

#[test]
fn record_round_trip_two_u32_fields() {
    let schema = RecordSchema::new(vec![
        field(0, "number", FieldType::U32),
        field(1, "seat", FieldType::U32),
    ])
    .unwrap();
    let values = vec![FieldValue::U32(45), FieldValue::U32(10000000)];
    let wire = schema.encode(&values).unwrap();
    assert_eq!(schema.decode(&wire).unwrap(), values);
}

#[test]
fn record_wire_form_is_exact() {
    // "45" and "10000000" joined by the separator, each character written as
    // its two-digit table index: '4' is 05, '5' is 06, the separator 97,
    // '1' is 02 and '0' is 01
    let schema = RecordSchema::new(vec![
        field(0, "number", FieldType::U32),
        field(1, "seat", FieldType::U32),
    ])
    .unwrap();
    let values = vec![FieldValue::U32(45), FieldValue::U32(10000000)];
    assert_eq!(schema.encode(&values).unwrap(), "0506970201010101010101");
}

#[test]
fn record_fields_travel_in_identifier_order() {
    // declaration order differs from identifier order: the wire carries
    // ascending identifiers, and values are positional against that order
    let schema = RecordSchema::new(vec![
        field(1, "seat", FieldType::U32),
        field(0, "number", FieldType::U32),
    ])
    .unwrap();
    let sorted = RecordSchema::new(vec![
        field(0, "number", FieldType::U32),
        field(1, "seat", FieldType::U32),
    ])
    .unwrap();
    let values = vec![FieldValue::U32(45), FieldValue::U32(10000000)];
    assert_eq!(schema.encode(&values).unwrap(), sorted.encode(&values).unwrap());
}

#[test]
fn record_mixed_types_round_trip() {
    let schema = RecordSchema::new(vec![
        field(2, "name", FieldType::Str),
        field(5, "balance", FieldType::I64),
        field(9, "age", FieldType::U8),
    ])
    .unwrap();
    let values = vec![
        FieldValue::Str("Walter White".to_string()),
        FieldValue::I64(-42),
        FieldValue::U8(52),
    ];
    let wire = schema.encode(&values).unwrap();
    assert_eq!(schema.decode(&wire).unwrap(), values);
}

#[test]
fn record_flatten_round_trip() {
    let schema = RecordSchema::new(vec![
        field(0, "kind", FieldType::Str),
        flatten_field("extras"),
    ])
    .unwrap();
    let values = vec![
        FieldValue::Str("k".to_string()),
        FieldValue::StrList(vec!["p".to_string(), "q".to_string(), "r".to_string()]),
    ];
    let wire = schema.encode(&values).unwrap();
    assert_eq!(schema.decode(&wire).unwrap(), values);
}

#[test]
fn record_encode_rejects_mismatched_values() {
    let schema = RecordSchema::new(vec![field(0, "age", FieldType::U8)]).unwrap();
    assert_eq!(schema.encode(&vec![FieldValue::Str("x".to_string())]), None);
    assert_eq!(schema.encode(&vec![]), None);
    assert_eq!(
        schema.encode(&vec![FieldValue::U8(1), FieldValue::U8(2)]),
        None
    );
}

#[test]
fn record_encode_rejects_outside_alphabet() {
    let schema = RecordSchema::new(vec![field(0, "name", FieldType::Str)]).unwrap();
    assert_eq!(
        schema.encode(&vec![FieldValue::Str("caf\u{00e9}".to_string())]),
        None
    );
}

#[test]
fn record_decode_errors_name_their_cause() {
    let enc = scratchback::codec::Encoding::new();
    let schema = RecordSchema::new(vec![field(0, "age", FieldType::U8)]).unwrap();
    assert_eq!(schema.decode("9"), Err(DecodeError::MalformedNumeral));
    assert_eq!(schema.decode("99"), Err(DecodeError::MalformedNumeral));
    // two items against a one-field schema
    let two = enc.encode_items(&["1", "2"]).unwrap();
    assert_eq!(schema.decode(&two), Err(DecodeError::ArityMismatch));
    // u8 field bounds: "255" parses, "256" does not
    let ok = enc.encode("255").unwrap();
    assert_eq!(schema.decode(&ok).unwrap(), vec![FieldValue::U8(255)]);
    let over = enc.encode("256").unwrap();
    assert_eq!(schema.decode(&over), Err(DecodeError::FieldParseError));
    let text = enc.encode("abc").unwrap();
    assert_eq!(schema.decode(&text), Err(DecodeError::FieldParseError));
}

#[test]
fn schema_construction_rejects_duplicates() {
    let r = RecordSchema::new(vec![
        field(3, "a", FieldType::U8),
        field(3, "b", FieldType::U8),
    ]);
    assert!(matches!(r, Err(SchemaError::DuplicateIdentifier)));
}

#[test]
fn schema_construction_rejects_bad_flatten() {
    // flatten not last
    let r = RecordSchema::new(vec![flatten_field("extras"), field(0, "a", FieldType::U8)]);
    assert!(matches!(r, Err(SchemaError::InvalidFlatten)));
    // two flatten fields
    let r = RecordSchema::new(vec![flatten_field("e1"), flatten_field("e2")]);
    assert!(matches!(r, Err(SchemaError::InvalidFlatten)));
    // flatten must be a string list
    let r = RecordSchema::new(vec![FieldDef {
        id: 0,
        name: "e".to_string(),
        ty: FieldType::Str,
        flatten: true,
    }]);
    assert!(matches!(r, Err(SchemaError::InvalidFlatten)));
    // a string list on a fixed field is invalid
    let r = RecordSchema::new(vec![field(0, "l", FieldType::StrList)]);
    assert!(matches!(r, Err(SchemaError::InvalidFlatten)));
}

fn name_payload() -> RecordSchema {
    RecordSchema::new(vec![field(0, "name", FieldType::Str)]).unwrap()
}

#[test]
fn union_round_trip_two_digit_identifier() {
    let union = UnionSchema::new(vec![VariantDef {
        id: 10,
        name: "Player".to_string(),
        payload: name_payload(),
    }])
    .unwrap();
    let values = vec![FieldValue::Str("asdf".to_string())];
    let wire = union.encode(0, &values).unwrap();
    let (idx, decoded) = union.decode(&wire).unwrap();
    assert_eq!(idx, 0);
    assert_eq!(decoded, values);
}

#[test]
fn union_round_trip_single_digit_identifier() {
    let union = UnionSchema::new(vec![
        VariantDef { id: 3, name: "A".to_string(), payload: name_payload() },
        VariantDef { id: 7, name: "B".to_string(), payload: name_payload() },
    ])
    .unwrap();
    let values = vec![FieldValue::Str("hello world".to_string())];
    let wire = union.encode(1, &values).unwrap();
    let (idx, decoded) = union.decode(&wire).unwrap();
    assert_eq!(idx, 1);
    assert_eq!(decoded, values);
}

#[test]
fn union_wire_shape_single_digit() {
    // identifier 3 renders as "3" (index 4 -> numeral 04), then the separator
    // numeral 97, then the payload record's wire form
    let union = UnionSchema::new(vec![VariantDef {
        id: 3,
        name: "A".to_string(),
        payload: name_payload(),
    }])
    .unwrap();
    let enc = scratchback::codec::Encoding::new();
    let wire = union.encode(0, &vec![FieldValue::Str("x".to_string())]).unwrap();
    let payload = enc.encode("x").unwrap();
    assert_eq!(wire, format!("0497{payload}"));
}

#[test]
fn union_rejects_unknown_tag_and_bad_payload() {
    let union3 = UnionSchema::new(vec![VariantDef {
        id: 3,
        name: "A".to_string(),
        payload: name_payload(),
    }])
    .unwrap();
    let union5 = UnionSchema::new(vec![VariantDef {
        id: 5,
        name: "A".to_string(),
        payload: name_payload(),
    }])
    .unwrap();
    let wire = union3.encode(0, &vec![FieldValue::Str("x".to_string())]).unwrap();
    assert_eq!(union5.decode(&wire), Err(DecodeError::UnknownTag));
    assert_eq!(union3.decode("04"), Err(DecodeError::MalformedNumeral));
    assert_eq!(union3.decode("0497"), Err(DecodeError::ArityMismatch));
    assert_eq!(union3.encode(1, &vec![FieldValue::Str("x".to_string())]), None);
}

#[test]
fn union_construction_rejects_duplicates() {
    let r = UnionSchema::new(vec![
        VariantDef { id: 9, name: "A".to_string(), payload: name_payload() },
        VariantDef { id: 9, name: "B".to_string(), payload: name_payload() },
    ]);
    assert!(matches!(r, Err(SchemaError::DuplicateIdentifier)));
}
