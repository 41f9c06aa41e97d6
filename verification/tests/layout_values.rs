use anchor_snapshot::anchor_idl::TypeEnum;
use anchor_snapshot::layout::{decode, DecodeError, Fault, MAX_NESTING};
use anchor_snapshot::schema::{FieldDef, FieldType, Schema, TypeBody, TypeDef, VariantDef};
use anchor_snapshot::text::to_decimal;
use anchor_snapshot::value::ValueTree;
use anchor_snapshot::wire::read_le;

fn prim(tag: TypeEnum) -> FieldType {
    FieldType::Primitive(tag)
}

fn named(name: &str) -> FieldType {
    FieldType::Defined(name.to_string())
}

fn fld(name: &str, ty: FieldType) -> FieldDef {
    FieldDef { name: name.to_string(), ty }
}

fn structure(name: &str, fields: Vec<FieldDef>) -> TypeDef {
    TypeDef { name: name.to_string(), body: TypeBody::Struct(fields) }
}

fn schema_with(accounts: Vec<TypeDef>, types: Vec<TypeDef>) -> Schema {
    Schema {
        version: "1.0.0".to_string(),
        name: "layouts".to_string(),
        accounts,
        types,
        instructions: Vec::new(),
        events: Vec::new(),
        errors: Vec::new(),
    }
}

fn text(s: &str) -> ValueTree {
    ValueTree::Text(s.to_string())
}

fn member(name: &str, value: ValueTree) -> (String, ValueTree) {
    (name.to_string(), value)
}

fn path_of(parts: &[&str]) -> Vec<String> {
    parts.iter().map(|p| p.to_string()).collect()
}

fn mixed_schema() -> Schema {
    let fees = structure(
        "Fees",
        vec![fld("numerator", prim(TypeEnum::U64)), fld("denominator", prim(TypeEnum::U64))],
    );
    let curve = TypeDef {
        name: "Curve".to_string(),
        body: TypeBody::Enum(vec![
            VariantDef { name: "ConstantProduct".to_string(), fields: None },
            VariantDef {
                name: "Stable".to_string(),
                fields: Some(vec![fld("amp", prim(TypeEnum::U64)), fld("fees", named("Fees"))]),
            },
            VariantDef { name: "Empty".to_string(), fields: Some(Vec::new()) },
        ]),
    };
    let mixed = structure(
        "Mixed",
        vec![
            fld("flag", prim(TypeEnum::Bool)),
            fld("small", prim(TypeEnum::U8)),
            fld("count", prim(TypeEnum::U32)),
            fld("amount", prim(TypeEnum::U64)),
            fld("big", prim(TypeEnum::U128)),
            fld("ratio", prim(TypeEnum::F64)),
            fld("owner", prim(TypeEnum::PublicKey)),
            fld("pad", FieldType::Array(Box::new(prim(TypeEnum::U8)), 4)),
            fld("maybe", FieldType::Optional(Box::new(prim(TypeEnum::U32)))),
            fld("fees", named("Fees")),
            fld("curve", named("Curve")),
        ],
    );
    schema_with(vec![mixed], vec![fees, curve])
}

#[test]
fn decimal_text_of_numbers() {
    assert_eq!(to_decimal(0), "0");
    assert_eq!(to_decimal(7), "7");
    assert_eq!(to_decimal(10), "10");
    assert_eq!(to_decimal(1_000_000), "1000000");
    assert_eq!(to_decimal(u64::MAX as u128), "18446744073709551615");
    assert_eq!(to_decimal(u128::MAX), "340282366920938463463374607431768211455");
}

#[test]
fn little_endian_reads() {
    let bytes = [0x01u8, 0x02, 0x03, 0x04, 0xff];
    assert_eq!(read_le(&bytes, 0, 0), 0);
    assert_eq!(read_le(&bytes, 0, 1), 1);
    assert_eq!(read_le(&bytes, 0, 2), 0x0201);
    assert_eq!(read_le(&bytes, 0, 4), 0x0403_0201);
    assert_eq!(read_le(&bytes, 1, 4), 0xff04_0302);
    let wide = [0xffu8; 16];
    assert_eq!(read_le(&wide, 0, 16), u128::MAX);
}

#[test]
fn every_kind_of_field_matches_the_borsh_layout() {
    let key = [7u8; 32];
    let ratio = 1.5f64;
    let bytes = borsh::to_vec(&(
        true,
        200u8,
        70_000u32,
        u64::MAX,
        u128::MAX - 1,
        ratio,
        key,
        [9u8, 8, 7, 6],
        Some(5u32),
        (3u64, 1000u64),
        (1u8, 42u64, (1u64, 2u64)),
    ))
    .unwrap();
    let tree = decode(&mixed_schema(), "Mixed", &bytes).unwrap();
    let owner = solana_program::pubkey::Pubkey::new_from_array(key).to_string();
    let expected = ValueTree::Record(vec![
        member("flag", ValueTree::Bool(true)),
        member("small", ValueTree::Number(200)),
        member("count", ValueTree::Number(70_000)),
        member("amount", text("18446744073709551615")),
        member("big", text("340282366920938463463374607431768211454")),
        member("ratio", ValueTree::Float(ratio.to_bits())),
        member("owner", text(&owner)),
        member(
            "pad",
            ValueTree::List(vec![
                ValueTree::Number(9),
                ValueTree::Number(8),
                ValueTree::Number(7),
                ValueTree::Number(6),
            ]),
        ),
        member("maybe", ValueTree::Number(5)),
        member(
            "fees",
            ValueTree::Record(vec![member("numerator", text("3")), member("denominator", text("1000"))]),
        ),
        member(
            "curve",
            ValueTree::Record(vec![member(
                "Stable",
                ValueTree::Record(vec![
                    member("amp", text("42")),
                    member(
                        "fees",
                        ValueTree::Record(vec![
                            member("numerator", text("1")),
                            member("denominator", text("2")),
                        ]),
                    ),
                ]),
            )]),
        ),
    ]);
    assert_eq!(tree, expected);
}

#[test]
fn known_key_renders_in_base58() {
    let schema = schema_with(
        vec![structure("Owner", vec![fld("key", prim(TypeEnum::PublicKey))])],
        Vec::new(),
    );
    let mut key = [0u8; 32];
    key[31] = 1;
    let tree = decode(&schema, "Owner", &key).unwrap();
    assert_eq!(
        tree,
        ValueTree::Record(vec![member("key", text("11111111111111111111111111111112"))])
    );
}

#[test]
fn trailing_bytes_are_left_alone() {
    let schema = schema_with(
        vec![structure("Widget", vec![fld("enabled", prim(TypeEnum::Bool))])],
        Vec::new(),
    );
    let tree = decode(&schema, "Widget", &[0, 0xaa, 0xbb, 0xcc]).unwrap();
    assert_eq!(tree, ValueTree::Record(vec![member("enabled", ValueTree::Bool(false))]));
}

#[test]
fn absent_optional_is_null_and_takes_one_byte() {
    let schema = schema_with(
        vec![structure(
            "Opt",
            vec![
                fld("maybe", FieldType::Optional(Box::new(prim(TypeEnum::U64)))),
                fld("after", prim(TypeEnum::U8)),
            ],
        )],
        Vec::new(),
    );
    let tree = decode(&schema, "Opt", &[0, 9]).unwrap();
    assert_eq!(
        tree,
        ValueTree::Record(vec![member("maybe", ValueTree::Null), member("after", ValueTree::Number(9))])
    );
    let bytes = borsh::to_vec(&(Some(77u64), 3u8)).unwrap();
    let tree = decode(&schema, "Opt", &bytes).unwrap();
    assert_eq!(
        tree,
        ValueTree::Record(vec![member("maybe", text("77")), member("after", ValueTree::Number(3))])
    );
}

#[test]
fn variant_without_fields_is_its_name() {
    let schema = mixed_schema();
    let holder = schema_with(
        vec![structure("Holder", vec![fld("curve", named("Curve")), fld("next", prim(TypeEnum::U8))])],
        schema.types,
    );
    let tree = decode(&holder, "Holder", &[0, 5]).unwrap();
    assert_eq!(
        tree,
        ValueTree::Record(vec![
            member("curve", text("ConstantProduct")),
            member("next", ValueTree::Number(5)),
        ])
    );
    let tree = decode(&holder, "Holder", &[2, 5]).unwrap();
    assert_eq!(
        tree,
        ValueTree::Record(vec![
            member("curve", ValueTree::Record(vec![member("Empty", ValueTree::Record(Vec::new()))])),
            member("next", ValueTree::Number(5)),
        ])
    );
}

#[test]
fn invalid_discriminant_names_the_tag_and_the_field() {
    let schema = mixed_schema();
    let holder = schema_with(
        vec![structure("Holder", vec![fld("curve", named("Curve"))])],
        schema.types,
    );
    let error = decode(&holder, "Holder", &[3]).unwrap_err();
    assert_eq!(error, DecodeError::InvalidVariant { tag: 3, path: path_of(&["curve"]) });
    assert_eq!(error.fault(), Fault::InvalidVariant(3));
    assert_eq!(error.path(), &path_of(&["curve"]));
    let error = decode(&holder, "Holder", &[]).unwrap_err();
    assert_eq!(error, DecodeError::Truncated { path: path_of(&["curve"]) });
}

#[test]
fn truncation_inside_a_variant_names_the_whole_path() {
    let schema = mixed_schema();
    let holder = schema_with(
        vec![structure("Holder", vec![fld("curve", named("Curve"))])],
        schema.types,
    );
    let mut bytes = vec![1u8];
    bytes.extend_from_slice(&42u64.to_le_bytes());
    bytes.extend_from_slice(&1u64.to_le_bytes());
    bytes.extend_from_slice(&[0u8; 7]);
    let error = decode(&holder, "Holder", &bytes).unwrap_err();
    assert_eq!(
        error,
        DecodeError::Truncated { path: path_of(&["curve", "Stable", "fees", "denominator"]) }
    );
}

#[test]
fn bytes_that_are_no_boolean_or_presence_flag_mismatch() {
    let schema = schema_with(
        vec![
            structure("Flag", vec![fld("on", prim(TypeEnum::Bool))]),
            structure("Opt", vec![fld("maybe", FieldType::Optional(Box::new(prim(TypeEnum::U8))))]),
        ],
        Vec::new(),
    );
    assert_eq!(
        decode(&schema, "Flag", &[2]).unwrap_err(),
        DecodeError::FieldMismatch { path: path_of(&["on"]) }
    );
    assert_eq!(
        decode(&schema, "Opt", &[2, 0]).unwrap_err(),
        DecodeError::FieldMismatch { path: path_of(&["maybe"]) }
    );
    assert_eq!(
        decode(&schema, "Opt", &[1]).unwrap_err(),
        DecodeError::Truncated { path: path_of(&["maybe"]) }
    );
}

#[test]
fn unknown_names_mismatch() {
    let schema = schema_with(
        vec![structure("Holder", vec![fld("inner", named("Missing"))])],
        Vec::new(),
    );
    assert_eq!(
        decode(&schema, "Nobody", &[1, 2, 3]).unwrap_err(),
        DecodeError::FieldMismatch { path: Vec::new() }
    );
    assert_eq!(
        decode(&schema, "Holder", &[1, 2, 3]).unwrap_err(),
        DecodeError::FieldMismatch { path: path_of(&["inner"]) }
    );
}

#[test]
fn references_nest_up_to_the_limit() {
    let node = structure(
        "Node",
        vec![fld("next", FieldType::Optional(Box::new(named("Node"))))],
    );
    let schema = schema_with(vec![structure("Head", vec![fld("list", named("Node"))])], vec![node]);
    let mut bytes = vec![1u8; MAX_NESTING - 1];
    bytes.push(0);
    assert!(decode(&schema, "Head", &bytes).is_ok());
    let mut bytes = vec![1u8; MAX_NESTING];
    bytes.push(0);
    match decode(&schema, "Head", &bytes).unwrap_err() {
        DecodeError::FieldMismatch { path } => assert_eq!(path.len(), MAX_NESTING + 1),
        other => panic!("unexpected: {:?}", other),
    }
}

#[test]
fn a_type_that_refers_to_itself_without_bytes_stops_at_the_limit() {
    let knot = structure("Knot", vec![fld("again", named("Knot"))]);
    let schema = schema_with(vec![structure("Head", vec![fld("knot", named("Knot"))])], vec![knot]);
    assert!(matches!(
        decode(&schema, "Head", &[]),
        Err(DecodeError::FieldMismatch { .. })
    ));
}

#[test]
fn array_of_structs_decodes_each_element() {
    let pair = structure("Pair", vec![fld("a", prim(TypeEnum::U8)), fld("b", prim(TypeEnum::U8))]);
    let schema = schema_with(
        vec![structure("Grid", vec![fld("cells", FieldType::Array(Box::new(named("Pair")), 2))])],
        vec![pair],
    );
    let tree = decode(&schema, "Grid", &[1, 2, 3, 4]).unwrap();
    let cell = |a: u64, b: u64| {
        ValueTree::Record(vec![member("a", ValueTree::Number(a)), member("b", ValueTree::Number(b))])
    };
    assert_eq!(
        tree,
        ValueTree::Record(vec![member("cells", ValueTree::List(vec![cell(1, 2), cell(3, 4)]))])
    );
    let error = decode(&schema, "Grid", &[1, 2, 3]).unwrap_err();
    assert_eq!(error, DecodeError::Truncated { path: path_of(&["cells", "1", "b"]) });
}
