use anchor_snapshot::account::{decode_blob, AccountError};
use anchor_snapshot::anchor_idl::TypeEnum;
use anchor_snapshot::layout::{decode, DecodeError};
use anchor_snapshot::resolver::{discriminator_of, resolve, ResolveError};
use anchor_snapshot::schema::{FieldDef, FieldType, Schema, TypeBody, TypeDef};
use anchor_snapshot::value::ValueTree;

fn field(name: &str, ty: FieldType) -> FieldDef {
    FieldDef { name: name.to_string(), ty }
}

fn schema_of(accounts: Vec<TypeDef>, types: Vec<TypeDef>) -> Schema {
    Schema {
        version: "0.1.0".to_string(),
        name: "demo".to_string(),
        accounts,
        types,
        instructions: Vec::new(),
        events: Vec::new(),
        errors: Vec::new(),
    }
}

fn widget_schema() -> Schema {
    schema_of(
        vec![TypeDef {
            name: "Widget".to_string(),
            body: TypeBody::Struct(vec![field("enabled", FieldType::Primitive(TypeEnum::Bool))]),
        }],
        Vec::new(),
    )
}

fn record_of(tree: &ValueTree) -> &Vec<(String, ValueTree)> {
    match tree {
        ValueTree::Record(members) => members,
        other => panic!("not a record: {:?}", other),
    }
}

#[test]
fn discriminator_is_leading_bytes_of_sha256() {
    assert_eq!(discriminator_of("Widget"), vec![38, 137, 150, 175, 34, 211, 52, 53]);
    assert_eq!(discriminator_of("Pool"), vec![241, 154, 109, 4, 17, 177, 109, 188]);
    assert_eq!(discriminator_of("").len(), 8);
}

#[test]
fn widget_blob_decodes_to_enabled_true() {
    let schema = widget_schema();
    let mut blob = discriminator_of("Widget");
    blob.push(0x01);
    let (name, rest) = resolve(&schema, &blob).unwrap();
    assert_eq!(name, "Widget");
    assert_eq!(rest, &[0x01u8][..]);
    let tree = decode(&schema, &name, rest).unwrap();
    let members = record_of(&tree);
    assert_eq!(members.len(), 1);
    assert_eq!(members[0].0, "enabled");
    assert!(matches!(members[0].1, ValueTree::Bool(true)));
}

#[test]
fn seven_byte_blob_is_too_short() {
    let schema = widget_schema();
    let blob = [0u8; 7];
    assert!(matches!(resolve(&schema, &blob), Err(ResolveError::TooShort)));
    let registered = vec!["Widget".to_string()];
    assert!(matches!(
        decode_blob(&schema, &registered, "acct", &blob),
        Err(AccountError::TooShort)
    ));
}

#[test]
fn foreign_prefix_gives_unknown_fallback() {
    let schema = widget_schema();
    let blob = [0xde, 0xad, 0xbe, 0xef, 0x00, 0x01, 0x02, 0xff, 0x01];
    match resolve(&schema, &blob) {
        Err(ResolveError::Unknown(tag)) => assert_eq!(tag, "deadbeef000102ff"),
        other => panic!("unexpected: {:?}", other.map(|(n, _)| n)),
    }
    let registered = vec!["Widget".to_string()];
    let account = decode_blob(&schema, &registered, "acct-1", &blob).unwrap();
    assert_eq!(account.pubkey, "acct-1");
    assert_eq!(account.account_type, "Unknown");
    let members = record_of(&account.data);
    assert_eq!(members.len(), 1);
    assert_eq!(members[0].0, "discriminator");
    match &members[0].1 {
        ValueTree::Text(hex) => assert_eq!(hex, "deadbeef000102ff"),
        other => panic!("not text: {:?}", other),
    }
}

#[test]
fn short_array_is_truncated() {
    let schema = schema_of(
        vec![TypeDef {
            name: "Holder".to_string(),
            body: TypeBody::Struct(vec![field(
                "bytes",
                FieldType::Array(Box::new(FieldType::Primitive(TypeEnum::U8)), 4),
            )]),
        }],
        Vec::new(),
    );
    match decode(&schema, "Holder", &[1, 2, 3]) {
        Err(DecodeError::Truncated { path }) => {
            assert_eq!(path, vec!["bytes".to_string(), "3".to_string()])
        }
        other => panic!("unexpected: {:?}", other),
    }
}

#[test]
fn zero_key_renders_as_base58_ones() {
    let schema = schema_of(
        vec![TypeDef {
            name: "Owner".to_string(),
            body: TypeBody::Struct(vec![field("key", FieldType::Primitive(TypeEnum::PublicKey))]),
        }],
        Vec::new(),
    );
    let tree = decode(&schema, "Owner", &[0u8; 32]).unwrap();
    match &record_of(&tree)[0].1 {
        ValueTree::Text(text) => assert_eq!(text, "11111111111111111111111111111111"),
        other => panic!("not text: {:?}", other),
    }
}
