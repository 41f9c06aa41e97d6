use anchor_snapshot::anchor_idl::{
    AccountType, AmbitiousType, AnchorIdl, AnchorIdlAccount, Arg, ArgType, Array, Error, Event,
    EventField, FluffyField, FluffyType, HilariousType, IndecentType, IndigoType, Instruction,
    InstructionAccount, Kind, PurpleField, PurpleType, StickyType, TentacledType, TypeElement,
    TypeEnum, Variant, VariantField,
};
use anchor_snapshot::layout::decode;
use anchor_snapshot::loader::{load, normalize};
use anchor_snapshot::schema::{
    find_named, FieldDef, FieldType, Schema, SchemaError, TypeBody, TypeDef, VariantDef,
};
use anchor_snapshot::value::ValueTree;

fn struct_account(name: &str, fields: Vec<PurpleField>) -> AnchorIdlAccount {
    AnchorIdlAccount {
        name: name.to_string(),
        account_type: AccountType { kind: Kind::Struct, fields: Some(fields), variants: None },
        docs: None,
    }
}

fn enum_account(name: &str, variants: Vec<Variant>) -> AnchorIdlAccount {
    AnchorIdlAccount {
        name: name.to_string(),
        account_type: AccountType { kind: Kind::Enum, fields: None, variants: Some(variants) },
        docs: None,
    }
}

fn purple(name: &str, field_type: IndecentType) -> PurpleField {
    PurpleField { name: name.to_string(), field_type, docs: None }
}

fn tag(t: TypeEnum) -> AmbitiousType {
    AmbitiousType::Enum(t)
}

fn object(
    defined: Option<&str>,
    type_option: Option<AmbitiousType>,
    array: Option<Vec<Array>>,
) -> IndigoType {
    IndigoType {
        defined: defined.map(|d| d.to_string()),
        type_option: type_option.map(Box::new),
        array,
    }
}

fn purple_object(
    defined: Option<&str>,
    type_option: Option<AmbitiousType>,
    array: Option<Vec<Array>>,
) -> IndecentType {
    IndecentType::PurpleType(PurpleType {
        defined: defined.map(|d| d.to_string()),
        type_option: type_option.map(Box::new),
        array,
    })
}

fn fluffy(name: &str, field_type: AmbitiousType) -> FluffyField {
    FluffyField { name: name.to_string(), docs: None, field_type }
}

fn indigo(
    defined: Option<&str>,
    type_option: Option<AmbitiousType>,
    array: Option<Vec<Array>>,
) -> AmbitiousType {
    AmbitiousType::IndigoType(object(defined, type_option, array))
}

fn variant_field(name: &str, field_type: HilariousType) -> VariantField {
    VariantField { name: name.to_string(), docs: None, field_type }
}

fn hilarious_object(
    defined: Option<&str>,
    type_option: Option<AmbitiousType>,
    array: Option<Vec<Array>>,
) -> HilariousType {
    HilariousType::FluffyType(FluffyType {
        defined: defined.map(|d| d.to_string()),
        type_option: type_option.map(Box::new),
        array,
    })
}

fn pair(elem: Array, len: i64) -> Vec<Array> {
    vec![elem, Array::Integer(len)]
}

fn struct_type(name: &str, fields: Vec<FluffyField>) -> TypeElement {
    TypeElement {
        name: name.to_string(),
        docs: None,
        type_type: StickyType { kind: Kind::Struct, fields: Some(fields), variants: None },
    }
}

fn enum_type(name: &str, variants: Vec<Variant>) -> TypeElement {
    TypeElement {
        name: name.to_string(),
        docs: None,
        type_type: StickyType { kind: Kind::Enum, fields: None, variants: Some(variants) },
    }
}

fn variant(name: &str, fields: Option<Vec<VariantField>>) -> Variant {
    Variant { name: name.to_string(), fields }
}

fn document(accounts: Vec<AnchorIdlAccount>, types: Vec<TypeElement>) -> AnchorIdl {
    AnchorIdl {
        version: "0.2.1".to_string(),
        name: "amm".to_string(),
        docs: vec!["pool program".to_string()],
        instructions: vec![Instruction {
            name: "swap".to_string(),
            docs: Vec::new(),
            accounts: vec![InstructionAccount {
                name: "pool".to_string(),
                is_mut: true,
                is_signer: false,
                docs: None,
            }],
            args: vec![Arg {
                name: "amount".to_string(),
                arg_type: ArgType::TentacledType(TentacledType {
                    defined: None,
                    type_option: Some(Box::new(tag(TypeEnum::U64))),
                    array: None,
                }),
            }],
        }],
        accounts,
        types,
        events: vec![Event {
            name: "Swapped".to_string(),
            fields: vec![EventField {
                name: "amount".to_string(),
                field_type: HilariousType::Enum(TypeEnum::U64),
                index: false,
            }],
        }],
        errors: vec![Error { code: 6000, name: "MathOverflow".to_string(), msg: "overflow".to_string() }],
    }
}

fn pool_document() -> AnchorIdl {
    document(
        vec![struct_account(
            "Pool",
            vec![
                purple("enabled", IndecentType::Enum(TypeEnum::Bool)),
                purple("fees", purple_object(Some("PoolFees"), None, None)),
                purple(
                    "padding",
                    purple_object(None, None, Some(pair(Array::Enum(TypeEnum::U8), 24))),
                ),
                purple("curve", purple_object(Some("CurveType"), None, None)),
            ],
        )],
        vec![
            struct_type(
                "PoolFees",
                vec![
                    fluffy("numerator", tag(TypeEnum::U64)),
                    fluffy("partner", indigo(None, Some(tag(TypeEnum::PublicKey)), None)),
                    fluffy("reserved", indigo(None, None, Some(pair(Array::Enum(TypeEnum::U64), 3)))),
                ],
            ),
            enum_type(
                "CurveType",
                vec![
                    variant("ConstantProduct", None),
                    variant(
                        "Stable",
                        Some(vec![
                            variant_field("amp", HilariousType::Enum(TypeEnum::U64)),
                            variant_field("fees", hilarious_object(Some("PoolFees"), None, None)),
                        ]),
                    ),
                ],
            ),
        ],
    )
}

fn fd(name: &str, ty: FieldType) -> FieldDef {
    FieldDef { name: name.to_string(), ty }
}

fn prim(t: TypeEnum) -> FieldType {
    FieldType::Primitive(t)
}

fn array_of(elem: FieldType, len: u64) -> FieldType {
    FieldType::Array(Box::new(elem), len)
}

fn optional(inner: FieldType) -> FieldType {
    FieldType::Optional(Box::new(inner))
}

fn named(name: &str) -> FieldType {
    FieldType::Defined(name.to_string())
}

#[test]
fn document_becomes_the_schema_with_every_union_resolved() {
    let schema = load(pool_document()).unwrap();
    assert_eq!(schema.version, "0.2.1");
    assert_eq!(schema.name, "amm");
    assert_eq!(
        schema.accounts,
        vec![TypeDef {
            name: "Pool".to_string(),
            body: TypeBody::Struct(vec![
                fd("enabled", prim(TypeEnum::Bool)),
                fd("fees", named("PoolFees")),
                fd("padding", array_of(prim(TypeEnum::U8), 24)),
                fd("curve", named("CurveType")),
            ]),
        }]
    );
    assert_eq!(
        schema.types,
        vec![
            TypeDef {
                name: "PoolFees".to_string(),
                body: TypeBody::Struct(vec![
                    fd("numerator", prim(TypeEnum::U64)),
                    fd("partner", optional(prim(TypeEnum::PublicKey))),
                    fd("reserved", array_of(prim(TypeEnum::U64), 3)),
                ]),
            },
            TypeDef {
                name: "CurveType".to_string(),
                body: TypeBody::Enum(vec![
                    VariantDef { name: "ConstantProduct".to_string(), fields: None },
                    VariantDef {
                        name: "Stable".to_string(),
                        fields: Some(vec![fd("amp", prim(TypeEnum::U64)), fd("fees", named("PoolFees"))]),
                    },
                ]),
            },
        ]
    );
}

#[test]
fn account_fields_take_every_form_of_type() {
    let tags = [
        TypeEnum::Bool,
        TypeEnum::U8,
        TypeEnum::U32,
        TypeEnum::U64,
        TypeEnum::U128,
        TypeEnum::F64,
        TypeEnum::PublicKey,
    ];
    let mut fields: Vec<PurpleField> =
        tags.iter().map(|t| purple("p", IndecentType::Enum(*t))).collect();
    fields.push(purple("d", purple_object(Some("Inner"), None, None)));
    fields.push(purple("a", purple_object(None, None, Some(pair(Array::Enum(TypeEnum::U8), 4)))));
    fields.push(purple("o", purple_object(None, Some(tag(TypeEnum::U64)), None)));
    let schema = load(document(
        vec![struct_account("All", fields)],
        vec![struct_type("Inner", Vec::new())],
    ))
    .unwrap();
    let mut expected: Vec<FieldDef> = tags.iter().map(|t| fd("p", prim(*t))).collect();
    expected.push(fd("d", named("Inner")));
    expected.push(fd("a", array_of(prim(TypeEnum::U8), 4)));
    expected.push(fd("o", optional(prim(TypeEnum::U64))));
    assert_eq!(
        schema.accounts,
        vec![TypeDef { name: "All".to_string(), body: TypeBody::Struct(expected) }]
    );
}

#[test]
fn enum_account_keeps_its_variants_in_order() {
    let idl = document(
        vec![
            struct_account("First", vec![purple("x", IndecentType::Enum(TypeEnum::U8))]),
            enum_account(
                "State",
                vec![
                    variant("Idle", None),
                    variant(
                        "Running",
                        Some(vec![
                            variant_field("since", HilariousType::Enum(TypeEnum::U64)),
                            variant_field(
                                "owner",
                                hilarious_object(None, Some(tag(TypeEnum::PublicKey)), None),
                            ),
                            variant_field(
                                "slots",
                                hilarious_object(None, None, Some(pair(Array::Enum(TypeEnum::U32), 2))),
                            ),
                        ]),
                    ),
                    variant("Done", Some(Vec::new())),
                ],
            ),
            struct_account("Last", Vec::new()),
        ],
        Vec::new(),
    );
    let schema = load(idl).unwrap();
    let names: Vec<&str> = schema.accounts.iter().map(|a| a.name.as_str()).collect();
    assert_eq!(names, vec!["First", "State", "Last"]);
    assert_eq!(
        schema.accounts[1].body,
        TypeBody::Enum(vec![
            VariantDef { name: "Idle".to_string(), fields: None },
            VariantDef {
                name: "Running".to_string(),
                fields: Some(vec![
                    fd("since", prim(TypeEnum::U64)),
                    fd("owner", optional(prim(TypeEnum::PublicKey))),
                    fd("slots", array_of(prim(TypeEnum::U32), 2)),
                ]),
            },
            VariantDef { name: "Done".to_string(), fields: Some(Vec::new()) },
        ])
    );
    let tree = decode(&schema, "State", &[1, 7, 0, 0, 0, 0, 0, 0, 0, 0, 1, 0, 0, 0, 2, 0, 0, 0]).unwrap();
    assert_eq!(
        tree,
        ValueTree::Record(vec![(
            "Running".to_string(),
            ValueTree::Record(vec![
                ("since".to_string(), ValueTree::Text("7".to_string())),
                ("owner".to_string(), ValueTree::Null),
                ("slots".to_string(), ValueTree::List(vec![ValueTree::Number(1), ValueTree::Number(2)])),
            ]),
        )])
    );
    assert_eq!(
        decode(&schema, "State", &[0]).unwrap(),
        ValueTree::Text("Idle".to_string())
    );
}

#[test]
fn element_and_inner_types_may_be_any_type() {
    let array_of_options = indigo(
        None,
        None,
        Some(pair(Array::IndigoType(object(None, Some(indigo(Some("Leaf"), None, None)), None)), 2)),
    );
    let option_of_array = indigo(
        None,
        Some(indigo(None, None, Some(pair(Array::Enum(TypeEnum::U8), 3)))),
        None,
    );
    let array_of_arrays = indigo(
        None,
        None,
        Some(pair(
            Array::IndigoType(object(None, None, Some(pair(Array::Enum(TypeEnum::U64), 2)))),
            5,
        )),
    );
    let option_of_option = purple_object(None, Some(indigo(None, Some(tag(TypeEnum::Bool)), None)), None);
    let schema = load(document(
        vec![struct_account("Acct", vec![purple("oo", option_of_option)])],
        vec![
            struct_type("Leaf", Vec::new()),
            struct_type(
                "Nest",
                vec![
                    fluffy("ao", array_of_options),
                    fluffy("oa", option_of_array),
                    fluffy("aa", array_of_arrays),
                ],
            ),
        ],
    ))
    .unwrap();
    assert_eq!(
        schema.accounts[0].body,
        TypeBody::Struct(vec![fd("oo", optional(optional(prim(TypeEnum::Bool))))])
    );
    assert_eq!(
        schema.types[1].body,
        TypeBody::Struct(vec![
            fd("ao", array_of(optional(named("Leaf")), 2)),
            fd("oa", optional(array_of(prim(TypeEnum::U8), 3))),
            fd("aa", array_of(array_of(prim(TypeEnum::U64), 2), 5)),
        ])
    );
}

#[test]
fn instructions_events_and_errors_are_carried_through() {
    let schema = load(pool_document()).unwrap();
    assert_eq!(schema.instructions.len(), 1);
    assert_eq!(schema.instructions[0].accounts.len(), 1);
    assert_eq!(schema.instructions[0].args.len(), 1);
    assert_eq!(format!("{:?}", schema.instructions), format!("{:?}", pool_document().instructions));
    assert_eq!(format!("{:?}", schema.events), format!("{:?}", pool_document().events));
    assert_eq!(format!("{:?}", schema.errors), format!("{:?}", pool_document().errors));
}

#[test]
fn loaded_schema_resolves_names_to_named_types_first() {
    let schema = load(pool_document()).unwrap();
    assert_eq!(schema.find(&"PoolFees".to_string()).map(|d| d.name.as_str()), Some("PoolFees"));
    assert_eq!(schema.find(&"Pool".to_string()).map(|d| d.name.as_str()), Some("Pool"));
    assert!(schema.find(&"Vault".to_string()).is_none());
    assert_eq!(find_named(&schema.types, &"CurveType".to_string()), Some(1));
    assert_eq!(find_named(&schema.types, &"Pool".to_string()), None);
    assert_eq!(schema.validate(), Ok(()));
}

#[test]
fn array_pair_of_another_shape_is_malformed() {
    let bad_pairs = vec![
        vec![Array::Enum(TypeEnum::U8)],
        vec![Array::Integer(4), Array::Enum(TypeEnum::U8)],
        vec![Array::Enum(TypeEnum::U8), Array::Integer(-1)],
        vec![Array::Enum(TypeEnum::U8), Array::Integer(1), Array::Integer(2)],
        vec![Array::Integer(1), Array::Integer(2)],
        vec![Array::Enum(TypeEnum::U8), Array::Enum(TypeEnum::U8)],
        vec![Array::IndigoType(object(None, None, None)), Array::Integer(2)],
        Vec::new(),
    ];
    for bad in bad_pairs {
        let idl = document(
            vec![struct_account("A", vec![purple("x", purple_object(None, None, Some(bad)))])],
            Vec::new(),
        );
        assert_eq!(normalize(idl).unwrap_err(), SchemaError::Malformed);
    }
    let idl = document(
        vec![struct_account(
            "A",
            vec![purple("x", purple_object(None, None, Some(pair(Array::Enum(TypeEnum::U8), 0))))],
        )],
        Vec::new(),
    );
    assert!(load(idl).is_ok());
}

#[test]
fn type_object_with_no_key_or_two_keys_is_malformed() {
    let two = document(
        vec![struct_account(
            "A",
            vec![purple("x", purple_object(Some("B"), None, Some(pair(Array::Enum(TypeEnum::U8), 1))))],
        )],
        Vec::new(),
    );
    assert_eq!(load(two).unwrap_err(), SchemaError::Malformed);
    let none = document(
        vec![struct_account("A", vec![purple("x", purple_object(None, None, None))])],
        Vec::new(),
    );
    assert_eq!(load(none).unwrap_err(), SchemaError::Malformed);
    let both = document(
        Vec::new(),
        vec![struct_type("T", vec![fluffy("x", indigo(Some("T"), Some(tag(TypeEnum::U8)), None))])],
    );
    assert_eq!(load(both).unwrap_err(), SchemaError::Malformed);
    let inner = document(
        Vec::new(),
        vec![struct_type("T", vec![fluffy("x", indigo(None, Some(indigo(None, None, None)), None))])],
    );
    assert_eq!(load(inner).unwrap_err(), SchemaError::Malformed);
    let in_variant = document(
        vec![enum_account(
            "E",
            vec![variant("V", Some(vec![variant_field("x", hilarious_object(None, None, None))]))],
        )],
        Vec::new(),
    );
    assert_eq!(load(in_variant).unwrap_err(), SchemaError::Malformed);
}

#[test]
fn kind_that_contradicts_the_members_is_malformed() {
    let with = |kind: Kind, fields: Option<Vec<PurpleField>>, variants: Option<Vec<Variant>>| {
        document(
            vec![AnchorIdlAccount {
                name: "A".to_string(),
                account_type: AccountType { kind, fields, variants },
                docs: None,
            }],
            Vec::new(),
        )
    };
    assert_eq!(load(with(Kind::Enum, Some(Vec::new()), None)).unwrap_err(), SchemaError::Malformed);
    assert_eq!(load(with(Kind::Enum, None, None)).unwrap_err(), SchemaError::Malformed);
    assert_eq!(
        load(with(Kind::Enum, Some(Vec::new()), Some(Vec::new()))).unwrap_err(),
        SchemaError::Malformed
    );
    assert_eq!(load(with(Kind::Struct, None, Some(Vec::new()))).unwrap_err(), SchemaError::Malformed);
    assert_eq!(load(with(Kind::Struct, None, None)).unwrap_err(), SchemaError::Malformed);
    assert!(load(with(Kind::Enum, None, Some(Vec::new()))).is_ok());
    assert!(load(with(Kind::Struct, Some(Vec::new()), None)).is_ok());
    let struct_with_variants = document(
        Vec::new(),
        vec![TypeElement {
            name: "T".to_string(),
            docs: None,
            type_type: StickyType {
                kind: Kind::Struct,
                fields: Some(Vec::new()),
                variants: Some(Vec::new()),
            },
        }],
    );
    assert_eq!(load(struct_with_variants).unwrap_err(), SchemaError::Malformed);
    let enum_without_variants = document(
        Vec::new(),
        vec![TypeElement {
            name: "T".to_string(),
            docs: None,
            type_type: StickyType { kind: Kind::Enum, fields: None, variants: None },
        }],
    );
    assert_eq!(load(enum_without_variants).unwrap_err(), SchemaError::Malformed);
}

#[test]
fn first_unresolved_reference_is_reported_by_name() {
    let idl = document(
        vec![struct_account(
            "Pool",
            vec![
                purple("fees", purple_object(Some("PoolFees"), None, None)),
                purple("vault", purple_object(None, Some(indigo(Some("Vault"), None, None)), None)),
                purple("other", purple_object(Some("Other"), None, None)),
            ],
        )],
        vec![struct_type("PoolFees", vec![fluffy("inner", indigo(Some("Ghost"), None, None))])],
    );
    assert_eq!(load(idl).unwrap_err(), SchemaError::UnresolvedReference("Vault".to_string()));
    let in_variant = document(
        Vec::new(),
        vec![enum_type(
            "E",
            vec![variant(
                "V",
                Some(vec![variant_field(
                    "x",
                    hilarious_object(
                        None,
                        None,
                        Some(pair(Array::IndigoType(object(Some("Nowhere"), None, None)), 2)),
                    ),
                )]),
            )],
        )],
    );
    assert_eq!(load(in_variant).unwrap_err(), SchemaError::UnresolvedReference("Nowhere".to_string()));
}

#[test]
fn reference_to_an_account_type_resolves() {
    let idl = document(
        vec![
            struct_account("Pool", vec![purple("x", IndecentType::Enum(TypeEnum::U8))]),
            struct_account("Escrow", vec![purple("pool", purple_object(Some("Pool"), None, None))]),
        ],
        Vec::new(),
    );
    assert!(load(idl).is_ok());
}

#[test]
fn two_variants_of_one_name_are_malformed() {
    let repeated = || vec![variant("A", None), variant("B", None), variant("A", None)];
    assert_eq!(
        load(document(Vec::new(), vec![enum_type("E", repeated())])).unwrap_err(),
        SchemaError::Malformed
    );
    assert_eq!(
        load(document(vec![enum_account("E", repeated())], Vec::new())).unwrap_err(),
        SchemaError::Malformed
    );
    let normalized = normalize(document(Vec::new(), vec![enum_type("E", repeated())])).unwrap();
    assert_eq!(normalized.validate(), Err(SchemaError::Malformed));
}

#[test]
fn unresolved_reference_comes_before_repeated_variants() {
    let schema = Schema {
        version: String::new(),
        name: String::new(),
        accounts: Vec::new(),
        types: vec![
            TypeDef {
                name: "E".to_string(),
                body: TypeBody::Enum(vec![
                    VariantDef { name: "A".to_string(), fields: None },
                    VariantDef { name: "A".to_string(), fields: None },
                ]),
            },
            TypeDef {
                name: "S".to_string(),
                body: TypeBody::Struct(vec![fd("x", array_of(optional(named("Lost")), 2))]),
            },
        ],
        instructions: Vec::new(),
        events: Vec::new(),
        errors: Vec::new(),
    };
    assert_eq!(schema.validate(), Err(SchemaError::UnresolvedReference("Lost".to_string())));
}
