use crate::anchor_idl::{
    AmbitiousType, AnchorIdl, AnchorIdlAccount, Array, FluffyField, HilariousType, IndecentType,
    IndigoType, Kind, PurpleField, TypeElement, Variant, VariantField,
};
use crate::schema::{
    bad_in_defs, bad_in_fields, bad_in_variants, bad_reference, body_distinct, defs_distinct,
    first_named, verdict, FieldDef, FieldType, Schema, SchemaError, TypeBody, TypeDef, VariantDef,
};
use vstd::prelude::*;

verus! {

/// The type that a field's type spells: a bare tag is a primitive, an
/// object is what `indigo_type` gives.
pub open spec fn ambitious_type(raw: AmbitiousType) -> Option<FieldType>
    decreases raw,
{
    match raw {
        AmbitiousType::Enum(tag) => Some(FieldType::Primitive(tag)),
        AmbitiousType::IndigoType(object) => indigo_type(object),
    }
}

/// The type that the object form spells. Exactly one of its keys is set:
/// `defined` is a reference by name, `option` an optional value of its
/// inner type, `array` an array by its pair.
pub open spec fn indigo_type(object: IndigoType) -> Option<FieldType>
    decreases object,
{
    if object.defined is Some && object.type_option is None && object.array is None {
        Some(FieldType::Defined(object.defined->Some_0))
    } else if object.defined is None && object.type_option is Some && object.array is None {
        match ambitious_type(*object.type_option->Some_0) {
            Some(inner) => Some(FieldType::Optional(Box::new(inner))),
            None => None,
        }
    } else if object.defined is None && object.type_option is None && object.array is Some {
        array_type(object.array->Some_0)
    } else {
        None
    }
}

/// The array type that an `array` pair spells: the pair is the type of the
/// elements, as a tag or as an object, and a length that is not negative.
pub open spec fn array_type(pair: Vec<Array>) -> Option<FieldType>
    decreases pair,
{
    if pair@.len() == 2 && pair@[1] is Integer && pair@[1]->Integer_0 >= 0 {
        let elem = match pair@[0] {
            Array::Enum(tag) => Some(FieldType::Primitive(tag)),
            Array::IndigoType(object) => indigo_type(object),
            Array::Integer(_) => None,
        };
        match elem {
            Some(ty) => Some(FieldType::Array(Box::new(ty), pair@[1]->Integer_0 as u64)),
            None => None,
        }
    } else {
        None
    }
}

/// The type that an object with these three keys spells.
pub open spec fn object_type(
    defined: Option<String>,
    option: Option<Box<AmbitiousType>>,
    array: Option<Vec<Array>>,
) -> Option<FieldType> {
    indigo_type(IndigoType { defined, type_option: option, array })
}

/// The type of an account's field.
pub open spec fn purple_type(raw: IndecentType) -> Option<FieldType> {
    match raw {
        IndecentType::Enum(tag) => Some(FieldType::Primitive(tag)),
        IndecentType::PurpleType(object) => object_type(
            object.defined,
            object.type_option,
            object.array,
        ),
    }
}

/// The type of a variant's field.
pub open spec fn hilarious_type(raw: HilariousType) -> Option<FieldType> {
    match raw {
        HilariousType::Enum(tag) => Some(FieldType::Primitive(tag)),
        HilariousType::FluffyType(object) => object_type(
            object.defined,
            object.type_option,
            object.array,
        ),
    }
}

/// The fields of an account: each name with the type that is spelled for it.
pub open spec fn purple_entries(raw: Seq<PurpleField>) -> Seq<(Seq<char>, Option<FieldType>)> {
    Seq::new(raw.len(), |i: int| (raw[i].name@, purple_type(raw[i].field_type)))
}

/// The fields of a named struct, likewise.
pub open spec fn fluffy_entries(raw: Seq<FluffyField>) -> Seq<(Seq<char>, Option<FieldType>)> {
    Seq::new(raw.len(), |i: int| (raw[i].name@, ambitious_type(raw[i].field_type)))
}

/// The fields of a variant, likewise.
pub open spec fn variant_entries(raw: Seq<VariantField>) -> Seq<(Seq<char>, Option<FieldType>)> {
    Seq::new(raw.len(), |i: int| (raw[i].name@, hilarious_type(raw[i].field_type)))
}

/// Every field has a type.
pub open spec fn fields_ok(entries: Seq<(Seq<char>, Option<FieldType>)>) -> bool {
    forall|i: int| 0 <= i < entries.len() ==> (#[trigger] entries[i]).1 is Some
}

/// `out` holds the fields, with their names and types, in their order.
pub open spec fn fields_match(
    entries: Seq<(Seq<char>, Option<FieldType>)>,
    out: Seq<FieldDef>,
) -> bool {
    &&& out.len() == entries.len()
    &&& forall|i: int|
        0 <= i < entries.len() ==> (#[trigger] out[i]).name@ == entries[i].0 && entries[i].1
            == Some(out[i].ty)
}

/// Every field of the variant has a type.
pub open spec fn variant_ok(raw: Variant) -> bool {
    match raw.fields {
        None => true,
        Some(fields) => fields_ok(variant_entries(fields@)),
    }
}

/// `out` is the variant `raw`.
pub open spec fn variant_matches(raw: Variant, out: VariantDef) -> bool {
    &&& out.name@ == raw.name@
    &&& match raw.fields {
        None => out.fields is None,
        Some(fields) => {
            &&& out.fields matches Some(converted)
            &&& fields_match(variant_entries(fields@), converted@)
        },
    }
}

/// Every field of every variant has a type.
pub open spec fn variants_ok(raw: Seq<Variant>) -> bool {
    forall|i: int| 0 <= i < raw.len() ==> variant_ok(#[trigger] raw[i])
}

/// `out` holds the variants, in their order.
pub open spec fn variants_match(raw: Seq<Variant>, out: Seq<VariantDef>) -> bool {
    &&& out.len() == raw.len()
    &&& forall|i: int| 0 <= i < raw.len() ==> variant_matches(raw[i], #[trigger] out[i])
}

/// A definition is a struct with fields that all have a type and no
/// variants, or an enum with variants whose fields all have a type and no
/// fields of its own.
pub open spec fn body_ok(
    kind: Kind,
    fields: Option<Seq<(Seq<char>, Option<FieldType>)>>,
    variants: Option<Vec<Variant>>,
) -> bool {
    match kind {
        Kind::Struct => {
            &&& variants is None
            &&& fields matches Some(entries)
            &&& fields_ok(entries)
        },
        Kind::Enum => {
            &&& fields is None
            &&& variants matches Some(listed)
            &&& variants_ok(listed@)
        },
    }
}

/// `out` is the layout that the definition spells.
pub open spec fn body_matches(
    kind: Kind,
    fields: Option<Seq<(Seq<char>, Option<FieldType>)>>,
    variants: Option<Vec<Variant>>,
    out: TypeBody,
) -> bool {
    match kind {
        Kind::Struct => {
            &&& variants is None
            &&& fields matches Some(entries)
            &&& out matches TypeBody::Struct(converted)
            &&& fields_match(entries, converted@)
        },
        Kind::Enum => {
            &&& fields is None
            &&& variants matches Some(listed)
            &&& out matches TypeBody::Enum(converted)
            &&& variants_match(listed@, converted@)
        },
    }
}

/// The fields that an account entry lists, if it lists any.
pub open spec fn account_fields(raw: AnchorIdlAccount) -> Option<
    Seq<(Seq<char>, Option<FieldType>)>,
> {
    match raw.account_type.fields {
        None => None,
        Some(fields) => Some(purple_entries(fields@)),
    }
}

/// The fields that a named type lists, if it lists any.
pub open spec fn type_fields(raw: TypeElement) -> Option<Seq<(Seq<char>, Option<FieldType>)>> {
    match raw.type_type.fields {
        None => None,
        Some(fields) => Some(fluffy_entries(fields@)),
    }
}

/// An account entry has a shape that the model can hold.
pub open spec fn account_ok(raw: AnchorIdlAccount) -> bool {
    body_ok(raw.account_type.kind, account_fields(raw), raw.account_type.variants)
}

/// `out` is the account type that the entry `raw` defines.
pub open spec fn account_matches(raw: AnchorIdlAccount, out: TypeDef) -> bool {
    &&& out.name@ == raw.name@
    &&& body_matches(
        raw.account_type.kind,
        account_fields(raw),
        raw.account_type.variants,
        out.body,
    )
}

/// A named type has a shape that the model can hold.
pub open spec fn type_ok(raw: TypeElement) -> bool {
    body_ok(raw.type_type.kind, type_fields(raw), raw.type_type.variants)
}

/// `out` is the named type that the entry `raw` defines.
pub open spec fn type_matches(raw: TypeElement, out: TypeDef) -> bool {
    &&& out.name@ == raw.name@
    &&& body_matches(raw.type_type.kind, type_fields(raw), raw.type_type.variants, out.body)
}

/// Every entry of the document has a shape that the model can hold.
pub open spec fn shape_ok(idl: AnchorIdl) -> bool {
    &&& forall|i: int| 0 <= i < idl.accounts@.len() ==> account_ok(#[trigger] idl.accounts@[i])
    &&& forall|i: int| 0 <= i < idl.types@.len() ==> type_ok(#[trigger] idl.types@[i])
}

/// `schema` is the document `idl` with the type of every field resolved:
/// the same names and order throughout, and the instructions, events and
/// errors as they were.
pub open spec fn normalizes(idl: AnchorIdl, schema: Schema) -> bool {
    &&& schema.version@ == idl.version@
    &&& schema.name@ == idl.name@
    &&& schema.accounts@.len() == idl.accounts@.len()
    &&& forall|i: int|
        0 <= i < idl.accounts@.len() ==> account_matches(
            idl.accounts@[i],
            #[trigger] schema.accounts@[i],
        )
    &&& schema.types@.len() == idl.types@.len()
    &&& forall|i: int|
        0 <= i < idl.types@.len() ==> type_matches(idl.types@[i], #[trigger] schema.types@[i])
    &&& schema.instructions == idl.instructions
    &&& schema.events == idl.events
    &&& schema.errors == idl.errors
}

/// Resolves a field's type.
fn convert_ambitious(raw: &AmbitiousType) -> (got: Option<FieldType>)
    ensures
        got == ambitious_type(*raw),
    decreases raw,
{
    match raw {
        AmbitiousType::Enum(tag) => Some(FieldType::Primitive(*tag)),
        AmbitiousType::IndigoType(object) => {
            assert(*object == (IndigoType {
                defined: object.defined,
                type_option: object.type_option,
                array: object.array,
            }));
            convert_object(&object.defined, &object.type_option, &object.array)
        },
    }
}

/// Resolves the object form of a type, given by its three keys.
fn convert_object(
    defined: &Option<String>,
    option: &Option<Box<AmbitiousType>>,
    array: &Option<Vec<Array>>,
) -> (got: Option<FieldType>)
    ensures
        got == object_type(*defined, *option, *array),
    decreases (IndigoType { defined: *defined, type_option: *option, array: *array }),
{
    match (defined, option, array) {
        (Some(name), None, None) => Some(FieldType::Defined(name.clone())),
        (None, Some(inner), None) => match convert_ambitious(inner) {
            Some(ty) => Some(FieldType::Optional(Box::new(ty))),
            None => None,
        },
        (None, None, Some(pair)) => convert_array(pair),
        _ => None,
    }
}

/// Resolves an `array` pair.
fn convert_array(pair: &Vec<Array>) -> (got: Option<FieldType>)
    ensures
        got == array_type(*pair),
    decreases pair,
{
    if pair.len() != 2 {
        return None;
    }
    let length: i64 = match &pair[1] {
        Array::Integer(length) => *length,
        _ => {
            return None;
        },
    };
    if length < 0 {
        return None;
    }
    let elem = match &pair[0] {
        Array::Enum(tag) => Some(FieldType::Primitive(*tag)),
        Array::IndigoType(object) => {
            assert(*object == (IndigoType {
                defined: object.defined,
                type_option: object.type_option,
                array: object.array,
            }));
            convert_object(&object.defined, &object.type_option, &object.array)
        },
        Array::Integer(_) => None,
    };
    match elem {
        Some(ty) => Some(FieldType::Array(Box::new(ty), length as u64)),
        None => None,
    }
}

/// Resolves the type of an account's field.
fn convert_purple(raw: &IndecentType) -> (got: Option<FieldType>)
    ensures
        got == purple_type(*raw),
{
    match raw {
        IndecentType::Enum(tag) => Some(FieldType::Primitive(*tag)),
        IndecentType::PurpleType(object) => convert_object(
            &object.defined,
            &object.type_option,
            &object.array,
        ),
    }
}

/// Resolves the type of a variant's field.
fn convert_hilarious(raw: &HilariousType) -> (got: Option<FieldType>)
    ensures
        got == hilarious_type(*raw),
{
    match raw {
        HilariousType::Enum(tag) => Some(FieldType::Primitive(*tag)),
        HilariousType::FluffyType(object) => convert_object(
            &object.defined,
            &object.type_option,
            &object.array,
        ),
    }
}

/// Resolves the fields of an account, or tells that one has no type.
fn convert_purple_fields(raw: &Vec<PurpleField>) -> (got: Option<Vec<FieldDef>>)
    ensures
        match got {
            Some(out) => fields_match(purple_entries(raw@), out@),
            None => !fields_ok(purple_entries(raw@)),
        },
{
    let ghost entries = purple_entries(raw@);
    let mut out: Vec<FieldDef> = Vec::new();
    let mut i: usize = 0;
    while i < raw.len()
        invariant
            i <= raw@.len(),
            entries == purple_entries(raw@),
            fields_match(entries.subrange(0, i as int), out@),
        decreases raw@.len() - i,
    {
        match convert_purple(&raw[i].field_type) {
            None => {
                assert(entries[i as int].1 is None);
                return None;
            },
            Some(ty) => {
                out.push(FieldDef { name: raw[i].name.clone(), ty });
            },
        }
        i = i + 1;
    }
    assert(entries.subrange(0, i as int) =~= entries);
    Some(out)
}

/// Resolves the fields of a named struct, or tells that one has no type.
fn convert_fluffy_fields(raw: &Vec<FluffyField>) -> (got: Option<Vec<FieldDef>>)
    ensures
        match got {
            Some(out) => fields_match(fluffy_entries(raw@), out@),
            None => !fields_ok(fluffy_entries(raw@)),
        },
{
    let ghost entries = fluffy_entries(raw@);
    let mut out: Vec<FieldDef> = Vec::new();
    let mut i: usize = 0;
    while i < raw.len()
        invariant
            i <= raw@.len(),
            entries == fluffy_entries(raw@),
            fields_match(entries.subrange(0, i as int), out@),
        decreases raw@.len() - i,
    {
        match convert_ambitious(&raw[i].field_type) {
            None => {
                assert(entries[i as int].1 is None);
                return None;
            },
            Some(ty) => {
                out.push(FieldDef { name: raw[i].name.clone(), ty });
            },
        }
        i = i + 1;
    }
    assert(entries.subrange(0, i as int) =~= entries);
    Some(out)
}

/// Resolves the fields of a variant, or tells that one has no type.
fn convert_variant_fields(raw: &Vec<VariantField>) -> (got: Option<Vec<FieldDef>>)
    ensures
        match got {
            Some(out) => fields_match(variant_entries(raw@), out@),
            None => !fields_ok(variant_entries(raw@)),
        },
{
    let ghost entries = variant_entries(raw@);
    let mut out: Vec<FieldDef> = Vec::new();
    let mut i: usize = 0;
    while i < raw.len()
        invariant
            i <= raw@.len(),
            entries == variant_entries(raw@),
            fields_match(entries.subrange(0, i as int), out@),
        decreases raw@.len() - i,
    {
        match convert_hilarious(&raw[i].field_type) {
            None => {
                assert(entries[i as int].1 is None);
                return None;
            },
            Some(ty) => {
                out.push(FieldDef { name: raw[i].name.clone(), ty });
            },
        }
        i = i + 1;
    }
    assert(entries.subrange(0, i as int) =~= entries);
    Some(out)
}

/// Resolves the variants of an enum, or tells that a field of one has no
/// type.
fn convert_variants(raw: &Vec<Variant>) -> (got: Option<Vec<VariantDef>>)
    ensures
        match got {
            Some(out) => variants_match(raw@, out@),
            None => !variants_ok(raw@),
        },
{
    let mut out: Vec<VariantDef> = Vec::new();
    let mut i: usize = 0;
    while i < raw.len()
        invariant
            i <= raw@.len(),
            variants_match(raw@.subrange(0, i as int), out@),
        decreases raw@.len() - i,
    {
        let fields = match &raw[i].fields {
            None => None,
            Some(fields) => match convert_variant_fields(fields) {
                None => {
                    assert(!variant_ok(raw@[i as int]));
                    return None;
                },
                Some(converted) => Some(converted),
            },
        };
        out.push(VariantDef { name: raw[i].name.clone(), fields });
        i = i + 1;
    }
    assert(raw@.subrange(0, i as int) =~= raw@);
    Some(out)
}

/// Resolves an account entry, or tells that its shape is not held.
fn convert_account(raw: &AnchorIdlAccount) -> (got: Option<TypeDef>)
    ensures
        match got {
            Some(out) => account_matches(*raw, out),
            None => !account_ok(*raw),
        },
{
    let body = match raw.account_type.kind {
        Kind::Struct => match (&raw.account_type.fields, &raw.account_type.variants) {
            (Some(fields), None) => match convert_purple_fields(fields) {
                None => None,
                Some(converted) => Some(TypeBody::Struct(converted)),
            },
            _ => None,
        },
        Kind::Enum => match (&raw.account_type.fields, &raw.account_type.variants) {
            (None, Some(variants)) => match convert_variants(variants) {
                None => None,
                Some(converted) => Some(TypeBody::Enum(converted)),
            },
            _ => None,
        },
    };
    match body {
        None => None,
        Some(body) => Some(TypeDef { name: raw.name.clone(), body }),
    }
}

/// Resolves a named type, or tells that its shape is not held.
fn convert_type(raw: &TypeElement) -> (got: Option<TypeDef>)
    ensures
        match got {
            Some(out) => type_matches(*raw, out),
            None => !type_ok(*raw),
        },
{
    let body = match raw.type_type.kind {
        Kind::Struct => match (&raw.type_type.fields, &raw.type_type.variants) {
            (Some(fields), None) => match convert_fluffy_fields(fields) {
                None => None,
                Some(converted) => Some(TypeBody::Struct(converted)),
            },
            _ => None,
        },
        Kind::Enum => match (&raw.type_type.fields, &raw.type_type.variants) {
            (None, Some(variants)) => match convert_variants(variants) {
                None => None,
                Some(converted) => Some(TypeBody::Enum(converted)),
            },
            _ => None,
        },
    };
    match body {
        None => None,
        Some(body) => Some(TypeDef { name: raw.name.clone(), body }),
    }
}

/// Resolves the type of every field of a document. The document is
/// malformed where an entry has a shape that the model cannot hold.
pub fn normalize(idl: AnchorIdl) -> (got: Result<Schema, SchemaError>)
    ensures
        match got {
            Ok(schema) => normalizes(idl, schema),
            Err(error) => error is Malformed && !shape_ok(idl),
        },
{
    let mut accounts: Vec<TypeDef> = Vec::new();
    let mut i: usize = 0;
    while i < idl.accounts.len()
        invariant
            i <= idl.accounts@.len(),
            accounts@.len() == i,
            forall|k: int| 0 <= k < i ==> account_matches(idl.accounts@[k], #[trigger] accounts@[k]),
        decreases idl.accounts@.len() - i,
    {
        match convert_account(&idl.accounts[i]) {
            None => {
                return Err(SchemaError::Malformed);
            },
            Some(account) => {
                accounts.push(account);
            },
        }
        i = i + 1;
    }
    let mut types: Vec<TypeDef> = Vec::new();
    let mut j: usize = 0;
    while j < idl.types.len()
        invariant
            j <= idl.types@.len(),
            types@.len() == j,
            forall|k: int| 0 <= k < j ==> type_matches(idl.types@[k], #[trigger] types@[k]),
        decreases idl.types@.len() - j,
    {
        match convert_type(&idl.types[j]) {
            None => {
                return Err(SchemaError::Malformed);
            },
            Some(named) => {
                types.push(named);
            },
        }
        j = j + 1;
    }
    let AnchorIdl { version, name, docs: _, instructions, accounts: _, types: _, events, errors } =
        idl;
    Ok(Schema { version, name, accounts, types, instructions, events, errors })
}

/// Fields that have a resolved form all have a type.
pub proof fn lemma_fields_shape(entries: Seq<(Seq<char>, Option<FieldType>)>, out: Seq<FieldDef>)
    requires
        fields_match(entries, out),
    ensures
        fields_ok(entries),
{
    assert forall|i: int| 0 <= i < entries.len() implies (#[trigger] entries[i]).1 is Some by {
        assert(entries[i].1 == Some(out[i].ty));
    }
}

/// Variants that have a resolved form have fields that all have a type.
pub proof fn lemma_variants_shape(raw: Seq<Variant>, out: Seq<VariantDef>)
    requires
        variants_match(raw, out),
    ensures
        variants_ok(raw),
{
    assert forall|i: int| 0 <= i < raw.len() implies variant_ok(#[trigger] raw[i]) by {
        assert(variant_matches(raw[i], out[i]));
        if raw[i].fields is Some {
            lemma_fields_shape(variant_entries(raw[i].fields->Some_0@), out[i].fields->Some_0@);
        }
    }
}

/// A definition that has a resolved form has a shape that the model can
/// hold.
pub proof fn lemma_body_shape(
    kind: Kind,
    fields: Option<Seq<(Seq<char>, Option<FieldType>)>>,
    variants: Option<Vec<Variant>>,
    out: TypeBody,
)
    requires
        body_matches(kind, fields, variants, out),
    ensures
        body_ok(kind, fields, variants),
{
    match kind {
        Kind::Struct => {
            lemma_fields_shape(fields->Some_0, out->Struct_0@);
        },
        Kind::Enum => {
            lemma_variants_shape(variants->Some_0@, out->Enum_0@);
        },
    }
}

/// A document that has a resolved form has a shape that the model can hold.
pub proof fn lemma_normalized_shape(idl: AnchorIdl, schema: Schema)
    requires
        normalizes(idl, schema),
    ensures
        shape_ok(idl),
{
    assert forall|i: int| 0 <= i < idl.accounts@.len() implies account_ok(
        #[trigger] idl.accounts@[i],
    ) by {
        let raw = idl.accounts@[i];
        assert(account_matches(raw, schema.accounts@[i]));
        lemma_body_shape(
            raw.account_type.kind,
            account_fields(raw),
            raw.account_type.variants,
            schema.accounts@[i].body,
        );
    }
    assert forall|i: int| 0 <= i < idl.types@.len() implies type_ok(#[trigger] idl.types@[i]) by {
        let raw = idl.types@[i];
        assert(type_matches(raw, schema.types@[i]));
        lemma_body_shape(
            raw.type_type.kind,
            type_fields(raw),
            raw.type_type.variants,
            schema.types@[i].body,
        );
    }
}

/// Builds the schema of a document: resolves the type of every field, then
/// checks that every reference resolves and that the variants of every enum
/// have distinct names.
pub fn load(idl: AnchorIdl) -> (got: Result<Schema, SchemaError>)
    ensures
        match got {
            Ok(schema) => shape_ok(idl) && normalizes(idl, schema) && schema.wf(),
            Err(error) => {
                ||| error is Malformed && !shape_ok(idl)
                ||| exists|schema: Schema|
                    normalizes(idl, schema) && #[trigger] verdict(schema) == Some(error@)
            },
        },
{
    match normalize(idl) {
        Err(error) => Err(error),
        Ok(schema) => {
            proof {
                lemma_normalized_shape(idl, schema);
            }
            match schema.validate() {
                Ok(_) => Ok(schema),
                Err(error) => Err(error),
            }
        },
    }
}

/// Two lists of fields with the same names and types, in the same order.
pub open spec fn fields_alike(one: Seq<FieldDef>, other: Seq<FieldDef>) -> bool {
    &&& one.len() == other.len()
    &&& forall|i: int|
        0 <= i < one.len() ==> (#[trigger] one[i]).name@ == other[i].name@ && one[i].ty
            == other[i].ty
}

/// Two variants with the same name and alike fields.
pub open spec fn variant_alike(one: VariantDef, other: VariantDef) -> bool {
    &&& one.name@ == other.name@
    &&& match (one.fields, other.fields) {
        (None, None) => true,
        (Some(left), Some(right)) => fields_alike(left@, right@),
        _ => false,
    }
}

/// Two definitions with the same name and alike layouts.
pub open spec fn def_alike(one: TypeDef, other: TypeDef) -> bool {
    &&& one.name@ == other.name@
    &&& match (one.body, other.body) {
        (TypeBody::Struct(left), TypeBody::Struct(right)) => fields_alike(left@, right@),
        (TypeBody::Enum(left), TypeBody::Enum(right)) => {
            &&& left@.len() == right@.len()
            &&& forall|i: int|
                0 <= i < left@.len() ==> variant_alike(#[trigger] left@[i], right@[i])
        },
        _ => false,
    }
}

/// Two lists of alike definitions.
pub open spec fn defs_alike(one: Seq<TypeDef>, other: Seq<TypeDef>) -> bool {
    &&& one.len() == other.len()
    &&& forall|i: int| 0 <= i < one.len() ==> def_alike(#[trigger] one[i], other[i])
}

/// Two schemas whose account types and named types are alike.
pub open spec fn schemas_alike(one: Schema, other: Schema) -> bool {
    defs_alike(one.accounts@, other.accounts@) && defs_alike(one.types@, other.types@)
}

/// Two resolved forms of the same fields are alike.
pub proof fn lemma_fields_alike(
    entries: Seq<(Seq<char>, Option<FieldType>)>,
    one: Seq<FieldDef>,
    other: Seq<FieldDef>,
)
    requires
        fields_match(entries, one),
        fields_match(entries, other),
    ensures
        fields_alike(one, other),
{
    assert forall|i: int| 0 <= i < one.len() implies (#[trigger] one[i]).name@ == other[i].name@
        && one[i].ty == other[i].ty by {
        assert(entries[i].1 == Some(one[i].ty));
        assert(entries[i].1 == Some(other[i].ty));
        assert(other[i].name@ == entries[i].0);
    }
}

/// Two resolved forms of the same variants are alike.
pub proof fn lemma_variants_alike(raw: Seq<Variant>, one: Seq<VariantDef>, other: Seq<VariantDef>)
    requires
        variants_match(raw, one),
        variants_match(raw, other),
    ensures
        one.len() == other.len(),
        forall|i: int| 0 <= i < one.len() ==> variant_alike(#[trigger] one[i], other[i]),
{
    assert forall|i: int| 0 <= i < one.len() implies variant_alike(#[trigger] one[i], other[i]) by {
        assert(variant_matches(raw[i], one[i]));
        assert(variant_matches(raw[i], other[i]));
        if raw[i].fields is Some {
            lemma_fields_alike(
                variant_entries(raw[i].fields->Some_0@),
                one[i].fields->Some_0@,
                other[i].fields->Some_0@,
            );
        }
    }
}

/// Two resolved forms of one definition are alike.
pub proof fn lemma_body_alike(
    kind: Kind,
    fields: Option<Seq<(Seq<char>, Option<FieldType>)>>,
    variants: Option<Vec<Variant>>,
    one: TypeDef,
    other: TypeDef,
)
    requires
        one.name@ == other.name@,
        body_matches(kind, fields, variants, one.body),
        body_matches(kind, fields, variants, other.body),
    ensures
        def_alike(one, other),
{
    match kind {
        Kind::Struct => {
            lemma_fields_alike(fields->Some_0, one.body->Struct_0@, other.body->Struct_0@);
        },
        Kind::Enum => {
            lemma_variants_alike(variants->Some_0@, one.body->Enum_0@, other.body->Enum_0@);
        },
    }
}

/// Two resolved forms of one document are alike.
pub proof fn lemma_normalized_alike(idl: AnchorIdl, one: Schema, other: Schema)
    requires
        normalizes(idl, one),
        normalizes(idl, other),
    ensures
        schemas_alike(one, other),
{
    assert forall|i: int| 0 <= i < one.accounts@.len() implies def_alike(
        #[trigger] one.accounts@[i],
        other.accounts@[i],
    ) by {
        let raw = idl.accounts@[i];
        assert(account_matches(raw, one.accounts@[i]));
        assert(account_matches(raw, other.accounts@[i]));
        lemma_body_alike(
            raw.account_type.kind,
            account_fields(raw),
            raw.account_type.variants,
            one.accounts@[i],
            other.accounts@[i],
        );
    }
    assert forall|i: int| 0 <= i < one.types@.len() implies def_alike(
        #[trigger] one.types@[i],
        other.types@[i],
    ) by {
        let raw = idl.types@[i];
        assert(type_matches(raw, one.types@[i]));
        assert(type_matches(raw, other.types@[i]));
        lemma_body_alike(
            raw.type_type.kind,
            type_fields(raw),
            raw.type_type.variants,
            one.types@[i],
            other.types@[i],
        );
    }
}

/// Alike lists hold a name at the same place.
proof fn lemma_alike_first_named(one: Seq<TypeDef>, other: Seq<TypeDef>, name: Seq<char>, from: int)
    requires
        defs_alike(one, other),
        0 <= from,
    ensures
        first_named(one, name, from) == first_named(other, name, from),
    decreases one.len() - from,
{
    if from < one.len() {
        assert(def_alike(one[from], other[from]));
        lemma_alike_first_named(one, other, name, from + 1);
    }
}

/// Alike schemas resolve the same references.
proof fn lemma_alike_reference(one: Schema, other: Schema, ty: FieldType)
    requires
        schemas_alike(one, other),
    ensures
        bad_reference(one, ty) == bad_reference(other, ty),
    decreases ty,
{
    match ty {
        FieldType::Primitive(_) => {},
        FieldType::Defined(name) => {
            lemma_alike_first_named(one.types@, other.types@, name@, 0);
            lemma_alike_first_named(one.accounts@, other.accounts@, name@, 0);
        },
        FieldType::Array(elem, _) => {
            lemma_alike_reference(one, other, *elem);
        },
        FieldType::Optional(inner) => {
            lemma_alike_reference(one, other, *inner);
        },
    }
}

/// Alike fields have the same first unresolved reference.
proof fn lemma_alike_fields(
    one: Schema,
    other: Schema,
    left: Seq<FieldDef>,
    right: Seq<FieldDef>,
    from: int,
)
    requires
        schemas_alike(one, other),
        fields_alike(left, right),
        0 <= from,
    ensures
        bad_in_fields(one, left, from) == bad_in_fields(other, right, from),
    decreases left.len() - from,
{
    if from < left.len() {
        assert(left[from].ty == right[from].ty);
        lemma_alike_reference(one, other, left[from].ty);
        lemma_alike_fields(one, other, left, right, from + 1);
    }
}

/// Alike variants have the same first unresolved reference.
proof fn lemma_alike_variants(
    one: Schema,
    other: Schema,
    left: Seq<VariantDef>,
    right: Seq<VariantDef>,
    from: int,
)
    requires
        schemas_alike(one, other),
        left.len() == right.len(),
        forall|i: int| 0 <= i < left.len() ==> variant_alike(#[trigger] left[i], right[i]),
        0 <= from,
    ensures
        bad_in_variants(one, left, from) == bad_in_variants(other, right, from),
    decreases left.len() - from,
{
    if from < left.len() {
        assert(variant_alike(left[from], right[from]));
        if left[from].fields is Some {
            lemma_alike_fields(
                one,
                other,
                left[from].fields->Some_0@,
                right[from].fields->Some_0@,
                0,
            );
        }
        lemma_alike_variants(one, other, left, right, from + 1);
    }
}

/// Alike definitions have the same first unresolved reference.
proof fn lemma_alike_defs(
    one: Schema,
    other: Schema,
    left: Seq<TypeDef>,
    right: Seq<TypeDef>,
    from: int,
)
    requires
        schemas_alike(one, other),
        defs_alike(left, right),
        0 <= from,
    ensures
        bad_in_defs(one, left, from) == bad_in_defs(other, right, from),
    decreases left.len() - from,
{
    if from < left.len() {
        assert(def_alike(left[from], right[from]));
        match (left[from].body, right[from].body) {
            (TypeBody::Struct(a), TypeBody::Struct(b)) => {
                lemma_alike_fields(one, other, a@, b@, 0);
            },
            (TypeBody::Enum(a), TypeBody::Enum(b)) => {
                lemma_alike_variants(one, other, a@, b@, 0);
            },
            _ => {},
        }
        lemma_alike_defs(one, other, left, right, from + 1);
    }
}

/// Distinct variant names carry over to alike definitions.
proof fn lemma_alike_distinct(left: Seq<TypeDef>, right: Seq<TypeDef>)
    requires
        defs_alike(left, right),
        defs_distinct(left),
    ensures
        defs_distinct(right),
{
    assert forall|i: int| 0 <= i < right.len() implies body_distinct((#[trigger] right[i]).body) by {
        assert(def_alike(left[i], right[i]));
        assert(body_distinct(left[i].body));
        match (left[i].body, right[i].body) {
            (TypeBody::Enum(a), TypeBody::Enum(b)) => {
                assert forall|x: int, y: int| 0 <= x < y < b@.len() implies (#[trigger] b@[x]).name@
                    != (#[trigger] b@[y]).name@ by {
                    assert(variant_alike(a@[x], b@[x]));
                    assert(variant_alike(a@[y], b@[y]));
                    assert(a@[x].name@ != a@[y].name@);
                }
            },
            _ => {},
        }
    }
}

/// Being alike is symmetric.
proof fn lemma_alike_symmetric(left: Seq<TypeDef>, right: Seq<TypeDef>)
    requires
        defs_alike(left, right),
    ensures
        defs_alike(right, left),
{
    assert forall|i: int| 0 <= i < right.len() implies def_alike(#[trigger] right[i], left[i]) by {
        assert(def_alike(left[i], right[i]));
        match (left[i].body, right[i].body) {
            (TypeBody::Struct(a), TypeBody::Struct(b)) => {
                assert forall|k: int| 0 <= k < b@.len() implies (#[trigger] b@[k]).name@
                    == a@[k].name@ && b@[k].ty == a@[k].ty by {
                    assert(a@[k].name@ == b@[k].name@);
                }
            },
            (TypeBody::Enum(a), TypeBody::Enum(b)) => {
                assert forall|k: int| 0 <= k < b@.len() implies variant_alike(
                    #[trigger] b@[k],
                    a@[k],
                ) by {
                    assert(variant_alike(a@[k], b@[k]));
                    if a@[k].fields is Some {
                        let x = a@[k].fields->Some_0;
                        let y = b@[k].fields->Some_0;
                        assert forall|m: int| 0 <= m < y@.len() implies (#[trigger] y@[m]).name@
                            == x@[m].name@ && y@[m].ty == x@[m].ty by {
                            assert(x@[m].name@ == y@[m].name@);
                        }
                    }
                }
            },
            _ => {},
        }
    }
}

/// What is wrong with the schema of a document does not depend on which
/// resolved form of the document is looked at: any two have the same
/// verdict.
pub proof fn lemma_verdict_of_document(idl: AnchorIdl, one: Schema, other: Schema)
    requires
        normalizes(idl, one),
        normalizes(idl, other),
    ensures
        verdict(one) == verdict(other),
{
    lemma_normalized_alike(idl, one, other);
    lemma_alike_defs(one, other, one.accounts@, other.accounts@, 0);
    lemma_alike_defs(one, other, one.types@, other.types@, 0);
    lemma_alike_symmetric(one.accounts@, other.accounts@);
    lemma_alike_symmetric(one.types@, other.types@);
    if defs_distinct(one.accounts@) {
        lemma_alike_distinct(one.accounts@, other.accounts@);
    }
    if defs_distinct(one.types@) {
        lemma_alike_distinct(one.types@, other.types@);
    }
    if defs_distinct(other.accounts@) {
        lemma_alike_distinct(other.accounts@, one.accounts@);
    }
    if defs_distinct(other.types@) {
        lemma_alike_distinct(other.types@, one.types@);
    }
}

} // verus!
