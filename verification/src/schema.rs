use crate::anchor_idl::{Error, Event, Instruction, TypeEnum};
use vstd::prelude::*;

verus! {

/// The type of a field, with every union of the document resolved.
#[derive(Debug, PartialEq, Eq)]
pub enum FieldType {
    Primitive(TypeEnum),
    /// A reference, by name, to a named type or an account type.
    Defined(String),
    /// A fixed number of consecutive elements.
    Array(Box<FieldType>, u64),
    /// A presence byte, then the value where it is present.
    Optional(Box<FieldType>),
}

/// A named field.
#[derive(Debug, PartialEq, Eq)]
pub struct FieldDef {
    pub name: String,
    pub ty: FieldType,
}

/// A variant of an enum: a bare name, or a name with fields.
#[derive(Debug, PartialEq, Eq)]
pub struct VariantDef {
    pub name: String,
    pub fields: Option<Vec<FieldDef>>,
}

/// The layout of a definition.
#[derive(Debug, PartialEq, Eq)]
pub enum TypeBody {
    Struct(Vec<FieldDef>),
    Enum(Vec<VariantDef>),
}

/// An account type or a named type: a name and its layout.
#[derive(Debug, PartialEq, Eq)]
pub struct TypeDef {
    pub name: String,
    pub body: TypeBody,
}

/// The interface description that decoding works from.
#[derive(Debug)]
pub struct Schema {
    pub version: String,
    pub name: String,
    pub accounts: Vec<TypeDef>,
    pub types: Vec<TypeDef>,
    pub instructions: Vec<Instruction>,
    pub events: Vec<Event>,
    pub errors: Vec<Error>,
}

/// Why a document gives no schema.
#[derive(Debug, PartialEq, Eq)]
pub enum SchemaError {
    /// The document has a shape that the model cannot hold, or an enum
    /// with two variants of one name.
    Malformed,
    /// A field refers to a type that the document does not define.
    UnresolvedReference(String),
}

/// How deep a field type is built.
pub open spec fn type_size(ty: FieldType) -> nat
    decreases ty,
{
    match ty {
        FieldType::Primitive(_) => 1,
        FieldType::Defined(_) => 1,
        FieldType::Array(elem, _) => 1 + type_size(*elem),
        FieldType::Optional(inner) => 1 + type_size(*inner),
    }
}

/// The sizes of the fields from `from` on, added up.
pub open spec fn fields_size(fields: Seq<FieldDef>, from: int) -> nat
    decreases fields.len() - from,
{
    if from < 0 || from >= fields.len() {
        0
    } else {
        1 + type_size(fields[from].ty) + fields_size(fields, from + 1)
    }
}

/// The size of a variant's fields.
pub open spec fn variant_size(variant: VariantDef) -> nat {
    match variant.fields {
        None => 1,
        Some(fields) => 1 + fields_size(fields@, 0),
    }
}

/// The sizes of the variants from `from` on, added up.
pub open spec fn variants_size(variants: Seq<VariantDef>, from: int) -> nat
    decreases variants.len() - from,
{
    if from < 0 || from >= variants.len() {
        0
    } else {
        variant_size(variants[from]) + variants_size(variants, from + 1)
    }
}

/// The size of a layout: one more than its fields or variants.
pub open spec fn body_size(body: TypeBody) -> nat {
    match body {
        TypeBody::Struct(fields) => 1 + fields_size(fields@, 0),
        TypeBody::Enum(variants) => 1 + variants_size(variants@, 0),
    }
}

/// A variant is no larger than the variants it stands among.
pub proof fn lemma_variant_within(variants: Seq<VariantDef>, from: int, at: int)
    requires
        0 <= from <= at < variants.len(),
    ensures
        variant_size(variants[at]) <= variants_size(variants, from),
    decreases at - from,
{
    if from < at {
        lemma_variant_within(variants, from + 1, at);
    }
}

/// A field is smaller than the fields it stands among.
pub proof fn lemma_field_within(fields: Seq<FieldDef>, from: int, at: int)
    requires
        0 <= from <= at < fields.len(),
    ensures
        type_size(fields[at].ty) < fields_size(fields, from),
    decreases at - from,
{
    if from < at {
        lemma_field_within(fields, from + 1, at);
    }
}

/// Index of the first definition at or after `from` that is called `name`.
pub open spec fn first_named(defs: Seq<TypeDef>, name: Seq<char>, from: int) -> Option<int>
    decreases defs.len() - from,
{
    if from < 0 || from >= defs.len() {
        None
    } else if defs[from].name@ == name {
        Some(from)
    } else {
        first_named(defs, name, from + 1)
    }
}

/// Finds the first definition of `defs` that is called `name`.
pub fn find_named<'a>(defs: &'a Vec<TypeDef>, name: &String) -> (found: Option<usize>)
    ensures
        match found {
            Some(i) => first_named(defs@, name@, 0) == Some(i as int) && i < defs@.len(),
            None => first_named(defs@, name@, 0) is None,
        },
{
    let mut i: usize = 0;
    while i < defs.len()
        invariant
            i <= defs@.len(),
            first_named(defs@, name@, 0) == first_named(defs@, name@, i as int),
        decreases defs@.len() - i,
    {
        if defs[i].name == *name {
            return Some(i);
        }
        i = i + 1;
    }
    None
}

impl Schema {
    /// The definition that a reference to `name` means: the first named type
    /// of that name, else the first account type of that name.
    pub open spec fn lookup(&self, name: Seq<char>) -> Option<TypeDef> {
        match first_named(self.types@, name, 0) {
            Some(i) => Some(self.types@[i]),
            None => match first_named(self.accounts@, name, 0) {
                Some(i) => Some(self.accounts@[i]),
                None => None,
            },
        }
    }

    /// Resolves a reference to a definition.
    pub fn find(&self, name: &String) -> (found: Option<&TypeDef>)
        ensures
            match found {
                Some(def) => self.lookup(name@) == Some(*def),
                None => self.lookup(name@) is None,
            },
    {
        match find_named(&self.types, name) {
            Some(i) => Some(&self.types[i]),
            None => match find_named(&self.accounts, name) {
                Some(i) => Some(&self.accounts[i]),
                None => None,
            },
        }
    }
}

/// What a `SchemaError` stands for.
pub enum SchemaFailure {
    Malformed,
    UnresolvedReference(Seq<char>),
}

impl View for SchemaError {
    type V = SchemaFailure;

    open spec fn view(&self) -> SchemaFailure {
        match self {
            SchemaError::Malformed => SchemaFailure::Malformed,
            SchemaError::UnresolvedReference(name) => SchemaFailure::UnresolvedReference(name@),
        }
    }
}

/// The name that a field type refers to without the schema defining it.
pub open spec fn bad_reference(schema: Schema, ty: FieldType) -> Option<Seq<char>>
    decreases ty,
{
    match ty {
        FieldType::Primitive(_) => None,
        FieldType::Defined(name) => if schema.lookup(name@) is None {
            Some(name@)
        } else {
            None
        },
        FieldType::Array(elem, _) => bad_reference(schema, *elem),
        FieldType::Optional(inner) => bad_reference(schema, *inner),
    }
}

/// The first such name among the fields from `from` on.
pub open spec fn bad_in_fields(schema: Schema, fields: Seq<FieldDef>, from: int) -> Option<
    Seq<char>,
>
    decreases fields.len() - from,
{
    if from < 0 || from >= fields.len() {
        None
    } else {
        match bad_reference(schema, fields[from].ty) {
            Some(name) => Some(name),
            None => bad_in_fields(schema, fields, from + 1),
        }
    }
}

/// The first such name among the fields of a variant.
pub open spec fn bad_in_variant(schema: Schema, variant: VariantDef) -> Option<Seq<char>> {
    match variant.fields {
        None => None,
        Some(fields) => bad_in_fields(schema, fields@, 0),
    }
}

/// The first such name among the variants from `from` on.
pub open spec fn bad_in_variants(schema: Schema, variants: Seq<VariantDef>, from: int) -> Option<
    Seq<char>,
>
    decreases variants.len() - from,
{
    if from < 0 || from >= variants.len() {
        None
    } else {
        match bad_in_variant(schema, variants[from]) {
            Some(name) => Some(name),
            None => bad_in_variants(schema, variants, from + 1),
        }
    }
}

/// The first such name in a layout.
pub open spec fn bad_in_body(schema: Schema, body: TypeBody) -> Option<Seq<char>> {
    match body {
        TypeBody::Struct(fields) => bad_in_fields(schema, fields@, 0),
        TypeBody::Enum(variants) => bad_in_variants(schema, variants@, 0),
    }
}

/// The first such name among the definitions from `from` on.
pub open spec fn bad_in_defs(schema: Schema, defs: Seq<TypeDef>, from: int) -> Option<Seq<char>>
    decreases defs.len() - from,
{
    if from < 0 || from >= defs.len() {
        None
    } else {
        match bad_in_body(schema, defs[from].body) {
            Some(name) => Some(name),
            None => bad_in_defs(schema, defs, from + 1),
        }
    }
}

/// The first name, in the order of the document (account types, then named
/// types), that a field refers to without the schema defining it.
pub open spec fn first_unresolved(schema: Schema) -> Option<Seq<char>> {
    match bad_in_defs(schema, schema.accounts@, 0) {
        Some(name) => Some(name),
        None => bad_in_defs(schema, schema.types@, 0),
    }
}

/// No two variants have the same name.
pub open spec fn names_distinct(variants: Seq<VariantDef>) -> bool {
    forall|i: int, j: int|
        0 <= i < j < variants.len() ==> (#[trigger] variants[i]).name@ != (
        #[trigger] variants[j]).name@
}

/// A layout that is an enum has no two variants of one name.
pub open spec fn body_distinct(body: TypeBody) -> bool {
    match body {
        TypeBody::Struct(_) => true,
        TypeBody::Enum(variants) => names_distinct(variants@),
    }
}

/// That holds of every definition.
pub open spec fn defs_distinct(defs: Seq<TypeDef>) -> bool {
    forall|i: int| 0 <= i < defs.len() ==> body_distinct((#[trigger] defs[i]).body)
}

/// What is wrong with a schema, if anything: the first unresolved
/// reference; else, where an enum has two variants of one name, that it is
/// malformed.
pub open spec fn verdict(schema: Schema) -> Option<SchemaFailure> {
    match first_unresolved(schema) {
        Some(name) => Some(SchemaFailure::UnresolvedReference(name)),
        None => if defs_distinct(schema.accounts@) && defs_distinct(schema.types@) {
            None
        } else {
            Some(SchemaFailure::Malformed)
        },
    }
}

/// Looks for a reference of `ty` that the schema does not define.
fn check_type(schema: &Schema, ty: &FieldType) -> (got: Option<String>)
    ensures
        match got {
            Some(name) => bad_reference(*schema, *ty) == Some(name@),
            None => bad_reference(*schema, *ty) is None,
        },
    decreases ty,
{
    match ty {
        FieldType::Primitive(_) => None,
        FieldType::Defined(name) => match schema.find(name) {
            None => Some(name.clone()),
            Some(_) => None,
        },
        FieldType::Array(elem, _) => check_type(schema, elem),
        FieldType::Optional(inner) => check_type(schema, inner),
    }
}

/// Looks for the first such reference among fields.
fn check_fields(schema: &Schema, fields: &Vec<FieldDef>) -> (got: Option<String>)
    ensures
        match got {
            Some(name) => bad_in_fields(*schema, fields@, 0) == Some(name@),
            None => bad_in_fields(*schema, fields@, 0) is None,
        },
{
    let mut i: usize = 0;
    while i < fields.len()
        invariant
            i <= fields@.len(),
            bad_in_fields(*schema, fields@, 0) == bad_in_fields(*schema, fields@, i as int),
        decreases fields@.len() - i,
    {
        match check_type(schema, &fields[i].ty) {
            Some(name) => {
                return Some(name);
            },
            None => {},
        }
        i = i + 1;
    }
    None
}

/// Looks for the first such reference among variants.
fn check_variants(schema: &Schema, variants: &Vec<VariantDef>) -> (got: Option<String>)
    ensures
        match got {
            Some(name) => bad_in_variants(*schema, variants@, 0) == Some(name@),
            None => bad_in_variants(*schema, variants@, 0) is None,
        },
{
    let mut i: usize = 0;
    while i < variants.len()
        invariant
            i <= variants@.len(),
            bad_in_variants(*schema, variants@, 0) == bad_in_variants(
                *schema,
                variants@,
                i as int,
            ),
        decreases variants@.len() - i,
    {
        match &variants[i].fields {
            None => {},
            Some(fields) => match check_fields(schema, fields) {
                Some(name) => {
                    return Some(name);
                },
                None => {},
            },
        }
        i = i + 1;
    }
    None
}

/// Looks for the first such reference among definitions.
fn check_defs(schema: &Schema, defs: &Vec<TypeDef>) -> (got: Option<String>)
    ensures
        match got {
            Some(name) => bad_in_defs(*schema, defs@, 0) == Some(name@),
            None => bad_in_defs(*schema, defs@, 0) is None,
        },
{
    let mut i: usize = 0;
    while i < defs.len()
        invariant
            i <= defs@.len(),
            bad_in_defs(*schema, defs@, 0) == bad_in_defs(*schema, defs@, i as int),
        decreases defs@.len() - i,
    {
        let bad = match &defs[i].body {
            TypeBody::Struct(fields) => check_fields(schema, fields),
            TypeBody::Enum(variants) => check_variants(schema, variants),
        };
        match bad {
            Some(name) => {
                return Some(name);
            },
            None => {},
        }
        i = i + 1;
    }
    None
}

/// Tells whether the variants have distinct names.
fn check_names(variants: &Vec<VariantDef>) -> (distinct: bool)
    ensures
        distinct == names_distinct(variants@),
{
    let mut j: usize = 0;
    while j < variants.len()
        invariant
            j <= variants@.len(),
            forall|a: int, b: int|
                0 <= a < b < j ==> (#[trigger] variants@[a]).name@ != (
                #[trigger] variants@[b]).name@,
        decreases variants@.len() - j,
    {
        let mut i: usize = 0;
        while i < j
            invariant
                i <= j < variants@.len(),
                forall|a: int| 0 <= a < i ==> (#[trigger] variants@[a]).name@ != variants@[j as int].name@,
            decreases j - i,
        {
            if variants[i].name == variants[j].name {
                return false;
            }
            i = i + 1;
        }
        j = j + 1;
    }
    true
}

/// Tells whether every enum among the definitions has variants of
/// distinct names.
fn check_distinct(defs: &Vec<TypeDef>) -> (distinct: bool)
    ensures
        distinct == defs_distinct(defs@),
{
    let mut i: usize = 0;
    while i < defs.len()
        invariant
            i <= defs@.len(),
            forall|k: int| 0 <= k < i ==> body_distinct((#[trigger] defs@[k]).body),
        decreases defs@.len() - i,
    {
        match &defs[i].body {
            TypeBody::Struct(_) => {},
            TypeBody::Enum(variants) => {
                if !check_names(variants) {
                    return false;
                }
            },
        }
        i = i + 1;
    }
    true
}

impl Schema {
    /// Every reference resolves and no enum has two variants of one name.
    pub open spec fn wf(&self) -> bool {
        verdict(*self) is None
    }

    /// Checks the schema: every reference of a field resolves to a named
    /// type or an account type, and the variants of every enum have
    /// distinct names.
    pub fn validate(&self) -> (got: Result<(), SchemaError>)
        ensures
            match got {
                Ok(_) => self.wf(),
                Err(error) => verdict(*self) == Some(error@),
            },
    {
        match check_defs(self, &self.accounts) {
            Some(name) => {
                return Err(SchemaError::UnresolvedReference(name));
            },
            None => {},
        }
        match check_defs(self, &self.types) {
            Some(name) => {
                return Err(SchemaError::UnresolvedReference(name));
            },
            None => {},
        }
        if check_distinct(&self.accounts) && check_distinct(&self.types) {
            Ok(())
        } else {
            Err(SchemaError::Malformed)
        }
    }
}

} // verus!
