use vstd::prelude::*;

verus! {

/// An interface description as the document spells it: one field per key of
/// the document, with the union-shaped type fields still unresolved.
#[derive(Debug)]
pub struct AnchorIdl {
    pub version: String,
    pub name: String,
    pub docs: Vec<String>,
    pub instructions: Vec<Instruction>,
    pub accounts: Vec<AnchorIdlAccount>,
    pub types: Vec<TypeElement>,
    pub events: Vec<Event>,
    pub errors: Vec<Error>,
}

/// One entry of the document's `accounts` list.
#[derive(Debug)]
pub struct AnchorIdlAccount {
    pub name: String,
    pub account_type: AccountType,
    pub docs: Option<Vec<String>>,
}

/// The `type` object of an account entry: the fields of a struct or the
/// variants of an enum.
#[derive(Debug)]
pub struct AccountType {
    pub kind: Kind,
    pub fields: Option<Vec<PurpleField>>,
    pub variants: Option<Vec<Variant>>,
}

/// A field of an account entry.
#[derive(Debug)]
pub struct PurpleField {
    pub name: String,
    pub field_type: IndecentType,
    pub docs: Option<Vec<String>>,
}

/// The type of an account field: a bare primitive tag or an object.
#[derive(Debug)]
pub enum IndecentType {
    Enum(TypeEnum),
    PurpleType(PurpleType),
}

/// The object form of an account field's type.
#[derive(Debug)]
pub struct PurpleType {
    pub defined: Option<String>,
    pub type_option: Option<Box<AmbitiousType>>,
    pub array: Option<Vec<Array>>,
}

/// One element of an `array` pair: the element's type, as a tag or as an
/// object, or the length.
#[derive(Debug)]
pub enum Array {
    Enum(TypeEnum),
    Integer(i64),
    IndigoType(IndigoType),
}

/// The primitive tags of the document.
#[derive(Debug, Clone, Copy, PartialEq, Eq)]
pub enum TypeEnum {
    Bool,
    F64,
    PublicKey,
    U128,
    U32,
    U64,
    U8,
}

/// Whether a definition is a struct or an enum.
#[derive(Debug, Clone, Copy, PartialEq, Eq)]
pub enum Kind {
    Enum,
    Struct,
}

/// One entry of the document's `errors` list.
#[derive(Debug)]
pub struct Error {
    pub code: i64,
    pub name: String,
    pub msg: String,
}

/// One entry of the document's `events` list.
#[derive(Debug)]
pub struct Event {
    pub name: String,
    pub fields: Vec<EventField>,
}

/// A field of an event.
#[derive(Debug)]
pub struct EventField {
    pub name: String,
    pub field_type: HilariousType,
    pub index: bool,
}

/// The type of an event field or of a variant's field.
#[derive(Debug)]
pub enum HilariousType {
    Enum(TypeEnum),
    FluffyType(FluffyType),
}

/// The object form of the type of an event field or of a variant's field.
#[derive(Debug)]
pub struct FluffyType {
    pub defined: Option<String>,
    pub type_option: Option<Box<AmbitiousType>>,
    pub array: Option<Vec<Array>>,
}

/// One entry of the document's `instructions` list.
#[derive(Debug)]
pub struct Instruction {
    pub name: String,
    pub docs: Vec<String>,
    pub accounts: Vec<InstructionAccount>,
    pub args: Vec<Arg>,
}

/// An account that an instruction takes.
#[derive(Debug)]
pub struct InstructionAccount {
    pub name: String,
    pub is_mut: bool,
    pub is_signer: bool,
    pub docs: Option<Vec<String>>,
}

/// An argument of an instruction.
#[derive(Debug)]
pub struct Arg {
    pub name: String,
    pub arg_type: ArgType,
}

/// The type of an instruction argument.
#[derive(Debug)]
pub enum ArgType {
    Enum(TypeEnum),
    TentacledType(TentacledType),
}

/// The object form of an argument's type.
#[derive(Debug)]
pub struct TentacledType {
    pub defined: Option<String>,
    pub type_option: Option<Box<AmbitiousType>>,
    pub array: Option<Vec<Array>>,
}

/// One entry of the document's `types` list.
#[derive(Debug)]
pub struct TypeElement {
    pub name: String,
    pub docs: Option<Vec<String>>,
    pub type_type: StickyType,
}

/// The `type` object of a named type.
#[derive(Debug)]
pub struct StickyType {
    pub kind: Kind,
    pub fields: Option<Vec<FluffyField>>,
    pub variants: Option<Vec<Variant>>,
}

/// A field of a named struct.
#[derive(Debug)]
pub struct FluffyField {
    pub name: String,
    pub docs: Option<Vec<String>>,
    pub field_type: AmbitiousType,
}

/// The type of a named struct's field; also the inner type of an option
/// and, in its object form, the element type of an array.
#[derive(Debug)]
pub enum AmbitiousType {
    Enum(TypeEnum),
    IndigoType(IndigoType),
}

/// The object form of a named struct field's type.
#[derive(Debug)]
pub struct IndigoType {
    pub defined: Option<String>,
    pub type_option: Option<Box<AmbitiousType>>,
    pub array: Option<Vec<Array>>,
}

/// A variant of a named enum.
#[derive(Debug)]
pub struct Variant {
    pub name: String,
    pub fields: Option<Vec<VariantField>>,
}

/// A field of a variant.
#[derive(Debug)]
pub struct VariantField {
    pub name: String,
    pub docs: Option<Vec<String>>,
    pub field_type: HilariousType,
}

} // verus!
