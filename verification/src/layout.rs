use crate::anchor_idl::TypeEnum;
use crate::encoding::{base58_key, key_to_base58};
use crate::schema::{
    body_size, fields_size, find_named, first_named, lemma_field_within, lemma_variant_within,
    type_size, FieldDef, FieldType, Schema, TypeBody,
};
use crate::text::{decimal, texts, to_decimal};
use crate::value::{Value, ValueTree};
use crate::wire::{le_value, radix, read_le};
use vstd::prelude::*;
use vstd::slice::slice_subrange;

verus! {

/// How deep references to named types may nest while one value is decoded.
pub const MAX_NESTING: usize = 32;

/// A decoded value, as it is typed in the schema.
pub enum Datum {
    Bool(bool),
    U8(u8),
    U32(u32),
    U64(u64),
    U128(u128),
    /// The bit pattern of a 64-bit IEEE-754 number.
    F64(u64),
    /// The 32 bytes of a public key.
    PublicKey(Seq<u8>),
    Struct(Seq<(Seq<char>, Datum)>),
    Variant { index: u8, name: Seq<char>, fields: Option<Seq<(Seq<char>, Datum)>> },
    Array(Seq<Datum>),
    Optional(Option<Box<Datum>>),
}

/// Why a blob does not hold a value of its type.
#[derive(Debug, Clone, Copy, PartialEq, Eq, Structural)]
pub enum Fault {
    /// The bytes end before the field does.
    Truncated,
    /// The discriminant byte selects no variant.
    InvalidVariant(u8),
    /// The bytes are no value of the field's type.
    FieldMismatch,
}

/// A fault and the path of the field at which decoding stopped.
pub struct Failure {
    pub fault: Fault,
    pub path: Seq<Seq<char>>,
}

/// Result of decoding one value: the value and the position after it.
pub type Decoded = Result<(Datum, int), Failure>;

/// The number of bytes that a primitive takes.
pub open spec fn primitive_width(tag: TypeEnum) -> nat {
    match tag {
        TypeEnum::Bool => 1,
        TypeEnum::U8 => 1,
        TypeEnum::U32 => 4,
        TypeEnum::U64 => 8,
        TypeEnum::F64 => 8,
        TypeEnum::U128 => 16,
        TypeEnum::PublicKey => 32,
    }
}

/// Reads a primitive at `pos`: the value and the position after it. A
/// boolean is one byte, 0 or 1; the numbers are little-endian.
pub open spec fn read_primitive(tag: TypeEnum, bytes: Seq<u8>, pos: int) -> Result<
    (Datum, int),
    Fault,
> {
    let width = primitive_width(tag);
    if pos + width > bytes.len() {
        Err(Fault::Truncated)
    } else {
        let field = bytes.subrange(pos, pos + width);
        let end = pos + width;
        match tag {
            TypeEnum::Bool => if field[0] == 0 {
                Ok((Datum::Bool(false), end))
            } else if field[0] == 1 {
                Ok((Datum::Bool(true), end))
            } else {
                Err(Fault::FieldMismatch)
            },
            TypeEnum::U8 => Ok((Datum::U8(field[0]), end)),
            TypeEnum::U32 => Ok((Datum::U32(le_value(field) as u32), end)),
            TypeEnum::U64 => Ok((Datum::U64(le_value(field) as u64), end)),
            TypeEnum::F64 => Ok((Datum::F64(le_value(field) as u64), end)),
            TypeEnum::U128 => Ok((Datum::U128(le_value(field) as u128), end)),
            TypeEnum::PublicKey => Ok((Datum::PublicKey(field), end)),
        }
    }
}

/// Decodes a primitive at `pos`, for the field at `path`.
pub open spec fn decode_primitive(
    tag: TypeEnum,
    bytes: Seq<u8>,
    pos: int,
    path: Seq<Seq<char>>,
) -> Decoded {
    match read_primitive(tag, bytes, pos) {
        Ok(read) => Ok(read),
        Err(fault) => Err(Failure { fault, path }),
    }
}

/// Decodes a value of type `ty` at `pos`. `depth` bounds how many references
/// to named types may still be followed.
pub open spec fn decode_type(
    schema: Schema,
    ty: FieldType,
    bytes: Seq<u8>,
    pos: int,
    depth: nat,
    path: Seq<Seq<char>>,
) -> Decoded
    decreases depth, type_size(ty), 0nat,
{
    match ty {
        FieldType::Primitive(tag) => decode_primitive(tag, bytes, pos, path),
        FieldType::Defined(name) => match schema.lookup(name@) {
            None => Err(Failure { fault: Fault::FieldMismatch, path }),
            Some(def) => if depth == 0 {
                Err(Failure { fault: Fault::FieldMismatch, path })
            } else {
                decode_body(schema, def.body, bytes, pos, (depth - 1) as nat, path)
            },
        },
        FieldType::Array(elem, count) => match decode_items(
            schema,
            *elem,
            count as nat,
            0,
            bytes,
            pos,
            depth,
            path,
            Seq::empty(),
        ) {
            Ok((items, end)) => Ok((Datum::Array(items), end)),
            Err(failure) => Err(failure),
        },
        FieldType::Optional(inner) => if pos >= bytes.len() {
            Err(Failure { fault: Fault::Truncated, path })
        } else if bytes[pos] == 0 {
            Ok((Datum::Optional(None), pos + 1))
        } else if bytes[pos] == 1 {
            match decode_type(schema, *inner, bytes, pos + 1, depth, path) {
                Ok((value, end)) => Ok((Datum::Optional(Some(Box::new(value))), end)),
                Err(failure) => Err(failure),
            }
        } else {
            Err(Failure { fault: Fault::FieldMismatch, path })
        },
    }
}

/// Decodes the elements `index..count` of an array; `done` holds the
/// elements before them. An element's path ends in its index.
pub open spec fn decode_items(
    schema: Schema,
    elem: FieldType,
    count: nat,
    index: nat,
    bytes: Seq<u8>,
    pos: int,
    depth: nat,
    path: Seq<Seq<char>>,
    done: Seq<Datum>,
) -> Result<(Seq<Datum>, int), Failure>
    decreases depth, type_size(elem), count - index,
{
    if index >= count {
        Ok((done, pos))
    } else {
        match decode_type(schema, elem, bytes, pos, depth, path.push(decimal(index))) {
            Ok((value, end)) => decode_items(
                schema,
                elem,
                count,
                index + 1,
                bytes,
                end,
                depth,
                path,
                done.push(value),
            ),
            Err(failure) => Err(failure),
        }
    }
}

/// Decodes the fields from `index` on, in their order; `done` holds the
/// fields before them. A field's path ends in its name.
pub open spec fn decode_fields(
    schema: Schema,
    fields: Seq<FieldDef>,
    index: nat,
    bytes: Seq<u8>,
    pos: int,
    depth: nat,
    path: Seq<Seq<char>>,
    done: Seq<(Seq<char>, Datum)>,
) -> Result<(Seq<(Seq<char>, Datum)>, int), Failure>
    decreases depth, fields_size(fields, index as int), 0nat,
{
    if index >= fields.len() {
        Ok((done, pos))
    } else {
        let field = fields[index as int];
        match decode_type(schema, field.ty, bytes, pos, depth, path.push(field.name@)) {
            Ok((value, end)) => decode_fields(
                schema,
                fields,
                index + 1,
                bytes,
                end,
                depth,
                path,
                done.push((field.name@, value)),
            ),
            Err(failure) => Err(failure),
        }
    }
}

/// Decodes a struct or an enum at `pos`. An enum is one discriminant byte,
/// then the fields of the variant that it selects; the path of such a field
/// holds the variant's name before the field's.
pub open spec fn decode_body(
    schema: Schema,
    body: TypeBody,
    bytes: Seq<u8>,
    pos: int,
    depth: nat,
    path: Seq<Seq<char>>,
) -> Decoded
    decreases depth, body_size(body), 0nat,
{
    match body {
        TypeBody::Struct(fields) => match decode_fields(
            schema,
            fields@,
            0,
            bytes,
            pos,
            depth,
            path,
            Seq::empty(),
        ) {
            Ok((members, end)) => Ok((Datum::Struct(members), end)),
            Err(failure) => Err(failure),
        },
        TypeBody::Enum(variants) => if pos >= bytes.len() {
            Err(Failure { fault: Fault::Truncated, path })
        } else if bytes[pos] >= variants@.len() {
            Err(Failure { fault: Fault::InvalidVariant(bytes[pos]), path })
        } else {
            let variant = variants@[bytes[pos] as int];
            match variant.fields {
                None => Ok(
                    (Datum::Variant { index: bytes[pos], name: variant.name@, fields: None }, pos + 1),
                ),
                Some(fields) => {
                    proof {
                        lemma_variant_within(variants@, 0, bytes[pos] as int);
                    }
                    match decode_fields(
                        schema,
                        fields@,
                        0,
                        bytes,
                        pos + 1,
                        depth,
                        path.push(variant.name@),
                        Seq::empty(),
                    ) {
                        Ok((members, end)) => Ok(
                            (
                                Datum::Variant {
                                    index: bytes[pos],
                                    name: variant.name@,
                                    fields: Some(members),
                                },
                                end,
                            ),
                        ),
                        Err(failure) => Err(failure),
                    }
                },
            }
        },
    }
}

/// The value tree that a decoded value is shown as. Numbers of 64 bits and
/// more become decimal text, a public key its base58 text, a variant without
/// fields its name, a variant with fields a record of one member under its
/// name, and an absent optional value null.
pub open spec fn render(datum: Datum) -> Value
    decreases datum,
{
    match datum {
        Datum::Bool(b) => Value::Bool(b),
        Datum::U8(n) => Value::Number(n as nat),
        Datum::U32(n) => Value::Number(n as nat),
        Datum::U64(n) => Value::Text(decimal(n as nat)),
        Datum::U128(n) => Value::Text(decimal(n as nat)),
        Datum::F64(bits) => Value::Float(bits),
        Datum::PublicKey(key) => Value::Text(base58_key(key)),
        Datum::Struct(members) => Value::Record(render_members(members)),
        Datum::Variant { index, name, fields } => match fields {
            None => Value::Text(name),
            Some(members) => Value::Record(seq![(name, Value::Record(render_members(members)))]),
        },
        Datum::Array(items) => Value::List(
            Seq::new(
                items.len(),
                |i: int|
                    if 0 <= i < items.len() {
                        render(items[i])
                    } else {
                        Value::Null
                    },
            ),
        ),
        Datum::Optional(inner) => match inner {
            None => Value::Null,
            Some(value) => render(*value),
        },
    }
}

/// The members of a record, each rendered under its name.
pub open spec fn render_members(members: Seq<(Seq<char>, Datum)>) -> Seq<(Seq<char>, Value)>
    decreases members,
{
    Seq::new(
        members.len(),
        |i: int|
            if 0 <= i < members.len() {
                (members[i].0, render(members[i].1))
            } else {
                (Seq::empty(), Value::Null)
            },
    )
}

/// Dropping the last segment of a path undoes adding it.
proof fn lemma_path_pop(longer: Seq<String>, base: Seq<Seq<char>>, segment: Seq<char>)
    requires
        texts(longer) == base.push(segment),
    ensures
        texts(longer.drop_last()) == base,
{
    let shorter = longer.drop_last();
    assert(texts(longer).len() == longer.len());
    assert forall|i: int| 0 <= i < base.len() implies texts(shorter)[i] == base[i] by {
        assert(texts(longer)[i] == longer[i]@);
        assert(base.push(segment)[i] == base[i]);
    }
    assert(texts(shorter) =~= base);
}

/// What a walk over the bytes hands back for the outcome `expected`: the
/// rendered value and the position after it, with the path as it was; or
/// the fault, with the path of the failing field left in place.
spec fn walked(
    expected: Decoded,
    got: Result<(ValueTree, usize), Fault>,
    before: Seq<Seq<char>>,
    after: Seq<Seq<char>>,
    len: nat,
) -> bool {
    match expected {
        Ok((datum, end)) => {
            &&& got matches Ok((tree, stop))
            &&& tree@ == render(datum)
            &&& stop == end
            &&& end <= len
            &&& after == before
        },
        Err(failure) => {
            &&& got matches Err(fault)
            &&& fault == failure.fault
            &&& after == failure.path
        },
    }
}

/// The same for a run of values: `trees` renders `data` one for one.
spec fn rendered_each(trees: Seq<ValueTree>, data: Seq<Datum>) -> bool {
    &&& trees.len() == data.len()
    &&& forall|i: int| 0 <= i < data.len() ==> (#[trigger] trees[i])@ == render(data[i])
}

/// The same for named members.
spec fn rendered_members(
    trees: Seq<(String, ValueTree)>,
    data: Seq<(Seq<char>, Datum)>,
) -> bool {
    &&& trees.len() == data.len()
    &&& forall|i: int|
        0 <= i < data.len() ==> (#[trigger] trees[i]).0@ == data[i].0 && trees[i].1@ == render(
            data[i].1,
        )
}

/// Reads one primitive at `pos` and renders it.
fn walk_primitive(tag: TypeEnum, bytes: &[u8], pos: usize) -> (got: Result<
    (ValueTree, usize),
    Fault,
>)
    requires
        pos <= bytes@.len(),
    ensures
        match read_primitive(tag, bytes@, pos as int) {
            Ok((datum, end)) => {
                &&& got matches Ok((tree, stop))
                &&& tree@ == render(datum)
                &&& stop == end
                &&& end <= bytes@.len()
            },
            Err(fault) => got == Err::<(ValueTree, usize), Fault>(fault),
        },
{
    let width: usize = match tag {
        TypeEnum::Bool => 1,
        TypeEnum::U8 => 1,
        TypeEnum::U32 => 4,
        TypeEnum::U64 => 8,
        TypeEnum::F64 => 8,
        TypeEnum::U128 => 16,
        TypeEnum::PublicKey => 32,
    };
    if bytes.len() - pos < width {
        return Err(Fault::Truncated);
    }
    let end: usize = pos + width;
    let ghost field = bytes@.subrange(pos as int, end as int);
    proof {
        reveal_with_fuel(radix, 17);
        reveal_with_fuel(le_value, 2);
        assert(radix(1) == 0x100);
        assert(radix(4) == 0x1_0000_0000);
        assert(radix(8) == 0x1_0000_0000_0000_0000);
        assert(field[0] == bytes@[pos as int]);
    }
    match tag {
        TypeEnum::Bool => {
            let flag: u8 = bytes[pos];
            if flag == 0 {
                Ok((ValueTree::Bool(false), end))
            } else if flag == 1 {
                Ok((ValueTree::Bool(true), end))
            } else {
                Err(Fault::FieldMismatch)
            }
        },
        TypeEnum::U8 => {
            let byte: u8 = bytes[pos];
            Ok((ValueTree::Number(byte as u64), end))
        },
        TypeEnum::U32 => {
            let number: u128 = read_le(bytes, pos, 4);
            Ok((ValueTree::Number(number as u64), end))
        },
        TypeEnum::U64 => {
            let number: u128 = read_le(bytes, pos, 8);
            Ok((ValueTree::Text(to_decimal(number)), end))
        },
        TypeEnum::F64 => {
            let bits: u128 = read_le(bytes, pos, 8);
            Ok((ValueTree::Float(bits as u64), end))
        },
        TypeEnum::U128 => {
            let number: u128 = read_le(bytes, pos, 16);
            Ok((ValueTree::Text(to_decimal(number)), end))
        },
        TypeEnum::PublicKey => {
            let key = slice_subrange(bytes, pos, end);
            Ok((ValueTree::Text(key_to_base58(key)), end))
        },
    }
}

/// Decodes and renders one value of type `ty` at `pos`. `path` names the
/// field that the value belongs to; after a failure it names the field at
/// which decoding stopped.
fn walk_type(
    schema: &Schema,
    ty: &FieldType,
    bytes: &[u8],
    pos: usize,
    depth: usize,
    path: &mut Vec<String>,
) -> (got: Result<(ValueTree, usize), Fault>)
    requires
        pos <= bytes@.len(),
    ensures
        walked(
            decode_type(
                *schema,
                *ty,
                bytes@,
                pos as int,
                depth as nat,
                texts(old(path)@),
            ),
            got,
            texts(old(path)@),
            texts(final(path)@),
            bytes@.len(),
        ),
    decreases depth, type_size(*ty), 0nat,
{
    match ty {
        FieldType::Primitive(tag) => walk_primitive(*tag, bytes, pos),
        FieldType::Defined(name) => match schema.find(name) {
            None => Err(Fault::FieldMismatch),
            Some(def) => if depth == 0 {
                Err(Fault::FieldMismatch)
            } else {
                walk_body(schema, &def.body, bytes, pos, depth - 1, path)
            },
        },
        FieldType::Array(elem, count) => match walk_items(
            schema,
            elem,
            *count,
            bytes,
            pos,
            depth,
            path,
        ) {
            Ok((items, end)) => {
                let tree = ValueTree::List(items);
                proof {
                    let data = decode_items(
                        *schema,
                        **elem,
                        *count as nat,
                        0,
                        bytes@,
                        pos as int,
                        depth as nat,
                        texts(old(path)@),
                        Seq::empty(),
                    )->Ok_0.0;
                    assert(tree@->List_0 =~= render(Datum::Array(data))->List_0);
                }
                Ok((tree, end))
            },
            Err(fault) => Err(fault),
        },
        FieldType::Optional(inner) => {
            if pos >= bytes.len() {
                Err(Fault::Truncated)
            } else {
                let flag: u8 = bytes[pos];
                if flag == 0 {
                    Ok((ValueTree::Null, pos + 1))
                } else if flag == 1 {
                    walk_type(schema, inner, bytes, pos + 1, depth, path)
                } else {
                    Err(Fault::FieldMismatch)
                }
            }
        },
    }
}

/// Decodes and renders the `count` elements of an array, one after the
/// other.
fn walk_items(
    schema: &Schema,
    elem: &FieldType,
    count: u64,
    bytes: &[u8],
    pos: usize,
    depth: usize,
    path: &mut Vec<String>,
) -> (got: Result<(Vec<ValueTree>, usize), Fault>)
    requires
        pos <= bytes@.len(),
    ensures
        match decode_items(
            *schema,
            *elem,
            count as nat,
            0,
            bytes@,
            pos as int,
            depth as nat,
            texts(old(path)@),
            Seq::empty(),
        ) {
            Ok((data, end)) => {
                &&& got matches Ok((trees, stop))
                &&& rendered_each(trees@, data)
                &&& stop == end
                &&& end <= bytes@.len()
                &&& texts(final(path)@) == texts(old(path)@)
            },
            Err(failure) => {
                &&& got matches Err(fault)
                &&& fault == failure.fault
                &&& texts(final(path)@) == failure.path
            },
        },
    decreases depth, type_size(*elem), count as nat + 1,
{
    let mut trees: Vec<ValueTree> = Vec::new();
    let mut index: u64 = 0;
    let mut at: usize = pos;
    let ghost base = texts(path@);
    let ghost mut done: Seq<Datum> = Seq::empty();
    while index < count
        invariant
            index <= count,
            at <= bytes@.len(),
            base == texts(old(path)@),
            texts(path@) == base,
            rendered_each(trees@, done),
            decode_items(
                *schema,
                *elem,
                count as nat,
                0,
                bytes@,
                pos as int,
                depth as nat,
                base,
                Seq::empty(),
            ) == decode_items(
                *schema,
                *elem,
                count as nat,
                index as nat,
                bytes@,
                at as int,
                depth as nat,
                base,
                done,
            ),
        decreases count - index,
    {
        path.push(to_decimal(index as u128));
        proof {
            assert(texts(path@) =~= base.push(decimal(index as nat)));
        }
        let ghost one = decode_type(
            *schema,
            *elem,
            bytes@,
            at as int,
            depth as nat,
            base.push(decimal(index as nat)),
        );
        match walk_type(schema, elem, bytes, at, depth, path) {
            Err(fault) => {
                return Err(fault);
            },
            Ok((tree, end)) => {
                let ghost longer = path@;
                path.pop();
                proof {
                    lemma_path_pop(longer, base, decimal(index as nat));
                    done = done.push(one->Ok_0.0);
                }
                trees.push(tree);
                at = end;
                index = index + 1;
            },
        }
    }
    Ok((trees, at))
}

/// Decodes and renders the fields of a struct or of a variant, in their
/// order.
fn walk_fields(
    schema: &Schema,
    fields: &Vec<FieldDef>,
    bytes: &[u8],
    pos: usize,
    depth: usize,
    path: &mut Vec<String>,
) -> (got: Result<(Vec<(String, ValueTree)>, usize), Fault>)
    requires
        pos <= bytes@.len(),
    ensures
        match decode_fields(
            *schema,
            fields@,
            0,
            bytes@,
            pos as int,
            depth as nat,
            texts(old(path)@),
            Seq::empty(),
        ) {
            Ok((data, end)) => {
                &&& got matches Ok((trees, stop))
                &&& rendered_members(trees@, data)
                &&& stop == end
                &&& end <= bytes@.len()
                &&& texts(final(path)@) == texts(old(path)@)
            },
            Err(failure) => {
                &&& got matches Err(fault)
                &&& fault == failure.fault
                &&& texts(final(path)@) == failure.path
            },
        },
    decreases depth, fields_size(fields@, 0), 0nat,
{
    let mut trees: Vec<(String, ValueTree)> = Vec::new();
    let mut index: usize = 0;
    let mut at: usize = pos;
    let ghost base = texts(path@);
    let ghost mut done: Seq<(Seq<char>, Datum)> = Seq::empty();
    while index < fields.len()
        invariant
            index <= fields@.len(),
            at <= bytes@.len(),
            base == texts(old(path)@),
            texts(path@) == base,
            rendered_members(trees@, done),
            decode_fields(
                *schema,
                fields@,
                0,
                bytes@,
                pos as int,
                depth as nat,
                base,
                Seq::empty(),
            ) == decode_fields(
                *schema,
                fields@,
                index as nat,
                bytes@,
                at as int,
                depth as nat,
                base,
                done,
            ),
        decreases fields@.len() - index,
    {
        let field = &fields[index];
        path.push(field.name.clone());
        proof {
            assert(texts(path@) =~= base.push(field.name@));
            lemma_field_within(fields@, 0, index as int);
        }
        let ghost one = decode_type(
            *schema,
            field.ty,
            bytes@,
            at as int,
            depth as nat,
            base.push(field.name@),
        );
        match walk_type(schema, &field.ty, bytes, at, depth, path) {
            Err(fault) => {
                return Err(fault);
            },
            Ok((tree, end)) => {
                let ghost longer = path@;
                path.pop();
                proof {
                    lemma_path_pop(longer, base, field.name@);
                    done = done.push((field.name@, one->Ok_0.0));
                }
                trees.push((field.name.clone(), tree));
                at = end;
                index = index + 1;
            },
        }
    }
    Ok((trees, at))
}

/// Decodes and renders a struct, or an enum by its discriminant byte.
fn walk_body(
    schema: &Schema,
    body: &TypeBody,
    bytes: &[u8],
    pos: usize,
    depth: usize,
    path: &mut Vec<String>,
) -> (got: Result<(ValueTree, usize), Fault>)
    requires
        pos <= bytes@.len(),
    ensures
        walked(
            decode_body(
                *schema,
                *body,
                bytes@,
                pos as int,
                depth as nat,
                texts(old(path)@),
            ),
            got,
            texts(old(path)@),
            texts(final(path)@),
            bytes@.len(),
        ),
    decreases depth, body_size(*body), 0nat,
{
    match body {
        TypeBody::Struct(fields) => match walk_fields(schema, fields, bytes, pos, depth, path) {
            Ok((members, end)) => {
                let tree = ValueTree::Record(members);
                proof {
                    let data = decode_fields(
                        *schema,
                        fields@,
                        0,
                        bytes@,
                        pos as int,
                        depth as nat,
                        texts(old(path)@),
                        Seq::empty(),
                    )->Ok_0.0;
                    assert(tree@->Record_0 =~= render_members(data));
                }
                Ok((tree, end))
            },
            Err(fault) => Err(fault),
        },
        TypeBody::Enum(variants) => {
            if pos >= bytes.len() {
                return Err(Fault::Truncated);
            }
            let tag: u8 = bytes[pos];
            if tag as usize >= variants.len() {
                return Err(Fault::InvalidVariant(tag));
            }
            let variant = &variants[tag as usize];
            match &variant.fields {
                None => Ok((ValueTree::Text(variant.name.clone()), pos + 1)),
                Some(fields) => {
                    let ghost base = texts(path@);
                    path.push(variant.name.clone());
                    proof {
                        assert(texts(path@) =~= base.push(variant.name@));
                        lemma_variant_within(variants@, 0, tag as int);
                    }
                    match walk_fields(schema, fields, bytes, pos + 1, depth, path) {
                        Err(fault) => Err(fault),
                        Ok((members, end)) => {
                            let ghost longer = path@;
                            path.pop();
                            let inner = ValueTree::Record(members);
                            let mut outer: Vec<(String, ValueTree)> = Vec::new();
                            outer.push((variant.name.clone(), inner));
                            let tree = ValueTree::Record(outer);
                            proof {
                                lemma_path_pop(longer, base, variant.name@);
                                let data = decode_fields(
                                    *schema,
                                    fields@,
                                    0,
                                    bytes@,
                                    pos + 1,
                                    depth as nat,
                                    base.push(variant.name@),
                                    Seq::empty(),
                                )->Ok_0.0;
                                assert(outer@[0].1@->Record_0 =~= render_members(data));
                                assert(tree@->Record_0 =~= seq![
                                    (variant.name@, Value::Record(render_members(data))),
                                ]);
                            }
                            Ok((tree, end))
                        },
                    }
                },
            }
        },
    }
}

/// Why a blob could not be decoded, and at which field.
#[derive(Debug, PartialEq, Eq)]
pub enum DecodeError {
    Truncated { path: Vec<String> },
    InvalidVariant { tag: u8, path: Vec<String> },
    FieldMismatch { path: Vec<String> },
}

impl View for DecodeError {
    type V = Failure;

    open spec fn view(&self) -> Failure {
        match self {
            DecodeError::Truncated { path } => Failure {
                fault: Fault::Truncated,
                path: texts(path@),
            },
            DecodeError::InvalidVariant { tag, path } => Failure {
                fault: Fault::InvalidVariant(*tag),
                path: texts(path@),
            },
            DecodeError::FieldMismatch { path } => Failure {
                fault: Fault::FieldMismatch,
                path: texts(path@),
            },
        }
    }
}

impl DecodeError {
    /// The error for a fault at the field that `path` names.
    pub fn new(fault: Fault, path: Vec<String>) -> (error: DecodeError)
        ensures
            error@ == (Failure { fault, path: texts(path@) }),
    {
        match fault {
            Fault::Truncated => DecodeError::Truncated { path },
            Fault::InvalidVariant(tag) => DecodeError::InvalidVariant { tag, path },
            Fault::FieldMismatch => DecodeError::FieldMismatch { path },
        }
    }

    /// The kind of the error.
    pub fn fault(&self) -> (fault: Fault)
        ensures
            fault == self@.fault,
    {
        match self {
            DecodeError::Truncated { .. } => Fault::Truncated,
            DecodeError::InvalidVariant { tag, .. } => Fault::InvalidVariant(*tag),
            DecodeError::FieldMismatch { .. } => Fault::FieldMismatch,
        }
    }

    /// The names that lead from the account to the failing field.
    pub fn path(&self) -> (path: &Vec<String>)
        ensures
            texts(path@) == self@.path,
    {
        match self {
            DecodeError::Truncated { path } => path,
            DecodeError::InvalidVariant { path, .. } => path,
            DecodeError::FieldMismatch { path } => path,
        }
    }
}

/// The value that `bytes` hold for the account type called `account_name`:
/// its fields in their order, from the first byte on. Bytes after the last
/// field are left alone. A name that the schema has no account type for is
/// a mismatch at the empty path.
pub open spec fn decode_account(schema: Schema, account_name: Seq<char>, bytes: Seq<u8>) -> Result<
    Datum,
    Failure,
> {
    match first_named(schema.accounts@, account_name, 0) {
        None => Err(Failure { fault: Fault::FieldMismatch, path: Seq::empty() }),
        Some(i) => match decode_body(
            schema,
            schema.accounts@[i].body,
            bytes,
            0,
            MAX_NESTING as nat,
            Seq::empty(),
        ) {
            Ok((datum, _)) => Ok(datum),
            Err(failure) => Err(failure),
        },
    }
}

/// Decodes the bytes that follow an account's discriminator, for the
/// account type called `account_name`, into a value tree.
pub fn decode(schema: &Schema, account_name: &str, bytes: &[u8]) -> (got: Result<
    ValueTree,
    DecodeError,
>)
    ensures
        match decode_account(*schema, account_name@, bytes@) {
            Ok(datum) => got matches Ok(tree) && tree@ == render(datum),
            Err(failure) => got matches Err(error) && error@ == failure,
        },
{
    let name = account_name.to_owned();
    let mut path: Vec<String> = Vec::new();
    assert(texts(path@) =~= Seq::<Seq<char>>::empty());
    match find_named(&schema.accounts, &name) {
        None => Err(DecodeError::new(Fault::FieldMismatch, path)),
        Some(i) => match walk_body(
            schema,
            &schema.accounts[i].body,
            bytes,
            0,
            MAX_NESTING,
            &mut path,
        ) {
            Ok((tree, _)) => Ok(tree),
            Err(fault) => Err(DecodeError::new(fault, path)),
        },
    }
}

} // verus!
