use crate::anchor_idl::TypeEnum;
use crate::layout::{
    decode_account, decode_body, decode_fields, decode_items, decode_type, read_primitive, Datum,
    Failure, Fault, MAX_NESTING,
};
use crate::schema::{
    body_size, fields_size, first_named, lemma_variant_within, type_size, FieldDef, FieldType,
    Schema, TypeBody,
};
use crate::text::decimal;
use crate::wire::{le_bytes, lemma_le_bytes_len, lemma_le_value_of_bytes, radix};
use vstd::prelude::*;

verus! {

/// The bytes of a value: a boolean is one byte, a number its little-endian
/// bytes, a key its 32 bytes, a struct its members one after the other, a
/// variant its index and then its members, an array its elements one after
/// the other, an optional value a byte 0, or a byte 1 and the value.
pub open spec fn encode(datum: Datum) -> Seq<u8>
    decreases datum, 0nat,
{
    match datum {
        Datum::Bool(b) => seq![if b { 1u8 } else { 0u8 }],
        Datum::U8(n) => seq![n],
        Datum::U32(n) => le_bytes(n as nat, 4),
        Datum::U64(n) => le_bytes(n as nat, 8),
        Datum::U128(n) => le_bytes(n as nat, 16),
        Datum::F64(bits) => le_bytes(bits as nat, 8),
        Datum::PublicKey(key) => key,
        Datum::Struct(members) => encode_members(members, 0),
        Datum::Variant { index, name, fields } => match fields {
            None => seq![index],
            Some(members) => seq![index] + encode_members(members, 0),
        },
        Datum::Array(items) => encode_items(items, 0),
        Datum::Optional(inner) => match inner {
            None => seq![0u8],
            Some(value) => seq![1u8] + encode(*value),
        },
    }
}

/// The bytes of the members from `from` on.
pub open spec fn encode_members(members: Seq<(Seq<char>, Datum)>, from: int) -> Seq<u8>
    decreases members, members.len() - from,
{
    if from < 0 || from >= members.len() {
        Seq::empty()
    } else {
        encode(members[from].1) + encode_members(members, from + 1)
    }
}

/// The bytes of the elements from `from` on.
pub open spec fn encode_items(items: Seq<Datum>, from: int) -> Seq<u8>
    decreases items, items.len() - from,
{
    if from < 0 || from >= items.len() {
        Seq::empty()
    } else {
        encode(items[from]) + encode_items(items, from + 1)
    }
}

/// The value is of the primitive type.
pub open spec fn conforms_primitive(tag: TypeEnum, datum: Datum) -> bool {
    match tag {
        TypeEnum::Bool => datum is Bool,
        TypeEnum::U8 => datum is U8,
        TypeEnum::U32 => datum is U32,
        TypeEnum::U64 => datum is U64,
        TypeEnum::F64 => datum is F64,
        TypeEnum::U128 => datum is U128,
        TypeEnum::PublicKey => datum is PublicKey && datum->PublicKey_0.len() == 32,
    }
}

/// The value is of the type `ty`, with references followed at most `depth`
/// deep.
pub open spec fn conforms_type(schema: Schema, ty: FieldType, datum: Datum, depth: nat) -> bool
    decreases depth, type_size(ty), 0nat,
{
    match ty {
        FieldType::Primitive(tag) => conforms_primitive(tag, datum),
        FieldType::Defined(name) => match schema.lookup(name@) {
            None => false,
            Some(def) => depth > 0 && conforms_body(
                schema,
                def.body,
                datum,
                (depth - 1) as nat,
            ),
        },
        FieldType::Array(elem, count) => {
            &&& datum is Array
            &&& datum->Array_0.len() == count
            &&& conforms_items(schema, *elem, datum->Array_0, 0, depth)
        },
        FieldType::Optional(inner) => match datum {
            Datum::Optional(None) => true,
            Datum::Optional(Some(value)) => conforms_type(schema, *inner, *value, depth),
            _ => false,
        },
    }
}

/// The elements from `from` on are of the type `elem`.
pub open spec fn conforms_items(
    schema: Schema,
    elem: FieldType,
    items: Seq<Datum>,
    from: int,
    depth: nat,
) -> bool
    decreases depth, type_size(elem), items.len() - from,
{
    if from < 0 || from >= items.len() {
        true
    } else {
        conforms_type(schema, elem, items[from], depth) && conforms_items(
            schema,
            elem,
            items,
            from + 1,
            depth,
        )
    }
}

/// The members from `from` on have the names and the types of the fields.
pub open spec fn conforms_fields(
    schema: Schema,
    fields: Seq<FieldDef>,
    members: Seq<(Seq<char>, Datum)>,
    from: int,
    depth: nat,
) -> bool
    decreases depth, fields_size(fields, from), 0nat,
{
    if from < 0 || from >= fields.len() {
        true
    } else {
        &&& members[from].0 == fields[from].name@
        &&& conforms_type(schema, fields[from].ty, members[from].1, depth)
        &&& conforms_fields(schema, fields, members, from + 1, depth)
    }
}

/// The value is of the struct or enum `body`.
pub open spec fn conforms_body(schema: Schema, body: TypeBody, datum: Datum, depth: nat) -> bool
    decreases depth, body_size(body), 0nat,
{
    match body {
        TypeBody::Struct(fields) => {
            &&& datum is Struct
            &&& datum->Struct_0.len() == fields@.len()
            &&& conforms_fields(schema, fields@, datum->Struct_0, 0, depth)
        },
        TypeBody::Enum(variants) => {
            &&& datum is Variant
            &&& (datum->index as int) < variants@.len()
            &&& datum->name == variants@[datum->index as int].name@
            &&& match variants@[datum->index as int].fields {
                None => datum->fields is None,
                Some(fields) => {
                    proof {
                        lemma_variant_within(variants@, 0, datum->index as int);
                    }
                    &&& datum->fields is Some
                    &&& datum->fields->Some_0.len() == fields@.len()
                    &&& conforms_fields(schema, fields@, datum->fields->Some_0, 0, depth)
                },
            }
        },
    }
}

/// Where a stretch of bytes is two strings one after the other, each of
/// the two parts of the stretch is one of them.
proof fn lemma_split(bytes: Seq<u8>, pos: int, a: Seq<u8>, b: Seq<u8>)
    requires
        0 <= pos,
        pos + a.len() + b.len() <= bytes.len(),
        bytes.subrange(pos, pos + a.len() + b.len()) == a + b,
    ensures
        bytes.subrange(pos, pos + a.len()) == a,
        bytes.subrange(pos + a.len(), pos + a.len() + b.len()) == b,
{
    let whole = bytes.subrange(pos, pos + a.len() + b.len());
    assert forall|i: int| 0 <= i < a.len() implies bytes[pos + i] == a[i] by {
        assert(whole[i] == (a + b)[i]);
    }
    assert forall|i: int| 0 <= i < b.len() implies bytes[pos + a.len() + i] == b[i] by {
        assert(whole[a.len() + i] == (a + b)[a.len() + i]);
    }
    assert(bytes.subrange(pos, pos + a.len()) =~= a);
    assert(bytes.subrange(pos + a.len(), pos + a.len() + b.len()) =~= b);
}

/// Reading the bytes of a primitive gives the primitive back.
pub proof fn lemma_roundtrip_primitive(tag: TypeEnum, datum: Datum, bytes: Seq<u8>, pos: int)
    requires
        conforms_primitive(tag, datum),
        0 <= pos,
        pos + encode(datum).len() <= bytes.len(),
        bytes.subrange(pos, pos + encode(datum).len()) == encode(datum),
    ensures
        read_primitive(tag, bytes, pos) == Ok::<(Datum, int), Fault>(
            (datum, pos + encode(datum).len()),
        ),
{
    reveal_with_fuel(radix, 17);
    assert(radix(4) == 0x1_0000_0000);
    assert(radix(8) == 0x1_0000_0000_0000_0000);
    assert(radix(16) == 0x1_0000_0000_0000_0000_0000_0000_0000_0000);
    match datum {
        Datum::U32(n) => {
            lemma_le_bytes_len(n as nat, 4);
            lemma_le_value_of_bytes(n as nat, 4);
        },
        Datum::U64(n) => {
            lemma_le_bytes_len(n as nat, 8);
            lemma_le_value_of_bytes(n as nat, 8);
        },
        Datum::F64(n) => {
            lemma_le_bytes_len(n as nat, 8);
            lemma_le_value_of_bytes(n as nat, 8);
        },
        Datum::U128(n) => {
            lemma_le_bytes_len(n as nat, 16);
            lemma_le_value_of_bytes(n as nat, 16);
        },
        Datum::PublicKey(key) => {
            assert(bytes.subrange(pos, pos + 32) == key);
        },
        _ => {
            assert(bytes.subrange(pos, pos + 1)[0] == encode(datum)[0]);
        },
    }
}

/// Decoding the bytes of a value of a type gives the value back, and stops
/// right after them.
pub proof fn lemma_roundtrip_type(
    schema: Schema,
    ty: FieldType,
    datum: Datum,
    depth: nat,
    bytes: Seq<u8>,
    pos: int,
    path: Seq<Seq<char>>,
)
    requires
        conforms_type(schema, ty, datum, depth),
        0 <= pos,
        pos + encode(datum).len() <= bytes.len(),
        bytes.subrange(pos, pos + encode(datum).len()) == encode(datum),
    ensures
        decode_type(schema, ty, bytes, pos, depth, path) == Ok::<(Datum, int), Failure>(
            (datum, pos + encode(datum).len()),
        ),
    decreases depth, type_size(ty), 0nat,
{
    match ty {
        FieldType::Primitive(tag) => {
            lemma_roundtrip_primitive(tag, datum, bytes, pos);
        },
        FieldType::Defined(name) => {
            let def = schema.lookup(name@)->Some_0;
            lemma_roundtrip_body(schema, def.body, datum, (depth - 1) as nat, bytes, pos, path);
        },
        FieldType::Array(elem, count) => {
            let items = datum->Array_0;
            assert(items.subrange(0, 0) =~= Seq::<Datum>::empty());
            lemma_roundtrip_items(schema, *elem, items, 0, depth, bytes, pos, path, Seq::empty());
        },
        FieldType::Optional(inner) => {
            match datum {
                Datum::Optional(Some(value)) => {
                    let head = seq![1u8];
                    let tail = encode(*value);
                    lemma_split(bytes, pos, head, tail);
                    assert(bytes.subrange(pos, pos + 1)[0] == head[0]);
                    lemma_roundtrip_type(schema, *inner, *value, depth, bytes, pos + 1, path);
                },
                _ => {
                    assert(bytes.subrange(pos, pos + 1)[0] == encode(datum)[0]);
                },
            }
        },
    }
}

/// The same for the elements of an array from `from` on.
pub proof fn lemma_roundtrip_items(
    schema: Schema,
    elem: FieldType,
    items: Seq<Datum>,
    from: int,
    depth: nat,
    bytes: Seq<u8>,
    pos: int,
    path: Seq<Seq<char>>,
    done: Seq<Datum>,
)
    requires
        0 <= from <= items.len(),
        conforms_items(schema, elem, items, from, depth),
        done == items.subrange(0, from),
        0 <= pos,
        pos + encode_items(items, from).len() <= bytes.len(),
        bytes.subrange(pos, pos + encode_items(items, from).len()) == encode_items(items, from),
    ensures
        decode_items(schema, elem, items.len(), from as nat, bytes, pos, depth, path, done) == Ok::<
            (Seq<Datum>, int),
            Failure,
        >((items, pos + encode_items(items, from).len())),
    decreases depth, type_size(elem), items.len() - from,
{
    if from < items.len() {
        let head = encode(items[from]);
        let tail = encode_items(items, from + 1);
        lemma_split(bytes, pos, head, tail);
        lemma_roundtrip_type(
            schema,
            elem,
            items[from],
            depth,
            bytes,
            pos,
            path.push(decimal(from as nat)),
        );
        assert(done.push(items[from]) =~= items.subrange(0, from + 1));
        lemma_roundtrip_items(
            schema,
            elem,
            items,
            from + 1,
            depth,
            bytes,
            pos + head.len(),
            path,
            done.push(items[from]),
        );
    } else {
        assert(done =~= items);
    }
}

/// The same for the fields of a struct or of a variant from `from` on.
pub proof fn lemma_roundtrip_fields(
    schema: Schema,
    fields: Seq<FieldDef>,
    members: Seq<(Seq<char>, Datum)>,
    from: int,
    depth: nat,
    bytes: Seq<u8>,
    pos: int,
    path: Seq<Seq<char>>,
    done: Seq<(Seq<char>, Datum)>,
)
    requires
        members.len() == fields.len(),
        0 <= from <= fields.len(),
        conforms_fields(schema, fields, members, from, depth),
        done == members.subrange(0, from),
        0 <= pos,
        pos + encode_members(members, from).len() <= bytes.len(),
        bytes.subrange(pos, pos + encode_members(members, from).len()) == encode_members(
            members,
            from,
        ),
    ensures
        decode_fields(schema, fields, from as nat, bytes, pos, depth, path, done) == Ok::<
            (Seq<(Seq<char>, Datum)>, int),
            Failure,
        >((members, pos + encode_members(members, from).len())),
    decreases depth, fields_size(fields, from), 0nat,
{
    if from < fields.len() {
        let head = encode(members[from].1);
        let tail = encode_members(members, from + 1);
        lemma_split(bytes, pos, head, tail);
        lemma_roundtrip_type(
            schema,
            fields[from].ty,
            members[from].1,
            depth,
            bytes,
            pos,
            path.push(fields[from].name@),
        );
        let next = done.push((fields[from].name@, members[from].1));
        assert(next =~= members.subrange(0, from + 1));
        lemma_roundtrip_fields(
            schema,
            fields,
            members,
            from + 1,
            depth,
            bytes,
            pos + head.len(),
            path,
            next,
        );
    } else {
        assert(done =~= members);
    }
}

/// The same for a struct or an enum.
pub proof fn lemma_roundtrip_body(
    schema: Schema,
    body: TypeBody,
    datum: Datum,
    depth: nat,
    bytes: Seq<u8>,
    pos: int,
    path: Seq<Seq<char>>,
)
    requires
        conforms_body(schema, body, datum, depth),
        0 <= pos,
        pos + encode(datum).len() <= bytes.len(),
        bytes.subrange(pos, pos + encode(datum).len()) == encode(datum),
    ensures
        decode_body(schema, body, bytes, pos, depth, path) == Ok::<(Datum, int), Failure>(
            (datum, pos + encode(datum).len()),
        ),
    decreases depth, body_size(body), 0nat,
{
    match body {
        TypeBody::Struct(fields) => {
            let members = datum->Struct_0;
            assert(members.subrange(0, 0) =~= Seq::<(Seq<char>, Datum)>::empty());
            lemma_roundtrip_fields(
                schema,
                fields@,
                members,
                0,
                depth,
                bytes,
                pos,
                path,
                Seq::empty(),
            );
        },
        TypeBody::Enum(variants) => {
            let index = datum->index;
            let variant = variants@[index as int];
            assert(bytes.subrange(pos, pos + encode(datum).len())[0] == encode(datum)[0]);
            match variant.fields {
                None => {},
                Some(fields) => {
                    let members = datum->fields->Some_0;
                    lemma_variant_within(variants@, 0, index as int);
                    lemma_split(bytes, pos, seq![index], encode_members(members, 0));
                    assert(members.subrange(0, 0) =~= Seq::<(Seq<char>, Datum)>::empty());
                    lemma_roundtrip_fields(
                        schema,
                        fields@,
                        members,
                        0,
                        depth,
                        bytes,
                        pos + 1,
                        path.push(variant.name@),
                        Seq::empty(),
                    );
                },
            }
        },
    }
}

/// Decoding what an account's value encodes to gives the value back,
/// whatever bytes follow: numbers as they were typed, keys as their 32
/// bytes, optional values and arrays as they were.
pub proof fn lemma_roundtrip_account(schema: Schema, at: int, datum: Datum, rest: Seq<u8>)
    requires
        0 <= at < schema.accounts@.len(),
        first_named(schema.accounts@, schema.accounts@[at].name@, 0) == Some(at),
        conforms_body(schema, schema.accounts@[at].body, datum, MAX_NESTING as nat),
    ensures
        decode_account(schema, schema.accounts@[at].name@, encode(datum) + rest) == Ok::<
            Datum,
            Failure,
        >(datum),
{
    let bytes = encode(datum) + rest;
    assert(bytes.subrange(0, encode(datum).len() as int) =~= encode(datum));
    lemma_roundtrip_body(
        schema,
        schema.accounts@[at].body,
        datum,
        MAX_NESTING as nat,
        bytes,
        0,
        Seq::empty(),
    );
}

} // verus!
