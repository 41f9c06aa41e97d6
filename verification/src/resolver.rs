use crate::encoding::{hex_encode, hex_lower, sha256, sha256_digest};
use crate::schema::{Schema, TypeDef};
use vstd::prelude::*;
use vstd::slice::slice_subrange;
use vstd::utf8::encode_utf8;

verus! {

/// The number of leading bytes of a blob that tell its account type.
pub const TAG_LEN: usize = 8;

/// The tag of the account type called `name`: the first eight bytes of the
/// SHA-256 digest of the UTF-8 text `account:` followed by the name.
pub open spec fn discriminator(name: Seq<char>) -> Seq<u8> {
    sha256(encode_utf8("account:"@ + name)).subrange(0, 8)
}

/// Index of the first account type at or after `from` whose tag is `tag`.
pub open spec fn first_tagged(accounts: Seq<TypeDef>, tag: Seq<u8>, from: int) -> Option<int>
    decreases accounts.len() - from,
{
    if from < 0 || from >= accounts.len() {
        None
    } else if discriminator(accounts[from].name@) == tag {
        Some(from)
    } else {
        first_tagged(accounts, tag, from + 1)
    }
}

/// Why a blob names no account type.
#[derive(Debug, PartialEq, Eq)]
pub enum ResolveError {
    /// The blob has fewer than eight bytes.
    TooShort,
    /// No account type has the blob's tag; the tag is given in lower-case
    /// hexadecimal.
    Unknown(String),
}

/// Computes the tag of an account type from its name.
pub fn discriminator_of(name: &str) -> (tag: Vec<u8>)
    ensures
        tag@ == discriminator(name@),
        tag@.len() == 8,
{
    let mut preimage = String::from_str("account:");
    preimage.append(name);
    let digest = sha256_digest(preimage.as_str().as_bytes());
    let mut tag: Vec<u8> = Vec::new();
    let mut i: usize = 0;
    while i < TAG_LEN
        invariant
            i <= 8,
            digest@.len() == 32,
            tag@ == digest@.subrange(0, i as int),
        decreases 8 - i,
    {
        tag.push(digest[i]);
        assert(tag@ =~= digest@.subrange(0, i + 1));
        i = i + 1;
    }
    tag
}

/// Whether the first eight bytes of `blob` are `tag`.
fn has_tag(blob: &[u8], tag: &Vec<u8>) -> (same: bool)
    requires
        blob@.len() >= 8,
    ensures
        same == (blob@.subrange(0, 8) == tag@),
{
    if tag.len() != TAG_LEN {
        return false;
    }
    let mut i: usize = 0;
    while i < TAG_LEN
        invariant
            i <= 8,
            tag@.len() == 8,
            blob@.len() >= 8,
            forall|k: int| 0 <= k < i ==> blob@[k] == tag@[k],
        decreases 8 - i,
    {
        if blob[i] != tag[i] {
            assert(blob@.subrange(0, 8)[i as int] != tag@[i as int]);
            return false;
        }
        i = i + 1;
    }
    assert(blob@.subrange(0, 8) =~= tag@);
    true
}

/// The tags of a schema's account types, computed once.
pub struct TagTable {
    tags: Vec<Vec<u8>>,
}

impl TagTable {
    /// The table holds, in their order, the tags of the account types of
    /// `schema`.
    pub closed spec fn covers(&self, schema: Schema) -> bool {
        &&& self.tags@.len() == schema.accounts@.len()
        &&& forall|i: int|
            0 <= i < self.tags@.len() ==> (#[trigger] self.tags@[i])@ == discriminator(
                schema.accounts@[i].name@,
            )
    }

    /// Computes the tag of every account type of `schema`.
    pub fn new(schema: &Schema) -> (table: TagTable)
        ensures
            table.covers(*schema),
    {
        let mut tags: Vec<Vec<u8>> = Vec::new();
        let mut i: usize = 0;
        while i < schema.accounts.len()
            invariant
                i <= schema.accounts@.len(),
                tags@.len() == i,
                forall|k: int|
                    0 <= k < i ==> (#[trigger] tags@[k])@ == discriminator(
                        schema.accounts@[k].name@,
                    ),
            decreases schema.accounts@.len() - i,
        {
            tags.push(discriminator_of(schema.accounts[i].name.as_str()));
            i = i + 1;
        }
        TagTable { tags }
    }

    /// Tells whether no two account types of `schema` have the same tag.
    pub fn tags_are_distinct(&self, schema: &Schema) -> (distinct: bool)
        requires
            self.covers(*schema),
        ensures
            distinct == tags_distinct(schema.accounts@),
    {
        let mut j: usize = 0;
        while j < self.tags.len()
            invariant
                j <= self.tags@.len(),
                self.covers(*schema),
                forall|a: int, b: int|
                    0 <= a < b < j ==> discriminator((#[trigger] schema.accounts@[a]).name@)
                        != discriminator((#[trigger] schema.accounts@[b]).name@),
            decreases self.tags@.len() - j,
        {
            let mut i: usize = 0;
            while i < j
                invariant
                    i <= j < self.tags@.len(),
                    self.covers(*schema),
                    forall|a: int|
                        0 <= a < i ==> discriminator((#[trigger] schema.accounts@[a]).name@)
                            != discriminator(schema.accounts@[j as int].name@),
                decreases j - i,
            {
                if same_tag(&self.tags[i], &self.tags[j]) {
                    return false;
                }
                i = i + 1;
            }
            j = j + 1;
        }
        true
    }

    /// Tells which account type a blob holds, by the table's tags: the first
    /// account type, in the schema's order, whose tag the blob starts with.
    pub fn resolve<'a>(&self, schema: &Schema, blob: &'a [u8]) -> (got: Result<
        (String, &'a [u8]),
        ResolveError,
    >)
        requires
            self.covers(*schema),
        ensures
            resolved(*schema, blob@, got),
    {
        if blob.len() < TAG_LEN {
            return Err(ResolveError::TooShort);
        }
        let ghost tag = blob@.subrange(0, 8);
        let mut i: usize = 0;
        while i < self.tags.len()
            invariant
                i <= self.tags@.len(),
                self.covers(*schema),
                blob@.len() >= 8,
                tag == blob@.subrange(0, 8),
                first_tagged(schema.accounts@, tag, 0) == first_tagged(
                    schema.accounts@,
                    tag,
                    i as int,
                ),
            decreases self.tags@.len() - i,
        {
            if has_tag(blob, &self.tags[i]) {
                let name = schema.accounts[i].name.clone();
                let rest = slice_subrange(blob, TAG_LEN, blob.len());
                assert(rest@ =~= blob@.skip(8));
                return Ok((name, rest));
            }
            i = i + 1;
        }
        Err(ResolveError::Unknown(hex_encode(slice_subrange(blob, 0, TAG_LEN))))
    }
}

/// Whether two tags are the same eight bytes.
fn same_tag(one: &Vec<u8>, other: &Vec<u8>) -> (same: bool)
    ensures
        same == (one@ == other@),
{
    if one.len() != other.len() {
        return false;
    }
    let mut i: usize = 0;
    while i < one.len()
        invariant
            i <= one@.len(),
            one@.len() == other@.len(),
            forall|k: int| 0 <= k < i ==> one@[k] == other@[k],
        decreases one@.len() - i,
    {
        if one[i] != other[i] {
            return false;
        }
        i = i + 1;
    }
    assert(one@ =~= other@);
    true
}

/// What resolving `blob` against `schema` gives: too short under eight
/// bytes; else the name of the first account type with the blob's tag and
/// the bytes after the tag; else, where no account type has the tag, the
/// tag in hexadecimal.
pub open spec fn resolved(
    schema: Schema,
    blob: Seq<u8>,
    got: Result<(String, &[u8]), ResolveError>,
) -> bool {
    match got {
        Ok((name, rest)) => {
            &&& blob.len() >= 8
            &&& first_tagged(schema.accounts@, blob.subrange(0, 8), 0) matches Some(i)
            &&& name@ == schema.accounts@[i].name@
            &&& rest@ == blob.skip(8)
        },
        Err(ResolveError::TooShort) => blob.len() < 8,
        Err(ResolveError::Unknown(tag)) => {
            &&& blob.len() >= 8
            &&& first_tagged(schema.accounts@, blob.subrange(0, 8), 0) is None
            &&& tag@ == hex_lower(blob.subrange(0, 8))
        },
    }
}

/// Tells which account type a blob holds.
pub fn resolve<'a>(schema: &Schema, blob: &'a [u8]) -> (got: Result<
    (String, &'a [u8]),
    ResolveError,
>)
    ensures
        resolved(*schema, blob@, got),
{
    let table = TagTable::new(schema);
    table.resolve(schema, blob)
}

/// No two account types have the same tag.
pub open spec fn tags_distinct(accounts: Seq<TypeDef>) -> bool {
    forall|i: int, j: int|
        0 <= i < j < accounts.len() ==> discriminator((#[trigger] accounts[i]).name@)
            != discriminator((#[trigger] accounts[j]).name@)
}

/// Where no two account types share a tag, the tag of an account type
/// selects that account type.
pub proof fn lemma_first_tagged_own(accounts: Seq<TypeDef>, at: int, from: int)
    requires
        tags_distinct(accounts),
        0 <= from <= at < accounts.len(),
    ensures
        first_tagged(accounts, discriminator(accounts[at].name@), from) == Some(at),
    decreases at - from,
{
    if from < at {
        assert(discriminator(accounts[from].name@) != discriminator(accounts[at].name@));
        lemma_first_tagged_own(accounts, at, from + 1);
    }
}

/// What `first_tagged` finds has the tag, and nothing before it has.
pub proof fn lemma_first_tagged(accounts: Seq<TypeDef>, tag: Seq<u8>, from: int)
    requires
        0 <= from,
    ensures
        match first_tagged(accounts, tag, from) {
            Some(i) => {
                &&& from <= i < accounts.len()
                &&& discriminator(accounts[i].name@) == tag
                &&& forall|k: int| from <= k < i ==> discriminator(accounts[k].name@) != tag
            },
            None => forall|k: int|
                from <= k < accounts.len() ==> discriminator(accounts[k].name@) != tag,
        },
    decreases accounts.len() - from,
{
    if from < accounts.len() && discriminator(accounts[from].name@) != tag {
        lemma_first_tagged(accounts, tag, from + 1);
    }
}

/// In a schema whose account types have distinct tags, a blob that starts
/// with the tag of an account type resolves to the name of that account
/// type and to the bytes after the tag, whatever those bytes are.
pub proof fn lemma_resolve_own_tag(
    schema: Schema,
    at: int,
    blob: Seq<u8>,
    got: Result<(String, &[u8]), ResolveError>,
)
    requires
        tags_distinct(schema.accounts@),
        0 <= at < schema.accounts@.len(),
        blob.len() >= 8,
        blob.subrange(0, 8) == discriminator(schema.accounts@[at].name@),
        resolved(schema, blob, got),
    ensures
        got matches Ok((name, rest)) && name@ == schema.accounts@[at].name@ && rest@ == blob.skip(
            8,
        ),
{
    lemma_first_tagged_own(schema.accounts@, at, 0);
}

/// A blob of fewer than eight bytes is too short, whatever the schema.
pub proof fn lemma_resolve_short(
    schema: Schema,
    blob: Seq<u8>,
    got: Result<(String, &[u8]), ResolveError>,
)
    requires
        blob.len() < 8,
        resolved(schema, blob, got),
    ensures
        got matches Err(ResolveError::TooShort),
{
}

/// A blob of eight bytes or more that starts with the tag of no account
/// type is unknown, and the error carries the tag in hexadecimal.
pub proof fn lemma_resolve_unknown(
    schema: Schema,
    blob: Seq<u8>,
    got: Result<(String, &[u8]), ResolveError>,
)
    requires
        blob.len() >= 8,
        forall|i: int|
            0 <= i < schema.accounts@.len() ==> discriminator(
                (#[trigger] schema.accounts@[i]).name@,
            ) != blob.subrange(0, 8),
        resolved(schema, blob, got),
    ensures
        got matches Err(ResolveError::Unknown(tag)) && tag@ == hex_lower(blob.subrange(0, 8)),
{
    lemma_first_tagged(schema.accounts@, blob.subrange(0, 8), 0);
}

} // verus!
