use crate::encoding::{hex_encode, hex_lower};
use crate::layout::{decode, decode_account, render, DecodeError, Failure};
use crate::resolver::{first_tagged, ResolveError, TagTable, TAG_LEN};
use crate::schema::Schema;
use crate::text::{contains_text, texts};
use crate::value::{Value, ValueTree};
use vstd::prelude::*;
use vstd::slice::slice_subrange;

verus! {

/// One decoded account: the identifier of the blob, the name of its account
/// type (or `Unknown`), and its value tree.
#[derive(Debug, PartialEq, Eq)]
pub struct DecodedAccount {
    pub pubkey: String,
    pub account_type: String,
    pub data: ValueTree,
}

/// What a `DecodedAccount` stands for.
pub struct Record {
    pub pubkey: Seq<char>,
    pub account_type: Seq<char>,
    pub data: Value,
}

impl View for DecodedAccount {
    type V = Record;

    open spec fn view(&self) -> Record {
        Record { pubkey: self.pubkey@, account_type: self.account_type@, data: self.data@ }
    }
}

/// Why one blob gave no record.
#[derive(Debug, PartialEq, Eq)]
pub enum AccountError {
    /// The blob is shorter than a tag.
    TooShort,
    /// The blob's account type is known and registered, but its bytes are
    /// no value of it.
    Decode(DecodeError),
}

/// What an `AccountError` stands for.
pub enum ItemFailure {
    TooShort,
    Decode(Failure),
}

impl View for AccountError {
    type V = ItemFailure;

    open spec fn view(&self) -> ItemFailure {
        match self {
            AccountError::TooShort => ItemFailure::TooShort,
            AccountError::Decode(error) => ItemFailure::Decode(error@),
        }
    }
}

/// The data of a fallback record: one member, `discriminator`, with the
/// tag in lower-case hexadecimal.
pub open spec fn fallback_data(tag: Seq<u8>) -> Value {
    Value::Record(seq![("discriminator"@, Value::Text(hex_lower(tag)))])
}

/// What a blob gives. Under eight bytes: too short. A tag of no account
/// type: the fallback record of type `Unknown`. An account type that is not
/// registered: the fallback record under its name. A registered account
/// type: the bytes after the tag, decoded and rendered, or the decoding
/// failure.
pub open spec fn blob_outcome(
    schema: Schema,
    registered: Seq<Seq<char>>,
    identifier: Seq<char>,
    blob: Seq<u8>,
) -> Result<Record, ItemFailure> {
    if blob.len() < 8 {
        Err(ItemFailure::TooShort)
    } else {
        let tag = blob.subrange(0, 8);
        match first_tagged(schema.accounts@, tag, 0) {
            None => Ok(
                Record { pubkey: identifier, account_type: "Unknown"@, data: fallback_data(tag) },
            ),
            Some(i) => {
                let name = schema.accounts@[i].name@;
                if registered.contains(name) {
                    match decode_account(schema, name, blob.skip(8)) {
                        Ok(datum) => Ok(
                            Record { pubkey: identifier, account_type: name, data: render(datum) },
                        ),
                        Err(failure) => Err(ItemFailure::Decode(failure)),
                    }
                } else {
                    Ok(Record { pubkey: identifier, account_type: name, data: fallback_data(tag) })
                }
            },
        }
    }
}

/// The record that stands for a blob whose layout is not decoded: its
/// identifier, the name given for its type, and its tag in hexadecimal.
pub fn fallback_record(identifier: &str, account_type: String, tag: &[u8]) -> (record:
    DecodedAccount)
    ensures
        record@ == (Record {
            pubkey: identifier@,
            account_type: account_type@,
            data: fallback_data(tag@),
        }),
{
    let mut members: Vec<(String, ValueTree)> = Vec::new();
    let text = ValueTree::Text(hex_encode(tag));
    assert(text@ == Value::Text(hex_lower(tag@)));
    members.push((String::from_str("discriminator"), text));
    let data = ValueTree::Record(members);
    assert(data@->Record_0 =~= seq![("discriminator"@, Value::Text(hex_lower(tag@)))]);
    DecodedAccount { pubkey: identifier.to_owned(), account_type, data }
}

/// Classifies and decodes one blob, with the tags of `schema` at hand.
/// `registered` names the account types whose layout is to be decoded.
pub fn decode_blob_with(
    table: &TagTable,
    schema: &Schema,
    registered: &Vec<String>,
    identifier: &str,
    blob: &[u8],
) -> (got: Result<DecodedAccount, AccountError>)
    requires
        table.covers(*schema),
    ensures
        match blob_outcome(*schema, texts(registered@), identifier@, blob@) {
            Ok(record) => got matches Ok(account) && account@ == record,
            Err(failure) => got matches Err(error) && error@ == failure,
        },
{
    match table.resolve(schema, blob) {
        Err(ResolveError::TooShort) => Err(AccountError::TooShort),
        Err(ResolveError::Unknown(_)) => Ok(
            fallback_record(
                identifier,
                String::from_str("Unknown"),
                slice_subrange(blob, 0, TAG_LEN),
            ),
        ),
        Ok((name, rest)) => {
            if contains_text(registered, &name) {
                match decode(schema, name.as_str(), rest) {
                    Ok(data) => Ok(
                        DecodedAccount { pubkey: identifier.to_owned(), account_type: name, data },
                    ),
                    Err(error) => Err(AccountError::Decode(error)),
                }
            } else {
                Ok(fallback_record(identifier, name, slice_subrange(blob, 0, TAG_LEN)))
            }
        },
    }
}

/// Classifies and decodes one blob.
pub fn decode_blob(schema: &Schema, registered: &Vec<String>, identifier: &str, blob: &[u8]) -> (got:
    Result<DecodedAccount, AccountError>)
    ensures
        match blob_outcome(*schema, texts(registered@), identifier@, blob@) {
            Ok(record) => got matches Ok(account) && account@ == record,
            Err(failure) => got matches Err(error) && error@ == failure,
        },
{
    let table = TagTable::new(schema);
    decode_blob_with(&table, schema, registered, identifier, blob)
}

/// A blob shorter than a tag is too short, whatever the schema.
pub proof fn lemma_outcome_short(
    schema: Schema,
    registered: Seq<Seq<char>>,
    identifier: Seq<char>,
    blob: Seq<u8>,
)
    requires
        blob.len() < 8,
    ensures
        blob_outcome(schema, registered, identifier, blob) == Err::<Record, ItemFailure>(
            ItemFailure::TooShort,
        ),
{
}

/// A blob of eight bytes or more whose tag is that of no account type
/// always gives a record: the fallback record of type `Unknown` with the
/// tag in hexadecimal. Likewise a blob of an account type that is not
/// registered gives the fallback record under the name of its type.
pub proof fn lemma_outcome_fallback(
    schema: Schema,
    registered: Seq<Seq<char>>,
    identifier: Seq<char>,
    blob: Seq<u8>,
)
    requires
        blob.len() >= 8,
    ensures
        first_tagged(schema.accounts@, blob.subrange(0, 8), 0) is None ==> blob_outcome(
            schema,
            registered,
            identifier,
            blob,
        ) == Ok::<Record, ItemFailure>(
            Record {
                pubkey: identifier,
                account_type: "Unknown"@,
                data: fallback_data(blob.subrange(0, 8)),
            },
        ),
        first_tagged(schema.accounts@, blob.subrange(0, 8), 0) matches Some(i) ==> (
        !registered.contains(schema.accounts@[i].name@) ==> blob_outcome(
            schema,
            registered,
            identifier,
            blob,
        ) == Ok::<Record, ItemFailure>(
            Record {
                pubkey: identifier,
                account_type: schema.accounts@[i].name@,
                data: fallback_data(blob.subrange(0, 8)),
            },
        )),
{
}

} // verus!
