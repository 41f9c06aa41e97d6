use sha2::Digest;
use vstd::prelude::*;

verus! {

/// The SHA-256 digest of a byte string, as a sequence of 32 bytes.
pub uninterp spec fn sha256(data: Seq<u8>) -> Seq<u8>;

/// The base58 rendering (Bitcoin alphabet) of a 32-byte key.
pub uninterp spec fn base58_key(key: Seq<u8>) -> Seq<char>;

/// The lower-case hexadecimal digit that stands for a value below 16.
pub open spec fn hex_digit(nibble: int) -> char {
    if nibble == 0 { '0' }
    else if nibble == 1 { '1' }
    else if nibble == 2 { '2' }
    else if nibble == 3 { '3' }
    else if nibble == 4 { '4' }
    else if nibble == 5 { '5' }
    else if nibble == 6 { '6' }
    else if nibble == 7 { '7' }
    else if nibble == 8 { '8' }
    else if nibble == 9 { '9' }
    else if nibble == 10 { 'a' }
    else if nibble == 11 { 'b' }
    else if nibble == 12 { 'c' }
    else if nibble == 13 { 'd' }
    else if nibble == 14 { 'e' }
    else { 'f' }
}

/// Lower-case hexadecimal text of a byte string: two digits per byte, the
/// high half first.
pub open spec fn hex_lower(bytes: Seq<u8>) -> Seq<char> {
    Seq::new(
        2 * bytes.len(),
        |i: int| if i % 2 == 0 { hex_digit(bytes[i / 2] as int / 16) } else { hex_digit(bytes[i / 2] as int % 16) },
    )
}

/// Calls `sha2::Sha256::digest` on `data`. The digest is a function of the
/// input bytes alone and always has 32 bytes.
#[verifier::external_body]
pub(crate) fn sha256_digest(data: &[u8]) -> (out: Vec<u8>)
    ensures
        out@ == sha256(data@),
        out@.len() == 32,
{
    sha2::Sha256::digest(data).to_vec()
}

/// Calls `hex::encode` on `bytes`: every byte becomes two lower-case
/// hexadecimal digits, high half first.
#[verifier::external_body]
pub(crate) fn hex_encode(bytes: &[u8]) -> (text: String)
    ensures
        text@ == hex_lower(bytes@),
{
    hex::encode(bytes)
}

/// Renders a 32-byte key through `Pubkey::new_from_array` and the `Display`
/// impl of `solana_program::pubkey::Pubkey`, which writes the key in base58.
#[verifier::external_body]
pub(crate) fn key_to_base58(key: &[u8]) -> (text: String)
    requires
        key@.len() == 32,
    ensures
        text@ == base58_key(key@),
{
    let mut array = [0u8; 32];
    array.copy_from_slice(key);
    solana_program::pubkey::Pubkey::new_from_array(array).to_string()
}

} // verus!
