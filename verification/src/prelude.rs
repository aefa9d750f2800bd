pub mod path_helper;

use crate::sync::action::{canonical_of, encode, encodes_faithfully, Encode};
use sha1::{Digest, Sha1};
use vstd::prelude::*;
use vstd::string::*;

verus! {

/// The SHA-1 digest of a byte string, as the `sha1` crate computes it.
pub uninterp spec fn sha1_digest(data: Seq<u8>) -> Seq<u8>;

/// Calls `Sha1::digest` from the `sha1` crate. Claimed: the result is a
/// function of the input bytes alone, and it is 20 bytes long.
#[verifier::external_body]
fn sha1_bytes(data: &[u8]) -> (digest: Vec<u8>)
    ensures
        digest@ == sha1_digest(data@),
        digest@.len() == 20,
{
    Sha1::digest(data).to_vec()
}

/// The lower-case hexadecimal digit of a value below 16.
pub open spec fn hex_digit(n: u8) -> char
    recommends
        n < 16,
{
    "0123456789abcdef"@[n as int]
}

/// Two lower-case hexadecimal digits per byte, high nibble first.
pub open spec fn hex_lower(bytes: Seq<u8>) -> Seq<char> {
    Seq::new(
        2 * bytes.len(),
        |i: int|
            if i % 2 == 0 {
                hex_digit(bytes[i / 2] / 16)
            } else {
                hex_digit(bytes[i / 2] % 16)
            },
    )
}

/// What a record with the given canonical bytes is signed with: the SHA-1
/// digest of those bytes in lower-case hexadecimal.
pub open spec fn signature_of(bytes: Seq<u8>) -> Seq<char> {
    hex_lower(sha1_digest(bytes))
}

fn hex_char(n: u8) -> (c: char)
    requires
        n < 16,
    ensures
        c == hex_digit(n),
{
    proof {
        reveal_strlit("0123456789abcdef");
    }
    "0123456789abcdef".get_char(n as usize)
}

/// Encodes bytes as lower-case hexadecimal text.
pub fn to_hex_lower(bytes: &[u8]) -> (text: String)
    ensures
        text@ == hex_lower(bytes@),
{
    let mut text = String::new();
    let mut i: usize = 0;
    while i < bytes.len()
        invariant
            i <= bytes.len(),
            text@.len() == 2 * i,
            forall|k: int| 0 <= k < 2 * i ==> text@[k] == #[trigger] hex_lower(bytes@)[k],
        decreases bytes.len() - i,
    {
        let b = bytes[i];
        let hi = hex_char(b / 16);
        let lo = hex_char(b % 16);
        let ghost before = text@;
        text = string_push(string_push(text, hi), lo);
        assert(text@ == before.push(hi).push(lo));
        assert(hex_lower(bytes@)[2 * i] == hi);
        assert(hex_lower(bytes@)[2 * i + 1] == lo);
        i += 1;
    }
    assert(text@ =~= hex_lower(bytes@));
    text
}

/// Calls `String::push` of std. Claimed: the character is added at the end.
#[verifier::external_body]
fn string_push(s: String, c: char) -> (r: String)
    ensures
        r@ == s@.push(c),
{
    let mut r = s;
    r.push(c);
    r
}

/// Signs canonical bytes: their SHA-1 digest in lower-case hexadecimal.
pub fn sign_bytes(bytes: &[u8]) -> (signature: String)
    ensures
        signature@ == signature_of(bytes@),
        signature@.len() == 40,
{
    let digest = sha1_bytes(bytes);
    to_hex_lower(digest.as_slice())
}

/// The signature of a record: the SHA-1 digest of its canonical bytes in
/// lower-case hexadecimal. It never fails.
pub fn sha1_signature<T: Encode>(object: &T) -> (r: Result<String, String>)
    requires
        encodes_faithfully::<T>(),
    ensures
        r matches Ok(s) && s@ == signature_of(canonical_of(*object)) && s@.len() == 40,
{
    let bytes = encode(object);
    Ok(sign_bytes(bytes.as_slice()))
}

} // verus!
