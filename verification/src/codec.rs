//! Encodings, digests and randomness: what the library takes from outside crates
//! as plain bytes and texts.
use base64::Engine;
use sha2::Digest;
use vstd::prelude::*;
use vstd::utf8::*;
use zeroize::Zeroize;

verus! {

/// The bytes that a URL-safe base64 text without padding stands for, if it is
/// one.
pub uninterp spec fn base64_bytes(text: Seq<char>) -> Option<Seq<u8>>;

/// The URL-safe base64 text without padding that stands for bytes.
pub uninterp spec fn base64_text(bytes: Seq<u8>) -> Seq<char>;

/// The SHA-256 digest of bytes.
pub uninterp spec fn sha256(data: Seq<u8>) -> Seq<u8>;

/// Whether a character belongs to the URL-safe base64 alphabet.
pub open spec fn base64_char(c: char) -> bool {
    ||| 'A' <= c <= 'Z'
    ||| 'a' <= c <= 'z'
    ||| '0' <= c <= '9'
    ||| c == '-'
    ||| c == '_'
}

/// `URL_SAFE_NO_PAD.decode` of the `base64` crate. The result depends on the text
/// alone and is named [`base64_bytes`].
#[verifier::external_body]
pub(crate) fn decode_base64(text: &str) -> (bytes: Option<Vec<u8>>)
    ensures
        match bytes {
            Some(bytes) => base64_bytes(text@) == Some(bytes@),
            None => base64_bytes(text@) is None,
        },
{
    base64::engine::general_purpose::URL_SAFE_NO_PAD.decode(text).ok()
}

/// `URL_SAFE_NO_PAD.encode` of the `base64` crate, which panics where the length
/// of the text does not fit in `usize`. The result depends on the bytes alone and
/// is named [`base64_text`]. Its characters belong to the URL-safe alphabet, four
/// for each three bytes, the last group without padding, and it decodes to the
/// bytes.
#[verifier::external_body]
pub(crate) fn encode_base64(bytes: &[u8]) -> (text: String)
    requires
        bytes@.len() * 4 + 2 <= usize::MAX,
    ensures
        text@ == base64_text(bytes@),
        text@.len() == (bytes@.len() * 4 + 2) / 3,
        forall|i: int| 0 <= i < text@.len() ==> base64_char(#[trigger] text@[i]),
        base64_bytes(text@) == Some(bytes@),
{
    base64::engine::general_purpose::URL_SAFE_NO_PAD.encode(bytes)
}

/// `Sha256::digest` of the `sha2` crate. The result depends on the bytes alone and
/// is named [`sha256`]. It is 32 bytes long.
#[verifier::external_body]
pub(crate) fn digest(data: &[u8]) -> (digest: Vec<u8>)
    ensures
        digest@ == sha256(data@),
        digest@.len() == 32,
{
    sha2::Sha256::digest(data).to_vec()
}

/// `getrandom::Error`: why there are no random bytes.
#[verifier::external_type_specification]
#[verifier::external_body]
pub struct ExRandomError(getrandom::Error);

/// `getrandom::fill`: bytes from the random source of the operating system, of
/// which nothing is claimed.
#[verifier::external_body]
pub(crate) fn random_bytes() -> (bytes: Result<[u8; 32], getrandom::Error>)
{
    let mut bytes = [0u8; 32];
    getrandom::fill(&mut bytes)?;
    Ok(bytes)
}

/// `Zeroize::zeroize` on a `String`: overwrites the text and leaves it empty.
#[verifier::external_body]
pub(crate) fn wipe_text(text: &mut String)
    ensures
        final(text)@ == Seq::<char>::empty(),
    opens_invariants none
    no_unwind
{
    text.zeroize();
}

/// `Zeroize::zeroize` on an array of bytes: overwrites it with zeros.
#[verifier::external_body]
pub(crate) fn wipe_bytes(bytes: &mut [u8; 32])
    ensures
        final(bytes)@ == Seq::new(32, |i: int| 0u8),
    opens_invariants none
    no_unwind
{
    bytes.zeroize();
}

/// `std::str::from_utf8`: the text that bytes stand for, where they are UTF-8.
#[verifier::external_body]
pub(crate) fn utf8_text(bytes: &[u8]) -> (text: Option<&str>)
    ensures
        match text {
            Some(text) => valid_utf8(bytes@) && text@ == decode_utf8(bytes@),
            None => !valid_utf8(bytes@),
        },
{
    std::str::from_utf8(bytes).ok()
}

}
