//! Digests, encodings and signatures, computed by the `sha2`, `hex`,
//! `base64` and `ring` crates and by `str` methods of the standard library.
use base64::Engine as _;
use sha2::Digest as _;
use vstd::prelude::*;

verus! {

/// The SHA-256 digest of `data`.
pub uninterp spec fn sha256_digest(data: Seq<u8>) -> Seq<u8>;

/// Computes SHA-256 with `sha2::Sha256::digest`. Trusted: the result equals
/// `sha256_digest` of the input and is 32 bytes long, as the crate documents
/// for its 256-bit output; the digest function itself is not stated.
#[verifier::external_body]
pub fn sha256(data: &[u8]) -> (result: Vec<u8>)
    ensures
        result@ == sha256_digest(data@),
        result@.len() == 32,
{
    sha2::Sha256::digest(data).to_vec()
}

/// A SHA-256 computation of the `sha2` crate that is fed its input in
/// chunks, so that a large payload need not be held in memory at once. The
/// hasher is kept whole, out of Verus's sight; `absorbed_bytes` names what
/// it has been fed.
#[verifier::external_body]
pub struct StreamingSha256 {
    state: sha2::Sha256,
}

/// The bytes a streaming hasher has been fed, in order.
pub uninterp spec fn absorbed_bytes(hasher: StreamingSha256) -> Seq<u8>;

/// Starts a hash with `sha2::Sha256::new`. Trusted: nothing has been fed.
#[verifier::external_body]
pub(crate) fn streaming_new() -> (result: StreamingSha256)
    ensures
        absorbed_bytes(result) == Seq::<u8>::empty(),
{
    StreamingSha256 { state: sha2::Sha256::new() }
}

/// Feeds a chunk with `Digest::update`. Trusted: the chunk follows what was
/// fed before, as the crate documents for incremental input.
#[verifier::external_body]
pub(crate) fn streaming_update(hasher: &mut StreamingSha256, chunk: &[u8])
    ensures
        absorbed_bytes(*final(hasher)) == absorbed_bytes(*old(hasher)) + chunk@,
{
    hasher.state.update(chunk)
}

/// Finishes a hash with `Digest::finalize`. Trusted: the result is the
/// SHA-256 digest of everything fed, the same as `Sha256::digest` of those
/// bytes at once, 32 bytes long.
#[verifier::external_body]
pub(crate) fn streaming_finalize(hasher: StreamingSha256) -> (result: Vec<u8>)
    ensures
        result@ == sha256_digest(absorbed_bytes(hasher)),
        result@.len() == 32,
{
    hasher.state.finalize().to_vec()
}

/// The lowercase hexadecimal digit of a nibble.
pub open spec fn hex_char(nibble: u8) -> char {
    if nibble < 10 {
        (nibble + 48) as char
    } else {
        (nibble + 87) as char
    }
}

/// Two lowercase hexadecimal digits per byte, high nibble first.
pub open spec fn lower_hex(bytes: Seq<u8>) -> Seq<char>
    decreases bytes.len(),
{
    if bytes.len() == 0 {
        Seq::<char>::empty()
    } else {
        lower_hex(bytes.drop_last()) + seq![
            hex_char(bytes.last() / 16),
            hex_char(bytes.last() % 16),
        ]
    }
}

/// Encodes bytes with `hex::encode`. Trusted: the result is the lowercase
/// hexadecimal text of the bytes, two digits per byte, as the crate
/// documents.
#[verifier::external_body]
pub fn hex_encode(bytes: &[u8]) -> (result: String)
    ensures
        result@ == lower_hex(bytes@),
{
    hex::encode(bytes)
}

/// The bytes that standard, padded Base64 text decodes to, or `None` when
/// the text is not valid Base64.
pub uninterp spec fn base64_standard_decode(text: Seq<char>) -> Option<Seq<u8>>;

/// Decodes standard Base64 with `base64::engine::general_purpose::STANDARD`.
/// Trusted: the result is `base64_standard_decode` of the text; the Base64
/// alphabet and padding rules are not stated.
#[verifier::external_body]
pub fn base64_decode(text: &str) -> (result: Option<Vec<u8>>)
    ensures
        match result {
            Some(bytes) => base64_standard_decode(text@) == Some(bytes@),
            None => base64_standard_decode(text@) is None,
        },
{
    base64::engine::general_purpose::STANDARD.decode(text).ok()
}

/// Whether `signature` is a valid Ed25519 signature of `message` under the
/// public key `public_key`.
pub uninterp spec fn ed25519_accepts(public_key: Seq<u8>, message: Seq<u8>, signature: Seq<u8>) -> bool;

/// Verifies an Ed25519 signature with `ring::signature::UnparsedPublicKey`.
/// Trusted: the result is `ed25519_accepts` of the key, message and
/// signature; Ed25519 itself is not stated.
#[verifier::external_body]
pub fn ed25519_verify(public_key: &[u8], message: &[u8], signature: &[u8]) -> (result: bool)
    ensures
        result == ed25519_accepts(public_key@, message@, signature@),
{
    ring::signature::UnparsedPublicKey::new(&ring::signature::ED25519, public_key)
        .verify(message, signature)
        .is_ok()
}

/// The text that `bytes` encode in UTF-8, or `None` when they are not UTF-8.
pub uninterp spec fn utf8_text(bytes: Seq<u8>) -> Option<Seq<char>>;

/// Decodes UTF-8 with `std::str::from_utf8`. Trusted: the result is
/// `utf8_text` of the bytes; UTF-8 itself is not stated.
#[verifier::external_body]
pub fn utf8_decode(bytes: &[u8]) -> (result: Option<String>)
    ensures
        match result {
            Some(text) => utf8_text(bytes@) == Some(text@),
            None => utf8_text(bytes@) is None,
        },
{
    std::str::from_utf8(bytes).ok().map(|text| text.to_owned())
}

/// `s` without leading and trailing Unicode white space.
pub uninterp spec fn unicode_trim(s: Seq<char>) -> Seq<char>;

/// Trims white space with `str::trim`. Trusted: the result is
/// `unicode_trim` of the text; Unicode's white-space table is not stated.
#[verifier::external_body]
pub fn trim(s: &str) -> (result: String)
    ensures
        result@ == unicode_trim(s@),
{
    s.trim().to_owned()
}

/// `s` in Unicode lowercase.
pub uninterp spec fn unicode_lowercase(s: Seq<char>) -> Seq<char>;

/// Lowercases text with `str::to_lowercase`. Trusted: the result is
/// `unicode_lowercase` of the text; Unicode's case tables are not stated.
#[verifier::external_body]
pub fn to_lowercase(s: &str) -> (result: String)
    ensures
        result@ == unicode_lowercase(s@),
{
    s.to_lowercase()
}

/// The lowercase hexadecimal SHA-256 of `data`.
pub open spec fn sha256_hex(data: Seq<u8>) -> Seq<char> {
    lower_hex(sha256_digest(data))
}

/// The lowercase hexadecimal SHA-256 of `data`.
pub fn sha256_hex_exec(data: &[u8]) -> (result: String)
    ensures
        result@ == sha256_hex(data@),
{
    let digest = sha256(data);
    hex_encode(&digest)
}

/// The lowercase hexadecimal SHA-256 of everything a streaming hasher was
/// fed.
pub(crate) fn streaming_hex(hasher: StreamingSha256) -> (result: String)
    ensures
        result@ == sha256_hex(absorbed_bytes(hasher)),
{
    let digest = streaming_finalize(hasher);
    hex_encode(&digest)
}

} // verus!
