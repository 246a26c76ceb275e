//! SHA-256 checksums of texts.
use vstd::prelude::*;
use vstd::utf8::encode_utf8;
use sha2::Digest;

verus! {

/// The digest that `sha2::Sha256::digest` returns for `bytes`.
pub uninterp spec fn sha256_digest(bytes: Seq<u8>) -> Seq<u8>;

/// The lowercase hexadecimal digit of `d`.
pub open spec fn hex_digit(d: int) -> char {
    if d < 10 {
        (48 + d) as char
    } else {
        (87 + d) as char
    }
}

/// Two lowercase hexadecimal digits per byte, the high half first.
pub open spec fn lower_hex(bytes: Seq<u8>) -> Seq<char> {
    Seq::new(
        2 * bytes.len(),
        |i: int|
            if i % 2 == 0 {
                hex_digit(bytes[i / 2] as int / 16)
            } else {
                hex_digit(bytes[i / 2] as int % 16)
            },
    )
}

/// The checksum of a text: the digest of its UTF-8 bytes in hexadecimal.
pub open spec fn checksum_of(text: Seq<char>) -> Seq<char> {
    lower_hex(sha256_digest(encode_utf8(text)))
}

/// `sha2::Sha256::digest`: the SHA-256 digest of `bytes`, named and not spelled
/// out here; it is always thirty-two bytes long.
#[verifier::external_body]
pub(crate) fn sha256(bytes: &[u8]) -> (r: Vec<u8>)
    ensures
        r@ == sha256_digest(bytes@),
        r@.len() == 32,
{
    sha2::Sha256::digest(bytes).to_vec()
}

/// `hex::encode`: two lowercase hexadecimal digits for each byte, in order.
#[verifier::external_body]
pub(crate) fn hex_encode(bytes: &Vec<u8>) -> (r: String)
    ensures
        r@ == lower_hex(bytes@),
{
    hex::encode(bytes)
}

/// The text of a digest, two hexadecimal digits per byte.
pub fn digest_text(digest: &Vec<u8>) -> (r: String)
    ensures
        r@ == lower_hex(digest@),
        r@.len() == 2 * digest@.len(),
{
    hex_encode(digest)
}

/// The SHA-256 checksum of a text, in sixty-four hexadecimal digits.
pub fn sha256_of_text(text: &str) -> (r: String)
    ensures
        r@ == checksum_of(text@),
        r@.len() == 64,
{
    let digest = sha256(text.as_bytes());
    digest_text(&digest)
}

/// A digest is written with two digits for each byte, the higher one first, in
/// the digits from `0` to `9` and from `a` to `f`.
pub proof fn two_digits_for_each_byte(bytes: Seq<u8>, i: int)
    requires
        0 <= i < bytes.len(),
    ensures
        lower_hex(bytes).len() == 2 * bytes.len(),
        lower_hex(bytes)[2 * i] == hex_digit(bytes[i] as int / 16),
        lower_hex(bytes)[2 * i + 1] == hex_digit(bytes[i] as int % 16),
        forall|d: int| 0 <= d < 10 ==> #[trigger] hex_digit(d) as int == '0' as int + d,
        forall|d: int| 10 <= d < 16 ==> #[trigger] hex_digit(d) as int == 'a' as int + d - 10,
{
    assert((2 * i) % 2 == 0 && (2 * i) / 2 == i);
    assert((2 * i + 1) % 2 == 1 && (2 * i + 1) / 2 == i);
}

/// A checksum is that of the whole text, as it stands.
pub proof fn a_checksum_covers_the_whole_text(text: Seq<char>)
    ensures
        checksum_of(text) == lower_hex(sha256_digest(encode_utf8(text))),
{
}

} // verus!
