//! SHA-256 digests and their hexadecimal form.
use sha2::Digest;
use vstd::prelude::*;
use vstd::slice::slice_subrange;
use vstd::utf8::encode_utf8;
use crate::text::{chars_of, digit_char, digit_value, string_of};

verus! {

/// The SHA-256 digest of a message: what `sha2::Sha256::digest` returns for it.
pub uninterp spec fn sha256_digest(bytes: Seq<u8>) -> Seq<u8>;

/// `sha2::Sha256::digest`: hashes the bytes in one go. Claimed of it: the digest
/// is a function of the bytes, named `sha256_digest`, and is 32 bytes long.
#[verifier::external_body]
pub(crate) fn sha256(bytes: &[u8]) -> (r: [u8; 32])
    ensures
        r@ == sha256_digest(bytes@),
{
    sha2::Sha256::digest(bytes).into()
}

/// Two lower-case hexadecimal digits for each byte, the high one first.
pub open spec fn lower_hex(bytes: Seq<u8>) -> Seq<char> {
    Seq::new(
        2 * bytes.len(),
        |i: int|
            digit_char(
                if i % 2 == 0 {
                    (bytes[i / 2] / 16) as nat
                } else {
                    (bytes[i / 2] % 16) as nat
                },
            ),
    )
}

/// `hex::encode`: writes two lower-case hexadecimal digits for each byte, the high
/// one first.
#[verifier::external_body]
pub(crate) fn hex_encode(bytes: &[u8]) -> (r: String)
    ensures
        r@ == lower_hex(bytes@),
{
    hex::encode(bytes)
}

/// Why a text is not the hexadecimal form of a digest.
#[derive(Clone, Copy, Debug, PartialEq, Eq)]
pub enum DigestError {
    /// The number of bytes is odd.
    OddLength,
    /// The number of bytes is even, but not 64.
    InvalidStringLength,
    /// The byte at `index` is the first that is no hexadecimal digit.
    InvalidHexCharacter { c: char, index: usize },
}

/// Whether a byte is an ASCII hexadecimal digit, in either case.
pub open spec fn is_hex_byte(b: u8) -> bool {
    digit_value(b as char) < 16
}

/// Whether `r` is what reading 32 bytes from hexadecimal gives: the bytes, or
/// the first reason why they cannot be read.
pub open spec fn reads_as(hex: Seq<u8>, r: Result<[u8; 32], DigestError>) -> bool {
    match r {
        Ok(digest) => {
            &&& hex.len() == 64
            &&& forall|i: int| 0 <= i < 64 ==> is_hex_byte(#[trigger] hex[i])
            &&& forall|i: int|
                0 <= i < 32 ==> #[trigger] digest@[i] == digit_value(hex[2 * i] as char) * 16
                    + digit_value(hex[2 * i + 1] as char)
        },
        Err(DigestError::OddLength) => hex.len() % 2 == 1,
        Err(DigestError::InvalidStringLength) => hex.len() % 2 == 0 && hex.len() != 64,
        Err(DigestError::InvalidHexCharacter { c, index }) => {
            &&& hex.len() == 64
            &&& index < 64
            &&& !is_hex_byte(hex[index as int])
            &&& c == hex[index as int] as char
            &&& forall|i: int| 0 <= i < index ==> is_hex_byte(#[trigger] hex[i])
        },
    }
}

/// `hex::decode_to_slice` into 32 bytes: two hexadecimal digits in either case for
/// each byte, the high one first. An odd length is reported first, then a length
/// other than 64, then the first byte that is no digit.
#[verifier::external_body]
fn hex_decode(text: &str) -> (r: Result<[u8; 32], DigestError>)
    ensures
        reads_as(encode_utf8(text@), r),
{
    let mut out = [0u8; 32];
    match hex::decode_to_slice(text, &mut out) {
        Ok(()) => Ok(out),
        Err(hex::FromHexError::OddLength) => Err(DigestError::OddLength),
        Err(hex::FromHexError::InvalidStringLength) => Err(DigestError::InvalidStringLength),
        Err(hex::FromHexError::InvalidHexCharacter { c, index }) => {
            Err(DigestError::InvalidHexCharacter { c, index })
        },
    }
}

/// A text without the copies of `0x` at its start.
pub open spec fn trim_0x(s: Seq<char>) -> Seq<char>
    decreases s.len(),
{
    if s.len() >= 2 && s[0] == '0' && s[1] == 'x' {
        trim_0x(s.skip(2))
    } else {
        s
    }
}

/// Reads a digest from hexadecimal, after any number of `0x` prefixes.
pub fn parse_digest(text: &str) -> (r: Result<[u8; 32], DigestError>)
    ensures
        reads_as(encode_utf8(trim_0x(text@)), r),
{
    let s = chars_of(text);
    let mut i: usize = 0;
    assert(s@.skip(0) == s@);
    while s.len() - i >= 2 && s[i] == '0' && s[i + 1] == 'x'
        invariant
            i <= s.len(),
            trim_0x(s@) == trim_0x(s@.skip(i as int)),
        decreases s.len() - i,
    {
        assert(s@.skip(i as int).skip(2) == s@.skip(i + 2));
        i += 2;
    }
    assert(s@.skip(i as int) == s@.subrange(i as int, s@.len() as int));
    hex_decode(string_of(slice_subrange(&s, i, s.len())).as_str())
}

/// Whether two digests are equal.
pub fn same_digest(a: &[u8; 32], b: &[u8; 32]) -> (r: bool)
    ensures
        r == (a@ == b@),
{
    for i in 0..32usize
        invariant
            forall|j: int| 0 <= j < i ==> a@[j] == b@[j],
    {
        if a[i] != b[i] {
            return false;
        }
    }
    assert(a@ =~= b@);
    true
}

} // verus!
