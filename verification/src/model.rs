//! Models as the registry lists them.
use vstd::prelude::*;
use vstd::string::*;
use vstd::utf8::encode_utf8;
use crate::digest::{hex_encode, lower_hex, parse_digest, reads_as, trim_0x, DigestError};
use crate::text::{all_digits, chars_of, digit_of, digit_value, starts_with};

verus! {

/// A registered model or adapter.
#[derive(Clone, Debug)]
pub struct ModelEntry {
    /// A 256-bit identifier in hexadecimal, with or without `0x`.
    pub model_id: String,
    /// The digest that the weights must have.
    pub expected_sha256: [u8; 32],
    /// Where the weights can be had, in order of preference.
    pub mirrors: Vec<String>,
    /// The size of the weights, 0 where it is not known.
    pub size_bytes: u64,
}

/// A model entry with its texts as sequences of characters.
#[verifier::ext_equal]
pub struct ModelView {
    pub model_id: Seq<char>,
    pub expected_sha256: Seq<u8>,
    pub mirrors: Seq<Seq<char>>,
    pub size_bytes: u64,
}

/// The contents of a list of strings.
pub open spec fn strings(v: Seq<String>) -> Seq<Seq<char>> {
    Seq::new(v.len(), |i: int| v[i]@)
}

impl View for ModelEntry {
    type V = ModelView;

    open spec fn view(&self) -> ModelView {
        ModelView {
            model_id: self.model_id@,
            expected_sha256: self.expected_sha256@,
            mirrors: strings(self.mirrors@),
            size_bytes: self.size_bytes,
        }
    }
}

/// A text without one `0x` at its start.
pub open spec fn without_0x(s: Seq<char>) -> Seq<char> {
    if "0x"@.is_prefix_of(s) {
        s.skip(2)
    } else {
        s
    }
}

/// A well-formed identifier: 64 hexadecimal digits, after one `0x` or none.
pub open spec fn valid_model_id(s: Seq<char>) -> bool {
    without_0x(s).len() == 64 && all_digits(without_0x(s), 16)
}

/// Drops one `0x` at the start of a text.
pub fn strip_0x(s: &str) -> (r: &str)
    ensures
        r@ == without_0x(s@),
{
    let chars = chars_of(s);
    if starts_with(&chars, &chars_of("0x")) {
        proof {
            reveal_strlit("0x");
        }
        assert(s@.skip(2) == s@.subrange(2, s@.len() as int));
        s.substring_char(2, chars.len())
    } else {
        s
    }
}

/// Whether a text is a well-formed model identifier.
pub fn is_valid_model_id(s: &str) -> (r: bool)
    ensures
        r == valid_model_id(s@),
{
    let stripped = chars_of(strip_0x(s));
    if stripped.len() != 64 {
        return false;
    }
    for i in 0..stripped.len()
        invariant
            stripped@ == without_0x(s@),
            forall|j: int| 0 <= j < i ==> digit_value(#[trigger] stripped@[j]) < 16,
    {
        if digit_of(stripped[i]) >= 16 {
            return false;
        }
    }
    true
}

impl ModelEntry {
    /// The expected digest in lower-case hexadecimal.
    pub fn expected_hex(&self) -> (r: String)
        ensures
            r@ == lower_hex(self.expected_sha256@),
    {
        hex_encode(self.expected_sha256.as_slice())
    }

    /// The entry that a request to pin describes: the digest is read from
    /// hexadecimal, and a size that is not given counts as not known.
    pub fn from_request(
        model_id: String,
        sha256: &str,
        mirrors: Vec<String>,
        size_bytes: Option<u64>,
    ) -> (r: Result<ModelEntry, DigestError>)
        ensures
            match r {
                Ok(entry) => {
                    &&& entry.model_id == model_id
                    &&& entry.mirrors == mirrors
                    &&& entry.size_bytes == (match size_bytes {
                        Some(n) => n,
                        None => 0u64,
                    })
                    &&& reads_as(encode_utf8(trim_0x(sha256@)), Ok(entry.expected_sha256))
                },
                Err(e) => reads_as(encode_utf8(trim_0x(sha256@)), Err(e)),
            },
    {
        match parse_digest(sha256) {
            Ok(expected_sha256) => Ok(
                ModelEntry { model_id, expected_sha256, mirrors, size_bytes: size_bytes.unwrap_or(0) },
            ),
            Err(e) => Err(e),
        }
    }
}

} // verus!
