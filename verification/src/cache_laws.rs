//! What holds of model identifiers, of cache paths and of digests in hexadecimal.
use vstd::prelude::*;
use vstd::utf8::{encode_utf8, is_ascii_chars, is_ascii_chars_encode_utf8};
use crate::digest::{is_hex_byte, lower_hex, reads_as, sha256_digest, trim_0x, DigestError};
use crate::error::PinErrorView;
use crate::model::{valid_model_id, without_0x, ModelView};
use crate::pinner::{cache_file_name, cache_state, CacheFileView};
use crate::text::{all_digits, digit_char, digit_value};

verus! {

/// A cached blob never leaves the cache directory: the name of its file is one
/// plain component, of letters, digits and one dot that is not its first character.
pub proof fn cache_file_stays_in_the_cache(model_id: Seq<char>)
    requires
        valid_model_id(model_id),
    ensures
        cache_file_name(model_id).len() == 68,
        forall|i: int|
            0 <= i < 68 && i != 64 ==> {
                let c = #[trigger] cache_file_name(model_id)[i];
                ||| '0' <= c <= '9'
                ||| 'a' <= c <= 'z'
                ||| 'A' <= c <= 'Z'
            },
        cache_file_name(model_id)[64] == '.',
{
    reveal_strlit(".bin");
    let stem = without_0x(model_id);
    let name = cache_file_name(model_id);
    assert forall|i: int| 0 <= i < 68 && i != 64 implies ({
        let c = #[trigger] name[i];
        ||| '0' <= c <= '9'
        ||| 'a' <= c <= 'z'
        ||| 'A' <= c <= 'Z'
    }) by {
        if i < 64 {
            assert(name[i] == stem[i]);
            assert(digit_value(stem[i]) < 16);
        } else {
            assert(name[i] == ".bin"@[i - 64]);
        }
    }
}

/// An identifier with `0x` and the same one without it name the same file.
pub proof fn prefix_does_not_matter(digits: Seq<char>)
    requires
        digits.len() == 64,
        all_digits(digits, 16),
    ensures
        valid_model_id(digits),
        valid_model_id("0x"@ + digits),
        cache_file_name("0x"@ + digits) == cache_file_name(digits),
{
    reveal_strlit("0x");
    if "0x"@.is_prefix_of(digits) {
        assert(digits[1] == digits.subrange(0, 2)[1]);
        assert(digit_value(digits[1]) < 16);
        assert(false);
    }
    assert("0x"@ =~= ("0x"@ + digits).subrange(0, 2));
    assert(("0x"@ + digits).skip(2) =~= digits);
}

/// Two models share a file only if their identifiers have the same digits.
pub proof fn one_file_for_each_model(a: Seq<char>, b: Seq<char>)
    ensures
        cache_file_name(a) == cache_file_name(b) <==> without_0x(a) == without_0x(b),
{
    reveal_strlit(".bin");
    let x = without_0x(a);
    let y = without_0x(b);
    if cache_file_name(a) == cache_file_name(b) {
        assert(x.len() + 4 == cache_file_name(a).len());
        assert(y.len() + 4 == cache_file_name(b).len());
        assert(x =~= cache_file_name(a).take(x.len() as int));
        assert(y =~= cache_file_name(b).take(y.len() as int));
    }
}

/// The value of a digit is the number that the digit was made for.
proof fn lemma_digit(d: nat)
    requires
        d < 16,
    ensures
        digit_value(digit_char(d)) == d,
        digit_char(d) != 'x',
        (digit_char(d) as u8) as char == digit_char(d),
        (digit_char(d) as u32) < 128,
{
}

/// A digest written in hexadecimal, with or without `0x`, reads back as itself.
pub proof fn digest_reads_back(digest: [u8; 32], r: Result<[u8; 32], DigestError>)
    requires
        reads_as(encode_utf8(trim_0x(lower_hex(digest@))), r) || reads_as(
            encode_utf8(trim_0x("0x"@ + lower_hex(digest@))),
            r,
        ),
    ensures
        r matches Ok(d) && d@ == digest@,
{
    let text = lower_hex(digest@);
    assert forall|i: int| 0 <= i < 64 implies digit_value(#[trigger] text[i]) == (if i % 2 == 0 {
        digest@[i / 2] / 16
    } else {
        digest@[i / 2] % 16
    }) && text[i] != 'x' && (text[i] as u8) as char == text[i] && (text[i] as u32) < 128 by {
        lemma_digit(
            if i % 2 == 0 {
                (digest@[i / 2] / 16) as nat
            } else {
                (digest@[i / 2] % 16) as nat
            },
        );
    }
    assert(text[1] != 'x');
    assert(trim_0x(text) == text);
    reveal_strlit("0x");
    assert(("0x"@ + text).skip(2) =~= text);
    assert(trim_0x("0x"@ + text) == text);
    assert(is_ascii_chars(text));
    is_ascii_chars_encode_utf8(text);
    let hex = encode_utf8(text);
    assert forall|i: int| 0 <= i < 64 implies (#[trigger] hex[i]) as char == text[i] by {
        assert(text[i] as u8 == hex[i]);
    }
    assert forall|i: int| 0 <= i < 64 implies is_hex_byte(#[trigger] hex[i]) by {
        assert(hex[i] as char == text[i]);
    }
    assert(r is Ok);
    let d = r->Ok_0;
    assert forall|i: int| 0 <= i < 32 implies d@[i] == digest@[i] by {
        assert(hex[2 * i] as char == text[2 * i]);
        assert(hex[2 * i + 1] as char == text[2 * i + 1]);
        assert((2 * i) / 2 == i && (2 * i + 1) / 2 == i);
    }
    assert(d@ =~= digest@);
}

/// A text has only one reading as a digest.
pub proof fn digests_have_one_reading(
    hex: Seq<u8>,
    a: Result<[u8; 32], DigestError>,
    b: Result<[u8; 32], DigestError>,
)
    requires
        reads_as(hex, a),
        reads_as(hex, b),
    ensures
        match (a, b) {
            (Ok(x), Ok(y)) => x@ == y@,
            (Err(x), Err(y)) => x == y,
            _ => false,
        },
{
    match (a, b) {
        (Ok(x), Ok(y)) => {
            assert forall|i: int| 0 <= i < 32 implies x@[i] == y@[i] by {};
            assert(x@ =~= y@);
        },
        (
            Err(DigestError::InvalidHexCharacter { c, index }),
            Err(DigestError::InvalidHexCharacter { c: d, index: other }),
        ) => {
            assert(!is_hex_byte(hex[index as int]) && !is_hex_byte(hex[other as int]));
        },
        (Ok(_), Err(DigestError::InvalidHexCharacter { c, index })) => {
            assert(!is_hex_byte(hex[index as int]));
        },
        (Err(DigestError::InvalidHexCharacter { c, index }), Ok(_)) => {
            assert(!is_hex_byte(hex[index as int]));
        },
        _ => {},
    }
}

/// Whether a text is 64 characters, each from `0` to `9`, `a` to `f` or `A` to `F`.
pub open spec fn is_hex_64(s: Seq<char>) -> bool {
    &&& s.len() == 64
    &&& forall|i: int|
        0 <= i < 64 ==> {
            let c = #[trigger] s[i];
            ||| '0' <= c <= '9'
            ||| 'a' <= c <= 'f'
            ||| 'A' <= c <= 'F'
        }
}

/// An identifier is well-formed if and only if it is 64 characters from `0` to `9`,
/// `a` to `f` or `A` to `F`, alone or after one `0x`.
pub proof fn identifiers_are_64_hexadecimal_digits(s: Seq<char>)
    ensures
        valid_model_id(s) <==> is_hex_64(s) || (s.len() == 66 && s[0] == '0' && s[1] == 'x'
            && is_hex_64(s.subrange(2, 66))),
{
    reveal_strlit("0x");
    let t = without_0x(s);
    let prefixed = s.len() >= 2 && s[0] == '0' && s[1] == 'x';
    assert(prefixed ==> "0x"@ =~= s.subrange(0, 2));
    if "0x"@.is_prefix_of(s) {
        let p = s.subrange(0, 2);
        assert(p[0] == s[0] && p[1] == s[1]);
    }
    assert(prefixed <==> "0x"@.is_prefix_of(s));
    if s.len() == 66 {
        assert(s.skip(2) =~= s.subrange(2, 66));
    }
    if valid_model_id(s) {
        assert forall|i: int| 0 <= i < 64 implies ({
            let c = #[trigger] t[i];
            ||| '0' <= c <= '9'
            ||| 'a' <= c <= 'f'
            ||| 'A' <= c <= 'F'
        }) by {
            assert(digit_value(t[i]) < 16);
        }
        assert(is_hex_64(t));
    }
    if is_hex_64(s) && prefixed {
        let c = s[1];
        assert('0' <= c <= '9' || 'a' <= c <= 'f' || 'A' <= c <= 'F');
    }
    if is_hex_64(t) {
        assert forall|i: int| 0 <= i < t.len() implies digit_value(#[trigger] t[i]) < 16 by {
            let c = t[i];
            assert('0' <= c <= '9' || 'a' <= c <= 'f' || 'A' <= c <= 'F');
        }
    }
}

/// An identifier with any character among its 64 that is no hexadecimal digit is not
/// well-formed, with or without `0x`.
pub proof fn other_characters_are_rejected(digits: Seq<char>, i: int)
    requires
        digits.len() == 64,
        0 <= i < 64,
        !('0' <= digits[i] <= '9' || 'a' <= digits[i] <= 'f' || 'A' <= digits[i] <= 'F'),
    ensures
        !valid_model_id(digits),
        !valid_model_id(seq!['0', 'x'] + digits),
{
    identifiers_are_64_hexadecimal_digits(digits);
    let s = seq!['0', 'x'] + digits;
    identifiers_are_64_hexadecimal_digits(s);
    assert(s.subrange(2, 66) =~= digits);
}

/// The file of a model is named by its 64 digits as they are, and `.bin`.
pub proof fn files_are_named_by_the_digits(digits: Seq<char>)
    requires
        is_hex_64(digits),
    ensures
        cache_file_name(digits) == digits + ".bin"@,
        cache_file_name(seq!['0', 'x'] + digits) == digits + ".bin"@,
{
    identifiers_are_64_hexadecimal_digits(digits);
    reveal_strlit("0x");
    assert("0x"@ =~= seq!['0', 'x']);
    assert forall|i: int| 0 <= i < digits.len() implies digit_value(#[trigger] digits[i]) < 16 by {
        let c = digits[i];
        assert('0' <= c <= '9' || 'a' <= c <= 'f' || 'A' <= c <= 'F');
    }
    prefix_does_not_matter(digits);
    if "0x"@.is_prefix_of(digits) {
        assert(digits[1] == digits.subrange(0, 2)[1]);
        assert(digit_value(digits[1]) < 16);
    }
}

/// What was found in the cache counts as cached if and only if it is a file with the
/// expected digest; a file that cannot be read is an error with its own text.
pub proof fn only_the_expected_digest_is_cached(entry: ModelView, e: Seq<char>, bytes: Seq<u8>)
    ensures
        cache_state(entry, CacheFileView::Missing) == Ok::<bool, PinErrorView>(false),
        cache_state(entry, CacheFileView::Unreadable(e)) == Err::<bool, _>(PinErrorView::Io(e)),
        sha256_digest(bytes) == entry.expected_sha256 ==> cache_state(
            entry,
            CacheFileView::Contents(bytes),
        ) == Ok::<bool, PinErrorView>(true),
        sha256_digest(bytes) != entry.expected_sha256 ==> cache_state(
            entry,
            CacheFileView::Contents(bytes),
        ) == Ok::<bool, PinErrorView>(false),
{
}

/// Each byte is written as two lower-case hexadecimal digits, the high one first, and
/// nothing stands between or round them.
pub proof fn bytes_are_written_as_two_digits(bytes: Seq<u8>)
    ensures
        lower_hex(bytes).len() == 2 * bytes.len(),
        forall|i: int|
            0 <= i < bytes.len() ==> {
                let high = lower_hex(bytes)[2 * i];
                let low = lower_hex(bytes)[2 * i + 1];
                &&& '0' <= high <= '9' || 'a' <= high <= 'f'
                &&& '0' <= low <= '9' || 'a' <= low <= 'f'
                &&& #[trigger] bytes[i] == 16 * digit_value(high) + digit_value(low)
            },
{
    assert forall|i: int| 0 <= i < bytes.len() implies ({
        let high = lower_hex(bytes)[2 * i];
        let low = lower_hex(bytes)[2 * i + 1];
        &&& '0' <= high <= '9' || 'a' <= high <= 'f'
        &&& '0' <= low <= '9' || 'a' <= low <= 'f'
        &&& #[trigger] bytes[i] == 16 * digit_value(high) + digit_value(low)
    }) by {
        assert((2 * i) / 2 == i && (2 * i + 1) / 2 == i);
        lemma_digit((bytes[i] / 16) as nat);
        lemma_digit((bytes[i] % 16) as nat);
    }
}

/// Before a digest is read, every `0x` at its start is dropped and nothing else: a
/// text is some copies of `0x` and what is left, which does not begin with `0x`.
pub proof fn copies_of_the_prefix_are_dropped(s: Seq<char>) -> (n: nat)
    ensures
        s == Seq::new(
            2 * n,
            |i: int|
                if i % 2 == 0 {
                    '0'
                } else {
                    'x'
                },
        ) + trim_0x(s),
        trim_0x(s).len() >= 2 ==> !(trim_0x(s)[0] == '0' && trim_0x(s)[1] == 'x'),
    decreases s.len(),
{
    let pair = |i: int|
        if i % 2 == 0 {
            '0'
        } else {
            'x'
        };
    if s.len() >= 2 && s[0] == '0' && s[1] == 'x' {
        let m = copies_of_the_prefix_are_dropped(s.skip(2));
        let n = m + 1;
        let rest = trim_0x(s);
        assert(s =~= seq!['0', 'x'] + s.skip(2));
        assert(s =~= Seq::new(2 * n, pair) + rest) by {
            let inner = Seq::new(2 * m, pair);
            assert(s.skip(2) =~= inner + rest);
            assert(Seq::new(2 * n, pair) =~= seq!['0', 'x'] + inner);
        }
        n
    } else {
        assert(s =~= Seq::new(0, pair) + s);
        0
    }
}

/// Which bytes are hexadecimal digits.
pub proof fn hexadecimal_digits_by_byte(b: u8)
    ensures
        is_hex_byte(b) <==> 48 <= b <= 57 || 65 <= b <= 70 || 97 <= b <= 102,
{
}

/// One `0x` at the start of a text is dropped, whatever follows it; a text that does
/// not begin with `0x` stays as it is.
pub proof fn one_prefix_is_dropped(t: Seq<char>)
    ensures
        without_0x(seq!['0', 'x'] + t) == t,
        !(t.len() >= 2 && t[0] == '0' && t[1] == 'x') ==> without_0x(t) == t,
{
    reveal_strlit("0x");
    let s = seq!['0', 'x'] + t;
    assert("0x"@ =~= s.subrange(0, 2));
    assert(s.skip(2) =~= t);
    if "0x"@.is_prefix_of(t) {
        let p = t.subrange(0, 2);
        assert(p[0] == t[0] && p[1] == t[1]);
    }
}

/// Sixty-four hexadecimal digits, in either case, are read as a digest: two digits for
/// each byte, the high one first.
pub proof fn digests_are_read_in_either_case(hex: Seq<u8>, r: Result<[u8; 32], DigestError>)
    requires
        reads_as(hex, r),
        hex.len() == 64,
        forall|i: int|
            0 <= i < 64 ==> {
                let b = #[trigger] hex[i];
                48 <= b <= 57 || 65 <= b <= 70 || 97 <= b <= 102
            },
    ensures
        r is Ok,
        forall|i: int|
            0 <= i < 32 ==> #[trigger] r->Ok_0@[i] == 16 * digit_value(hex[2 * i] as char)
                + digit_value(hex[2 * i + 1] as char),
{
    assert forall|i: int| 0 <= i < 64 implies is_hex_byte(#[trigger] hex[i]) by {
        hexadecimal_digits_by_byte(hex[i]);
    }
    if let Err(DigestError::InvalidHexCharacter { c, index }) = r {
        assert(is_hex_byte(hex[index as int]));
    }
}

/// Everything else is no digest, and is told why: an odd number of bytes, a number of
/// them other than 64, or the first byte that is no hexadecimal digit, which is `k`.
pub proof fn other_texts_are_no_digests(hex: Seq<u8>, k: int, r: Result<[u8; 32], DigestError>)
    requires
        reads_as(hex, r),
        hex.len() == 64 ==> 0 <= k < 64,
        hex.len() == 64 ==> !(48 <= hex[k] <= 57 || 65 <= hex[k] <= 70 || 97 <= hex[k] <= 102),
        hex.len() == 64 ==> forall|i: int|
            0 <= i < k ==> {
                let b = #[trigger] hex[i];
                48 <= b <= 57 || 65 <= b <= 70 || 97 <= b <= 102
            },
    ensures
        hex.len() % 2 == 1 ==> r == Err::<[u8; 32], _>(DigestError::OddLength),
        hex.len() % 2 == 0 && hex.len() != 64 ==> r == Err::<[u8; 32], _>(
            DigestError::InvalidStringLength,
        ),
        hex.len() == 64 ==> r == Err::<[u8; 32], _>(
            DigestError::InvalidHexCharacter { c: hex[k] as char, index: k as usize },
        ),
{
    if hex.len() == 64 {
        hexadecimal_digits_by_byte(hex[k]);
        assert forall|i: int| 0 <= i < k implies is_hex_byte(#[trigger] hex[i]) by {
            hexadecimal_digits_by_byte(hex[i]);
        }
        if let Err(DigestError::InvalidHexCharacter { c, index }) = r {
            assert(!is_hex_byte(hex[index as int]));
        }
    }
}

} // verus!
