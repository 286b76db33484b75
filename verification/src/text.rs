//! Text as sequences of characters: the few string operations that the rest of
//! the crate needs, each with its exact meaning.
use vstd::prelude::*;
use vstd::slice::slice_subrange;

verus! {

/// `String::push`: appends the given character at the end of the string.
pub assume_specification[ String::push ](s: &mut String, c: char)
    ensures
        final(s)@ == old(s)@.push(c),
;

/// The characters of a string, one per element.
pub fn chars_of(s: &str) -> (r: Vec<char>)
    ensures
        r@ == s@,
{
    let mut out: Vec<char> = Vec::new();
    for c in it: s.chars()
        invariant
            it.seq() == s@,
            out@ == s@.take(it.index() as int),
    {
        assert(s@.take(it.index() + 1) == s@.take(it.index() as int).push(c));
        out.push(c);
    }
    assert(s@.take(s@.len() as int) == s@);
    out
}

/// The string made of the given characters.
pub fn string_of(chars: &[char]) -> (r: String)
    ensures
        r@ == chars@,
{
    let mut out = String::new();
    for i in 0..chars.len()
        invariant
            out@ == chars@.take(i as int),
    {
        assert(chars@.take(i + 1) == chars@.take(i as int).push(chars@[i as int]));
        out.push(chars[i]);
    }
    assert(chars@.take(chars@.len() as int) == chars@);
    out
}

/// The two texts, one after the other.
pub fn join_text(a: &str, b: &str) -> (r: String)
    ensures
        r@ == a@ + b@,
{
    let mut out = a.to_string();
    out.append(b);
    out
}

/// Whether two texts have the same characters.
pub fn same_chars(a: &[char], b: &[char]) -> (r: bool)
    ensures
        r == (a@ == b@),
{
    if a.len() != b.len() {
        return false;
    }
    for i in 0..a.len()
        invariant
            a.len() == b.len(),
            forall|j: int| 0 <= j < i ==> a@[j] == b@[j],
    {
        if a[i] != b[i] {
            return false;
        }
    }
    assert(a@ =~= b@);
    true
}

/// Whether two strings have the same characters.
pub fn same_text(a: &str, b: &str) -> (r: bool)
    ensures
        r == (a@ == b@),
{
    same_chars(&chars_of(a), &chars_of(b))
}

/// Whether `s` begins with `prefix`.
pub fn starts_with(s: &[char], prefix: &[char]) -> (r: bool)
    ensures
        r == prefix@.is_prefix_of(s@),
{
    prefix.len() <= s.len() && same_chars(prefix, slice_subrange(s, 0, prefix.len()))
}

/// Whether `s` ends with `suffix`.
pub fn ends_with(s: &[char], suffix: &[char]) -> (r: bool)
    ensures
        r == suffix@.is_suffix_of(s@),
{
    suffix.len() <= s.len() && same_chars(
        suffix,
        slice_subrange(s, s.len() - suffix.len(), s.len()),
    )
}

/// The ASCII lower-case form of a character; any other character stays as it is.
pub open spec fn lower_char(c: char) -> char {
    if 'A' <= c <= 'Z' {
        (c as u32 + 32) as char
    } else {
        c
    }
}

/// A text with its ASCII letters in lower case.
pub open spec fn lower(s: Seq<char>) -> Seq<char> {
    Seq::new(s.len(), |i: int| lower_char(s[i]))
}

/// Puts the ASCII letters of a text in lower case.
pub fn to_lower(s: &[char]) -> (r: Vec<char>)
    ensures
        r@ == lower(s@),
{
    let mut out: Vec<char> = Vec::new();
    for i in 0..s.len()
        invariant
            out@ == lower(s@).take(i as int),
    {
        let c = s[i];
        let l = if 'A' <= c && c <= 'Z' {
            ((c as u8) + 32) as char
        } else {
            c
        };
        out.push(l);
        assert(lower(s@).take(i + 1) == lower(s@).take(i as int).push(l));
    }
    assert(lower(s@).take(s@.len() as int) == lower(s@));
    out
}

/// The characters with the Unicode property `White_Space`.
pub open spec fn is_white(c: char) -> bool {
    ||| '\u{9}' <= c <= '\u{d}'
    ||| c == ' '
    ||| c == '\u{85}'
    ||| c == '\u{a0}'
    ||| c == '\u{1680}'
    ||| '\u{2000}' <= c <= '\u{200a}'
    ||| c == '\u{2028}'
    ||| c == '\u{2029}'
    ||| c == '\u{202f}'
    ||| c == '\u{205f}'
    ||| c == '\u{3000}'
}

fn white(c: char) -> (r: bool)
    ensures
        r == is_white(c),
{
    ('\u{9}' <= c && c <= '\u{d}') || c == ' ' || c == '\u{85}' || c == '\u{a0}' || c == '\u{1680}'
        || ('\u{2000}' <= c && c <= '\u{200a}') || c == '\u{2028}' || c == '\u{2029}' || c
        == '\u{202f}' || c == '\u{205f}' || c == '\u{3000}'
}

/// A text without the white space at its start.
pub open spec fn trim_start(s: Seq<char>) -> Seq<char>
    decreases s.len(),
{
    if s.len() > 0 && is_white(s.first()) {
        trim_start(s.drop_first())
    } else {
        s
    }
}

/// A text without the white space at its end.
pub open spec fn trim_end(s: Seq<char>) -> Seq<char>
    decreases s.len(),
{
    if s.len() > 0 && is_white(s.last()) {
        trim_end(s.drop_last())
    } else {
        s
    }
}

/// A text without the white space at either end.
pub open spec fn trim(s: Seq<char>) -> Seq<char> {
    trim_end(trim_start(s))
}

/// A text without the copies of `c` at its start.
pub open spec fn trim_start_of(s: Seq<char>, c: char) -> Seq<char>
    decreases s.len(),
{
    if s.len() > 0 && s.first() == c {
        trim_start_of(s.drop_first(), c)
    } else {
        s
    }
}

/// Drops the white space at either end of a text.
pub fn trimmed(s: &[char]) -> (r: &[char])
    ensures
        r@ == trim(s@),
{
    let mut i: usize = 0;
    assert(s@.skip(0) == s@);
    while i < s.len() && white(s[i])
        invariant
            i <= s.len(),
            trim_start(s@) == trim_start(s@.skip(i as int)),
        decreases s.len() - i,
    {
        assert(s@.skip(i as int).drop_first() == s@.skip(i + 1));
        i += 1;
    }
    let ghost rest = s@.skip(i as int);
    let mut j: usize = s.len();
    assert(s@.subrange(i as int, j as int) == rest);
    while j > i && white(s[j - 1])
        invariant
            i <= j <= s.len(),
            trim_end(rest) == trim_end(s@.subrange(i as int, j as int)),
        decreases j,
    {
        assert(s@.subrange(i as int, j as int).drop_last() == s@.subrange(i as int, j - 1));
        j -= 1;
    }
    slice_subrange(s, i, j)
}

/// Drops the copies of `c` at the start of a text.
pub fn trimmed_start_of(s: &[char], c: char) -> (r: &[char])
    ensures
        r@ == trim_start_of(s@, c),
{
    let mut i: usize = 0;
    assert(s@.skip(0) == s@);
    while i < s.len() && s[i] == c
        invariant
            i <= s.len(),
            trim_start_of(s@, c) == trim_start_of(s@.skip(i as int), c),
        decreases s.len() - i,
    {
        assert(s@.skip(i as int).drop_first() == s@.skip(i + 1));
        i += 1;
    }
    assert(s@.skip(i as int) == s@.subrange(i as int, s@.len() as int));
    slice_subrange(s, i, s.len())
}

/// The fields of a text between the copies of `sep`: one more field than there
/// are separators.
pub open spec fn split(s: Seq<char>, sep: char) -> Seq<Seq<char>>
    decreases s.len(),
{
    if s.len() == 0 {
        seq![Seq::<char>::empty()]
    } else {
        let before = split(s.drop_last(), sep);
        if s.last() == sep {
            before.push(Seq::<char>::empty())
        } else {
            before.drop_last().push(before.last().push(s.last()))
        }
    }
}

/// The contents of a vector of texts.
pub open spec fn texts(v: Seq<Vec<char>>) -> Seq<Seq<char>> {
    Seq::new(v.len(), |i: int| v[i]@)
}

pub proof fn lemma_split_len(s: Seq<char>, sep: char)
    ensures
        split(s, sep).len() >= 1,
    decreases s.len(),
{
    if s.len() > 0 {
        lemma_split_len(s.drop_last(), sep);
    }
}

/// Cuts a text at every copy of `sep`.
pub fn split_fields(s: &[char], sep: char) -> (r: Vec<Vec<char>>)
    ensures
        texts(r@) == split(s@, sep),
{
    let mut done: Vec<Vec<char>> = Vec::new();
    let mut field: Vec<char> = Vec::new();
    assert(texts(done@).push(field@) =~= split(s@.take(0), sep));
    for i in 0..s.len()
        invariant
            texts(done@).push(field@) == split(s@.take(i as int), sep),
    {
        let c = s[i];
        let ghost before = texts(done@).push(field@);
        let ghost done0 = done@;
        let ghost field0 = field@;
        assert(s@.take(i + 1).drop_last() == s@.take(i as int));
        if c == sep {
            done.push(field);
            field = Vec::new();
            assert(texts(done@).push(field@) =~= before.push(Seq::<char>::empty()));
        } else {
            field.push(c);
            assert(texts(done@).push(field@) =~= before.drop_last().push(field0.push(c)));
        }
    }
    assert(s@.take(s@.len() as int) == s@);
    let ghost before = texts(done@).push(field@);
    done.push(field);
    assert(texts(done@) =~= before);
    done
}

/// The value of a character as a digit: 0 to 15 for `0` to `9`, `a` to `f` and
/// `A` to `F`, and 16 for a character that is no digit.
pub open spec fn digit_value(c: char) -> nat {
    if '0' <= c <= '9' {
        (c as u32 - '0' as u32) as nat
    } else if 'a' <= c <= 'f' {
        (c as u32 - 'a' as u32 + 10) as nat
    } else if 'A' <= c <= 'F' {
        (c as u32 - 'A' as u32 + 10) as nat
    } else {
        16
    }
}

/// Whether every character is a digit in the given radix.
pub open spec fn all_digits(s: Seq<char>, radix: nat) -> bool {
    forall|i: int| 0 <= i < s.len() ==> digit_value(#[trigger] s[i]) < radix
}

/// The number that a sequence of digits stands for.
pub open spec fn number_value(s: Seq<char>, radix: nat) -> nat
    decreases s.len(),
{
    if s.len() == 0 {
        0
    } else {
        number_value(s.drop_last(), radix) * radix + digit_value(s.last())
    }
}

/// The lower-case digit with the given value.
pub open spec fn digit_char(d: nat) -> char {
    if d < 10 {
        ('0' as u32 + d) as char
    } else {
        ('a' as u32 + d - 10) as char
    }
}

/// A number written with lower-case digits and no leading zero.
pub open spec fn number_text(n: nat, radix: nat) -> Seq<char>
    decreases n,
{
    if radix < 2 || n < radix {
        seq![digit_char(n)]
    } else {
        proof {
            assert(n / radix < n) by (nonlinear_arith)
                requires
                    n >= radix,
                    radix >= 2,
            ;
        }
        number_text(n / radix, radix).push(digit_char(n % radix))
    }
}

/// The value of a character as a digit, 16 for a character that is none.
pub fn digit_of(c: char) -> (r: u32)
    ensures
        r == digit_value(c),
{
    if '0' <= c && c <= '9' {
        c as u32 - '0' as u32
    } else if 'a' <= c && c <= 'f' {
        c as u32 - 'a' as u32 + 10
    } else if 'A' <= c && c <= 'F' {
        c as u32 - 'A' as u32 + 10
    } else {
        16
    }
}

/// The lower-case digit with the given value.
fn char_of_digit(d: u64) -> (r: char)
    requires
        d < 16,
    ensures
        r == digit_char(d as nat),
{
    if d < 10 {
        (48u8 + d as u8) as char
    } else {
        (87u8 + d as u8) as char
    }
}

/// Writes a number in the given radix.
pub fn number_chars(n: u64, radix: u64) -> (r: Vec<char>)
    requires
        2 <= radix <= 16,
    ensures
        r@ == number_text(n as nat, radix as nat),
    decreases n,
{
    if n < radix {
        let mut out: Vec<char> = Vec::new();
        out.push(char_of_digit(n));
        assert(out@ =~= number_text(n as nat, radix as nat));
        out
    } else {
        assert(n / radix < n) by (nonlinear_arith)
            requires
                n >= radix,
                radix >= 2,
        ;
        let mut out = number_chars(n / radix, radix);
        assert(n % radix < radix) by (nonlinear_arith)
            requires
                radix >= 2,
        ;
        out.push(char_of_digit(n % radix));
        out
    }
}

/// Writes a number in decimal.
pub fn decimal(n: u64) -> (r: String)
    ensures
        r@ == number_text(n as nat, 10),
{
    string_of(&number_chars(n, 10))
}

/// A `u64` in decimal: one `+` or none, then at least one digit.
pub open spec fn u64_of(s: Seq<char>) -> Option<u64> {
    let digits = if s.len() > 0 && s[0] == '+' {
        s.skip(1)
    } else {
        s
    };
    if digits.len() > 0 && all_digits(digits, 10) && number_value(digits, 10) <= u64::MAX {
        Some(number_value(digits, 10) as u64)
    } else {
        None
    }
}

proof fn lemma_number_value_grows(s: Seq<char>, i: int)
    requires
        0 <= i <= s.len(),
    ensures
        number_value(s.take(i), 10) <= number_value(s, 10),
    decreases s.len() - i,
{
    if i < s.len() {
        lemma_number_value_grows(s, i + 1);
        assert(s.take(i + 1).drop_last() == s.take(i));
    } else {
        assert(s.take(i) == s);
    }
}

/// Reads a `u64` from decimal.
pub fn parse_u64(text: &str) -> (r: Option<u64>)
    ensures
        r == u64_of(text@),
{
    let s = chars_of(text);
    let start: usize = if s.len() > 0 && s[0] == '+' {
        1
    } else {
        0
    };
    let ghost digits = s@.skip(start as int);
    assert(start == 0 ==> digits == s@);
    if start == s.len() {
        return None;
    }
    let mut v: u64 = 0;
    for i in start..s.len()
        invariant
            start <= s.len(),
            digits == s@.skip(start as int),
            u64_of(text@) == (if digits.len() > 0 && all_digits(digits, 10) && number_value(
                digits,
                10,
            ) <= u64::MAX {
                Some(number_value(digits, 10) as u64)
            } else {
                None
            }),
            v == number_value(digits.take(i - start), 10),
            forall|j: int| 0 <= j < i - start ==> digit_value(#[trigger] digits[j]) < 10,
    {
        let d = digit_of(s[i]);
        assert(digits[i - start] == s@[i as int]);
        if d >= 10 {
            return None;
        }
        assert(digits.take(i - start + 1).drop_last() == digits.take(i - start));
        proof {
            lemma_number_value_grows(digits, i - start + 1);
        }
        if v > (u64::MAX - d as u64) / 10 {
            return None;
        }
        v = v * 10 + d as u64;
    }
    assert(digits.take(digits.len() as int) == digits);
    Some(v)
}

} // verus!
