//! What the operations on text do, told by what goes in and what comes out.
use vstd::arithmetic::div_mod::lemma_fundamental_div_mod;
use vstd::prelude::*;
use crate::text::{
    digit_char, digit_value, is_white, lower, number_text, number_value, split, trim,
    trim_end, trim_start, trim_start_of, u64_of,
};

verus! {

/// Lower case moves the letters from `A` (65) to `Z` (90) up by 32 and leaves every
/// other character, and the length, alone.
pub proof fn only_ascii_capitals_change(s: Seq<char>)
    ensures
        lower(s).len() == s.len(),
        forall|i: int|
            0 <= i < s.len() ==> (#[trigger] lower(s)[i]) as u32 == (if 65 <= s[i] as u32 <= 90 {
                s[i] as u32 + 32
            } else {
                s[i] as int
            }),
{
}

/// Which code points are white space.
pub proof fn white_space_by_code_point(c: char)
    ensures
        is_white(c) <==> {
            let n = c as u32;
            ||| 9 <= n <= 13
            ||| n == 32 || n == 133 || n == 160 || n == 5760
            ||| 8192 <= n <= 8202
            ||| n == 8232 || n == 8233 || n == 8239 || n == 8287 || n == 12288
        },
{
}

/// The values of digits by code point: 48 to 57, 65 to 70 and 97 to 102 are digits,
/// and nothing else is one in any radix up to 16.
pub proof fn digits_by_code_point(c: char)
    ensures
        ({
            let n = c as u32;
            &&& 48 <= n <= 57 ==> digit_value(c) == n - 48
            &&& 65 <= n <= 70 ==> digit_value(c) == n - 55
            &&& 97 <= n <= 102 ==> digit_value(c) == n - 87
            &&& !(48 <= n <= 57 || 65 <= n <= 70 || 97 <= n <= 102) ==> digit_value(c) >= 16
        }),
{
}

proof fn lemma_trim_start(s: Seq<char>) -> (i: int)
    ensures
        0 <= i <= s.len(),
        trim_start(s) == s.skip(i),
        forall|k: int| 0 <= k < i ==> is_white(#[trigger] s[k]),
        i < s.len() ==> !is_white(s[i]),
    decreases s.len(),
{
    if s.len() > 0 && is_white(s.first()) {
        let j = lemma_trim_start(s.drop_first());
        assert(s.drop_first().skip(j) =~= s.skip(j + 1));
        assert forall|k: int| 0 <= k < j + 1 implies is_white(#[trigger] s[k]) by {
            if k > 0 {
                assert(is_white(s.drop_first()[k - 1]));
            }
        }
        j + 1
    } else {
        assert(s.skip(0) =~= s);
        0
    }
}

proof fn lemma_trim_end(s: Seq<char>) -> (j: int)
    ensures
        0 <= j <= s.len(),
        trim_end(s) == s.take(j),
        forall|k: int| j <= k < s.len() ==> is_white(#[trigger] s[k]),
        j > 0 ==> !is_white(s[j - 1]),
    decreases s.len(),
{
    if s.len() > 0 && is_white(s.last()) {
        let j = lemma_trim_end(s.drop_last());
        assert(s.drop_last().take(j) =~= s.take(j));
        assert forall|k: int| j <= k < s.len() implies is_white(#[trigger] s[k]) by {
            if k < s.len() - 1 {
                assert(is_white(s.drop_last()[k]));
            }
        }
        j
    } else {
        assert(s.take(s.len() as int) =~= s);
        s.len() as int
    }
}

/// Trimming takes white space off both ends, as much as there is, and nothing else:
/// a text is white space, the trimmed text, and white space, and the trimmed text
/// neither begins nor ends with white space.
pub proof fn trimming_takes_white_space_off_both_ends(s: Seq<char>) -> (r: (Seq<char>, Seq<char>))
    ensures
        s == r.0 + trim(s) + r.1,
        forall|k: int| 0 <= k < r.0.len() ==> is_white(#[trigger] r.0[k]),
        forall|k: int| 0 <= k < r.1.len() ==> is_white(#[trigger] r.1[k]),
        trim(s).len() > 0 ==> !is_white(trim(s)[0]) && !is_white(trim(s)[trim(s).len() - 1]),
{
    let i = lemma_trim_start(s);
    let rest = s.skip(i);
    let j = lemma_trim_end(rest);
    assert(trim(s) == rest.take(j));
    let front = s.take(i);
    let back = rest.skip(j);
    assert(s =~= front + trim(s) + back);
    assert forall|k: int| 0 <= k < front.len() implies is_white(#[trigger] front[k]) by {
        assert(is_white(s[k]));
    }
    assert forall|k: int| 0 <= k < back.len() implies is_white(#[trigger] back[k]) by {
        assert(is_white(rest[j + k]));
    }
    if j > 0 {
        assert(trim(s)[0] == s[i]);
        assert(trim(s)[j - 1] == rest[j - 1]);
    }
    (front, back)
}

/// Trimming a character off the start takes all its copies there and nothing else:
/// a text is some copies of the character and the trimmed text, and the trimmed
/// text does not begin with it.
pub proof fn trimming_takes_copies_off_the_start(s: Seq<char>, c: char) -> (n: nat)
    ensures
        s == Seq::new(n, |i: int| c) + trim_start_of(s, c),
        trim_start_of(s, c).len() > 0 ==> trim_start_of(s, c)[0] != c,
    decreases s.len(),
{
    if s.len() > 0 && s.first() == c {
        let m = trimming_takes_copies_off_the_start(s.drop_first(), c);
        let n = m + 1;
        let rest = trim_start_of(s, c);
        assert(s =~= Seq::new(n, |i: int| c) + rest) by {
            assert(s =~= seq![c] + s.drop_first());
        }
        n
    } else {
        assert(s =~= Seq::new(0, |i: int| c) + s);
        0
    }
}

/// Some fields with a separator between each two.
pub open spec fn joined_by(f: Seq<Seq<char>>, sep: char) -> Seq<char>
    decreases f.len(),
{
    if f.len() == 0 {
        Seq::<char>::empty()
    } else if f.len() == 1 {
        f[0]
    } else {
        joined_by(f.drop_last(), sep) + seq![sep] + f.last()
    }
}

/// A text without separators is one field.
pub proof fn lemma_split_one(s: Seq<char>, sep: char)
    requires
        !s.contains(sep),
    ensures
        split(s, sep) == seq![s],
    decreases s.len(),
{
    if s.len() == 0 {
        assert(s =~= Seq::<char>::empty());
    } else {
        let before = s.drop_last();
        assert(s[s.len() - 1] == s.last());
        assert(s.contains(s.last()));
        assert forall|i: int| 0 <= i < before.len() implies #[trigger] before[i] != sep by {
            assert(s.contains(s[i]));
        }
        lemma_split_one(before, sep);
        assert(split(s, sep) =~= seq![s]) by {
            assert(before.push(s.last()) =~= s);
        }
    }
}

/// A separator and a text without separators add one field.
pub proof fn lemma_split_push(s: Seq<char>, t: Seq<char>, sep: char)
    requires
        !t.contains(sep),
    ensures
        split(s + seq![sep] + t, sep) == split(s, sep).push(t),
    decreases t.len(),
{
    let all = s + seq![sep] + t;
    if t.len() == 0 {
        assert(all.drop_last() =~= s);
        assert(t =~= Seq::<char>::empty());
    } else {
        let before = t.drop_last();
        assert(t[t.len() - 1] == t.last());
        assert(t.contains(t.last()));
        assert forall|i: int| 0 <= i < before.len() implies #[trigger] before[i] != sep by {
            assert(t.contains(t[i]));
        }
        lemma_split_push(s, before, sep);
        assert(all.drop_last() =~= s + seq![sep] + before);
        assert(before.push(t.last()) =~= t);
        let fields = split(s, sep).push(before);
        assert(fields.drop_last() =~= split(s, sep));
    }
}

/// Fields that hold no separator, once joined, split into the same fields.
pub proof fn joined_fields_split_again(f: Seq<Seq<char>>, sep: char)
    requires
        f.len() > 0,
        forall|i: int| 0 <= i < f.len() ==> !(#[trigger] f[i]).contains(sep),
    ensures
        split(joined_by(f, sep), sep) == f,
    decreases f.len(),
{
    if f.len() == 1 {
        lemma_split_one(f[0], sep);
        assert(f =~= seq![f[0]]);
    } else {
        let front = f.drop_last();
        assert forall|i: int| 0 <= i < front.len() implies !(#[trigger] front[i]).contains(sep) by {
            assert(front[i] == f[i]);
        }
        joined_fields_split_again(front, sep);
        assert(f.last() == f[f.len() - 1]);
        lemma_split_push(joined_by(front, sep), f.last(), sep);
        assert(front.push(f.last()) =~= f);
    }
}

/// Splitting loses nothing: no field holds the separator, and the fields, joined
/// again, are the text.
pub proof fn split_fields_join_again(s: Seq<char>, sep: char)
    ensures
        split(s, sep).len() > 0,
        forall|i: int| 0 <= i < split(s, sep).len() ==> !(#[trigger] split(s, sep)[i]).contains(sep),
        joined_by(split(s, sep), sep) == s,
    decreases s.len(),
{
    let f = split(s, sep);
    if s.len() == 0 {
        assert(f =~= seq![Seq::<char>::empty()]);
        assert(s =~= Seq::<char>::empty());
    } else {
        split_fields_join_again(s.drop_last(), sep);
        let before = split(s.drop_last(), sep);
        let c = s.last();
        if c == sep {
            assert(f.drop_last() =~= before);
            assert(joined_by(f, sep) =~= s);
            assert forall|i: int| 0 <= i < f.len() implies !(#[trigger] f[i]).contains(sep) by {
                if i < before.len() {
                    assert(f[i] == before[i]);
                }
            }
        } else {
            let field = before.last().push(c);
            assert(before.last() == before[before.len() - 1]);
            assert(f.drop_last() =~= before.drop_last());
            assert(joined_by(f, sep) =~= joined_by(before, sep).push(c)) by {
                if before.len() == 1 {
                    assert(f =~= seq![field]);
                } else {
                    assert(f.last() == field);
                }
            }
            assert(s.drop_last().push(c) =~= s);
            assert forall|i: int| 0 <= i < f.len() implies !(#[trigger] f[i]).contains(sep) by {
                if i < before.len() - 1 {
                    assert(f[i] == before[i]);
                } else {
                    assert(f[i] == field);
                    if field.contains(sep) {
                        let k = choose|k: int| 0 <= k < field.len() && field[k] == sep;
                        assert(before.last()[k] == sep);
                        assert(before.last().contains(sep));
                    }
                }
            }
        }
    }
}

/// Digits count by their position: nothing is zero, and one more digit multiplies
/// by the radix and adds its value.
pub proof fn numbers_are_positional(s: Seq<char>, c: char, radix: nat)
    ensures
        number_value(Seq::<char>::empty(), radix) == 0,
        number_value(s.push(c), radix) == number_value(s, radix) * radix + digit_value(c),
{
    assert(s.push(c).drop_last() =~= s);
}

/// A number is written with the digits `0` to `9` and `a` to `f` that the radix has,
/// without a leading zero, and reads back as itself.
pub proof fn numbers_read_back(n: nat, radix: nat)
    requires
        2 <= radix <= 16,
    ensures
        ({
            let t = number_text(n, radix);
            &&& t.len() > 0
            &&& forall|i: int|
                0 <= i < t.len() ==> digit_value(#[trigger] t[i]) < radix && ('0' <= t[i] <= '9' || 'a'
                    <= t[i] <= 'f')
            &&& t.len() > 1 || n > 0 ==> t[0] != '0'
            &&& number_value(t, radix) == n
        }),
    decreases n,
{
    let t = number_text(n, radix);
    if n < radix {
        assert(t =~= seq![digit_char(n)]);
        assert(t.drop_last() =~= Seq::<char>::empty());
        assert(number_value(t.drop_last(), radix) == 0);
        assert(0 * radix == 0) by (nonlinear_arith);
    } else {
        assert(0 < n / radix < n) by (nonlinear_arith)
            requires
                n >= radix,
                radix >= 2,
        ;
        let d = n % radix;
        assert(0 <= d < radix) by (nonlinear_arith)
            requires
                d == n % radix,
                radix >= 2,
        ;
        numbers_read_back(n / radix, radix);
        let front = number_text(n / radix, radix);
        assert(t.drop_last() =~= front);
        lemma_fundamental_div_mod(n as int, radix as int);
        assert(radix * (n / radix) == (n / radix) * radix) by (nonlinear_arith);
        assert(digit_value(digit_char(d)) == d);
        assert forall|i: int| 0 <= i < t.len() implies digit_value(#[trigger] t[i]) < radix && ('0'
            <= t[i] <= '9' || 'a' <= t[i] <= 'f') by {
            if i < front.len() {
                assert(t[i] == front[i]);
            }
        }
        assert(t[0] == front[0]);
    }
}

/// Digits without a leading zero stand for a number above zero, unless they are one
/// zero.
proof fn lemma_positive(t: Seq<char>)
    requires
        t.len() > 0,
        digit_value(t[0]) > 0,
    ensures
        number_value(t, 10) > 0,
    decreases t.len(),
{
    if t.len() > 1 {
        assert(t.drop_last()[0] == t[0]);
        lemma_positive(t.drop_last());
    }
}

/// A number has one decimal form without a leading zero: digits that have none are
/// what the number that they stand for is written as.
pub proof fn decimal_forms_are_unique(t: Seq<char>)
    requires
        t.len() > 0,
        forall|i: int| 0 <= i < t.len() ==> '0' <= (#[trigger] t[i]) <= '9',
        t.len() > 1 ==> t[0] != '0',
    ensures
        number_text(number_value(t, 10), 10) == t,
    decreases t.len(),
{
    let front = t.drop_last();
    let c = t.last();
    let d = digit_value(c);
    assert(t[t.len() - 1] == c);
    assert(d < 10 && digit_char(d) == c);
    if t.len() == 1 {
        assert(number_value(front, 10) == 0);
        assert(t =~= seq![c]);
    } else {
        assert forall|i: int| 0 <= i < front.len() implies '0' <= (#[trigger] front[i]) <= '9' by {
            assert(front[i] == t[i]);
        }
        assert(front[0] == t[0]);
        decimal_forms_are_unique(front);
        lemma_positive(front);
        let v = number_value(front, 10);
        let n = number_value(t, 10);
        assert(n == v * 10 + d);
        assert(n / 10 == v && n % 10 == d);
        assert(front.push(c) =~= t);
    }
}

/// One or more decimal digits, with or without a plus sign before them, are read as
/// their value where a `u64` can hold it.
pub proof fn decimal_digits_are_read(d: Seq<char>)
    requires
        d.len() > 0,
        forall|i: int| 0 <= i < d.len() ==> '0' <= (#[trigger] d[i]) <= '9',
    ensures
        number_value(d, 10) <= u64::MAX ==> {
            &&& u64_of(d) == Some(number_value(d, 10) as u64)
            &&& u64_of(seq!['+'] + d) == Some(number_value(d, 10) as u64)
        },
        number_value(d, 10) > u64::MAX ==> u64_of(d) is None && u64_of(seq!['+'] + d) is None,
{
    assert((seq!['+'] + d).skip(1) =~= d);
    assert('0' <= d[0] <= '9');
    assert forall|i: int| 0 <= i < d.len() implies digit_value(#[trigger] d[i]) < 10 by {
        assert('0' <= d[i] <= '9');
    }
}

/// Nothing but decimal digits, with or without a plus sign before them, is read as
/// a number.
pub proof fn only_decimal_digits_are_read(s: Seq<char>) -> (d: Seq<char>)
    requires
        u64_of(s) is Some,
    ensures
        s == d || s == seq!['+'] + d,
        d.len() > 0,
        forall|i: int| 0 <= i < d.len() ==> '0' <= (#[trigger] d[i]) <= '9',
        number_value(d, 10) == u64_of(s)->0,
{
    let d = if s[0] == '+' {
        s.skip(1)
    } else {
        s
    };
    assert(s[0] == '+' ==> s =~= seq!['+'] + s.skip(1));
    assert forall|i: int| 0 <= i < d.len() implies '0' <= (#[trigger] d[i]) <= '9' by {
        assert(digit_value(d[i]) < 10);
    }
    d
}

} // verus!
