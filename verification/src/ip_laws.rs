//! Which addresses are forbidden, told by number, and how addresses are spelled: each
//! survives being written as text and read again.
use vstd::prelude::*;
use crate::ip::{
    final_segments, gap_from, ip_of, ip_text, ipv4_of, ipv4_text, ipv6_of, ipv6_text, is_forbidden,
    is_loopback, last_octets, longest_zeros, octet_of, plain_segments, segment_of, segments_of,
    segments_text, zeros_from, IpView,
};
use crate::text::{all_digits, digit_char, digit_value, number_text, number_value, split};
use crate::text_laws::{
    decimal_forms_are_unique, joined_by, joined_fields_split_again, lemma_split_one, lemma_split_push,
    split_fields_join_again,
};

verus! {

/// A number below a thousand in decimal: its digits, how many, and its value.
proof fn lemma_decimal(n: nat)
    requires
        n < 1000,
    ensures
        ({
            let t = number_text(n, 10);
            &&& 1 <= t.len() <= 3
            &&& all_digits(t, 10)
            &&& number_value(t, 10) == n
            &&& t.len() > 1 ==> t[0] != '0'
            &&& !t.contains('.')
            &&& !t.contains(':')
        }),
{
    reveal_with_fuel(number_text, 4);
    reveal_with_fuel(number_value, 4);
    let t = number_text(n, 10);
    if n < 10 {
        assert(t =~= seq![digit_char(n)]);
        assert(t.drop_last() =~= Seq::<char>::empty());
    } else if n < 100 {
        assert(t =~= seq![digit_char(n / 10), digit_char(n % 10)]);
        assert(t.drop_last() =~= seq![digit_char(n / 10)]);
        assert(t.drop_last().drop_last() =~= Seq::<char>::empty());
    } else {
        assert(n / 10 / 10 == n / 100);
        assert(t =~= seq![digit_char(n / 100), digit_char(n / 10 % 10), digit_char(n % 10)]);
        assert(t.drop_last() =~= seq![digit_char(n / 100), digit_char(n / 10 % 10)]);
        assert(t.drop_last().drop_last() =~= seq![digit_char(n / 100)]);
        assert(t.drop_last().drop_last().drop_last() =~= Seq::<char>::empty());
    }
}

/// A segment in hexadecimal reads back as itself.
proof fn lemma_segment(n: u16)
    ensures
        ({
            let t = number_text(n as nat, 16);
            &&& 1 <= t.len() <= 4
            &&& segment_of(t) == Some(n)
            &&& !t.contains('.')
            &&& !t.contains(':')
        }),
{
    reveal_with_fuel(number_text, 5);
    reveal_with_fuel(number_value, 5);
    let m = n as nat;
    let t = number_text(m, 16);
    let (a, b, c, d) = (m / 4096, m / 256 % 16, m / 16 % 16, m % 16);
    assert(m / 16 / 16 == m / 256 && m / 16 / 16 / 16 == m / 4096);
    if m < 16 {
        assert(t =~= seq![digit_char(d)]);
        assert(t.drop_last() =~= Seq::<char>::empty());
    } else if m < 256 {
        assert(t =~= seq![digit_char(c), digit_char(d)]);
        assert(t.drop_last() =~= seq![digit_char(c)]);
        assert(t.drop_last().drop_last() =~= Seq::<char>::empty());
    } else if m < 4096 {
        assert(t =~= seq![digit_char(b), digit_char(c), digit_char(d)]);
        assert(t.drop_last() =~= seq![digit_char(b), digit_char(c)]);
        assert(t.drop_last().drop_last() =~= seq![digit_char(b)]);
        assert(t.drop_last().drop_last().drop_last() =~= Seq::<char>::empty());
    } else {
        assert(t =~= seq![digit_char(a), digit_char(b), digit_char(c), digit_char(d)]);
        assert(t.drop_last() =~= seq![digit_char(a), digit_char(b), digit_char(c)]);
        assert(t.drop_last().drop_last() =~= seq![digit_char(a), digit_char(b)]);
        assert(t.drop_last().drop_last().drop_last() =~= seq![digit_char(a)]);
        assert(t.drop_last().drop_last().drop_last().drop_last() =~= Seq::<char>::empty());
    }
    assert(number_value(t, 16) == m);
}

/// An IPv4 address in dotted decimal reads back as itself.
proof fn lemma_ipv4(o: Seq<u8>)
    requires
        o.len() == 4,
    ensures
        ipv4_of(ipv4_text(o)) == Some(o),
        !ipv4_text(o).contains(':'),
        ipv4_text(o).len() > 0,
        ipv4_text(o)[0] != ':',
{
    let a = number_text(o[0] as nat, 10);
    let b = number_text(o[1] as nat, 10);
    let c = number_text(o[2] as nat, 10);
    let d = number_text(o[3] as nat, 10);
    lemma_decimal(o[0] as nat);
    lemma_decimal(o[1] as nat);
    lemma_decimal(o[2] as nat);
    lemma_decimal(o[3] as nat);
    lemma_split_one(a, '.');
    lemma_split_push(a, b, '.');
    lemma_split_push(a + seq!['.'] + b, c, '.');
    lemma_split_push(a + seq!['.'] + b + seq!['.'] + c, d, '.');
    let f = split(ipv4_text(o), '.');
    assert(f =~= seq![a, b, c, d]);
    assert(ipv4_of(ipv4_text(o))->0 =~= o);
    let t = ipv4_text(o);
    assert forall|i: int| 0 <= i < t.len() implies #[trigger] t[i] != ':' by {
        let n1 = a.len() as int;
        let n2 = n1 + 1 + b.len();
        let n3 = n2 + 1 + c.len();
        if i < n1 {
            assert(t[i] == a[i] && a.contains(a[i]));
        } else if n1 < i < n2 {
            assert(t[i] == b[i - n1 - 1] && b.contains(b[i - n1 - 1]));
        } else if n2 < i < n3 {
            assert(t[i] == c[i - n2 - 1] && c.contains(c[i - n2 - 1]));
        } else if n3 < i {
            assert(t[i] == d[i - n3 - 1] && d.contains(d[i - n3 - 1]));
        }
    }
}

/// Whether two colons stand at a position.
spec fn double(t: Seq<char>, i: int) -> bool {
    t[i] == ':' && t[i + 1] == ':'
}

/// The first place of two colons is where two colons stand and stand nowhere
/// before.
proof fn lemma_gap(t: Seq<char>, q: int, p: int)
    requires
        0 <= q <= p,
        forall|i: int| q <= i < p && i + 1 < t.len() ==> !#[trigger] double(t, i),
        p + 1 < t.len() ==> double(t, p),
    ensures
        gap_from(t, q) == (if p + 1 < t.len() {
            p
        } else {
            t.len() as int
        }),
    decreases p - q,
{
    if q + 1 < t.len() {
        if q < p {
            assert(!double(t, q));
            lemma_gap(t, q + 1, p);
        } else {
            assert(double(t, q));
        }
    }
}

/// Segments with colons between them: how they split, and where colons and dots
/// stand.
proof fn lemma_segments_text(x: Seq<u16>)
    requires
        x.len() > 0,
    ensures
        ({
            let t = segments_text(x);
            &&& t.len() > 0
            &&& split(t, ':') == Seq::new(x.len(), |i: int| number_text(x[i] as nat, 16))
            &&& t.first() != ':'
            &&& t.last() != ':'
            &&& !t.contains('.')
            &&& forall|i: int| 0 <= i && i + 1 < t.len() ==> !#[trigger] double(t, i)
        }),
    decreases x.len(),
{
    let t = segments_text(x);
    let g = number_text(x.last() as nat, 16);
    let fields = Seq::new(x.len(), |i: int| number_text(x[i] as nat, 16));
    lemma_segment(x.last());
    assert forall|i: int| 0 <= i < g.len() implies #[trigger] g[i] != ':' && g[i] != '.' by {
        assert(g.contains(g[i]));
    }
    if x.len() == 1 {
        lemma_split_one(g, ':');
        assert(fields =~= seq![g]);
    } else {
        let front = x.drop_last();
        lemma_segments_text(front);
        let u = segments_text(front);
        assert(t == u + seq![':'] + g);
        lemma_split_push(u, g, ':');
        assert(fields =~= split(u, ':').push(g)) by {
            assert forall|i: int| 0 <= i < front.len() implies front[i] == x[i] by {};
        }
        assert forall|i: int| 0 <= i && i + 1 < t.len() implies !#[trigger] double(t, i) by {
            if i + 1 < u.len() {
                assert(!double(u, i));
            }
        }
        assert forall|i: int| 0 <= i < t.len() implies #[trigger] t[i] != '.' by {
            if i < u.len() {
                assert(u.contains(u[i]));
            }
        }
    }
}

/// A text without a dot is no IPv4 address.
proof fn lemma_no_dot(t: Seq<char>)
    requires
        !t.contains('.'),
    ensures
        ipv4_of(t) is None,
{
    lemma_split_one(t, '.');
}

/// Segments with colons between them read back as themselves.
proof fn lemma_segments(x: Seq<u16>)
    ensures
        plain_segments(segments_text(x)) == Some(x),
        final_segments(segments_text(x)) == Some(x),
{
    let t = segments_text(x);
    if x.len() == 0 {
        assert(x =~= Seq::<u16>::empty());
    } else {
        lemma_segments_text(x);
        let f = split(t, ':');
        assert forall|i: int| 0 <= i < f.len() implies segment_of(#[trigger] f[i]) == Some(
            x[i],
        ) by {
            lemma_segment(x[i]);
        }
        assert(segments_of(f)->0 =~= x);
        lemma_segment(x.last());
        assert(f.last() == number_text(x.last() as nat, 16));
        lemma_no_dot(f.last());
    }
}

proof fn lemma_zeros_from(s: Seq<u16>, i: int)
    requires
        0 <= i <= s.len(),
    ensures
        i + zeros_from(s, i) <= s.len(),
        forall|j: int| i <= j < i + zeros_from(s, i) ==> #[trigger] s[j] == 0,
    decreases s.len() - i,
{
    if i < s.len() && s[i] == 0 {
        lemma_zeros_from(s, i + 1);
    }
}

proof fn lemma_longest_zeros(s: Seq<u16>, n: nat)
    ensures
        0 <= longest_zeros(s, n),
        longest_zeros(s, n) < n || longest_zeros(s, n) == 0,
    decreases n,
{
    if n > 0 {
        lemma_longest_zeros(s, (n - 1) as nat);
    }
}

/// An IPv4-mapped address reads back as itself.
proof fn lemma_mapped(s: Seq<u16>)
    requires
        s.len() == 8,
        s.take(6) == seq![0u16, 0, 0, 0, 0, 0xffff],
    ensures
        ip_of(ipv6_text(s)) == Some(IpView::V6(s)),
{
    let o = last_octets(s);
    let v4 = ipv4_text(o);
    let t = ipv6_text(s);
    let tail = "ffff:"@ + v4;
    lemma_ipv4(o);
    reveal_strlit("::ffff:");
    reveal_strlit("ffff:");
    reveal_strlit("ffff");
    assert(t == "::ffff:"@ + v4);
    // The text is no IPv4 address: what stands before its first dot is too long.
    lemma_decimal(o[0] as nat);
    lemma_decimal(o[1] as nat);
    lemma_decimal(o[2] as nat);
    lemma_decimal(o[3] as nat);
    let a = "::ffff:"@ + number_text(o[0] as nat, 10);
    let b = number_text(o[1] as nat, 10);
    let c = number_text(o[2] as nat, 10);
    let d = number_text(o[3] as nat, 10);
    assert forall|i: int| 0 <= i < a.len() implies #[trigger] a[i] != '.' by {
        if i >= 7 {
            let n = number_text(o[0] as nat, 10);
            assert(n.contains(n[i - 7]));
        }
    }
    lemma_split_one(a, '.');
    lemma_split_push(a, b, '.');
    lemma_split_push(a + seq!['.'] + b, c, '.');
    lemma_split_push(a + seq!['.'] + b + seq!['.'] + c, d, '.');
    assert(t =~= a + seq!['.'] + b + seq!['.'] + c + seq!['.'] + d);
    assert(split(t, '.')[0] == a);
    assert(octet_of(split(t, '.')[0]) is None);
    assert(ipv4_of(t) is None);
    // It is `::`, and after that one segment and an IPv4 address.
    assert(double(t, 0));
    lemma_gap(t, 0, 0);
    assert(t.take(0) =~= Seq::<char>::empty());
    assert(t.skip(2) =~= tail);
    assert("ffff"@ =~= number_text(0xffff, 16)) by {
        reveal_with_fuel(number_text, 5);
    }
    lemma_segment(0xffff);
    lemma_split_one("ffff"@, ':');
    lemma_split_push("ffff"@, v4, ':');
    assert(tail =~= "ffff"@ + seq![':'] + v4);
    let f = split(tail, ':');
    assert(f =~= seq!["ffff"@, v4]);
    assert(f.drop_last() =~= seq!["ffff"@]);
    assert(segments_of(f.drop_last())->0 =~= seq![0xffffu16]);
    assert(s[6] == (o[0] * 256 + o[1]) as u16);
    assert(s[7] == (o[2] * 256 + o[3]) as u16);
    assert(final_segments(tail)->0 =~= seq![0xffffu16, s[6], s[7]]);
    assert forall|i: int| 0 <= i < 6 implies #[trigger] s[i] == seq![0u16, 0, 0, 0, 0, 0xffff][i] by {
        assert(s.take(6)[i] == s[i]);
    }
    assert(ipv6_of(t)->0 =~= s);
}

/// An IPv6 address reads back as itself.
proof fn lemma_ipv6(s: Seq<u16>)
    requires
        s.len() == 8,
        s.take(6) != seq![0u16, 0, 0, 0, 0, 0xffff],
    ensures
        ip_of(ipv6_text(s)) == Some(IpView::V6(s)),
{
    let t = ipv6_text(s);
    let start = longest_zeros(s, 8);
    lemma_longest_zeros(s, 8);
    let n = zeros_from(s, start);
    lemma_zeros_from(s, start);
    if n > 1 {
        let x = s.take(start);
        let y = s.skip(start + n);
        let head = segments_text(x);
        let tail = segments_text(y);
        reveal_strlit("::");
        assert(t == head + "::"@ + tail);
        if x.len() > 0 {
            lemma_segments_text(x);
        }
        if y.len() > 0 {
            lemma_segments_text(y);
        }
        assert forall|i: int| 0 <= i < t.len() implies #[trigger] t[i] != '.' by {
            if i < head.len() {
                assert(head.contains(head[i]));
            } else if i >= head.len() + 2 {
                assert(tail.contains(tail[i - head.len() - 2]));
            }
        }
        lemma_no_dot(t);
        let p = head.len() as int;
        assert forall|i: int| 0 <= i < p && i + 1 < t.len() implies !#[trigger] double(t, i) by {
            if i + 1 < p {
                assert(!double(head, i));
            } else {
                assert(t[i] == head.last());
            }
        }
        assert(double(t, p));
        lemma_gap(t, 0, p);
        assert(t.take(p) =~= head);
        assert(t.skip(p + 2) =~= tail);
        lemma_segments(x);
        lemma_segments(y);
        let zeros = Seq::new((8 - x.len() - y.len()) as nat, |i: int| 0u16);
        assert(x + zeros + y =~= s);
    } else {
        lemma_segments_text(s);
        lemma_no_dot(t);
        lemma_gap(t, 0, t.len() as int);
        lemma_segments(s);
    }
}

/// An address written as text reads back as the same address.
pub proof fn address_reads_back(ip: IpView)
    requires
        ip matches IpView::V4(o) ==> o.len() == 4,
        ip matches IpView::V6(s) ==> s.len() == 8,
    ensures
        ip_of(ip_text(ip)) == Some(ip),
{
    match ip {
        IpView::V4(o) => lemma_ipv4(o),
        IpView::V6(s) => {
            if s.take(6) == seq![0u16, 0, 0, 0, 0, 0xffff] {
                lemma_mapped(s);
            } else {
                lemma_ipv6(s);
            }
        },
    }
}

/// The 32-bit number of an IPv4 address.
pub open spec fn ipv4_number(o: Seq<u8>) -> int {
    o[0] * 0x100_0000 + o[1] * 0x1_0000 + o[2] * 0x100 + o[3]
}

/// The forbidden IPv4 addresses, told by their numbers: 10.0.0.0/8, 172.16.0.0/12,
/// 192.168.0.0/16, 127.0.0.0/8, 169.254.0.0/16, 100.64.0.0/10, 224.0.0.0/4, 0.0.0.0
/// and 255.255.255.255, and no other. Those of 127.0.0.0/8 are the loopback addresses.
pub proof fn forbidden_ipv4_addresses_by_number(o: Seq<u8>)
    requires
        o.len() == 4,
    ensures
        is_forbidden(IpView::V4(o)) <==> {
            let n = ipv4_number(o);
            ||| 0x0a00_0000 <= n <= 0x0aff_ffff
            ||| 0xac10_0000 <= n <= 0xac1f_ffff
            ||| 0xc0a8_0000 <= n <= 0xc0a8_ffff
            ||| 0x7f00_0000 <= n <= 0x7fff_ffff
            ||| 0xa9fe_0000 <= n <= 0xa9fe_ffff
            ||| 0x6440_0000 <= n <= 0x647f_ffff
            ||| 0xe000_0000 <= n <= 0xefff_ffff
            ||| n == 0
            ||| n == 0xffff_ffff
        },
        is_loopback(IpView::V4(o)) <==> 0x7f00_0000 <= ipv4_number(o) <= 0x7fff_ffff,
{
    let zero = o =~= seq![0u8, 0, 0, 0];
    let ones = o =~= seq![255u8, 255, 255, 255];
    assert(zero <==> o[0] == 0 && o[1] == 0 && o[2] == 0 && o[3] == 0);
    assert(ones <==> o[0] == 255 && o[1] == 255 && o[2] == 255 && o[3] == 255);
    assert(zero <==> ipv4_number(o) == 0);
    assert(ones <==> ipv4_number(o) == 0xffff_ffff);
}

/// The forbidden IPv4 addresses, told by their octets.
pub proof fn forbidden_ipv4_addresses_by_octet(a: u8, b: u8, c: u8, d: u8)
    ensures
        is_forbidden(IpView::V4(seq![a, b, c, d])) <==> {
            ||| a == 10
            ||| a == 172 && b / 16 == 1
            ||| a == 192 && b == 168
            ||| a == 127
            ||| a == 169 && b == 254
            ||| a == 100 && b / 64 == 1
            ||| a / 16 == 14
            ||| a == 0 && b == 0 && c == 0 && d == 0
            ||| a == 255 && b == 255 && c == 255 && d == 255
        },
{
    let o = seq![a, b, c, d];
    assert(o[0] == a && o[1] == b && o[2] == c && o[3] == d);
    forbidden_ipv4_addresses_by_number(o);
    assert(ipv4_number(o) == a * 0x100_0000 + b * 0x1_0000 + c * 0x100 + d);
}

/// The forbidden IPv6 addresses, told by their segments: `::`, `::1`, fc00::/7,
/// fe80::/10 and ff00::/8, and no other. `::1` alone is a loopback address.
pub proof fn forbidden_ipv6_addresses_by_segment(s: Seq<u16>)
    requires
        s.len() == 8,
    ensures
        ({
            let leads_zero = s[0] == 0 && s[1] == 0 && s[2] == 0 && s[3] == 0 && s[4] == 0 && s[5]
                == 0 && s[6] == 0;
            &&& is_forbidden(IpView::V6(s)) <==> {
                ||| leads_zero && s[7] <= 1
                ||| s[0] / 0x200 == 0x7e
                ||| s[0] / 0x40 == 0x3fa
                ||| s[0] / 0x100 == 0xff
            }
            &&& is_loopback(IpView::V6(s)) <==> leads_zero && s[7] == 1
        }),
{
    let none = s =~= seq![0u16, 0, 0, 0, 0, 0, 0, 0];
    let one = s =~= seq![0u16, 0, 0, 0, 0, 0, 0, 1];
    assert(none ==> s[7] == seq![0u16, 0, 0, 0, 0, 0, 0, 0][7]);
    assert(one ==> s[7] == seq![0u16, 0, 0, 0, 0, 0, 0, 1][7]);
}

/// A text is read as an IPv4 address if and only if it is the four octets in decimal,
/// none with a leading zero, with a dot between each two; and that is how the address
/// is written.
pub proof fn ipv4_addresses_have_one_spelling(t: Seq<char>, o: Seq<u8>)
    requires
        o.len() == 4,
    ensures
        ip_of(t) == Some(IpView::V4(o)) <==> t == joined_by(
            seq![
                number_text(o[0] as nat, 10),
                number_text(o[1] as nat, 10),
                number_text(o[2] as nat, 10),
                number_text(o[3] as nat, 10),
            ],
            '.',
        ),
        ip_text(IpView::V4(o)) == joined_by(
            seq![
                number_text(o[0] as nat, 10),
                number_text(o[1] as nat, 10),
                number_text(o[2] as nat, 10),
                number_text(o[3] as nat, 10),
            ],
            '.',
        ),
{
    let f = seq![
        number_text(o[0] as nat, 10),
        number_text(o[1] as nat, 10),
        number_text(o[2] as nat, 10),
        number_text(o[3] as nat, 10),
    ];
    lemma_ipv4(o);
    lemma_four(f, '.');
    assert(ipv4_text(o) == joined_by(f, '.'));
    if ip_of(t) == Some(IpView::V4(o)) {
        lemma_ipv4_spelling(t, o);
    }
}

/// Four fields with a separator between each two.
proof fn lemma_four(f: Seq<Seq<char>>, sep: char)
    requires
        f.len() == 4,
    ensures
        joined_by(f, sep) == f[0] + seq![sep] + f[1] + seq![sep] + f[2] + seq![sep] + f[3],
{
    reveal_with_fuel(joined_by, 5);
    assert(f.drop_last().drop_last().drop_last() =~= seq![f[0]]);
    assert(f.drop_last().drop_last().last() == f[1]);
    assert(f.drop_last().last() == f[2]);
}

/// What is read as an octet is its decimal form.
proof fn lemma_octet(t: Seq<char>)
    requires
        octet_of(t) is Some,
    ensures
        t == number_text(octet_of(t)->0 as nat, 10),
{
    assert forall|i: int| 0 <= i < t.len() implies '0' <= (#[trigger] t[i]) <= '9' by {
        assert(digit_value(t[i]) < 10);
    }
    decimal_forms_are_unique(t);
}

/// What is read as an IPv4 address is how the address is written.
proof fn lemma_ipv4_spelling(t: Seq<char>, o: Seq<u8>)
    requires
        ipv4_of(t) == Some(o),
    ensures
        o.len() == 4,
        t == ipv4_text(o),
{
    let f = split(t, '.');
    split_fields_join_again(t, '.');
    lemma_four(f, '.');
    assert forall|i: int| 0 <= i < 4 implies #[trigger] f[i] == number_text(o[i] as nat, 10) by {
        assert(octet_of(f[i]) is Some);
        lemma_octet(f[i]);
    }
    assert(f[0] == number_text(o[0] as nat, 10));
    assert(f[1] == number_text(o[1] as nat, 10));
    assert(f[2] == number_text(o[2] as nat, 10));
    assert(f[3] == number_text(o[3] as nat, 10));
}

/// Whether fields spell segments: one to four hexadecimal digits in either case for
/// each.
pub open spec fn spells(f: Seq<Seq<char>>, x: Seq<u16>) -> bool {
    &&& f.len() == x.len()
    &&& forall|i: int| #![trigger f[i]] #![trigger x[i]]
        0 <= i < f.len() ==> 1 <= f[i].len() <= 4 && x[i] == number_value(f[i], 16)
    &&& forall|i: int, j: int|
        0 <= i < f.len() && 0 <= j < f[i].len() ==> {
            let c = #[trigger] f[i][j];
            ||| '0' <= c <= '9'
            ||| 'a' <= c <= 'f'
            ||| 'A' <= c <= 'F'
        }
}

/// The fields at the end of an IPv6 address, the last of which may be an IPv4 address.
pub open spec fn ending(f: Seq<Seq<char>>, v4: Option<Seq<u8>>) -> Seq<Seq<char>> {
    match v4 {
        Some(o) => f.push(ip_text(IpView::V4(o))),
        None => f,
    }
}

/// The segments at the end of an IPv6 address, where an IPv4 address stands for two.
pub open spec fn ending_segments(x: Seq<u16>, v4: Option<Seq<u8>>) -> Seq<u16> {
    match v4 {
        Some(o) => x + seq![(o[0] * 256 + o[1]) as u16, (o[2] * 256 + o[3]) as u16],
        None => x,
    }
}

/// Whether `t` spells the eight segments in full: fields between colons, the last of
/// which may be an IPv4 address for the last two.
pub open spec fn spells_in_full(
    t: Seq<char>,
    s: Seq<u16>,
    l: Seq<Seq<char>>,
    y: Seq<u16>,
    v4: Option<Seq<u8>>,
) -> bool {
    &&& spells(l, y)
    &&& v4 matches Some(o) ==> o.len() == 4
    &&& t == joined_by(ending(l, v4), ':')
    &&& s == ending_segments(y, v4)
    &&& s.len() == 8
}

/// Whether `t` spells the eight segments with `::` for one or more zeros.
pub open spec fn spells_with_gap(
    t: Seq<char>,
    s: Seq<u16>,
    h: Seq<Seq<char>>,
    x: Seq<u16>,
    l: Seq<Seq<char>>,
    y: Seq<u16>,
    v4: Option<Seq<u8>>,
) -> bool {
    &&& spells(h, x)
    &&& spells(l, y)
    &&& v4 matches Some(o) ==> o.len() == 4
    &&& t == joined_by(h, ':') + "::"@ + joined_by(ending(l, v4), ':')
    &&& s.len() == 8
    &&& x.len() + ending_segments(y, v4).len() < 8
    &&& s.take(x.len() as int) == x
    &&& s.skip(8 - ending_segments(y, v4).len()) == ending_segments(y, v4)
    &&& forall|i: int|
        x.len() <= i < 8 - ending_segments(y, v4).len() ==> #[trigger] s[i] == 0
}

/// Fields that spell segments are read as these.
proof fn lemma_spells(f: Seq<Seq<char>>, x: Seq<u16>)
    requires
        spells(f, x),
    ensures
        segments_of(f) == Some(x),
        forall|i: int| 0 <= i < f.len() ==> #[trigger] f[i].len() > 0,
        forall|i: int| 0 <= i < f.len() ==> !(#[trigger] f[i]).contains(':'),
        forall|i: int| 0 <= i < f.len() ==> !(#[trigger] f[i]).contains('.'),
{
    assert forall|i: int| 0 <= i < f.len() implies segment_of(#[trigger] f[i]) == Some(x[i]) && f[
        i
    ].len() > 0 && !f[i].contains(':') && !f[i].contains('.') by {
        let g = f[i];
        assert forall|j: int| 0 <= j < g.len() implies digit_value(#[trigger] g[j]) < 16 && g[j]
            != ':' && g[j] != '.' by {
            let c = f[i][j];
        }
    }
    assert(segments_of(f)->0 =~= x);
}

/// What is read as segments is spelled so.
proof fn lemma_spelled(f: Seq<Seq<char>>, x: Seq<u16>)
    requires
        segments_of(f) == Some(x),
    ensures
        spells(f, x),
{
    assert forall|i: int| 0 <= i < f.len() implies 1 <= (#[trigger] f[i]).len() <= 4 && x[i]
        == number_value(f[i], 16) by {
        assert(segment_of(f[i]) is Some);
        lemma_four_digits(f[i]);
    }
    assert forall|i: int, j: int| 0 <= i < f.len() && 0 <= j < f[i].len() implies ({
        let c = #[trigger] f[i][j];
        ||| '0' <= c <= '9'
        ||| 'a' <= c <= 'f'
        ||| 'A' <= c <= 'F'
    }) by {
        assert(segment_of(f[i]) is Some);
        assert(digit_value(f[i][j]) < 16);
    }
}

/// Four hexadecimal digits make a number of 16 bits.
proof fn lemma_four_digits(t: Seq<char>)
    requires
        t.len() <= 4,
        all_digits(t, 16),
    ensures
        number_value(t, 16) <= 0xffff,
{
    reveal_with_fuel(number_value, 5);
    assert(t.len() > 0 ==> digit_value(t[t.len() - 1]) < 16);
    assert(t.len() > 1 ==> digit_value(t[t.len() - 2]) < 16);
    assert(t.len() > 2 ==> digit_value(t[t.len() - 3]) < 16);
    assert(t.len() > 3 ==> digit_value(t[t.len() - 4]) < 16);
}

/// Fields between colons, none of which is empty or holds a colon: where the colons
/// stand.
proof fn lemma_joined(f: Seq<Seq<char>>)
    requires
        f.len() > 0,
        forall|i: int| 0 <= i < f.len() ==> #[trigger] f[i].len() > 0,
        forall|i: int| 0 <= i < f.len() ==> !(#[trigger] f[i]).contains(':'),
    ensures
        ({
            let t = joined_by(f, ':');
            &&& t.len() > 0
            &&& t.first() != ':'
            &&& t.last() != ':'
            &&& f.len() > 1 ==> t.contains(':')
            &&& forall|i: int| 0 <= i && i + 1 < t.len() ==> !#[trigger] double(t, i)
        }),
    decreases f.len(),
{
    let t = joined_by(f, ':');
    let g = f.last();
    assert(g == f[f.len() - 1]);
    assert forall|i: int| 0 <= i < g.len() implies #[trigger] g[i] != ':' by {
        assert(g.contains(g[i]));
    }
    if f.len() > 1 {
        let front = f.drop_last();
        assert forall|i: int| 0 <= i < front.len() implies (#[trigger] front[i]).len() > 0
            && !front[i].contains(':') by {
            assert(front[i] == f[i]);
        }
        lemma_joined(front);
        let u = joined_by(front, ':');
        assert(t == u + seq![':'] + g);
        assert(t[u.len() as int] == ':');
        assert forall|i: int| 0 <= i && i + 1 < t.len() implies !#[trigger] double(t, i) by {
            if i + 1 < u.len() {
                assert(!double(u, i));
            }
        }
    } else {
        assert(t == g);
    }
}

/// A text with a colon is no IPv4 address.
proof fn lemma_colon(t: Seq<char>)
    requires
        t.contains(':'),
    ensures
        ipv4_of(t) is None,
{
    if let Some(o) = ipv4_of(t) {
        lemma_ipv4_spelling(t, o);
        lemma_ipv4(o);
    }
}

/// The end of an IPv6 address is read as it is spelled.
proof fn lemma_ending(l: Seq<Seq<char>>, y: Seq<u16>, v4: Option<Seq<u8>>)
    requires
        spells(l, y),
        v4 matches Some(o) ==> o.len() == 4,
    ensures
        final_segments(joined_by(ending(l, v4), ':')) == Some(ending_segments(y, v4)),
        forall|i: int| 0 <= i < ending(l, v4).len() ==> #[trigger] ending(l, v4)[i].len() > 0,
        forall|i: int| 0 <= i < ending(l, v4).len() ==> !(#[trigger] ending(l, v4)[i]).contains(':'),
{
    let f = ending(l, v4);
    let t = joined_by(f, ':');
    lemma_spells(l, y);
    if let Some(o) = v4 {
        lemma_ipv4(o);
        assert forall|i: int| 0 <= i < f.len() implies (#[trigger] f[i]).len() > 0
            && !f[i].contains(':') by {
            if i < l.len() {
                assert(f[i] == l[i]);
            }
        }
        lemma_joined(f);
        joined_fields_split_again(f, ':');
        assert(f.drop_last() =~= l);
        assert(f.last() == ipv4_text(o));
        assert(final_segments(t)->0 =~= ending_segments(y, v4));
    } else if l.len() > 0 {
        lemma_joined(f);
        joined_fields_split_again(f, ':');
        assert(f.last() == l[l.len() - 1]);
        lemma_no_dot(f.last());
    } else {
        assert(y =~= Seq::<u16>::empty());
    }
}

/// Every spelling of eight segments in full is read as these.
pub proof fn ipv6_addresses_in_full_are_read(
    t: Seq<char>,
    s: Seq<u16>,
    l: Seq<Seq<char>>,
    y: Seq<u16>,
    v4: Option<Seq<u8>>,
)
    requires
        spells_in_full(t, s, l, y, v4),
    ensures
        ip_of(t) == Some(IpView::V6(s)),
{
    lemma_ending(l, y, v4);
    let f = ending(l, v4);
    assert(f.len() > 1);
    lemma_joined(f);
    lemma_colon(t);
    lemma_gap(t, 0, t.len() as int);
}

/// Every spelling of eight segments with `::` for one or more zeros is read as these.
pub proof fn ipv6_addresses_with_a_gap_are_read(
    t: Seq<char>,
    s: Seq<u16>,
    h: Seq<Seq<char>>,
    x: Seq<u16>,
    l: Seq<Seq<char>>,
    y: Seq<u16>,
    v4: Option<Seq<u8>>,
)
    requires
        spells_with_gap(t, s, h, x, l, y, v4),
    ensures
        ip_of(t) == Some(IpView::V6(s)),
{
    reveal_strlit("::");
    lemma_ending(l, y, v4);
    lemma_spells(h, x);
    let head = joined_by(h, ':');
    let tail = joined_by(ending(l, v4), ':');
    let z = ending_segments(y, v4);
    let p = head.len() as int;
    if h.len() > 0 {
        lemma_joined(h);
        joined_fields_split_again(h, ':');
    } else {
        assert(x =~= Seq::<u16>::empty());
    }
    assert(plain_segments(head) == Some(x));
    assert(t[p] == ':' && t[p + 1] == ':');
    lemma_colon(t);
    assert forall|i: int| 0 <= i < p && i + 1 < t.len() implies !#[trigger] double(t, i) by {
        if i + 1 < p {
            assert(!double(head, i));
        } else {
            assert(t[i] == head.last());
        }
    }
    assert(double(t, p));
    lemma_gap(t, 0, p);
    assert(t.take(p) =~= head);
    assert(t.skip(p + 2) =~= tail);
    let zeros = Seq::new((8 - x.len() - z.len()) as nat, |i: int| 0u16);
    assert forall|i: int| 0 <= i < 8 implies #[trigger] s[i] == (x + zeros + z)[i] by {
        if i < x.len() {
            assert(s.take(x.len() as int)[i] == s[i]);
        } else if i >= 8 - z.len() {
            assert(s.skip(8 - z.len())[i - (8 - z.len())] == s[i]);
        }
    }
    assert(x + zeros + z =~= s);
}

/// Two colons stand where the first of them is found, if any is.
proof fn lemma_gap_found(t: Seq<char>, q: int)
    requires
        0 <= q,
    ensures
        gap_from(t, q) >= t.len() || (0 <= gap_from(t, q) && gap_from(t, q) + 1 < t.len() && double(
            t,
            gap_from(t, q),
        )),
    decreases t.len() - q,
{
    if q + 1 < t.len() && !(t[q] == ':' && t[q + 1] == ':') {
        lemma_gap_found(t, q + 1);
    }
}

/// The end of an IPv6 address, as it was read.
proof fn lemma_ending_found(t: Seq<char>, z: Seq<u16>) -> (r: (
    Seq<Seq<char>>,
    Seq<u16>,
    Option<Seq<u8>>,
))
    requires
        final_segments(t) == Some(z),
    ensures
        spells(r.0, r.1),
        r.2 matches Some(o) ==> o.len() == 4,
        t == joined_by(ending(r.0, r.2), ':'),
        z == ending_segments(r.1, r.2),
{
    if t.len() == 0 {
        let none = Seq::<Seq<char>>::empty();
        assert(joined_by(none, ':') =~= t);
        (none, Seq::<u16>::empty(), None)
    } else {
        let f = split(t, ':');
        split_fields_join_again(t, ':');
        match ipv4_of(f.last()) {
            Some(o) => {
                let lead = segments_of(f.drop_last())->0;
                lemma_ipv4_spelling(f.last(), o);
                lemma_spelled(f.drop_last(), lead);
                assert(f.drop_last().push(f.last()) =~= f);
                assert(z =~= ending_segments(lead, Some(o)));
                (f.drop_last(), lead, Some(o))
            },
            None => {
                lemma_spelled(f, z);
                (f, z, None)
            },
        }
    }
}

/// Nothing else is read as an IPv6 address: what is read as one is a spelling of its
/// segments, in full or with `::` for one or more zeros.
pub proof fn only_spellings_are_read_as_ipv6_addresses(t: Seq<char>, s: Seq<u16>)
    requires
        ip_of(t) == Some(IpView::V6(s)),
    ensures
        ({
            ||| exists|l: Seq<Seq<char>>, y: Seq<u16>, v4: Option<Seq<u8>>|
                spells_in_full(t, s, l, y, v4)
            ||| exists|
                h: Seq<Seq<char>>,
                x: Seq<u16>,
                l: Seq<Seq<char>>,
                y: Seq<u16>,
                v4: Option<Seq<u8>>,
            |
                spells_with_gap(t, s, h, x, l, y, v4)
        }),
{
    let p = gap_from(t, 0);
    lemma_gap_found(t, 0);
    if p >= t.len() {
        let (l, y, v4) = lemma_ending_found(t, s);
        assert(spells_in_full(t, s, l, y, v4));
    } else {
        reveal_strlit("::");
        let head = t.take(p);
        let tail = t.skip(p + 2);
        let x = plain_segments(head)->0;
        let z = final_segments(tail)->0;
        let (l, y, v4) = lemma_ending_found(tail, z);
        assert(t =~= head + "::"@ + tail);
        let h = if head.len() == 0 {
            Seq::<Seq<char>>::empty()
        } else {
            split(head, ':')
        };
        if head.len() == 0 {
            assert(joined_by(h, ':') =~= head);
            assert(spells(h, x));
        } else {
            split_fields_join_again(head, ':');
            lemma_spelled(h, x);
        }
        assert(s.take(x.len() as int) =~= x);
        assert(s.skip(8 - z.len()) =~= z);
        assert(spells_with_gap(t, s, h, x, l, y, v4));
    }
}

/// Whether the segments from `i` to before `j` are all zero.
pub open spec fn all_zero(s: Seq<u16>, i: int, j: int) -> bool {
    forall|k: int| i <= k < j ==> #[trigger] s[k] == 0
}

/// Segments in hexadecimal, one text each.
pub open spec fn hex_fields(s: Seq<u16>) -> Seq<Seq<char>> {
    Seq::new(s.len(), |i: int| number_text(s[i] as nat, 16))
}

proof fn lemma_hex_fields(s: Seq<u16>)
    ensures
        segments_text(s) == joined_by(hex_fields(s), ':'),
    decreases s.len(),
{
    if s.len() > 1 {
        lemma_hex_fields(s.drop_last());
        assert(hex_fields(s).drop_last() =~= hex_fields(s.drop_last()));
    }
}

/// A row of zeros reaches to the first segment that is not zero.
proof fn lemma_zeros_reach(s: Seq<u16>, i: int, j: int)
    requires
        0 <= i <= j <= s.len(),
        all_zero(s, i, j),
    ensures
        zeros_from(s, i) >= j - i,
    decreases j - i,
{
    if i < j {
        assert(s[i] == 0);
        lemma_zeros_reach(s, i + 1, j);
    }
}

/// The longest row of zeros is at least as long as any, and longer than any before it.
proof fn lemma_longest(s: Seq<u16>, n: nat)
    ensures
        ({
            let best = longest_zeros(s, n);
            &&& forall|i: int| 0 <= i < n ==> #[trigger] zeros_from(s, i) <= zeros_from(s, best)
            &&& forall|i: int| 0 <= i < best ==> #[trigger] zeros_from(s, i) < zeros_from(s, best)
        }),
    decreases n,
{
    if n > 0 {
        lemma_longest(s, (n - 1) as nat);
        lemma_longest_zeros(s, (n - 1) as nat);
    }
}

/// An IPv4-mapped address is written as `::ffff:` and the IPv4 address.
pub proof fn mapped_addresses_end_in_dotted_decimal(s: Seq<u16>, o: Seq<u8>)
    requires
        s.len() == 8,
        o.len() == 4,
        s[0] == 0 && s[1] == 0 && s[2] == 0 && s[3] == 0 && s[4] == 0 && s[5] == 0xffff,
        s[6] == o[0] * 256 + o[1],
        s[7] == o[2] * 256 + o[3],
    ensures
        ip_text(IpView::V6(s)) == "::ffff:"@ + ip_text(IpView::V4(o)),
{
    assert(s.take(6) =~= seq![0u16, 0, 0, 0, 0, 0xffff]);
    assert(last_octets(s) =~= o);
}

/// Any other IPv6 address is written with `::` for the first of its longest rows of
/// zeros, where one has two or more: no row is longer, and none before it as long.
pub proof fn the_first_longest_row_of_zeros_is_left_out(s: Seq<u16>, i: int, j: int)
    requires
        s.len() == 8,
        !(s[0] == 0 && s[1] == 0 && s[2] == 0 && s[3] == 0 && s[4] == 0 && s[5] == 0xffff),
        0 <= i,
        i + 2 <= j <= 8,
        all_zero(s, i, j),
        forall|a: int, b: int|
            0 <= a <= b <= 8 && #[trigger] all_zero(s, a, b) ==> b - a <= j - i && (a < i ==> b - a
                < j - i),
    ensures
        ip_text(IpView::V6(s)) == joined_by(hex_fields(s.take(i)), ':') + "::"@ + joined_by(
            hex_fields(s.skip(j)),
            ':',
        ),
{
    if s.take(6) == seq![0u16, 0, 0, 0, 0, 0xffff] {
        lemma_six(s);
    }
    let start = longest_zeros(s, 8);
    let n = zeros_from(s, start);
    lemma_longest(s, 8);
    lemma_longest_zeros(s, 8);
    lemma_zeros_from(s, start);
    lemma_zeros_reach(s, i, j);
    assert(zeros_from(s, i) <= n);
    assert(all_zero(s, start, start + n));
    assert(n <= j - i);
    assert(start == i) by {
        lemma_zeros_from(s, i);
    }
    lemma_hex_fields(s.take(i));
    lemma_hex_fields(s.skip(j));
}

proof fn lemma_six(s: Seq<u16>)
    requires
        s.len() == 8,
        s.take(6) == seq![0u16, 0, 0, 0, 0, 0xffff],
    ensures
        s[0] == 0 && s[1] == 0 && s[2] == 0 && s[3] == 0 && s[4] == 0 && s[5] == 0xffff,
{
    let t = seq![0u16, 0, 0, 0, 0, 0xffff];
    assert(s[0] == t[0] && s[1] == t[1] && s[2] == t[2] && s[3] == t[3] && s[4] == t[4] && s[5]
        == t[5]) by {
        let u = s.take(6);
        assert(s[0] == u[0] && s[1] == u[1] && s[2] == u[2] && s[3] == u[3] && s[4] == u[4] && s[5]
            == u[5]);
    }
}

/// An IPv6 address without two zeros in a row is written in full.
pub proof fn single_zeros_are_written(s: Seq<u16>)
    requires
        s.len() == 8,
        forall|a: int, b: int| 0 <= a <= b <= 8 && #[trigger] all_zero(s, a, b) ==> b - a < 2,
    ensures
        ip_text(IpView::V6(s)) == joined_by(hex_fields(s), ':'),
{
    if s.take(6) == seq![0u16, 0, 0, 0, 0, 0xffff] {
        lemma_six(s);
        assert(all_zero(s, 0, 2));
    }
    let start = longest_zeros(s, 8);
    lemma_longest_zeros(s, 8);
    lemma_zeros_from(s, start);
    assert(all_zero(s, start, start + zeros_from(s, start)));
    lemma_hex_fields(s);
}

} // verus!
