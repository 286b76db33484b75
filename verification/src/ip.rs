//! IP addresses: reading them from text, writing them, and telling which of them
//! no mirror may have. Addresses are plain octets and segments; their text forms
//! are those of the standard library's address types.
use vstd::prelude::*;
use vstd::slice::slice_subrange;
use crate::text::{
    all_digits, chars_of, digit_of, digit_value, number_chars, number_text, number_value, split,
    split_fields, string_of, texts,
};

verus! {

/// An IP address: the four octets or the eight segments, most significant first.
#[derive(Clone, Copy, Debug, PartialEq, Eq)]
pub enum IpAddress {
    V4([u8; 4]),
    V6([u16; 8]),
}

/// An IP address as a sequence of octets or of segments.
#[verifier::ext_equal]
pub enum IpView {
    V4(Seq<u8>),
    V6(Seq<u16>),
}

impl View for IpAddress {
    type V = IpView;

    open spec fn view(&self) -> IpView {
        match *self {
            IpAddress::V4(octets) => IpView::V4(octets@),
            IpAddress::V6(segments) => IpView::V6(segments@),
        }
    }
}

/// 127.0.0.0/8 and ::1.
pub open spec fn is_loopback(ip: IpView) -> bool {
    match ip {
        IpView::V4(o) => o[0] == 127,
        IpView::V6(s) => s == seq![0u16, 0, 0, 0, 0, 0, 0, 1],
    }
}

/// 10.0.0.0/8, 172.16.0.0/12 and 192.168.0.0/16 (RFC 1918).
pub open spec fn is_private(ip: IpView) -> bool {
    match ip {
        IpView::V4(o) => {
            ||| o[0] == 10
            ||| o[0] == 172 && 16 <= o[1] <= 31
            ||| o[0] == 192 && o[1] == 168
        },
        IpView::V6(_) => false,
    }
}

/// 169.254.0.0/16 and fe80::/10.
pub open spec fn is_link_local(ip: IpView) -> bool {
    match ip {
        IpView::V4(o) => o[0] == 169 && o[1] == 254,
        IpView::V6(s) => 0xfe80 <= s[0] <= 0xfebf,
    }
}

/// 0.0.0.0 and ::.
pub open spec fn is_unspecified(ip: IpView) -> bool {
    match ip {
        IpView::V4(o) => o == seq![0u8, 0, 0, 0],
        IpView::V6(s) => s == seq![0u16, 0, 0, 0, 0, 0, 0, 0],
    }
}

/// 224.0.0.0/4 and ff00::/8.
pub open spec fn is_multicast(ip: IpView) -> bool {
    match ip {
        IpView::V4(o) => 224 <= o[0] <= 239,
        IpView::V6(s) => 0xff00 <= s[0],
    }
}

/// 255.255.255.255.
pub open spec fn is_broadcast(ip: IpView) -> bool {
    match ip {
        IpView::V4(o) => o == seq![255u8, 255, 255, 255],
        IpView::V6(_) => false,
    }
}

/// 100.64.0.0/10, the shared address space of carrier-grade NAT.
pub open spec fn is_shared(ip: IpView) -> bool {
    match ip {
        IpView::V4(o) => o[0] == 100 && 64 <= o[1] <= 127,
        IpView::V6(_) => false,
    }
}

/// fc00::/7.
pub open spec fn is_unique_local(ip: IpView) -> bool {
    match ip {
        IpView::V4(_) => false,
        IpView::V6(s) => 0xfc00 <= s[0] <= 0xfdff,
    }
}

/// The addresses that no mirror may have.
pub open spec fn is_forbidden(ip: IpView) -> bool {
    ||| is_loopback(ip)
    ||| is_private(ip)
    ||| is_link_local(ip)
    ||| is_broadcast(ip)
    ||| is_unspecified(ip)
    ||| is_multicast(ip)
    ||| is_shared(ip)
    ||| is_unique_local(ip)
}

impl IpAddress {
    /// Whether this is a loopback address.
    pub fn is_loopback(&self) -> (r: bool)
        ensures
            r == is_loopback(self@),
    {
        match *self {
            IpAddress::V4(o) => o[0] == 127,
            IpAddress::V6(s) => {
                let r = s[0] == 0 && s[1] == 0 && s[2] == 0 && s[3] == 0 && s[4] == 0 && s[5] == 0
                    && s[6] == 0 && s[7] == 1;
                assert(r ==> s@ =~= seq![0u16, 0, 0, 0, 0, 0, 0, 1]);
                r
            },
        }
    }
}

/// Whether an address is one that no mirror may have.
pub fn ip_is_forbidden(ip: &IpAddress) -> (r: bool)
    ensures
        r == is_forbidden(ip@),
{
    if ip.is_loopback() {
        return true;
    }
    match *ip {
        IpAddress::V4(o) => {
            let b = o[1];
            assert((b & 0xf0 == 16) == (16 <= b <= 31)) by (bit_vector);
            assert((b & 0xc0 == 0x40) == (64 <= b <= 127)) by (bit_vector);
            let unspecified = o[0] == 0 && o[1] == 0 && o[2] == 0 && o[3] == 0;
            assert(unspecified == (o@ =~= seq![0u8, 0, 0, 0]));
            let broadcast = o[0] == 255 && o[1] == 255 && o[2] == 255 && o[3] == 255;
            assert(broadcast == (o@ =~= seq![255u8, 255, 255, 255]));
            o[0] == 10 || (o[0] == 172 && (b & 0xf0) == 16) || (o[0] == 192 && b == 168) || (o[0]
                == 169 && b == 254) || broadcast || unspecified || (224 <= o[0] && o[0] <= 239) || (
            o[0] == 100 && (b & 0xc0) == 0x40)
        },
        IpAddress::V6(s) => {
            let a = s[0];
            assert((a & 0xff00 == 0xff00) == (0xff00 <= a)) by (bit_vector);
            assert((a & 0xfe00 == 0xfc00) == (0xfc00 <= a <= 0xfdff)) by (bit_vector);
            assert((a & 0xffc0 == 0xfe80) == (0xfe80 <= a <= 0xfebf)) by (bit_vector);
            let unspecified = s[0] == 0 && s[1] == 0 && s[2] == 0 && s[3] == 0 && s[4] == 0 && s[5]
                == 0 && s[6] == 0 && s[7] == 0;
            assert(unspecified == (s@ =~= seq![0u16, 0, 0, 0, 0, 0, 0, 0]));
            unspecified || (a & 0xff00) == 0xff00 || (a & 0xfe00) == 0xfc00 || (a & 0xffc0)
                == 0xfe80
        },
    }
}

/// One octet: up to three decimal digits without a leading zero, at most 255.
pub open spec fn octet_of(t: Seq<char>) -> Option<u8> {
    if 1 <= t.len() <= 3 && all_digits(t, 10) && (t.len() == 1 || t[0] != '0') && number_value(
        t,
        10,
    ) <= 255 {
        Some(number_value(t, 10) as u8)
    } else {
        None
    }
}

/// An IPv4 address in dotted decimal: four octets between dots.
pub open spec fn ipv4_of(t: Seq<char>) -> Option<Seq<u8>> {
    let f = split(t, '.');
    if f.len() == 4 && (forall|i: int| 0 <= i < 4 ==> octet_of(#[trigger] f[i]) is Some) {
        Some(Seq::new(4, |i: int| octet_of(f[i])->0))
    } else {
        None
    }
}

/// One segment: up to four hexadecimal digits.
pub open spec fn segment_of(t: Seq<char>) -> Option<u16> {
    if 1 <= t.len() <= 4 && all_digits(t, 16) {
        Some(number_value(t, 16) as u16)
    } else {
        None
    }
}

/// The segments that a sequence of fields spells, one each.
pub open spec fn segments_of(f: Seq<Seq<char>>) -> Option<Seq<u16>> {
    if forall|i: int| 0 <= i < f.len() ==> segment_of(#[trigger] f[i]) is Some {
        Some(Seq::new(f.len(), |i: int| segment_of(f[i])->0))
    } else {
        None
    }
}

/// Segments between colons; no text is no segments.
pub open spec fn plain_segments(t: Seq<char>) -> Option<Seq<u16>> {
    if t.len() == 0 {
        Some(Seq::<u16>::empty())
    } else {
        segments_of(split(t, ':'))
    }
}

/// Segments between colons, where an IPv4 address may stand for the last two.
pub open spec fn final_segments(t: Seq<char>) -> Option<Seq<u16>> {
    if t.len() == 0 {
        Some(Seq::<u16>::empty())
    } else {
        let f = split(t, ':');
        match ipv4_of(f.last()) {
            Some(o) => match segments_of(f.drop_last()) {
                Some(lead) => Some(
                    lead.push((o[0] * 256 + o[1]) as u16).push((o[2] * 256 + o[3]) as u16),
                ),
                None => None,
            },
            None => segments_of(f),
        }
    }
}

/// The first position from `p` on at which two colons stand, or the length of
/// the text.
pub open spec fn gap_from(t: Seq<char>, p: int) -> int
    decreases t.len() - p,
{
    if p + 1 >= t.len() {
        t.len() as int
    } else if t[p] == ':' && t[p + 1] == ':' {
        p
    } else {
        gap_from(t, p + 1)
    }
}

/// An IPv6 address: eight segments, or fewer around one `::` that stands for the
/// zeros left out, of which there is at least one.
pub open spec fn ipv6_of(t: Seq<char>) -> Option<Seq<u16>> {
    let p = gap_from(t, 0);
    if p >= t.len() {
        match final_segments(t) {
            Some(g) => if g.len() == 8 {
                Some(g)
            } else {
                None
            },
            None => None,
        }
    } else {
        match (plain_segments(t.take(p)), final_segments(t.skip(p + 2))) {
            (Some(head), Some(tail)) => if head.len() + tail.len() <= 7 {
                Some(
                    head + Seq::new((8 - head.len() - tail.len()) as nat, |i: int| 0u16) + tail,
                )
            } else {
                None
            },
            _ => None,
        }
    }
}

/// The IP address that a text spells, if it spells one.
pub open spec fn ip_of(t: Seq<char>) -> Option<IpView> {
    match ipv4_of(t) {
        Some(o) => Some(IpView::V4(o)),
        None => match ipv6_of(t) {
            Some(s) => Some(IpView::V6(s)),
            None => None,
        },
    }
}

fn parse_octet(t: &[char]) -> (r: Option<u8>)
    ensures
        r == octet_of(t@),
{
    if t.len() == 0 || t.len() > 3 {
        return None;
    }
    if t.len() > 1 && t[0] == '0' {
        return None;
    }
    let mut v: u32 = 0;
    for i in 0..t.len()
        invariant
            t.len() <= 3,
            v == number_value(t@.take(i as int), 10),
            i == 0 ==> v == 0,
            i == 1 ==> v <= 9,
            i == 2 ==> v <= 99,
            i == 3 ==> v <= 999,
            forall|j: int| 0 <= j < i ==> digit_value(#[trigger] t@[j]) < 10,
    {
        let d = digit_of(t[i]);
        if d >= 10 {
            return None;
        }
        assert(t@.take(i + 1).drop_last() == t@.take(i as int));
        v = v * 10 + d;
    }
    assert(t@.take(t@.len() as int) == t@);
    if v <= 255 {
        Some(v as u8)
    } else {
        None
    }
}

fn parse_segment(t: &[char]) -> (r: Option<u16>)
    ensures
        r == segment_of(t@),
{
    if t.len() == 0 || t.len() > 4 {
        return None;
    }
    let mut v: u32 = 0;
    for i in 0..t.len()
        invariant
            t.len() <= 4,
            v == number_value(t@.take(i as int), 16),
            i == 0 ==> v == 0,
            i == 1 ==> v <= 0xf,
            i == 2 ==> v <= 0xff,
            i == 3 ==> v <= 0xfff,
            i == 4 ==> v <= 0xffff,
            forall|j: int| 0 <= j < i ==> digit_value(#[trigger] t@[j]) < 16,
    {
        let d = digit_of(t[i]);
        if d >= 16 {
            return None;
        }
        assert(t@.take(i + 1).drop_last() == t@.take(i as int));
        v = v * 16 + d;
    }
    assert(t@.take(t@.len() as int) == t@);
    Some(v as u16)
}

fn parse_ipv4(t: &[char]) -> (r: Option<[u8; 4]>)
    ensures
        match r {
            Some(o) => ipv4_of(t@) == Some(o@),
            None => ipv4_of(t@) is None,
        },
{
    let fields = split_fields(t, '.');
    let ghost f = split(t@, '.');
    if fields.len() != 4 {
        assert(f.len() != 4);
        return None;
    }
    assert(f[0] == fields@[0]@ && f[1] == fields@[1]@ && f[2] == fields@[2]@ && f[3]
        == fields@[3]@);
    match (
        parse_octet(&fields[0]),
        parse_octet(&fields[1]),
        parse_octet(&fields[2]),
        parse_octet(&fields[3]),
    ) {
        (Some(a), Some(b), Some(c), Some(d)) => {
            let o = [a, b, c, d];
            assert(ipv4_of(t@)->0 =~= o@);
            Some(o)
        },
        _ => None,
    }
}

/// Reads the first `n` fields as segments.
fn parse_segments(fields: &Vec<Vec<char>>, n: usize) -> (r: Option<Vec<u16>>)
    requires
        n <= fields.len(),
    ensures
        match r {
            Some(g) => segments_of(texts(fields@).take(n as int)) == Some(g@),
            None => segments_of(texts(fields@).take(n as int)) is None,
        },
{
    let ghost f = texts(fields@).take(n as int);
    let mut out: Vec<u16> = Vec::new();
    for i in 0..n
        invariant
            n <= fields.len(),
            f == texts(fields@).take(n as int),
            out.len() == i,
            forall|j: int| 0 <= j < i ==> segment_of(#[trigger] f[j]) == Some(out@[j]),
    {
        assert(f[i as int] == fields@[i as int]@);
        match parse_segment(&fields[i]) {
            Some(g) => out.push(g),
            None => return None,
        }
    }
    assert(segments_of(f)->0 =~= out@);
    Some(out)
}

fn parse_plain_segments(t: &[char]) -> (r: Option<Vec<u16>>)
    ensures
        match r {
            Some(g) => plain_segments(t@) == Some(g@),
            None => plain_segments(t@) is None,
        },
{
    if t.len() == 0 {
        let out: Vec<u16> = Vec::new();
        assert(out@ =~= Seq::<u16>::empty());
        return Some(out);
    }
    let fields = split_fields(t, ':');
    assert(texts(fields@).take(fields.len() as int) == split(t@, ':'));
    parse_segments(&fields, fields.len())
}

fn parse_final_segments(t: &[char]) -> (r: Option<Vec<u16>>)
    ensures
        match r {
            Some(g) => final_segments(t@) == Some(g@),
            None => final_segments(t@) is None,
        },
{
    if t.len() == 0 {
        let out: Vec<u16> = Vec::new();
        assert(out@ =~= Seq::<u16>::empty());
        return Some(out);
    }
    let fields = split_fields(t, ':');
    proof {
        crate::text::lemma_split_len(t@, ':');
    }
    let n = fields.len();
    assert(split(t@, ':').last() == fields@[n - 1]@);
    match parse_ipv4(&fields[n - 1]) {
        Some(o) => {
            assert(texts(fields@).take(n - 1) == split(t@, ':').drop_last());
            match parse_segments(&fields, n - 1) {
                Some(lead) => {
                    let mut out = lead;
                    out.push(o[0] as u16 * 256 + o[1] as u16);
                    out.push(o[2] as u16 * 256 + o[3] as u16);
                    Some(out)
                },
                None => None,
            }
        },
        None => {
            assert(texts(fields@).take(n as int) == split(t@, ':'));
            parse_segments(&fields, n)
        },
    }
}

fn find_gap(t: &[char]) -> (r: usize)
    ensures
        r == gap_from(t@, 0),
        r <= t.len(),
        r < t.len() ==> r + 2 <= t.len(),
{
    if t.len() == 0 {
        return 0;
    }
    let mut p: usize = 0;
    while p < t.len() - 1
        invariant
            p < t.len(),
            gap_from(t@, 0) == gap_from(t@, p as int),
        decreases t.len() - p,
    {
        if t[p] == ':' && t[p + 1] == ':' {
            return p;
        }
        p += 1;
    }
    t.len()
}

/// Puts eight segments into an array.
fn eight(g: &Vec<u16>) -> (r: [u16; 8])
    requires
        g.len() == 8,
    ensures
        r@ == g@,
{
    let r = [g[0], g[1], g[2], g[3], g[4], g[5], g[6], g[7]];
    assert(r@ =~= g@);
    r
}

fn parse_ipv6(t: &[char]) -> (r: Option<[u16; 8]>)
    ensures
        match r {
            Some(s) => ipv6_of(t@) == Some(s@),
            None => ipv6_of(t@) is None,
        },
{
    let p = find_gap(t);
    if p >= t.len() {
        match parse_final_segments(t) {
            Some(g) => if g.len() == 8 {
                Some(eight(&g))
            } else {
                None
            },
            None => None,
        }
    } else {
        assert(t@.take(p as int) == t@.subrange(0, p as int));
        assert(t@.skip(p + 2) == t@.subrange(p + 2, t@.len() as int));
        let head = parse_plain_segments(slice_subrange(t, 0, p));
        let tail = parse_final_segments(slice_subrange(t, p + 2, t.len()));
        match (head, tail) {
            (Some(head), Some(tail)) => {
                if head.len() > 7 || tail.len() > 7 - head.len() {
                    return None;
                }
                let mut out = head;
                let zeros = 8 - out.len() - tail.len();
                let ghost front = out@;
                for i in 0..zeros
                    invariant
                        out@ == front + Seq::new(i as nat, |k: int| 0u16),
                {
                    out.push(0);
                    assert(out@ =~= front + Seq::new((i + 1) as nat, |k: int| 0u16));
                }
                let ghost middle = out@;
                for i in 0..tail.len()
                    invariant
                        out@ == middle + tail@.take(i as int),
                {
                    out.push(tail[i]);
                    assert(out@ =~= middle + tail@.take(i + 1));
                }
                assert(tail@.take(tail@.len() as int) == tail@);
                Some(eight(&out))
            },
            _ => None,
        }
    }
}

/// Reads an IP address from text.
pub fn parse_ip(text: &str) -> (r: Option<IpAddress>)
    ensures
        match r {
            Some(ip) => ip_of(text@) == Some(ip@),
            None => ip_of(text@) is None,
        },
{
    let t = chars_of(text);
    match parse_ipv4(&t) {
        Some(o) => Some(IpAddress::V4(o)),
        None => match parse_ipv6(&t) {
            Some(s) => Some(IpAddress::V6(s)),
            None => None,
        },
    }
}

/// An IPv4 address in dotted decimal.
pub open spec fn ipv4_text(o: Seq<u8>) -> Seq<char> {
    number_text(o[0] as nat, 10) + seq!['.'] + number_text(o[1] as nat, 10) + seq!['.']
        + number_text(o[2] as nat, 10) + seq!['.'] + number_text(o[3] as nat, 10)
}

/// The number of zero segments in a row from position `i` on.
pub open spec fn zeros_from(s: Seq<u16>, i: int) -> nat
    decreases s.len() - i,
{
    if 0 <= i < s.len() && s[i] == 0 {
        1 + zeros_from(s, i + 1)
    } else {
        0
    }
}

/// Of the positions before `n`, the first from which the most zeros follow.
pub open spec fn longest_zeros(s: Seq<u16>, n: nat) -> int
    decreases n,
{
    if n == 0 {
        0
    } else {
        let best = longest_zeros(s, (n - 1) as nat);
        if zeros_from(s, n - 1) > zeros_from(s, best) {
            n - 1
        } else {
            best
        }
    }
}

/// Segments in hexadecimal, with colons between them.
pub open spec fn segments_text(s: Seq<u16>) -> Seq<char>
    decreases s.len(),
{
    if s.len() == 0 {
        Seq::<char>::empty()
    } else if s.len() == 1 {
        number_text(s[0] as nat, 16)
    } else {
        segments_text(s.drop_last()) + seq![':'] + number_text(s.last() as nat, 16)
    }
}

/// The IPv4 address that ends an IPv6 address.
pub open spec fn last_octets(s: Seq<u16>) -> Seq<u8> {
    seq![(s[6] / 256) as u8, (s[6] % 256) as u8, (s[7] / 256) as u8, (s[7] % 256) as u8]
}

/// An IPv6 address in the style of RFC 5952: an IPv4-mapped address ends in
/// dotted decimal; elsewhere `::` stands for the first of the longest rows of at
/// least two zeros.
pub open spec fn ipv6_text(s: Seq<u16>) -> Seq<char> {
    if s.take(6) == seq![0u16, 0, 0, 0, 0, 0xffff] {
        "::ffff:"@ + ipv4_text(last_octets(s))
    } else {
        let start = longest_zeros(s, 8);
        let n = zeros_from(s, start);
        if n > 1 {
            segments_text(s.take(start)) + "::"@ + segments_text(s.skip(start + n))
        } else {
            segments_text(s)
        }
    }
}

/// An IP address as text.
pub open spec fn ip_text(ip: IpView) -> Seq<char> {
    match ip {
        IpView::V4(o) => ipv4_text(o),
        IpView::V6(s) => ipv6_text(s),
    }
}

fn write_ipv4(o: [u8; 4]) -> (r: Vec<char>)
    ensures
        r@ == ipv4_text(o@),
{
    let mut out = number_chars(o[0] as u64, 10);
    for i in 1..4usize
        invariant
            out@ == (if i == 1 {
                number_text(o@[0] as nat, 10)
            } else if i == 2 {
                number_text(o@[0] as nat, 10) + seq!['.'] + number_text(o@[1] as nat, 10)
            } else if i == 3 {
                number_text(o@[0] as nat, 10) + seq!['.'] + number_text(o@[1] as nat, 10)
                    + seq!['.'] + number_text(o@[2] as nat, 10)
            } else {
                ipv4_text(o@)
            }),
    {
        let ghost before = out@;
        out.push('.');
        let mut digits = number_chars(o[i] as u64, 10);
        out.append(&mut digits);
        assert(out@ =~= before + seq!['.'] + number_text(o@[i as int] as nat, 10));
    }
    out
}

fn count_zeros(s: [u16; 8], i: usize) -> (r: usize)
    requires
        i <= 8,
    ensures
        r == zeros_from(s@, i as int),
        i + r <= 8,
    decreases 8 - i,
{
    if i < 8 && s[i] == 0 {
        1 + count_zeros(s, i + 1)
    } else {
        0
    }
}

/// Writes the segments from `from` to `to`.
fn write_segments(s: [u16; 8], from: usize, to: usize) -> (r: Vec<char>)
    requires
        from <= to <= 8,
    ensures
        r@ == segments_text(s@.subrange(from as int, to as int)),
{
    let mut out: Vec<char> = Vec::new();
    assert(out@ =~= segments_text(s@.subrange(from as int, from as int)));
    for i in from..to
        invariant
            from <= to <= 8,
            out@ == segments_text(s@.subrange(from as int, i as int)),
    {
        let ghost before = out@;
        let ghost next = s@.subrange(from as int, i + 1);
        assert(next.drop_last() =~= s@.subrange(from as int, i as int));
        let mut digits = number_chars(s[i] as u64, 16);
        if i > from {
            out.push(':');
            out.append(&mut digits);
            assert(out@ =~= before + seq![':'] + number_text(s@[i as int] as nat, 16));
        } else {
            assert(before =~= Seq::<char>::empty());
            out.append(&mut digits);
            assert(out@ =~= number_text(s@[i as int] as nat, 16));
        }
    }
    out
}

fn write_ipv6(s: [u16; 8]) -> (r: Vec<char>)
    ensures
        r@ == ipv6_text(s@),
{
    let mapped = s[0] == 0 && s[1] == 0 && s[2] == 0 && s[3] == 0 && s[4] == 0 && s[5] == 0xffff;
    assert(mapped == (s@.take(6) =~= seq![0u16, 0, 0, 0, 0, 0xffff]));
    if mapped {
        let o = [(s[6] / 256) as u8, (s[6] % 256) as u8, (s[7] / 256) as u8, (s[7] % 256) as u8];
        assert(o@ =~= last_octets(s@));
        let mut out = chars_of("::ffff:");
        let mut tail = write_ipv4(o);
        out.append(&mut tail);
        return out;
    }
    let mut start: usize = 0;
    for i in 0..8usize
        invariant
            start < 8,
            start == longest_zeros(s@, i as nat),
    {
        if count_zeros(s, i) > count_zeros(s, start) {
            start = i;
        }
    }
    let n = count_zeros(s, start);
    if n > 1 {
        assert(s@.take(start as int) == s@.subrange(0, start as int));
        assert(s@.skip(start + n) == s@.subrange(start + n, 8));
        let mut out = write_segments(s, 0, start);
        let mut gap = chars_of("::");
        let mut tail = write_segments(s, start + n, 8);
        out.append(&mut gap);
        out.append(&mut tail);
        out
    } else {
        assert(s@ == s@.subrange(0, 8));
        write_segments(s, 0, 8)
    }
}

/// Writes an IP address as text.
pub fn write_ip(ip: &IpAddress) -> (r: String)
    ensures
        r@ == ip_text(ip@),
{
    match *ip {
        IpAddress::V4(o) => string_of(&write_ipv4(o)),
        IpAddress::V6(s) => string_of(&write_ipv6(s)),
    }
}

} // verus!
