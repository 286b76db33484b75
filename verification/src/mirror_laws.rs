//! What holds of the checks on mirrors under any settings.
use vstd::prelude::*;
use crate::ip::{
    ip_of, ip_text, is_broadcast, is_forbidden, is_link_local, is_loopback, is_multicast, is_private,
    is_shared, is_unique_local, is_unspecified, IpView,
};
use crate::ip_laws::{
    forbidden_ipv4_addresses_by_number, forbidden_ipv6_addresses_by_segment, ipv4_number,
};
use crate::mirror::{
    allow_entry, covers, first_blocked, host_name, host_rejection, is_allowed_host, is_blocked,
    is_reserved_host, limit_of, lists_host, lookup_of, lookup_rejection, loopback_open, names_hosts,
    url_rejection, SettingsView, UrlView,
};
use crate::text::{
    is_white, lower, lower_char, number_value, split, trim, trim_end, trim_start, trim_start_of,
};
use crate::text_laws::{
    decimal_digits_are_read, joined_by, joined_fields_split_again, only_decimal_digits_are_read,
    trimming_takes_copies_off_the_start, trimming_takes_white_space_off_both_ends,
};

verus! {

/// A URL passes if and only if it could be parsed, is plain HTTP or HTTPS, has no
/// credentials, and has a host that is not reserved, is in the allow-list where
/// there is one, and is not the literal of a blocked address.
pub proof fn url_passes(url: Result<UrlView, Seq<char>>, s: SettingsView)
    ensures
        url_rejection(url, s) is None <==> {
            &&& url matches Ok(u)
            &&& u.scheme == "http"@ || u.scheme == "https"@
            &&& u.username.len() == 0 && u.password is None
            &&& u.host matches Some(h)
            &&& !is_reserved_host(host_name(h))
            &&& is_allowed_host(s, host_name(h))
            &&& ip_of(host_name(h)) matches Some(ip) ==> !is_blocked(ip, s)
        },
{
}

/// Private, link-local, unspecified, broadcast, multicast, shared and unique
/// local addresses are blocked whatever the settings say; loopback addresses are
/// blocked unless the settings open them.
pub proof fn settings_open_nothing_but_loopback(ip: IpView, s: SettingsView)
    ensures
        is_private(ip) || is_link_local(ip) || is_unspecified(ip) || is_broadcast(ip)
            || is_multicast(ip) || is_shared(ip) || is_unique_local(ip) ==> is_blocked(ip, s),
        is_loopback(ip) ==> (is_blocked(ip, s) <==> !loopback_open(s)),
        is_blocked(ip, s) ==> is_forbidden(ip),
{
    match ip {
        IpView::V4(o) => {
            if is_unspecified(ip) {
                assert(o[0] == seq![0u8, 0, 0, 0][0]);
            }
            if is_broadcast(ip) {
                assert(o[0] == seq![255u8, 255, 255, 255][0]);
            }
        },
        IpView::V6(g) => {
            if is_loopback(ip) {
                assert(g[0] == seq![0u16, 0, 0, 0, 0, 0, 0, 1][0]);
                assert(g[7] == seq![0u16, 0, 0, 0, 0, 0, 0, 1][7]);
            }
            if is_unspecified(ip) {
                assert(g[7] == seq![0u16, 0, 0, 0, 0, 0, 0, 0][7]);
            }
        },
    }
}

/// A mirror whose host is reserved is rejected whatever the settings say.
pub proof fn reserved_hosts_are_rejected(u: UrlView, s: SettingsView)
    requires
        u.host matches Some(h) && is_reserved_host(host_name(h)),
    ensures
        url_rejection(Ok(u), s) is Some,
{
}

/// A mirror whose host is the literal of a forbidden address other than a loopback
/// address is rejected whatever the settings say, and one whose host is the
/// literal of a loopback address is rejected unless the settings open it.
pub proof fn forbidden_literals_are_rejected(u: UrlView, s: SettingsView)
    requires
        u.host matches Some(h) && ip_of(host_name(h)) matches Some(ip) && is_forbidden(ip) && (
        is_loopback(ip) ==> !loopback_open(s)),
    ensures
        url_rejection(Ok(u), s) is Some,
{
}

proof fn lemma_lower_twice(s: Seq<char>)
    ensures
        lower(lower(s)) == lower(s),
{
    assert forall|i: int| 0 <= i < s.len() implies lower_char(lower_char(#[trigger] s[i]))
        == lower_char(s[i]) by {};
    assert(lower(lower(s)) =~= lower(s));
}

proof fn lemma_lower_char(c: char)
    ensures
        is_white(lower_char(c)) == is_white(c),
        lower_char(c) == '*' <==> c == '*',
        lower_char(c) == '.' <==> c == '.',
{
}

proof fn lemma_lower_trim_start(s: Seq<char>)
    ensures
        trim_start(lower(s)) == lower(trim_start(s)),
    decreases s.len(),
{
    if s.len() > 0 {
        lemma_lower_char(s.first());
        assert(lower(s).drop_first() =~= lower(s.drop_first()));
        lemma_lower_trim_start(s.drop_first());
    }
}

proof fn lemma_lower_trim_end(s: Seq<char>)
    ensures
        trim_end(lower(s)) == lower(trim_end(s)),
    decreases s.len(),
{
    if s.len() > 0 {
        lemma_lower_char(s.last());
        assert(lower(s).drop_last() =~= lower(s.drop_last()));
        lemma_lower_trim_end(s.drop_last());
    }
}

proof fn lemma_lower_trim_start_of(s: Seq<char>, c: char)
    requires
        c == '*' || c == '.',
    ensures
        trim_start_of(lower(s), c) == lower(trim_start_of(s, c)),
    decreases s.len(),
{
    if s.len() > 0 {
        lemma_lower_char(s.first());
        assert(lower(s).drop_first() =~= lower(s.drop_first()));
        lemma_lower_trim_start_of(s.drop_first(), c);
    }
}

proof fn lemma_lower_entry(field: Seq<char>)
    ensures
        allow_entry(lower(field)) == allow_entry(field),
{
    lemma_lower_trim_start(field);
    let a = trim_start(field);
    lemma_lower_trim_end(a);
    let b = trim_end(a);
    lemma_lower_trim_start_of(b, '*');
    let c = trim_start_of(b, '*');
    lemma_lower_trim_start_of(c, '.');
    lemma_lower_twice(trim_start_of(c, '.'));
}

proof fn lemma_lower_split(s: Seq<char>)
    ensures
        split(lower(s), ',').len() == split(s, ',').len(),
        split(s, ',').len() > 0,
        forall|i: int|
            0 <= i < split(s, ',').len() ==> #[trigger] split(lower(s), ',')[i] == lower(
                split(s, ',')[i],
            ),
    decreases s.len(),
{
    if s.len() == 0 {
        assert(lower(Seq::<char>::empty()) =~= Seq::<char>::empty());
    } else {
        let t = lower(s);
        assert(t.drop_last() =~= lower(s.drop_last()));
        lemma_lower_split(s.drop_last());
        let a = split(s.drop_last(), ',');
        let b = split(t.drop_last(), ',');
        let c = s.last();
        assert(lower_char(c) == ',' <==> c == ',');
        assert(b.last() == lower(a.last()));
        assert(b.last().push(t.last()) =~= lower(a.last().push(c)));
        assert(lower(Seq::<char>::empty()) =~= Seq::<char>::empty());
        assert forall|i: int| 0 <= i < split(s, ',').len() implies #[trigger] split(t, ',')[i]
            == lower(split(s, ',')[i]) by {
            if i < a.len() - 1 {
                assert(b[i] == lower(a[i]));
            }
        }
    }
}

/// Upper and lower case make no difference, neither in the allow-list nor in the
/// host of a URL.
pub proof fn hosts_are_case_insensitive(list: Seq<char>, host: Seq<char>)
    ensures
        host_name(lower(host)) == host_name(host),
        names_hosts(lower(list)) == names_hosts(list),
        lists_host(lower(list), host) == lists_host(list, host),
{
    lemma_lower_twice(host);
    lemma_lower_split(list);
    let a = split(list, ',');
    let b = split(lower(list), ',');
    assert forall|i: int| 0 <= i < a.len() implies allow_entry(#[trigger] b[i]) == allow_entry(
        a[i],
    ) by {
        lemma_lower_entry(a[i]);
    }
    if names_hosts(list) {
        let i = choose|i: int| 0 <= i < a.len() && allow_entry(#[trigger] a[i]).len() > 0;
        assert(allow_entry(b[i]).len() > 0);
    }
    if lists_host(list, host) {
        let i = choose|i: int|
            0 <= i < a.len() && allow_entry(#[trigger] a[i]).len() > 0 && covers(
                allow_entry(a[i]),
                host,
            );
        assert(covers(allow_entry(b[i]), host));
    }
    if lists_host(lower(list), host) {
        let i = choose|i: int|
            0 <= i < b.len() && allow_entry(#[trigger] b[i]).len() > 0 && covers(
                allow_entry(b[i]),
                host,
            );
        assert(covers(allow_entry(a[i]), host));
    }
    if names_hosts(lower(list)) {
        let i = choose|i: int| 0 <= i < b.len() && allow_entry(#[trigger] b[i]).len() > 0;
        assert(allow_entry(a[i]).len() > 0);
    }
}

proof fn lemma_trim_end_keeps_start(p: Seq<char>, d: Seq<char>)
    requires
        d.len() > 0,
        !is_white(d.first()),
    ensures
        trim_end(p + d) == p + trim_end(d),
        trim_end(d).len() > 0,
        trim_end(d).first() == d.first(),
    decreases d.len(),
{
    assert((p + d).last() == d.last());
    if is_white(d.last()) {
        assert(d.len() > 1);
        assert((p + d).drop_last() =~= p + d.drop_last());
        assert(d.drop_last().first() == d.first());
        lemma_trim_end_keeps_start(p, d.drop_last());
    }
}

/// A wildcard before a domain, or a dot, is the same entry as the domain alone.
pub proof fn wildcards_name_the_domain(domain: Seq<char>)
    requires
        domain.len() > 0,
        !is_white(domain.first()),
        domain.first() != '*',
        domain.first() != '.',
    ensures
        allow_entry("*."@ + domain) == allow_entry(domain),
        allow_entry("."@ + domain) == allow_entry(domain),
{
    reveal_strlit("*.");
    reveal_strlit(".");
    let t = trim_end(domain);
    lemma_trim_end_keeps_start("*."@, domain);
    lemma_trim_end_keeps_start("."@, domain);
    assert(trim("*."@ + domain) == "*."@ + t);
    assert(trim("."@ + domain) == "."@ + t);
    assert(trim(domain) == t);
    assert(("*."@ + t).drop_first() =~= "."@ + t);
    assert(("."@ + t).drop_first() =~= t);
    assert(trim_start_of("*."@ + t, '*') == trim_start_of("."@ + t, '*'));
    assert(trim_start_of("."@ + t, '*') == "."@ + t);
    assert(trim_start_of("."@ + t, '.') == trim_start_of(t, '.'));
    assert(trim_start_of(t, '.') == t);
}

/// An entry covers its domain and everything below it.
pub proof fn entries_cover_subdomains(entry: Seq<char>, label: Seq<char>)
    ensures
        covers(entry, entry),
        covers(entry, label + seq!['.'] + entry),
{
    let host = label + seq!['.'] + entry;
    let dotted = seq!['.'] + entry;
    assert(dotted =~= host.subrange(host.len() - dotted.len(), host.len() as int));
}

/// An entry covers nothing but its domain and what is below it: the host is the entry,
/// or some label, a dot and the entry. A host shorter than the entry is not covered.
pub proof fn entries_cover_nothing_else(entry: Seq<char>, host: Seq<char>)
    ensures
        covers(entry, host) <==> host == entry || exists|label: Seq<char>|
            host == #[trigger] (label + seq!['.'] + entry),
        host.len() < entry.len() ==> !covers(entry, host),
        host.len() == entry.len() ==> (covers(entry, host) <==> host == entry),
{
    let dotted = seq!['.'] + entry;
    if dotted.is_suffix_of(host) {
        let cut = host.len() - dotted.len();
        let label = host.take(cut);
        assert(dotted == host.subrange(cut, host.len() as int));
        assert(host =~= label + dotted);
        assert(host =~= label + seq!['.'] + entry);
    }
    if exists|label: Seq<char>| host == #[trigger] (label + seq!['.'] + entry) {
        let label = choose|label: Seq<char>| host == #[trigger] (label + seq!['.'] + entry);
        entries_cover_subdomains(entry, label);
    }
}

/// A lookup is left out for the literal of an address and for nothing else; where the
/// host is a name, what is looked up is that name and the URL's port, whichever it is.
pub proof fn only_address_literals_are_not_looked_up(u: UrlView, name: Seq<char>, port: u16)
    ensures
        lookup_of(Ok(u)) == Ok::<Option<(Seq<char>, u16)>, Seq<char>>(None) <==> (u.host matches Some(
            h,
        ) && ip_of(h) is Some),
        lookup_of(Ok(u)) == Ok::<_, Seq<char>>(Some((name, port))) <==> u.host == Some(name)
            && u.port == Some(port) && ip_of(name) is None,
{
}

/// What cannot be looked up, and why: a URL that could not be parsed, one without a
/// host, and one with a name for a host but without a port.
pub proof fn lookups_fail_for_want_of_host_or_port(url: Result<UrlView, Seq<char>>)
    ensures
        url matches Err(e) ==> lookup_of(url) == Err::<Option<(Seq<char>, u16)>, _>(
            "parse error: "@ + e,
        ),
        url matches Ok(u) ==> (u.host is None ==> lookup_of(url) == Err::<
            Option<(Seq<char>, u16)>,
            _,
        >("url has no host"@)),
        url matches Ok(u) ==> (u.host matches Some(h) ==> (ip_of(h) is None && u.port is None
            ==> lookup_of(url) == Err::<Option<(Seq<char>, u16)>, _>("url has no port"@))),
        url matches Ok(u) ==> (u.host matches Some(h) ==> (ip_of(h) is Some || u.port is Some
            ==> lookup_of(url) is Ok)),
{
}

/// The host of a URL is compared in lower case. The brackets round it are dropped, and
/// no others: both must be there.
pub proof fn brackets_round_a_host_are_dropped(host: Seq<char>)
    ensures
        host_name(seq!['['] + host + seq![']']) == lower(host),
        !(host.len() >= 2 && host[0] == '[' && host[host.len() - 1] == ']') ==> host_name(host)
            == lower(host),
{
    let h = seq!['['] + host + seq![']'];
    assert(lower(h).subrange(1, h.len() - 1) =~= lower(host));
    assert(lower(h).first() == '[' && lower(h).last() == ']');
    if host.len() >= 2 {
        assert(lower(host).first() == lower_char(host[0]));
        assert(lower(host).last() == lower_char(host[host.len() - 1]));
    }
}

/// Six hosts are refused by name, and no other.
pub proof fn six_hosts_are_reserved(host: Seq<char>)
    ensures
        is_reserved_host(host) <==> seq![
            "localhost"@,
            "metadata"@,
            "metadata.google.internal"@,
            "metadata.azure.com"@,
            "169.254.169.254"@,
            "100.100.100.200"@,
        ].contains(host),
{
    let names = seq![
        "localhost"@,
        "metadata"@,
        "metadata.google.internal"@,
        "metadata.azure.com"@,
        "169.254.169.254"@,
        "100.100.100.200"@,
    ];
    assert(names[0] == "localhost"@ && names[1] == "metadata"@ && names[2]
        == "metadata.google.internal"@ && names[3] == "metadata.azure.com"@ && names[4]
        == "169.254.169.254"@ && names[5] == "100.100.100.200"@);
}

/// A field of the allow-list, taken apart: white space, stars, dots, the entry and
/// white space. Of each there is as much as the field has, and the entry is in lower
/// case. Returns what stands round the entry, and the entry as it stands there.
pub proof fn allow_list_fields_taken_apart(field: Seq<char>) -> (r: (
    Seq<char>,
    nat,
    nat,
    Seq<char>,
    Seq<char>,
))
    ensures
        ({
            let (front, stars, dots, entry, back) = r;
            let kept = Seq::new(stars, |i: int| '*') + Seq::new(dots, |i: int| '.') + entry;
            &&& field == front + kept + back
            &&& forall|i: int| 0 <= i < front.len() ==> is_white(#[trigger] front[i])
            &&& forall|i: int| 0 <= i < back.len() ==> is_white(#[trigger] back[i])
            &&& kept.len() > 0 ==> !is_white(kept[0]) && !is_white(kept[kept.len() - 1])
            &&& entry.len() > 0 ==> entry[0] != '.'
            &&& dots == 0 && entry.len() > 0 ==> entry[0] != '*'
            &&& allow_entry(field) == lower(entry)
        }),
{
    let (front, back) = trimming_takes_white_space_off_both_ends(field);
    let t = trim(field);
    let stars = trimming_takes_copies_off_the_start(t, '*');
    let u = trim_start_of(t, '*');
    let dots = trimming_takes_copies_off_the_start(u, '.');
    let entry = trim_start_of(u, '.');
    let kept = Seq::new(stars, |i: int| '*') + Seq::new(dots, |i: int| '.') + entry;
    assert(kept =~= t);
    if dots == 0 {
        assert(entry =~= u);
    }
    (front, stars, dots, entry, back)
}

/// Whether one of the fields of an allow-list covers a host: the host is its entry, or
/// a label, a dot and its entry.
pub open spec fn field_covers(field: Seq<char>, host: Seq<char>) -> bool {
    let entry = allow_entry(field);
    &&& entry.len() > 0
    &&& host == entry || exists|label: Seq<char>| host == #[trigger] (label + seq!['.'] + entry)
}

/// A host is let through by an allow-list of some fields with commas between them if
/// and only if no field has an entry, or one covers the host. Where there is no
/// allow-list, every host is let through.
pub proof fn allow_list_lets_through_what_a_field_covers(
    s: SettingsView,
    fields: Seq<Seq<char>>,
    host: Seq<char>,
)
    requires
        fields.len() > 0,
        forall|i: int| 0 <= i < fields.len() ==> !(#[trigger] fields[i]).contains(','),
    ensures
        s.allowed_hosts is None ==> is_allowed_host(s, host),
        s.allowed_hosts == Some(joined_by(fields, ',')) ==> (is_allowed_host(s, host) <==> {
            ||| forall|i: int| 0 <= i < fields.len() ==> allow_entry(#[trigger] fields[i]).len() == 0
            ||| exists|i: int| 0 <= i < fields.len() && field_covers(#[trigger] fields[i], host)
        }),
{
    let list = joined_by(fields, ',');
    joined_fields_split_again(fields, ',');
    assert forall|i: int| 0 <= i < fields.len() implies field_covers(#[trigger] fields[i], host) == (
    allow_entry(fields[i]).len() > 0 && covers(allow_entry(fields[i]), host)) by {
        entries_cover_nothing_else(allow_entry(fields[i]), host);
    }
    assert(lists_host(list, host) <==> exists|i: int|
        0 <= i < fields.len() && field_covers(#[trigger] fields[i], host)) by {
        if lists_host(list, host) {
            let i = choose|i: int|
                0 <= i < fields.len() && allow_entry(#[trigger] fields[i]).len() > 0 && covers(
                    allow_entry(fields[i]),
                    host,
                );
            assert(field_covers(fields[i], host));
        }
    }
}

/// Which characters have the letters of `true` for their lower case.
proof fn lemma_letters(c: char)
    ensures
        lower_char(c) == 't' <==> c == 't' || c == 'T',
        lower_char(c) == 'r' <==> c == 'r' || c == 'R',
        lower_char(c) == 'u' <==> c == 'u' || c == 'U',
        lower_char(c) == 'e' <==> c == 'e' || c == 'E',
{
}

/// Loopback addresses are opened by `1` and by the word `true`, each letter of it in
/// either case, and by no other text.
pub proof fn loopback_is_opened_by_one_or_true(s: SettingsView)
    ensures
        loopback_open(s) <==> {
            &&& s.allow_loopback matches Some(v)
            &&& v == seq!['1'] || (v.len() == 4 && (v[0] == 't' || v[0] == 'T') && (v[1] == 'r'
                || v[1] == 'R') && (v[2] == 'u' || v[2] == 'U') && (v[3] == 'e' || v[3] == 'E'))
        },
{
    reveal_strlit("1");
    reveal_strlit("true");
    if let Some(v) = s.allow_loopback {
        assert("1"@ =~= seq!['1']);
        let l = lower(v);
        let word = "true"@;
        lemma_letters(v[0]);
        lemma_letters(v[1]);
        lemma_letters(v[2]);
        lemma_letters(v[3]);
        if l == word {
            assert(l.len() == v.len() && word.len() == 4);
            assert(l[0] == word[0] && l[1] == word[1] && l[2] == word[2] && l[3] == word[3]);
        }
        assert(v == seq!['1'] <==> v == "1"@);
        if v.len() == 4 && (v[0] == 't' || v[0] == 'T') && (v[1] == 'r' || v[1] == 'R') && (v[2]
            == 'u' || v[2] == 'U') && (v[3] == 'e' || v[3] == 'E') {
            assert(l =~= word);
        }
    }
}

/// The blocked IPv4 addresses, told by their numbers: the forbidden ones, less those
/// of 127.0.0.0/8 where the settings open loopback addresses.
pub proof fn blocked_ipv4_addresses_by_number(o: Seq<u8>, s: SettingsView)
    requires
        o.len() == 4,
    ensures
        is_blocked(IpView::V4(o), s) <==> {
            let n = ipv4_number(o);
            ||| 0x0a00_0000 <= n <= 0x0aff_ffff
            ||| 0xac10_0000 <= n <= 0xac1f_ffff
            ||| 0xc0a8_0000 <= n <= 0xc0a8_ffff
            ||| 0x7f00_0000 <= n <= 0x7fff_ffff && !loopback_open(s)
            ||| 0xa9fe_0000 <= n <= 0xa9fe_ffff
            ||| 0x6440_0000 <= n <= 0x647f_ffff
            ||| 0xe000_0000 <= n <= 0xefff_ffff
            ||| n == 0
            ||| n == 0xffff_ffff
        },
{
    forbidden_ipv4_addresses_by_number(o);
}

/// The blocked IPv6 addresses, told by their segments: the forbidden ones, less `::1`
/// where the settings open loopback addresses.
pub proof fn blocked_ipv6_addresses_by_segment(g: Seq<u16>, s: SettingsView)
    requires
        g.len() == 8,
    ensures
        is_blocked(IpView::V6(g), s) <==> {
            let leads_zero = g[0] == 0 && g[1] == 0 && g[2] == 0 && g[3] == 0 && g[4] == 0 && g[5]
                == 0 && g[6] == 0;
            ||| leads_zero && g[7] == 0
            ||| leads_zero && g[7] == 1 && !loopback_open(s)
            ||| g[0] / 0x200 == 0x7e
            ||| g[0] / 0x40 == 0x3fa
            ||| g[0] / 0x100 == 0xff
        },
{
    forbidden_ipv6_addresses_by_segment(g);
}

/// What a rejected URL is told, one check after the other: that it could not be
/// parsed, its scheme, its credentials, that it has no host, and what its host is
/// told.
pub proof fn urls_are_told_the_first_check_they_fail(u: UrlView, e: Seq<char>, s: SettingsView)
    ensures
        ({
            let plain = u.scheme == "http"@ || u.scheme == "https"@;
            let open = u.username.len() == 0 && u.password is None;
            &&& url_rejection(Err(e), s) == Some("parse error: "@ + e)
            &&& !plain ==> url_rejection(Ok(u), s) == Some("unsupported scheme: "@ + u.scheme)
            &&& plain && !open ==> url_rejection(Ok(u), s) == Some("url credentials not allowed"@)
            &&& plain && open && u.host is None ==> url_rejection(Ok(u), s) == Some(
                "url has no host"@,
            )
            &&& plain && open ==> (u.host matches Some(h) ==> url_rejection(Ok(u), s)
                == host_rejection(host_name(h), s))
        }),
{
}

/// What a rejected host is told, one check after the other: that it is reserved, that
/// the allow-list does not let it through, and the blocked address that it spells. A
/// host that fails none of these is not rejected.
pub proof fn hosts_are_told_the_first_check_they_fail(host: Seq<char>, s: SettingsView)
    ensures
        ({
            let reserved = seq![
                "localhost"@,
                "metadata"@,
                "metadata.google.internal"@,
                "metadata.azure.com"@,
                "169.254.169.254"@,
                "100.100.100.200"@,
            ].contains(host);
            let allowed = is_allowed_host(s, host);
            &&& reserved ==> host_rejection(host, s) == Some("forbidden host: "@ + host)
            &&& !reserved && !allowed ==> host_rejection(host, s) == Some(
                "host "@ + host + " not in allow-list"@,
            )
            &&& !reserved && allowed ==> (ip_of(host) matches Some(ip) ==> (is_blocked(ip, s)
                ==> host_rejection(host, s) == Some("forbidden ip: "@ + ip_text(ip))))
            &&& host_rejection(host, s) is None <==> !reserved && allowed && (ip_of(
                host,
            ) matches Some(ip) ==> !is_blocked(ip, s))
        }),
{
    six_hosts_are_reserved(host);
}

/// The first blocked address is the one before which none is blocked.
proof fn lemma_first_blocked_is_least(ips: Seq<IpView>, k: int, s: SettingsView)
    requires
        0 <= k < ips.len(),
        is_blocked(ips[k], s),
        forall|i: int| 0 <= i < k ==> !is_blocked(#[trigger] ips[i], s),
    ensures
        first_blocked(ips, s) == Some(ips[k]),
    decreases k,
{
    if k > 0 {
        assert(!is_blocked(ips[0], s));
        let rest = ips.drop_first();
        assert(rest[k - 1] == ips[k]);
        assert forall|i: int| 0 <= i < k - 1 implies !is_blocked(#[trigger] rest[i], s) by {
            assert(rest[i] == ips[i + 1]);
        }
        lemma_first_blocked_is_least(rest, k - 1, s);
    }
}

/// A lookup that failed is told so; one that gave a blocked address is told the first
/// of these.
pub proof fn lookups_are_told_the_first_blocked_address(
    host: Seq<char>,
    e: Seq<char>,
    ips: Seq<IpView>,
    k: int,
    s: SettingsView,
)
    requires
        0 <= k < ips.len(),
        is_blocked(ips[k], s),
        forall|i: int| 0 <= i < k ==> !is_blocked(#[trigger] ips[i], s),
    ensures
        lookup_rejection(host, Err(e), s) == Some("dns lookup failed: "@ + e),
        lookup_rejection(host, Ok(ips), s) == Some(
            "host "@ + host + " resolved to forbidden ip: "@ + ip_text(ips[k]),
        ),
{
    lemma_first_blocked_is_least(ips, k, s);
}

/// A known size is the limit of a download whatever the settings say.
pub proof fn known_sizes_are_the_limit(size_bytes: u64, s: SettingsView)
    requires
        size_bytes > 0,
    ensures
        limit_of(size_bytes, s) == size_bytes,
{
}

/// Where the size is not known, decimal digits in the settings, with or without a plus
/// sign before them, are the limit if a `u64` can hold it; every other text, and none,
/// leaves ten gibibytes.
pub proof fn settings_limit_unknown_sizes(s: SettingsView, digits: Seq<char>)
    ensures
        s.max_download_bytes is None ==> limit_of(0, s) == 10_737_418_240,
        s.max_download_bytes matches Some(t) ==> (t == digits || t == seq!['+'] + digits)
            && digits.len() > 0 && (forall|i: int|
            0 <= i < digits.len() ==> '0' <= #[trigger] digits[i] <= '9') ==> limit_of(0, s) == (
        if number_value(digits, 10) <= u64::MAX {
            number_value(digits, 10)
        } else {
            10_737_418_240
        }),
        limit_of(0, s) != 10_737_418_240 ==> (s.max_download_bytes matches Some(t) && exists|
            d: Seq<char>,
        |
            (t == d || t == #[trigger] (seq!['+'] + d)) && d.len() > 0 && number_value(d, 10)
                == limit_of(0, s) && forall|i: int|
                0 <= i < d.len() ==> '0' <= #[trigger] d[i] <= '9'),
{
    if let Some(t) = s.max_download_bytes {
        if digits.len() > 0 && (forall|i: int|
            0 <= i < digits.len() ==> '0' <= #[trigger] digits[i] <= '9') {
            decimal_digits_are_read(digits);
        }
        if limit_of(0, s) != 10_737_418_240 {
            let d = only_decimal_digits_are_read(t);
            let signed = seq!['+'] + d;
        }
    }
}

} // verus!
