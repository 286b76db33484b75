use weight_cdn_pinner::ip::{ip_is_forbidden, parse_ip, write_ip, IpAddress};

/// Reads an address with the standard library.
fn reference(text: &str) -> Option<IpAddress> {
    let v4: Option<url::Host<String>> = text.parse().ok().map(url::Host::Ipv4);
    let v6: Option<url::Host<String>> = text.parse().ok().map(url::Host::Ipv6);
    match v4.or(v6) {
        Some(url::Host::Ipv4(a)) => Some(IpAddress::V4(a.octets())),
        Some(url::Host::Ipv6(a)) => Some(IpAddress::V6(a.segments())),
        _ => None,
    }
}

/// Writes an address with the standard library.
fn reference_text(ip: &IpAddress) -> String {
    let host: url::Host<String> = match *ip {
        IpAddress::V4(o) => url::Host::Ipv4(o.into()),
        IpAddress::V6(s) => url::Host::Ipv6(s.into()),
    };
    match host {
        url::Host::Ipv4(a) => a.to_string(),
        url::Host::Ipv6(a) => a.to_string(),
        url::Host::Domain(d) => d,
    }
}

/// Classifies an address with the standard library, where it has a name for the
/// range.
fn reference_forbidden(ip: &IpAddress) -> bool {
    let host: url::Host<String> = match *ip {
        IpAddress::V4(o) => url::Host::Ipv4(o.into()),
        IpAddress::V6(s) => url::Host::Ipv6(s.into()),
    };
    match host {
        url::Host::Ipv4(a) => {
            a.is_loopback()
                || a.is_private()
                || a.is_link_local()
                || a.is_broadcast()
                || a.is_unspecified()
                || a.is_multicast()
                || (a.octets()[0] == 100 && (a.octets()[1] & 0b1100_0000) == 0b0100_0000)
        }
        url::Host::Ipv6(a) => {
            a.is_loopback()
                || a.is_unspecified()
                || a.is_multicast()
                || (a.segments()[0] & 0xfe00) == 0xfc00
                || (a.segments()[0] & 0xffc0) == 0xfe80
        }
        url::Host::Domain(_) => false,
    }
}

#[test]
fn dotted_decimal_is_read() {
    assert_eq!(parse_ip("10.0.0.1"), Some(IpAddress::V4([10, 0, 0, 1])));
    assert_eq!(parse_ip("255.255.255.255"), Some(IpAddress::V4([255; 4])));
    assert_eq!(parse_ip("256.0.0.1"), None);
    assert_eq!(parse_ip("01.0.0.1"), None);
    assert_eq!(parse_ip("1.2.3"), None);
    assert_eq!(parse_ip("localhost"), None);
    assert_eq!(parse_ip(""), None);
}

#[test]
fn colons_and_gaps_are_read() {
    assert_eq!(parse_ip("::1"), Some(IpAddress::V6([0, 0, 0, 0, 0, 0, 0, 1])));
    assert_eq!(parse_ip("::"), Some(IpAddress::V6([0; 8])));
    assert_eq!(parse_ip("fe80::A:b"), Some(IpAddress::V6([0xfe80, 0, 0, 0, 0, 0, 10, 11])));
    assert_eq!(
        parse_ip("::ffff:1.2.3.4"),
        Some(IpAddress::V6([0, 0, 0, 0, 0, 0xffff, 0x0102, 0x0304]))
    );
    assert_eq!(parse_ip("[::1]"), None);
    assert_eq!(parse_ip("1::2::3"), None);
}

#[test]
fn reading_agrees_with_the_standard_library() {
    let texts = [
        "", ".", "0.0.0.0", "1.2.3.4", "1.2.3.4.", ".1.2.3.4", "1..2.3", "1.2.3.4.5", "00.0.0.0",
        "0.0.0.00", "1.2.3.256", "1.2.3.1000", "1.2.3.a", "1.2.3.+4", " 1.2.3.4", "1.2.3.4 ",
        "999.1.1.1", "192.168.001.1", "::", ":::", ":", "1", "1:2:3:4:5:6:7:8", "1:2:3:4:5:6:7",
        "1:2:3:4:5:6:7:8:9", "1:2:3:4:5:6:7::", "::2:3:4:5:6:7:8", "1::8", "1::", "::8",
        "1:2:3:4:5:6:7:8::", "::1:2:3:4:5:6:7:8", "1:2:3:4::5:6:7:8", "1:2:3::5:6:7:8",
        "1::2::3", "12345::", "::12345", "0001::0a0b", "00001::", "g::1", "::g", "::1.2.3.4",
        "1::1.2.3.4", "1:2:3:4:5:6:1.2.3.4", "1:2:3:4:5:6:7:1.2.3.4", "1:2:3:4:5::1.2.3.4",
        "1:2:3:4:5:6::1.2.3.4", "1.2.3.4::", "1.2.3.4::1", "1:1.2.3.4::", "::1.2.3.4:5",
        "::1.2.3", "::1.2.3.4.5", "::01.2.3.4", "::1.2.3.256", "::ffff:0:0", "::FFFF:7f00:1",
        "fe80::1%eth0", "[::1]", ":1", "1:", ":1:2:3:4:5:6:7", "1:2:3:4:5:6:7:", "1:::2",
        "::1 ", "\u{660}.0.0.0", "\u{ff11}::", "1 : 2",
    ];
    for text in texts {
        assert_eq!(parse_ip(text), reference(text), "{text:?}");
    }
}

fn sample_addresses() -> Vec<IpAddress> {
    let mut out = vec![];
    for a in [0u8, 9, 10, 100, 126, 127, 169, 172, 192, 223, 224, 239, 240, 255] {
        for b in [0u8, 15, 16, 31, 32, 63, 64, 127, 128, 167, 168, 254, 255] {
            for d in [0u8, 1, 99, 255] {
                out.push(IpAddress::V4([a, b, 0, d]));
                out.push(IpAddress::V4([a, b, 255, d]));
            }
        }
    }
    for bits in 0..256u32 {
        let mut s = [0u16; 8];
        for (i, slot) in s.iter_mut().enumerate() {
            if bits & (1 << i) != 0 {
                *slot = 0xff01 + i as u16;
            }
        }
        out.push(IpAddress::V6(s));
    }
    for first in [
        0u16, 1, 0xfbff, 0xfc00, 0xfd12, 0xfdff, 0xfe00, 0xfe7f, 0xfe80, 0xfebf, 0xfec0, 0xfeff,
        0xff00, 0xffff, 0x2001,
    ] {
        out.push(IpAddress::V6([first, 0, 0, 0x10, 0, 0, 0, 0xabc]));
    }
    out.push(IpAddress::V6([0, 0, 0, 0, 0, 0xffff, 0x7f00, 1]));
    out.push(IpAddress::V6([0, 0, 0, 0, 0, 0, 0x7f00, 1]));
    out.push(IpAddress::V6([0, 0, 0, 0, 0, 0, 0, 1]));
    out
}

#[test]
fn writing_agrees_with_the_standard_library() {
    for ip in sample_addresses() {
        assert_eq!(write_ip(&ip), reference_text(&ip));
    }
    assert_eq!(write_ip(&IpAddress::V4([100, 100, 100, 200])), "100.100.100.200");
    assert_eq!(write_ip(&IpAddress::V6([1, 0, 0, 2, 0, 0, 0, 3])), "1:0:0:2::3");
}

#[test]
fn addresses_read_back() {
    for ip in sample_addresses() {
        assert_eq!(parse_ip(&write_ip(&ip)), Some(ip));
    }
}

#[test]
fn forbidden_ranges_agree_with_the_standard_library() {
    for ip in sample_addresses() {
        assert_eq!(ip_is_forbidden(&ip), reference_forbidden(&ip), "{ip:?}");
    }
    assert!(ip_is_forbidden(&IpAddress::V4([100, 100, 100, 200])));
    assert!(!ip_is_forbidden(&IpAddress::V4([8, 8, 8, 8])));
    assert!(IpAddress::V4([127, 1, 2, 3]).is_loopback());
    assert!(!IpAddress::V6([0; 8]).is_loopback());
}
