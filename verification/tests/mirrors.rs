use weight_cdn_pinner::error::PinError;
use weight_cdn_pinner::fetch::open_mirror;
use weight_cdn_pinner::ip::IpAddress;
use weight_cdn_pinner::mirror::{
    check_url, download_limit, lookup_for, lookup_target, loopback_allowed, validate_mirror_url,
    validate_resolved_host, Settings, UrlParts, DEFAULT_MAX_DOWNLOAD_BYTES,
};

fn no_settings() -> Settings {
    Settings { allowed_hosts: None, allow_loopback: None, max_download_bytes: None }
}

fn with_hosts(list: &str) -> Settings {
    Settings { allowed_hosts: Some(list.to_string()), ..no_settings() }
}

fn with_loopback(flag: &str) -> Settings {
    Settings { allow_loopback: Some(flag.to_string()), ..no_settings() }
}

fn forbidden(reason: &str) -> Result<(), PinError> {
    Err(PinError::ForbiddenMirrorUrl(reason.to_string()))
}

fn parts(scheme: &str, host: Option<&str>) -> UrlParts {
    UrlParts {
        scheme: scheme.to_string(),
        username: String::new(),
        password: None,
        host: host.map(|h| h.to_string()),
        port: Some(443),
    }
}

#[test]
fn validate_mirror_rejects_metadata_endpoints() {
    let s = no_settings();
    assert!(validate_mirror_url("http://169.254.169.254/", &s).is_err());
    assert!(validate_mirror_url("http://metadata.google.internal/", &s).is_err());
    assert!(validate_mirror_url("http://[::1]/", &s).is_err());
}

#[test]
fn validate_mirror_rejects_private_ips() {
    let s = no_settings();
    assert!(validate_mirror_url("http://10.0.0.1/blob", &s).is_err());
    assert!(validate_mirror_url("http://192.168.1.5/blob", &s).is_err());
    assert!(validate_mirror_url("http://172.16.0.1/blob", &s).is_err());
}

#[test]
fn validate_mirror_rejects_bad_scheme() {
    let s = no_settings();
    assert!(validate_mirror_url("file:///etc/passwd", &s).is_err());
    assert!(validate_mirror_url("gopher://example.com", &s).is_err());
}

#[test]
fn validate_mirror_accepts_public_https() {
    let s = no_settings();
    assert!(validate_mirror_url("https://s3.amazonaws.com/bucket/key", &s).is_ok());
}

#[test]
fn every_rejection_names_its_reason() {
    let s = no_settings();
    assert_eq!(
        validate_mirror_url("no url at all", &s),
        forbidden("parse error: relative URL without a base")
    );
    assert_eq!(
        validate_mirror_url("http://", &s),
        forbidden("parse error: empty host")
    );
    assert_eq!(
        validate_mirror_url("gopher://example.com", &s),
        forbidden("unsupported scheme: gopher")
    );
    assert_eq!(
        validate_mirror_url("https://user@example.com/", &s),
        forbidden("url credentials not allowed")
    );
    assert_eq!(
        validate_mirror_url("https://:secret@example.com/", &s),
        forbidden("url credentials not allowed")
    );
    assert_eq!(
        validate_mirror_url("https://LocalHost:8080/", &s),
        forbidden("forbidden host: localhost")
    );
    assert_eq!(
        validate_mirror_url("http://100.100.100.200/", &s),
        forbidden("forbidden host: 100.100.100.200")
    );
    assert_eq!(
        validate_mirror_url("https://example.org/", &with_hosts("example.com")),
        forbidden("host example.org not in allow-list")
    );
    assert_eq!(
        validate_mirror_url("http://10.0.0.1/blob", &s),
        forbidden("forbidden ip: 10.0.0.1")
    );
    assert_eq!(
        validate_mirror_url("http://[FE80::1]/blob", &s),
        forbidden("forbidden ip: fe80::1")
    );
    assert_eq!(
        validate_mirror_url("http://[::1]/", &s),
        forbidden("forbidden ip: ::1")
    );
}

#[test]
fn other_spellings_of_an_address_are_recognised() {
    let s = no_settings();
    assert_eq!(
        validate_mirror_url("http://0x7f.1/", &s),
        forbidden("forbidden ip: 127.0.0.1")
    );
    assert_eq!(
        validate_mirror_url("http://2130706433/", &s),
        forbidden("forbidden ip: 127.0.0.1")
    );
    assert_eq!(validate_mirror_url("http://8.8.8.8/", &s), Ok(()));
    assert_eq!(validate_mirror_url("http://[2001:db8::1]/", &s), Ok(()));
}

#[test]
fn checks_work_on_the_parts_of_a_url() {
    let s = no_settings();
    assert_eq!(check_url(&Ok(parts("https", Some("example.com"))), &s), Ok(()));
    assert_eq!(check_url(&Ok(parts("https", None)), &s), forbidden("url has no host"));
    assert_eq!(
        check_url(&Ok(parts("ftp", Some("example.com"))), &s),
        forbidden("unsupported scheme: ftp")
    );
    assert_eq!(
        check_url(&Err("broken".to_string()), &s),
        forbidden("parse error: broken")
    );
    assert_eq!(
        check_url(&Ok(parts("http", Some("METADATA"))), &s),
        forbidden("forbidden host: metadata")
    );
    assert_eq!(
        check_url(&Ok(parts("http", Some("[fd00::1]"))), &s),
        forbidden("forbidden ip: fd00::1")
    );
    // A lone bracket is no pair of brackets.
    assert_eq!(check_url(&Ok(parts("http", Some("["))), &s), Ok(()));
    assert_eq!(check_url(&Ok(parts("http", Some("[::1"))), &s), Ok(()));
}

#[test]
fn allow_list_matches_suffixes() {
    let s = with_hosts(" *.R2.cloudflarestorage.com , example.com,,");
    assert_eq!(validate_mirror_url("https://example.com/x", &s), Ok(()));
    assert_eq!(validate_mirror_url("https://EXAMPLE.com/x", &s), Ok(()));
    assert_eq!(validate_mirror_url("https://a.b.example.com/x", &s), Ok(()));
    assert_eq!(validate_mirror_url("https://r2.cloudflarestorage.com/x", &s), Ok(()));
    assert_eq!(validate_mirror_url("https://acc.r2.cloudflarestorage.com/x", &s), Ok(()));
    assert_eq!(
        validate_mirror_url("https://notexample.com/x", &s),
        forbidden("host notexample.com not in allow-list")
    );
    assert_eq!(
        validate_mirror_url("https://example.com.evil.org/x", &s),
        forbidden("host example.com.evil.org not in allow-list")
    );
}

#[test]
fn wildcard_and_dot_name_the_domain() {
    for list in ["*.example.com", ".example.com", "example.com", "\u{a0}**..example.com\t"] {
        let s = with_hosts(list);
        assert_eq!(validate_mirror_url("https://example.com/", &s), Ok(()));
        assert_eq!(validate_mirror_url("https://cdn.example.com/", &s), Ok(()));
        assert!(validate_mirror_url("https://example.org/", &s).is_err());
    }
}

#[test]
fn allow_list_without_entries_allows_all() {
    for list in ["", ",", " , * , . "] {
        assert_eq!(validate_mirror_url("https://example.org/", &with_hosts(list)), Ok(()));
    }
}

#[test]
fn allow_list_opens_no_forbidden_address() {
    assert_eq!(
        validate_mirror_url("http://10.0.0.1/", &with_hosts("10.0.0.1")),
        forbidden("forbidden ip: 10.0.0.1")
    );
    assert_eq!(
        validate_mirror_url("http://localhost/", &with_hosts("localhost")),
        forbidden("forbidden host: localhost")
    );
}

#[test]
fn loopback_flag_opens_loopback_only() {
    for flag in ["1", "true", "TRUE", "tRuE"] {
        let s = with_loopback(flag);
        assert!(loopback_allowed(&s));
        assert_eq!(validate_mirror_url("http://127.0.0.1:1234/blob", &s), Ok(()));
        assert_eq!(validate_mirror_url("http://127.9.9.9/", &s), Ok(()));
        assert_eq!(validate_mirror_url("http://[::1]/", &s), Ok(()));
        assert!(validate_mirror_url("http://10.0.0.1/", &s).is_err());
        assert!(validate_mirror_url("http://169.254.169.254/", &s).is_err());
        assert!(validate_mirror_url("http://169.254.1.1/", &s).is_err());
        assert!(validate_mirror_url("http://localhost/", &s).is_err());
    }
    for flag in ["", "0", "yes", " 1", "true "] {
        let s = with_loopback(flag);
        assert!(!loopback_allowed(&s));
        assert!(validate_mirror_url("http://127.0.0.1:1234/blob", &s).is_err());
    }
}

#[test]
fn lookup_is_needed_for_names_only() {
    assert_eq!(
        lookup_target("https://example.com/x"),
        Ok(Some(("example.com".to_string(), 443)))
    );
    assert_eq!(
        lookup_target("http://example.com:8080/x"),
        Ok(Some(("example.com".to_string(), 8080)))
    );
    assert_eq!(lookup_target("http://8.8.8.8/x"), Ok(None));
    // An IPv6 host keeps its brackets, so it does not read as an address.
    assert_eq!(
        lookup_target("http://[2001:db8::1]/x"),
        Ok(Some(("[2001:db8::1]".to_string(), 80)))
    );
    assert_eq!(
        lookup_target("nothing"),
        Err(PinError::ForbiddenMirrorUrl(
            "parse error: relative URL without a base".to_string()
        ))
    );
    assert_eq!(
        lookup_target("data:text/plain,x"),
        Err(PinError::ForbiddenMirrorUrl("url has no host".to_string()))
    );
    assert_eq!(
        lookup_target("gopher://example.com"),
        Err(PinError::ForbiddenMirrorUrl("url has no port".to_string()))
    );
    assert_eq!(lookup_target("gopher://1.2.3.4"), Ok(None));
}

#[test]
fn lookup_works_on_the_parts_of_a_url() {
    let mut u = parts("https", Some("example.com"));
    assert_eq!(lookup_for(&Ok(u.clone())), Ok(Some(("example.com".to_string(), 443))));
    u.port = None;
    assert_eq!(
        lookup_for(&Ok(u)),
        Err(PinError::ForbiddenMirrorUrl("url has no port".to_string()))
    );
    assert_eq!(
        lookup_for(&Err("broken".to_string())),
        Err(PinError::ForbiddenMirrorUrl("parse error: broken".to_string()))
    );
}

#[test]
fn resolved_addresses_are_checked_in_order() {
    let s = no_settings();
    let public = IpAddress::V4([93, 184, 216, 34]);
    let private = IpAddress::V4([10, 1, 2, 3]);
    let link_local = IpAddress::V6([0xfe80, 0, 0, 0, 0, 0, 0, 1]);
    assert_eq!(validate_resolved_host("example.com", &Ok(vec![]), &s), Ok(()));
    assert_eq!(validate_resolved_host("example.com", &Ok(vec![public]), &s), Ok(()));
    assert_eq!(
        validate_resolved_host("example.com", &Ok(vec![public, private, link_local]), &s),
        forbidden("host example.com resolved to forbidden ip: 10.1.2.3")
    );
    assert_eq!(
        validate_resolved_host("example.com", &Ok(vec![link_local, private]), &s),
        forbidden("host example.com resolved to forbidden ip: fe80::1")
    );
    assert_eq!(
        validate_resolved_host("example.com", &Err("no such host".to_string()), &s),
        forbidden("dns lookup failed: no such host")
    );
}

#[test]
fn resolved_loopback_needs_the_flag() {
    let found = Ok(vec![IpAddress::V4([127, 0, 0, 1]), IpAddress::V6([0, 0, 0, 0, 0, 0, 0, 1])]);
    assert_eq!(validate_resolved_host("box", &found, &with_loopback("1")), Ok(()));
    assert_eq!(
        validate_resolved_host("box", &found, &no_settings()),
        forbidden("host box resolved to forbidden ip: 127.0.0.1")
    );
}

#[test]
fn known_size_is_the_limit() {
    let mut s = no_settings();
    assert_eq!(download_limit(3, &s), 3);
    assert_eq!(download_limit(0, &s), DEFAULT_MAX_DOWNLOAD_BYTES);
    assert_eq!(DEFAULT_MAX_DOWNLOAD_BYTES, 10_737_418_240);
    for (text, limit) in [
        ("1000", 1000),
        ("+7", 7),
        ("007", 7),
        ("0", 0),
        ("18446744073709551615", u64::MAX),
        ("18446744073709551616", DEFAULT_MAX_DOWNLOAD_BYTES),
        ("99999999999999999999999", DEFAULT_MAX_DOWNLOAD_BYTES),
        ("", DEFAULT_MAX_DOWNLOAD_BYTES),
        ("+", DEFAULT_MAX_DOWNLOAD_BYTES),
        ("-1", DEFAULT_MAX_DOWNLOAD_BYTES),
        (" 5", DEFAULT_MAX_DOWNLOAD_BYTES),
        ("1_000", DEFAULT_MAX_DOWNLOAD_BYTES),
    ] {
        s.max_download_bytes = Some(text.to_string());
        assert_eq!(download_limit(0, &s), limit, "{text:?}");
        assert_eq!(text.parse::<u64>().unwrap_or(DEFAULT_MAX_DOWNLOAD_BYTES), limit, "{text:?}");
        assert_eq!(download_limit(9, &s), 9);
    }
}

#[test]
fn only_http_mirrors_are_opened() {
    let s = no_settings();
    assert_eq!(
        open_mirror("https://example.com/x", &s),
        Ok(Some(("example.com".to_string(), 443)))
    );
    assert_eq!(open_mirror("http://8.8.8.8/x", &s), Ok(None));
    for mirror in ["s3://bucket/key", "r2://bucket/key", "ipfs://cid"] {
        assert_eq!(
            open_mirror(mirror, &s),
            Err(PinError::UnsupportedScheme(format!(
                "scheme not yet wired in skeleton: {mirror}"
            )))
        );
    }
    for mirror in ["ftp://example.com/x", "HTTP://example.com/x", "", "example.com"] {
        assert_eq!(
            open_mirror(mirror, &s),
            Err(PinError::UnsupportedScheme(mirror.to_string()))
        );
    }
    assert_eq!(
        open_mirror("http://127.0.0.1/x", &s),
        Err(PinError::ForbiddenMirrorUrl("forbidden ip: 127.0.0.1".to_string()))
    );
}
