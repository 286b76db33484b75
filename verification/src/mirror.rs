//! Which mirrors may be contacted.
use vstd::prelude::*;
use crate::error::{PinError, PinErrorView};
use crate::ip::{
    ip_is_forbidden, ip_of, ip_text, is_forbidden, is_loopback, parse_ip, write_ip, IpAddress,
    IpView,
};
use crate::text::{
    chars_of, join_text, ends_with, lower, parse_u64, same_chars, same_text, split, split_fields,
    string_of, texts, to_lower, trim, trim_start_of, trimmed, trimmed_start_of, u64_of,
};
use vstd::slice::slice_subrange;

verus! {

/// How much is downloaded at most where nothing else limits a download.
pub const DEFAULT_MAX_DOWNLOAD_BYTES: u64 = 10 * 1024 * 1024 * 1024;

/// The operator's settings, each as the text that was given, if any was.
#[derive(Clone, Debug)]
pub struct Settings {
    /// Host suffixes between commas; where it names one, no other host is allowed.
    pub allowed_hosts: Option<String>,
    /// `1` or `true` where loopback addresses may be contacted.
    pub allow_loopback: Option<String>,
    /// How many bytes to download at most for a model of unknown size.
    pub max_download_bytes: Option<String>,
}

/// The contents of an optional text.
pub open spec fn optional(t: Option<String>) -> Option<Seq<char>> {
    match t {
        Some(t) => Some(t@),
        None => None,
    }
}

/// The settings with their texts as sequences of characters.
#[verifier::ext_equal]
pub struct SettingsView {
    pub allowed_hosts: Option<Seq<char>>,
    pub allow_loopback: Option<Seq<char>>,
    pub max_download_bytes: Option<Seq<char>>,
}

impl View for Settings {
    type V = SettingsView;

    open spec fn view(&self) -> SettingsView {
        SettingsView {
            allowed_hosts: optional(self.allowed_hosts),
            allow_loopback: optional(self.allow_loopback),
            max_download_bytes: optional(self.max_download_bytes),
        }
    }
}

/// What the checks read of a parsed URL. An IPv6 host stands in brackets, and the
/// port is that of the scheme where the URL names none.
#[derive(Clone, Debug)]
pub struct UrlParts {
    pub scheme: String,
    pub username: String,
    pub password: Option<String>,
    pub host: Option<String>,
    pub port: Option<u16>,
}

/// The parts of a URL with their texts as sequences of characters.
#[verifier::ext_equal]
pub struct UrlView {
    pub scheme: Seq<char>,
    pub username: Seq<char>,
    pub password: Option<Seq<char>>,
    pub host: Option<Seq<char>>,
    pub port: Option<u16>,
}

impl View for UrlParts {
    type V = UrlView;

    open spec fn view(&self) -> UrlView {
        UrlView {
            scheme: self.scheme@,
            username: self.username@,
            password: optional(self.password),
            host: optional(self.host),
            port: self.port,
        }
    }
}

/// The outcome of parsing a URL: its parts, or the text of the error.
pub open spec fn parsed(r: Result<UrlParts, String>) -> Result<UrlView, Seq<char>> {
    match r {
        Ok(u) => Ok(u@),
        Err(e) => Err(e@),
    }
}

/// What `url::Url::parse` makes of a text: the parts that its accessors give, or
/// the text of its error.
pub uninterp spec fn url_of(text: Seq<char>) -> Result<UrlView, Seq<char>>;

/// `url::Url::parse`, and of the URL `scheme`, `username`, `password`, `host_str`
/// and `port_or_known_default`. Claimed of it: the outcome is a function of the
/// text, named `url_of`.
#[verifier::external_body]
fn parse_url(text: &str) -> (r: Result<UrlParts, String>)
    ensures
        parsed(r) == url_of(text@),
{
    match url::Url::parse(text) {
        Ok(u) => Ok(
            UrlParts {
                scheme: u.scheme().to_string(),
                username: u.username().to_string(),
                password: u.password().map(|p| p.to_string()),
                host: u.host_str().map(|h| h.to_string()),
                port: u.port_or_known_default(),
            },
        ),
        Err(e) => Err(e.to_string()),
    }
}

/// The host of a URL as the checks compare it: in lower case, and without the
/// brackets round an IPv6 address.
pub open spec fn host_name(host: Seq<char>) -> Seq<char> {
    let raw = lower(host);
    if raw.len() >= 2 && raw.first() == '[' && raw.last() == ']' {
        raw.subrange(1, raw.len() - 1)
    } else {
        raw
    }
}

/// The hosts that are refused by name: this machine and the metadata services of
/// cloud providers.
pub open spec fn is_reserved_host(host: Seq<char>) -> bool {
    ||| host == "localhost"@
    ||| host == "metadata.google.internal"@
    ||| host == "metadata.azure.com"@
    ||| host == "metadata"@
    ||| host == "169.254.169.254"@
    ||| host == "100.100.100.200"@
}

/// One entry of the allow-list: without white space round it, without the
/// wildcard before it, and in lower case.
pub open spec fn allow_entry(field: Seq<char>) -> Seq<char> {
    lower(trim_start_of(trim_start_of(trim(field), '*'), '.'))
}

/// Whether an entry of the allow-list covers a host: the host itself, or a
/// domain above it.
pub open spec fn covers(entry: Seq<char>, host: Seq<char>) -> bool {
    host == entry || (seq!['.'] + entry).is_suffix_of(host)
}

/// Whether an allow-list has an entry at all.
pub open spec fn names_hosts(list: Seq<char>) -> bool {
    exists|i: int|
        0 <= i < split(list, ',').len() && allow_entry(#[trigger] split(list, ',')[i]).len() > 0
}

/// Whether an entry of an allow-list covers a host.
pub open spec fn lists_host(list: Seq<char>, host: Seq<char>) -> bool {
    exists|i: int|
        0 <= i < split(list, ',').len() && allow_entry(#[trigger] split(list, ',')[i]).len() > 0
            && covers(allow_entry(split(list, ',')[i]), host)
}

/// Whether the allow-list, where there is one with an entry, covers a host.
pub open spec fn is_allowed_host(s: SettingsView, host: Seq<char>) -> bool {
    match s.allowed_hosts {
        Some(list) => names_hosts(list) ==> lists_host(list, host),
        None => true,
    }
}

/// Whether the settings open loopback addresses.
pub open spec fn loopback_open(s: SettingsView) -> bool {
    match s.allow_loopback {
        Some(v) => v == "1"@ || lower(v) == "true"@,
        None => false,
    }
}

/// Whether an address may not be contacted under the settings.
pub open spec fn is_blocked(ip: IpView, s: SettingsView) -> bool {
    is_forbidden(ip) && !(loopback_open(s) && is_loopback(ip))
}

/// Why a host may not be contacted, if it may not.
pub open spec fn host_rejection(host: Seq<char>, s: SettingsView) -> Option<Seq<char>> {
    if is_reserved_host(host) {
        Some("forbidden host: "@ + host)
    } else if !is_allowed_host(s, host) {
        Some("host "@ + host + " not in allow-list"@)
    } else {
        match ip_of(host) {
            Some(ip) => if is_blocked(ip, s) {
                Some("forbidden ip: "@ + ip_text(ip))
            } else {
                None
            },
            None => None,
        }
    }
}

/// Why a URL may not be contacted, if it may not: the first check that it fails.
pub open spec fn url_rejection(url: Result<UrlView, Seq<char>>, s: SettingsView) -> Option<
    Seq<char>,
> {
    match url {
        Err(e) => Some("parse error: "@ + e),
        Ok(u) => if u.scheme != "http"@ && u.scheme != "https"@ {
            Some("unsupported scheme: "@ + u.scheme)
        } else if u.username.len() > 0 || u.password is Some {
            Some("url credentials not allowed"@)
        } else {
            match u.host {
                None => Some("url has no host"@),
                Some(h) => host_rejection(host_name(h), s),
            }
        },
    }
}

/// Whether a check that rejects for `reason`, if there is one, gives `r`.
pub open spec fn verdict(reason: Option<Seq<char>>, r: Result<(), PinError>) -> bool {
    match r {
        Ok(()) => reason is None,
        Err(e) => reason matches Some(t) && e@ == PinErrorView::ForbiddenMirrorUrl(t),
    }
}

fn forbidden(reason: String) -> (r: Result<(), PinError>)
    ensures
        verdict(Some(reason@), r),
{
    Err(PinError::ForbiddenMirrorUrl(reason))
}

fn normal_host(host: &str) -> (r: Vec<char>)
    ensures
        r@ == host_name(host@),
{
    let raw = to_lower(&chars_of(host));
    let n = raw.len();
    if n >= 2 && raw[0] == '[' && raw[n - 1] == ']' {
        let inner = slice_subrange(&raw, 1, n - 1);
        chars_of(string_of(inner).as_str())
    } else {
        raw
    }
}

fn reserved_host(host: &[char]) -> (r: bool)
    ensures
        r == is_reserved_host(host@),
{
    same_chars(host, &chars_of("localhost")) || same_chars(
        host,
        &chars_of("metadata.google.internal"),
    ) || same_chars(host, &chars_of("metadata.azure.com")) || same_chars(
        host,
        &chars_of("metadata"),
    ) || same_chars(host, &chars_of("169.254.169.254")) || same_chars(
        host,
        &chars_of("100.100.100.200"),
    )
}

fn entry_covers(entry: &[char], host: &[char]) -> (r: bool)
    ensures
        r == covers(entry@, host@),
{
    let mut dotted: Vec<char> = vec!['.'];
    let mut rest = chars_of(string_of(entry).as_str());
    dotted.append(&mut rest);
    assert(dotted@ =~= seq!['.'] + entry@);
    same_chars(host, entry) || ends_with(host, &dotted)
}

/// Whether the allow-list of the settings lets a host through.
fn allowed_host(settings: &Settings, host: &[char]) -> (r: bool)
    ensures
        r == is_allowed_host(settings@, host@),
{
    let list = match &settings.allowed_hosts {
        Some(list) => list,
        None => return true,
    };
    let fields = split_fields(&chars_of(list.as_str()), ',');
    let ghost f = split(list@, ',');
    let mut named = false;
    for i in 0..fields.len()
        invariant
            texts(fields@) == f,
            f == split(list@, ','),
            settings@.allowed_hosts == Some(list@),
            named == exists|j: int| 0 <= j < i && allow_entry(#[trigger] f[j]).len() > 0,
            forall|j: int|
                0 <= j < i && allow_entry(#[trigger] f[j]).len() > 0 ==> !covers(
                    allow_entry(f[j]),
                    host@,
                ),
    {
        assert(f[i as int] == fields@[i as int]@);
        let field = trimmed_start_of(trimmed_start_of(trimmed(&fields[i]), '*'), '.');
        let entry = to_lower(field);
        if entry.len() > 0 {
            named = true;
            if entry_covers(&entry, host) {
                return true;
            }
        }
    }
    !named
}

/// Whether the settings open loopback addresses.
pub fn loopback_allowed(settings: &Settings) -> (r: bool)
    ensures
        r == loopback_open(settings@),
{
    match &settings.allow_loopback {
        Some(v) => same_text(v.as_str(), "1") || same_chars(
            &to_lower(&chars_of(v.as_str())),
            &chars_of("true"),
        ),
        None => false,
    }
}

/// Whether an address may not be contacted under the settings.
fn blocked(ip: &IpAddress, settings: &Settings) -> (r: bool)
    ensures
        r == is_blocked(ip@, settings@),
{
    ip_is_forbidden(ip) && !(loopback_allowed(settings) && ip.is_loopback())
}

/// Checks the parts of a mirror's URL: plain HTTP or HTTPS, no credentials, and a
/// host that is neither reserved, nor outside the allow-list, nor a literal of a
/// forbidden address.
pub fn check_url(url: &Result<UrlParts, String>, settings: &Settings) -> (r: Result<(), PinError>)
    ensures
        verdict(url_rejection(parsed(*url), settings@), r),
{
    let u = match url {
        Ok(u) => u,
        Err(e) => return forbidden(join_text("parse error: ", e.as_str())),
    };
    if !same_text(u.scheme.as_str(), "http") && !same_text(u.scheme.as_str(), "https") {
        return forbidden(join_text("unsupported scheme: ", u.scheme.as_str()));
    }
    if !u.username.as_str().is_empty() || u.password.is_some() {
        return forbidden("url credentials not allowed".to_string());
    }
    let host = match &u.host {
        Some(h) => normal_host(h.as_str()),
        None => return forbidden("url has no host".to_string()),
    };
    let host_text = string_of(&host);
    if reserved_host(&host) {
        return forbidden(join_text("forbidden host: ", host_text.as_str()));
    }
    if !allowed_host(settings, &host) {
        let mut reason = join_text("host ", host_text.as_str());
        reason.append(" not in allow-list");
        return forbidden(reason);
    }
    match parse_ip(host_text.as_str()) {
        Some(ip) => if blocked(&ip, settings) {
            forbidden(join_text("forbidden ip: ", write_ip(&ip).as_str()))
        } else {
            Ok(())
        },
        None => Ok(()),
    }
}

/// Checks a mirror's URL before anything is sent.
pub fn validate_mirror_url(url: &str, settings: &Settings) -> (r: Result<(), PinError>)
    ensures
        verdict(url_rejection(url_of(url@), settings@), r),
{
    check_url(&parse_url(url), settings)
}

/// The host and port whose addresses must be looked up before a URL is requested,
/// none where the host is the literal of an address; or why there are none.
pub open spec fn lookup_of(url: Result<UrlView, Seq<char>>) -> Result<
    Option<(Seq<char>, u16)>,
    Seq<char>,
> {
    match url {
        Err(e) => Err("parse error: "@ + e),
        Ok(u) => match u.host {
            None => Err("url has no host"@),
            Some(h) => if ip_of(h) is Some {
                Ok(None)
            } else {
                match u.port {
                    Some(p) => Ok(Some((h, p))),
                    None => Err("url has no port"@),
                }
            },
        },
    }
}

/// Whether `r` is the lookup `l`.
pub open spec fn is_lookup(
    l: Result<Option<(Seq<char>, u16)>, Seq<char>>,
    r: Result<Option<(String, u16)>, PinError>,
) -> bool {
    match r {
        Ok(Some((host, port))) => l == Ok::<_, Seq<char>>(Some((host@, port))),
        Ok(None) => l == Ok::<Option<(Seq<char>, u16)>, Seq<char>>(None),
        Err(e) => l matches Err(t) && e@ == PinErrorView::ForbiddenMirrorUrl(t),
    }
}

/// What of a parsed URL has to be looked up.
pub fn lookup_for(url: &Result<UrlParts, String>) -> (r: Result<Option<(String, u16)>, PinError>)
    ensures
        is_lookup(lookup_of(parsed(*url)), r),
{
    let u = match url {
        Ok(u) => u,
        Err(e) => return Err(PinError::ForbiddenMirrorUrl(join_text("parse error: ", e.as_str()))),
    };
    match &u.host {
        None => Err(PinError::ForbiddenMirrorUrl("url has no host".to_string())),
        Some(h) => if parse_ip(h.as_str()).is_some() {
            Ok(None)
        } else {
            match u.port {
                Some(p) => Ok(Some((h.clone(), p))),
                None => Err(PinError::ForbiddenMirrorUrl("url has no port".to_string())),
            }
        },
    }
}

/// What has to be looked up before a URL is requested.
pub fn lookup_target(url: &str) -> (r: Result<Option<(String, u16)>, PinError>)
    ensures
        is_lookup(lookup_of(url_of(url@)), r),
{
    lookup_for(&parse_url(url))
}

/// The contents of a list of addresses.
pub open spec fn addresses(v: Seq<IpAddress>) -> Seq<IpView> {
    Seq::new(v.len(), |i: int| v[i]@)
}

/// The outcome of a lookup: the addresses, or the text of the error.
pub open spec fn looked_up(r: Result<Vec<IpAddress>, String>) -> Result<Seq<IpView>, Seq<char>> {
    match r {
        Ok(ips) => Ok(addresses(ips@)),
        Err(e) => Err(e@),
    }
}

/// The first address that may not be contacted, if there is one.
pub open spec fn first_blocked(ips: Seq<IpView>, s: SettingsView) -> Option<IpView>
    decreases ips.len(),
{
    if ips.len() == 0 {
        None
    } else if is_blocked(ips.first(), s) {
        Some(ips.first())
    } else {
        first_blocked(ips.drop_first(), s)
    }
}

/// Why a host may not be contacted after its lookup, if it may not.
pub open spec fn lookup_rejection(
    host: Seq<char>,
    found: Result<Seq<IpView>, Seq<char>>,
    s: SettingsView,
) -> Option<Seq<char>> {
    match found {
        Err(e) => Some("dns lookup failed: "@ + e),
        Ok(ips) => match first_blocked(ips, s) {
            Some(ip) => Some("host "@ + host + " resolved to forbidden ip: "@ + ip_text(ip)),
            None => None,
        },
    }
}

/// Checks the addresses that were found for a mirror's host.
pub fn validate_resolved_host(
    host: &str,
    found: &Result<Vec<IpAddress>, String>,
    settings: &Settings,
) -> (r: Result<(), PinError>)
    ensures
        verdict(lookup_rejection(host@, looked_up(*found), settings@), r),
{
    let ips = match found {
        Ok(ips) => ips,
        Err(e) => return forbidden(join_text("dns lookup failed: ", e.as_str())),
    };
    let ghost all = addresses(ips@);
    assert(all.skip(0) == all);
    for i in 0..ips.len()
        invariant
            all == addresses(ips@),
            looked_up(*found) == Ok::<_, Seq<char>>(all),
            first_blocked(all, settings@) == first_blocked(all.skip(i as int), settings@),
    {
        assert(all.skip(i as int).drop_first() == all.skip(i + 1));
        if blocked(&ips[i], settings) {
            let mut reason = join_text("host ", host);
            reason.append(" resolved to forbidden ip: ");
            reason.append(write_ip(&ips[i]).as_str());
            return forbidden(reason);
        }
    }
    Ok(())
}

/// How many bytes a download may have: the size of the model where it is known,
/// else what the settings say, if they say it as a number.
pub open spec fn limit_of(size_bytes: u64, s: SettingsView) -> u64 {
    if size_bytes > 0 {
        size_bytes
    } else {
        match s.max_download_bytes {
            Some(t) => match u64_of(t) {
                Some(n) => n,
                None => DEFAULT_MAX_DOWNLOAD_BYTES,
            },
            None => DEFAULT_MAX_DOWNLOAD_BYTES,
        }
    }
}

/// How many bytes a download may have.
pub fn download_limit(size_bytes: u64, settings: &Settings) -> (r: u64)
    ensures
        r == limit_of(size_bytes, settings@),
{
    if size_bytes > 0 {
        return size_bytes;
    }
    match &settings.max_download_bytes {
        Some(t) => parse_u64(t.as_str()).unwrap_or(DEFAULT_MAX_DOWNLOAD_BYTES),
        None => DEFAULT_MAX_DOWNLOAD_BYTES,
    }
}

} // verus!
