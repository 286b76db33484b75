//! What errors say, what outcomes mean, and that views show what is there.
use vstd::prelude::*;
use crate::error::{error_text, PinError, PinErrorView};
use crate::fetch::{errors, Action, ActionView, Event, EventView};
use crate::ip::{IpAddress, IpView};
use crate::mirror::{
    addresses, is_lookup, looked_up, optional, parsed, verdict, Settings, UrlParts, UrlView,
};
use crate::model::{strings, ModelEntry};
use crate::pinner::{CacheFile, CacheFileView};
use crate::text::{number_text, texts};

verus! {

/// An error says of which kind it is, and then everything that it holds.
pub proof fn errors_say_what_they_hold(t: Seq<char>, u: Seq<char>, limit: u64, actual: u64)
    ensures
        error_text(PinErrorView::Io(t)) == "io: "@ + t,
        error_text(PinErrorView::Http(t)) == "http: "@ + t,
        error_text(PinErrorView::HashMismatch { expected: t, actual: u })
            == "hash mismatch: expected "@ + t + ", got "@ + u,
        error_text(PinErrorView::NoMirrorAvailable { model_id: t }) == "no mirror could serve "@ + t,
        error_text(PinErrorView::UnsupportedScheme(t)) == "unsupported scheme: "@ + t,
        error_text(PinErrorView::ForbiddenMirrorUrl(t)) == "forbidden mirror url: "@ + t,
        error_text(PinErrorView::InvalidModelId(t)) == "invalid model_id: "@ + t,
        error_text(PinErrorView::DownloadTooLarge { limit, actual }) == "download too large: limit "@
            + number_text(limit as nat, 10) + " bytes, got at least "@ + number_text(
            actual as nat,
            10,
        ) + " bytes"@,
{
}

/// A check that finds no reason to reject passes, and one that finds a reason fails
/// with it.
pub proof fn checks_fail_for_a_reason(reason: Option<Seq<char>>, r: Result<(), PinError>)
    requires
        verdict(reason, r),
    ensures
        r is Ok <==> reason is None,
        r matches Err(e) ==> (reason matches Some(t) && e@ == PinErrorView::ForbiddenMirrorUrl(t)),
{
}

/// A lookup is asked for, left out or refused as it was decided.
pub proof fn lookups_are_as_decided(
    l: Result<Option<(Seq<char>, u16)>, Seq<char>>,
    r: Result<Option<(String, u16)>, PinError>,
)
    requires
        is_lookup(l, r),
    ensures
        l matches Ok(Some(target)) ==> (r matches Ok(Some(asked)) && asked.0@ == target.0 && asked.1
            == target.1),
        l matches Ok(None) ==> r matches Ok(None),
        l matches Err(t) ==> (r matches Err(e) && e@ == PinErrorView::ForbiddenMirrorUrl(t)),
{
}

/// Lists are seen with every item, in order.
pub proof fn lists_are_seen_in_full(
    lines: Seq<String>,
    fields: Seq<Vec<char>>,
    ips: Seq<IpAddress>,
    failed: Seq<PinError>,
)
    ensures
        strings(lines).len() == lines.len(),
        forall|i: int| 0 <= i < lines.len() ==> #[trigger] strings(lines)[i] == lines[i]@,
        texts(fields).len() == fields.len(),
        forall|i: int| 0 <= i < fields.len() ==> #[trigger] texts(fields)[i] == fields[i]@,
        addresses(ips).len() == ips.len(),
        forall|i: int| 0 <= i < ips.len() ==> #[trigger] addresses(ips)[i] == ips[i]@,
        errors(failed).len() == failed.len(),
        forall|i: int| 0 <= i < failed.len() ==> #[trigger] errors(failed)[i] == failed[i]@,
{
}

/// Settings, the parts of a URL and model entries are seen with every part of them.
pub proof fn records_are_seen_in_full(s: Settings, u: UrlParts, m: ModelEntry, t: String)
    ensures
        optional(Some(t)) == Some(t@),
        optional(None) is None,
        s@.allowed_hosts == optional(s.allowed_hosts),
        s@.allow_loopback == optional(s.allow_loopback),
        s@.max_download_bytes == optional(s.max_download_bytes),
        u@.scheme == u.scheme@,
        u@.username == u.username@,
        u@.password == optional(u.password),
        u@.host == optional(u.host),
        u@.port == u.port,
        m@.model_id == m.model_id@,
        m@.expected_sha256 == m.expected_sha256@,
        m@.mirrors == strings(m.mirrors@),
        m@.size_bytes == m.size_bytes,
{
}

/// Outcomes of parsing and of looking up are seen as what they are.
pub proof fn outcomes_are_seen_as_they_are(u: UrlParts, ips: Vec<IpAddress>, e: String)
    ensures
        parsed(Ok(u)) == Ok::<UrlView, Seq<char>>(u@),
        parsed(Err(e)) == Err::<UrlView, _>(e@),
        looked_up(Ok(ips)) == Ok::<Seq<IpView>, Seq<char>>(addresses(ips@)),
        looked_up(Err(e)) == Err::<Seq<IpView>, _>(e@),
{
}

/// Addresses and errors are seen as what they are.
pub proof fn addresses_and_errors_are_seen_as_they_are(
    o: [u8; 4],
    g: [u16; 8],
    t: String,
    u: String,
    limit: u64,
    actual: u64,
)
    ensures
        IpAddress::V4(o)@ == IpView::V4(o@),
        IpAddress::V6(g)@ == IpView::V6(g@),
        PinError::Io(t)@ == PinErrorView::Io(t@),
        PinError::Http(t)@ == PinErrorView::Http(t@),
        (PinError::HashMismatch { expected: t, actual: u })@ == (PinErrorView::HashMismatch {
            expected: t@,
            actual: u@,
        }),
        (PinError::NoMirrorAvailable { model_id: t })@ == (PinErrorView::NoMirrorAvailable {
            model_id: t@,
        }),
        PinError::UnsupportedScheme(t)@ == PinErrorView::UnsupportedScheme(t@),
        PinError::ForbiddenMirrorUrl(t)@ == PinErrorView::ForbiddenMirrorUrl(t@),
        PinError::InvalidModelId(t)@ == PinErrorView::InvalidModelId(t@),
        (PinError::DownloadTooLarge { limit, actual })@ == (PinErrorView::DownloadTooLarge {
            limit,
            actual,
        }),
{
}

/// Actions are seen as what they are.
pub proof fn actions_are_seen_as_they_are(t: String, port: u16, bytes: Vec<u8>, e: PinError)
    ensures
        (Action::ReadCache { file_name: t })@ == (ActionView::ReadCache { file_name: t@ }),
        Action::CreateCacheDir@ == ActionView::CreateCacheDir,
        (Action::Lookup { host: t, port })@ == (ActionView::Lookup { host: t@, port }),
        (Action::Request { url: t })@ == (ActionView::Request { url: t@ }),
        Action::NextChunk@ == ActionView::NextChunk,
        (Action::Store { file_name: t, bytes })@ == (ActionView::Store {
            file_name: t@,
            bytes: bytes@,
        }),
        Action::Finish(Ok(t))@ == ActionView::Finish(Ok(t@)),
        Action::Finish(Err(e))@ == ActionView::Finish(Err(e@)),
{
}

/// Events are seen as what they are.
pub proof fn events_are_seen_as_they_are(
    t: String,
    bytes: Vec<u8>,
    ips: Vec<IpAddress>,
    length: Option<u64>,
)
    ensures
        CacheFile::Missing@ == CacheFileView::Missing,
        CacheFile::Unreadable(t)@ == CacheFileView::Unreadable(t@),
        CacheFile::Contents(bytes)@ == CacheFileView::Contents(bytes@),
        Event::Cache(CacheFile::Missing)@ == EventView::Cache(CacheFileView::Missing),
        Event::Cache(CacheFile::Unreadable(t))@ == EventView::Cache(CacheFileView::Unreadable(t@)),
        Event::Cache(CacheFile::Contents(bytes))@ == EventView::Cache(
            CacheFileView::Contents(bytes@),
        ),
        Event::DirectoryReady(Ok(()))@ matches EventView::DirectoryReady(Ok(_)),
        Event::DirectoryReady(Err(t))@ == EventView::DirectoryReady(Err(t@)),
        Event::Resolved(Ok(ips))@ == EventView::Resolved(Ok(addresses(ips@))),
        Event::Resolved(Err(t))@ == EventView::Resolved(Err(t@)),
        Event::Head(Ok(length))@ == EventView::Head(Ok(length)),
        Event::Head(Err(t))@ == EventView::Head(Err(t@)),
        Event::Chunk(Ok(Some(bytes)))@ == EventView::Chunk(Ok(Some(bytes@))),
        Event::Chunk(Ok(None))@ == EventView::Chunk(Ok(None)),
        Event::Chunk(Err(t))@ == EventView::Chunk(Err(t@)),
        Event::Stored(Ok(()))@ matches EventView::Stored(Ok(_)),
        Event::Stored(Err(t))@ == EventView::Stored(Err(t@)),
{
}

} // verus!
