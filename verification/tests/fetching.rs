use sha2::Digest;
use weight_cdn_pinner::error::PinError;
use weight_cdn_pinner::fetch::{Action, Event};
use weight_cdn_pinner::ip::IpAddress;
use weight_cdn_pinner::mirror::Settings;
use weight_cdn_pinner::model::ModelEntry;
use weight_cdn_pinner::pinner::{CacheFile, Pinner};

const SERVER: &str = "http://127.0.0.1:1234";

fn sha256(bytes: &[u8]) -> [u8; 32] {
    sha2::Sha256::digest(bytes).into()
}

fn file_name() -> String {
    format!("{}.bin", "01".repeat(32))
}

fn sample_entry(bytes: &[u8], mirrors: Vec<String>) -> ModelEntry {
    ModelEntry {
        model_id: "0x".to_string() + &"01".repeat(32),
        expected_sha256: sha256(bytes),
        mirrors,
        size_bytes: bytes.len() as u64,
    }
}

fn settings(loopback: bool) -> Settings {
    Settings {
        allowed_hosts: None,
        allow_loopback: if loopback { Some("1".to_string()) } else { None },
        max_download_bytes: None,
    }
}

/// What a simulated server answers: an announced length, chunks, and an error
/// after them, if any.
struct Reply {
    length: Option<u64>,
    chunks: Vec<Vec<u8>>,
    broken: bool,
}

fn body(bytes: &[u8]) -> Reply {
    Reply { length: Some(bytes.len() as u64), chunks: vec![bytes.to_vec()], broken: false }
}

/// A simulated surrounding: what is cached, who answers what, and what was done.
struct World {
    cached: Option<Vec<u8>>,
    disk_full: bool,
    hosts: Vec<(String, Vec<IpAddress>)>,
    replies: Vec<(String, Reply)>,
    looked_up: Vec<String>,
    requested: Vec<String>,
    stored: Vec<(String, Vec<u8>)>,
}

fn world() -> World {
    World {
        cached: None,
        disk_full: false,
        hosts: vec![],
        replies: vec![],
        looked_up: vec![],
        requested: vec![],
        stored: vec![],
    }
}

fn fetch(
    world: &mut World,
    entry: &ModelEntry,
    settings: &Settings,
) -> (Result<String, PinError>, Vec<PinError>) {
    let pinner = Pinner::new("/cache");
    let (mut fetch, mut action) = pinner.fetch_and_pin(entry);
    let mut pending: Vec<Vec<u8>> = vec![];
    let mut broken = false;
    loop {
        let event = match action {
            Action::ReadCache { file_name: name } => {
                assert_eq!(name, file_name());
                Event::Cache(match &world.cached {
                    Some(bytes) => CacheFile::Contents(bytes.clone()),
                    None => CacheFile::Missing,
                })
            }
            Action::CreateCacheDir => Event::DirectoryReady(Ok(())),
            Action::Lookup { host, port } => {
                let found = world.hosts.iter().find(|(h, _)| *h == host).map(|(_, a)| a.clone());
                world.looked_up.push(format!("{host}:{port}"));
                Event::Resolved(found.ok_or("no such host".to_string()))
            }
            Action::Request { url } => {
                world.requested.push(url.clone());
                match world.replies.iter().find(|(u, _)| *u == url) {
                    Some((_, reply)) => {
                        pending = reply.chunks.clone();
                        broken = reply.broken;
                        Event::Head(Ok(reply.length))
                    }
                    None => Event::Head(Err("connection refused".to_string())),
                }
            }
            Action::NextChunk => {
                if !pending.is_empty() {
                    Event::Chunk(Ok(Some(pending.remove(0))))
                } else if broken {
                    Event::Chunk(Err("connection reset".to_string()))
                } else {
                    Event::Chunk(Ok(None))
                }
            }
            Action::Store { file_name, bytes } => {
                if world.disk_full {
                    Event::Stored(Err("disk full".to_string()))
                } else {
                    world.stored.push((file_name, bytes));
                    Event::Stored(Ok(()))
                }
            }
            Action::Finish(result) => return (result, fetch.failures().clone()),
        };
        let next = fetch.step(settings, event);
        fetch = next.0;
        action = next.1;
    }
}

fn no_mirror() -> Result<String, PinError> {
    Err(PinError::NoMirrorAvailable { model_id: "0x".to_string() + &"01".repeat(32) })
}

#[test]
fn fetch_rejects_hash_mismatch() {
    let mut w = world();
    let url = format!("{SERVER}/blob");
    w.replies.push((url.clone(), body(b"not the right bytes")));
    let mut entry = sample_entry(b"hello world", vec![url]);
    let (result, failures) = fetch(&mut w, &entry, &settings(true));
    assert_eq!(result, no_mirror());
    assert_eq!(failures, vec![PinError::DownloadTooLarge { limit: 11, actual: 19 }]);
    // Where the size is not declared, only the digest gives it away.
    entry.size_bytes = 0;
    let (result, failures) = fetch(&mut w, &entry, &settings(true));
    assert_eq!(result, no_mirror());
    assert_eq!(
        failures,
        vec![PinError::HashMismatch {
            expected: hex::encode(sha256(b"hello world")),
            actual: hex::encode(sha256(b"not the right bytes")),
        }]
    );
    assert!(w.stored.is_empty());
}

#[test]
fn fetch_rejects_body_larger_than_declared_size() {
    let mut w = world();
    let url = format!("{SERVER}/blob");
    w.replies.push((url.clone(), body(b"too large")));
    let mut entry = sample_entry(b"too large", vec![url.clone()]);
    entry.size_bytes = 3;
    let (result, failures) = fetch(&mut w, &entry, &settings(true));
    assert_eq!(result, no_mirror());
    assert_eq!(failures, vec![PinError::DownloadTooLarge { limit: 3, actual: 9 }]);
    // Without an announced length the chunk that goes too far is refused.
    w.replies = vec![(
        url,
        Reply { length: None, chunks: vec![b"too".to_vec(), b" l".to_vec(), b"arge".to_vec()], broken: false },
    )];
    let (result, failures) = fetch(&mut w, &entry, &settings(true));
    assert_eq!(result, no_mirror());
    assert_eq!(failures, vec![PinError::DownloadTooLarge { limit: 3, actual: 5 }]);
}

#[test]
fn fetch_succeeds_when_hash_matches() {
    let mut w = world();
    let url = format!("{SERVER}/blob");
    w.replies.push((url.clone(), body(b"hello world")));
    let entry = sample_entry(b"hello world", vec![url]);
    let (result, failures) = fetch(&mut w, &entry, &settings(true));
    assert_eq!(result, Ok(file_name()));
    assert!(failures.is_empty());
    assert_eq!(w.stored, vec![(file_name(), b"hello world".to_vec())]);
}

#[test]
fn fetch_rejects_ssrf_mirror_without_guard() {
    let mut w = world();
    let url = format!("{SERVER}/blob");
    w.replies.push((url.clone(), body(b"x")));
    let entry = sample_entry(b"x", vec![url]);
    let (result, failures) = fetch(&mut w, &entry, &settings(false));
    assert_eq!(result, no_mirror());
    assert_eq!(
        failures,
        vec![PinError::ForbiddenMirrorUrl("forbidden ip: 127.0.0.1".to_string())]
    );
    assert!(w.requested.is_empty());
}

#[test]
fn fetch_falls_through_mirrors() {
    let mut w = world();
    let (bad, good) = (format!("{SERVER}/bad"), format!("{SERVER}/good"));
    w.replies.push((bad.clone(), body(b"")));
    w.replies.push((good.clone(), body(b"hello world")));
    let entry = sample_entry(b"hello world", vec![bad.clone(), good.clone()]);
    let (result, failures) = fetch(&mut w, &entry, &settings(true));
    assert_eq!(result, Ok(file_name()));
    assert_eq!(failures.len(), 1);
    assert_eq!(w.requested, vec![bad, good]);
    assert_eq!(w.stored, vec![(file_name(), b"hello world".to_vec())]);
}

#[test]
fn cache_hit_contacts_nobody() {
    let mut w = world();
    w.cached = Some(b"hello world".to_vec());
    let entry = sample_entry(b"hello world", vec![format!("{SERVER}/blob")]);
    let (result, _) = fetch(&mut w, &entry, &settings(true));
    assert_eq!(result, Ok(file_name()));
    assert!(w.requested.is_empty());
    assert!(w.stored.is_empty());
}

#[test]
fn corrupted_cache_is_replaced() {
    let mut w = world();
    let url = format!("{SERVER}/blob");
    w.cached = Some(b"corrupted".to_vec());
    w.replies.push((url.clone(), body(b"hello world")));
    let entry = sample_entry(b"hello world", vec![url]);
    assert_eq!(fetch(&mut w, &entry, &settings(true)).0, Ok(file_name()));
    assert_eq!(w.stored, vec![(file_name(), b"hello world".to_vec())]);
}

#[test]
fn chunks_are_put_together() {
    let url = format!("{SERVER}/blob");
    let entry = sample_entry(b"hello world", vec![url.clone()]);
    for cut in 0..=11 {
        let mut w = world();
        let chunks = vec![b"hello world"[..cut].to_vec(), vec![], b"hello world"[cut..].to_vec()];
        w.replies.push((url.clone(), Reply { length: None, chunks, broken: false }));
        assert_eq!(fetch(&mut w, &entry, &settings(true)).0, Ok(file_name()));
        assert_eq!(w.stored, vec![(file_name(), b"hello world".to_vec())]);
    }
}

#[test]
fn every_failure_is_recorded_in_order() {
    let mut w = world();
    w.hosts.push(("inside.example".to_string(), vec![IpAddress::V4([10, 0, 0, 7])]));
    w.hosts.push(("outside.example".to_string(), vec![IpAddress::V4([8, 8, 4, 4])]));
    w.replies.push((
        "https://outside.example/short".to_string(),
        Reply { length: None, chunks: vec![b"hel".to_vec()], broken: true },
    ));
    w.replies.push(("https://outside.example/good".to_string(), body(b"hello world")));
    let mirrors: Vec<String> = [
        "s3://bucket/key",
        "https://inside.example/blob",
        "https://nowhere.example/blob",
        "https://outside.example/absent",
        "https://outside.example/short",
        "https://outside.example/good",
        "https://outside.example/unused",
    ]
    .iter()
    .map(|m| m.to_string())
    .collect();
    let entry = sample_entry(b"hello world", mirrors);
    let (result, failures) = fetch(&mut w, &entry, &settings(false));
    assert_eq!(result, Ok(file_name()));
    assert_eq!(
        failures,
        vec![
            PinError::UnsupportedScheme(
                "scheme not yet wired in skeleton: s3://bucket/key".to_string()
            ),
            PinError::ForbiddenMirrorUrl(
                "host inside.example resolved to forbidden ip: 10.0.0.7".to_string()
            ),
            PinError::ForbiddenMirrorUrl("dns lookup failed: no such host".to_string()),
            PinError::Http("connection refused".to_string()),
            PinError::Http("connection reset".to_string()),
        ]
    );
    assert_eq!(
        w.looked_up,
        vec![
            "inside.example:443",
            "nowhere.example:443",
            "outside.example:443",
            "outside.example:443",
            "outside.example:443",
        ]
    );
    assert_eq!(
        w.requested,
        vec![
            "https://outside.example/absent",
            "https://outside.example/short",
            "https://outside.example/good",
        ]
    );
}

#[test]
fn no_mirrors_means_no_mirror_available() {
    let entry = sample_entry(b"hello world", vec![]);
    assert_eq!(fetch(&mut world(), &entry, &settings(true)), (no_mirror(), vec![]));
}

#[test]
fn file_system_errors_end_the_fetch() {
    let url = format!("{SERVER}/blob");
    let entry = sample_entry(b"hello world", vec![url.clone(), url.clone()]);
    let s = settings(true);
    let pinner = Pinner::new("/cache");

    let (fetch_1, _) = pinner.fetch_and_pin(&entry);
    let denied = Event::Cache(CacheFile::Unreadable("denied".to_string()));
    match fetch_1.step(&s, denied).1 {
        Action::Finish(r) => assert_eq!(r, Err(PinError::Io("denied".to_string()))),
        other => panic!("{other:?}"),
    }

    let (fetch_2, _) = pinner.fetch_and_pin(&entry);
    let (fetch_2, _) = fetch_2.step(&s, Event::Cache(CacheFile::Missing));
    match fetch_2.step(&s, Event::DirectoryReady(Err("read-only".to_string()))).1 {
        Action::Finish(r) => assert_eq!(r, Err(PinError::Io("read-only".to_string()))),
        other => panic!("{other:?}"),
    }

    let mut w = world();
    w.disk_full = true;
    w.replies.push((url, body(b"hello world")));
    assert_eq!(fetch(&mut w, &entry, &s).0, Err(PinError::Io("disk full".to_string())));
    assert_eq!(w.requested.len(), 1);
}

#[test]
fn unknown_size_is_limited_by_the_settings() {
    let mut w = world();
    let url = format!("{SERVER}/blob");
    w.replies.push((url.clone(), body(b"hello world")));
    let mut entry = sample_entry(b"hello world", vec![url]);
    entry.size_bytes = 0;
    let mut s = settings(true);
    s.max_download_bytes = Some("10".to_string());
    let (result, failures) = fetch(&mut w, &entry, &s);
    assert_eq!(result, no_mirror());
    assert_eq!(failures, vec![PinError::DownloadTooLarge { limit: 10, actual: 11 }]);
    s.max_download_bytes = Some("11".to_string());
    assert_eq!(fetch(&mut w, &entry, &s).0, Ok(file_name()));
}

#[test]
fn each_check_uses_the_settings_of_its_step() {
    let pinner = Pinner::new("/cache");
    let entry = sample_entry(b"x", vec!["https://cdn.example/blob".to_string()]);
    let mut listed = settings(true);
    listed.allowed_hosts = Some("cdn.example".to_string());
    let mut closed = settings(false);
    closed.allowed_hosts = Some("other.example".to_string());
    let opened = |s: &Settings| {
        let (fetch, _) = pinner.fetch_and_pin(&entry);
        let (fetch, _) = fetch.step(s, Event::Cache(CacheFile::Missing));
        fetch.step(s, Event::DirectoryReady(Ok(())))
    };

    // The URL is checked when its host is to be looked up.
    let (fetch_1, action) = opened(&closed);
    assert!(matches!(action, Action::Finish(Err(PinError::NoMirrorAvailable { .. }))));
    assert_eq!(
        *fetch_1.failures(),
        vec![PinError::ForbiddenMirrorUrl("host cdn.example not in allow-list".to_string())]
    );

    // The addresses are checked when they have been found.
    let loopback = || Event::Resolved(Ok(vec![IpAddress::V4([127, 0, 0, 1])]));
    let (fetch_2, action) = opened(&listed);
    assert!(matches!(action, Action::Lookup { .. }));
    let (fetch_2, action) = fetch_2.step(&closed, loopback());
    assert!(matches!(action, Action::Finish(Err(PinError::NoMirrorAvailable { .. }))));
    assert_eq!(fetch_2.failures().len(), 1);

    let (fetch_3, _) = opened(&listed);
    let (_, action) = fetch_3.step(&listed, loopback());
    assert!(matches!(action, Action::Request { .. }));
}
