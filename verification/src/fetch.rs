//! Fetching a model, one step at a time. A `Fetch` decides; the program around it
//! does what the last `Action` says and reports the outcome as an `Event`.
use vstd::prelude::*;
use crate::digest::{hex_encode, lower_hex, same_digest, sha256, sha256_digest};
use crate::error::{PinError, PinErrorView};
use crate::ip::{IpAddress, IpView};
use crate::mirror::{
    download_limit, limit_of, looked_up, lookup_of, lookup_rejection, lookup_target, url_of,
    url_rejection, validate_mirror_url, validate_resolved_host, Settings, SettingsView,
};
use crate::model::{valid_model_id, ModelEntry, ModelView};
use crate::pinner::{
    cache_file_name, cache_holds, cache_state, file_name_of, CacheFile, CacheFileView,
};
use crate::text::{chars_of, join_text, starts_with};

verus! {

/// What a fetch waits for.
#[derive(Debug)]
enum Phase {
    Checking,
    Preparing,
    Resolving { host: String },
    Requesting { limit: u64 },
    Receiving { limit: u64, body: Vec<u8> },
    Storing,
    Finished,
}

/// What a fetch waits for: the cached file; the cache directory; the addresses of
/// a mirror's host; the head of a response; the next chunk of its body, with what
/// has come so far; the file to be written; or nothing any more.
#[verifier::ext_equal]
pub enum PhaseView {
    Checking,
    Preparing,
    Resolving { host: Seq<char> },
    Requesting { limit: u64 },
    Receiving { limit: u64, body: Seq<u8> },
    Storing,
    Finished,
}

impl View for Phase {
    type V = PhaseView;

    closed spec fn view(&self) -> PhaseView {
        match *self {
            Phase::Checking => PhaseView::Checking,
            Phase::Preparing => PhaseView::Preparing,
            Phase::Resolving { host } => PhaseView::Resolving { host: host@ },
            Phase::Requesting { limit } => PhaseView::Requesting { limit },
            Phase::Receiving { limit, body } => PhaseView::Receiving { limit, body: body@ },
            Phase::Storing => PhaseView::Storing,
            Phase::Finished => PhaseView::Finished,
        }
    }
}

/// A model being fetched.
pub struct Fetch<'a> {
    entry: &'a ModelEntry,
    phase: Phase,
    failures: Vec<PinError>,
}

/// A fetch: the model, what it waits for, and why each mirror tried so far
/// failed. The mirror at hand is the one whose index is the number of failures.
#[verifier::ext_equal]
pub struct FetchView {
    pub entry: ModelView,
    pub phase: PhaseView,
    pub failures: Seq<PinErrorView>,
}

/// The contents of a list of errors.
pub open spec fn errors(v: Seq<PinError>) -> Seq<PinErrorView> {
    Seq::new(v.len(), |i: int| v[i]@)
}

impl<'a> View for Fetch<'a> {
    type V = FetchView;

    closed spec fn view(&self) -> FetchView {
        FetchView { entry: self.entry@, phase: self.phase@, failures: errors(self.failures@) }
    }
}

/// What to do next.
#[derive(Debug)]
pub enum Action {
    /// Read the file of this name in the cache directory, if it exists.
    ReadCache { file_name: String },
    /// Create the cache directory.
    CreateCacheDir,
    /// Look up the addresses of a host.
    Lookup { host: String, port: u16 },
    /// Send a GET request, following no redirect.
    Request { url: String },
    /// Wait for the next chunk of the response's body.
    NextChunk,
    /// Write these bytes to the file of this name in the cache directory.
    Store { file_name: String, bytes: Vec<u8> },
    /// Nothing: the model is pinned in the file of this name, or fetching failed.
    Finish(Result<String, PinError>),
}

/// What to do next, with its contents as sequences.
#[verifier::ext_equal]
pub enum ActionView {
    ReadCache { file_name: Seq<char> },
    CreateCacheDir,
    Lookup { host: Seq<char>, port: u16 },
    Request { url: Seq<char> },
    NextChunk,
    Store { file_name: Seq<char>, bytes: Seq<u8> },
    Finish(Result<Seq<char>, PinErrorView>),
}

impl View for Action {
    type V = ActionView;

    open spec fn view(&self) -> ActionView {
        match *self {
            Action::ReadCache { file_name } => ActionView::ReadCache { file_name: file_name@ },
            Action::CreateCacheDir => ActionView::CreateCacheDir,
            Action::Lookup { host, port } => ActionView::Lookup { host: host@, port },
            Action::Request { url } => ActionView::Request { url: url@ },
            Action::NextChunk => ActionView::NextChunk,
            Action::Store { file_name, bytes } => ActionView::Store {
                file_name: file_name@,
                bytes: bytes@,
            },
            Action::Finish(Ok(file_name)) => ActionView::Finish(Ok(file_name@)),
            Action::Finish(Err(e)) => ActionView::Finish(Err(e@)),
        }
    }
}

/// The outcome of an action. Errors of the file system and of the network are
/// given by their text.
#[derive(Debug)]
pub enum Event {
    /// What was found in the cache.
    Cache(CacheFile),
    /// Whether the cache directory is there.
    DirectoryReady(Result<(), String>),
    /// The addresses of the host.
    Resolved(Result<Vec<IpAddress>, String>),
    /// A response, with the length of its body where it is announced.
    Head(Result<Option<u64>, String>),
    /// A chunk of the body, or none where it has ended.
    Chunk(Result<Option<Vec<u8>>, String>),
    /// Whether the file was written.
    Stored(Result<(), String>),
}

/// The outcome of an action, with its contents as sequences.
#[verifier::ext_equal]
pub enum EventView {
    Cache(CacheFileView),
    DirectoryReady(Result<(), Seq<char>>),
    Resolved(Result<Seq<IpView>, Seq<char>>),
    Head(Result<Option<u64>, Seq<char>>),
    Chunk(Result<Option<Seq<u8>>, Seq<char>>),
    Stored(Result<(), Seq<char>>),
}

impl View for Event {
    type V = EventView;

    open spec fn view(&self) -> EventView {
        match *self {
            Event::Cache(file) => EventView::Cache(file@),
            Event::DirectoryReady(Ok(())) => EventView::DirectoryReady(Ok(())),
            Event::DirectoryReady(Err(e)) => EventView::DirectoryReady(Err(e@)),
            Event::Resolved(found) => EventView::Resolved(looked_up(found)),
            Event::Head(Ok(length)) => EventView::Head(Ok(length)),
            Event::Head(Err(e)) => EventView::Head(Err(e@)),
            Event::Chunk(Ok(Some(chunk))) => EventView::Chunk(Ok(Some(chunk@))),
            Event::Chunk(Ok(None)) => EventView::Chunk(Ok(None)),
            Event::Chunk(Err(e)) => EventView::Chunk(Err(e@)),
            Event::Stored(Ok(())) => EventView::Stored(Ok(())),
            Event::Stored(Err(e)) => EventView::Stored(Err(e@)),
        }
    }
}

/// Whether an event is of the kind that a phase waits for.
pub open spec fn expects(phase: PhaseView, event: EventView) -> bool {
    match phase {
        PhaseView::Checking => event is Cache,
        PhaseView::Preparing => event is DirectoryReady,
        PhaseView::Resolving { .. } => event is Resolved,
        PhaseView::Requesting { .. } => event is Head,
        PhaseView::Receiving { .. } => event is Chunk,
        PhaseView::Storing => event is Stored,
        PhaseView::Finished => false,
    }
}

/// How a mirror is opened: with the lookup of a host and port, without one where
/// its host is the literal of an address, or not at all.
pub open spec fn opening(mirror: Seq<char>, s: SettingsView) -> Result<
    Option<(Seq<char>, u16)>,
    PinErrorView,
> {
    if "http://"@.is_prefix_of(mirror) || "https://"@.is_prefix_of(mirror) {
        match url_rejection(url_of(mirror), s) {
            Some(reason) => Err(PinErrorView::ForbiddenMirrorUrl(reason)),
            None => match lookup_of(url_of(mirror)) {
                Ok(target) => Ok(target),
                Err(reason) => Err(PinErrorView::ForbiddenMirrorUrl(reason)),
            },
        }
    } else if "s3://"@.is_prefix_of(mirror) || "r2://"@.is_prefix_of(mirror)
        || "ipfs://"@.is_prefix_of(mirror) {
        Err(PinErrorView::UnsupportedScheme("scheme not yet wired in skeleton: "@ + mirror))
    } else {
        Err(PinErrorView::UnsupportedScheme(mirror))
    }
}

/// Decides how a mirror is opened.
pub fn open_mirror(mirror: &str, settings: &Settings) -> (r: Result<
    Option<(String, u16)>,
    PinError,
>)
    ensures
        match r {
            Ok(Some((host, port))) => opening(mirror@, settings@) == Ok::<_, PinErrorView>(
                Some((host@, port)),
            ),
            Ok(None) => opening(mirror@, settings@) == Ok::<
                Option<(Seq<char>, u16)>,
                PinErrorView,
            >(None),
            Err(e) => opening(mirror@, settings@) == Err::<Option<(Seq<char>, u16)>, _>(e@),
        },
{
    let m = chars_of(mirror);
    if starts_with(&m, &chars_of("http://")) || starts_with(&m, &chars_of("https://")) {
        match validate_mirror_url(mirror, settings) {
            Ok(()) => lookup_target(mirror),
            Err(e) => Err(e),
        }
    } else if starts_with(&m, &chars_of("s3://")) || starts_with(&m, &chars_of("r2://"))
        || starts_with(&m, &chars_of("ipfs://")) {
        Err(PinError::UnsupportedScheme(join_text("scheme not yet wired in skeleton: ", mirror)))
    } else {
        Err(PinError::UnsupportedScheme(mirror.to_string()))
    }
}

/// The length of a body with one more chunk, at most `u64::MAX`.
pub open spec fn grown(body: Seq<u8>, chunk: Seq<u8>) -> u64 {
    if body.len() + chunk.len() > u64::MAX {
        u64::MAX
    } else {
        (body.len() + chunk.len()) as u64
    }
}

impl FetchView {
    /// A fetch at its start.
    pub open spec fn initial(entry: ModelView) -> FetchView {
        FetchView { entry, phase: PhaseView::Checking, failures: Seq::empty() }
    }

    /// What holds of every fetch: the identifier is well-formed; no mirror fails
    /// twice; while a mirror is tried there is one at hand; a size that is known is
    /// the limit; and what was received is within the limit.
    pub open spec fn wf(self) -> bool {
        &&& valid_model_id(self.entry.model_id)
        &&& self.failures.len() <= self.entry.mirrors.len()
        &&& match self.phase {
            PhaseView::Resolving { .. } => self.failures.len() < self.entry.mirrors.len(),
            PhaseView::Requesting { limit } => {
                &&& self.failures.len() < self.entry.mirrors.len()
                &&& self.entry.size_bytes > 0 ==> limit == self.entry.size_bytes
            },
            PhaseView::Receiving { limit, body } => {
                &&& self.failures.len() < self.entry.mirrors.len()
                &&& self.entry.size_bytes > 0 ==> limit == self.entry.size_bytes
                &&& body.len() <= limit
            },
            _ => true,
        }
    }

    /// The same fetch in another phase.
    pub open spec fn with_phase(self, phase: PhaseView) -> FetchView {
        FetchView { phase, ..self }
    }

    /// The fetch over with the given result.
    pub open spec fn finish(self, result: Result<Seq<char>, PinErrorView>) -> (
        FetchView,
        ActionView,
    ) {
        (self.with_phase(PhaseView::Finished), ActionView::Finish(result))
    }

    /// The mirror at hand.
    pub open spec fn mirror(self) -> Seq<char> {
        self.entry.mirrors[self.failures.len() as int]
    }

    /// Requests the mirror at hand.
    pub open spec fn request(self, s: SettingsView) -> (FetchView, ActionView) {
        (
            self.with_phase(PhaseView::Requesting { limit: limit_of(self.entry.size_bytes, s) }),
            ActionView::Request { url: self.mirror() },
        )
    }

    /// Goes on with the first mirror, from the one at hand on, that can be opened;
    /// fails where there is none.
    pub open spec fn try_mirrors(self, s: SettingsView) -> (FetchView, ActionView)
        decreases self.entry.mirrors.len() - self.failures.len(),
    {
        if self.failures.len() >= self.entry.mirrors.len() {
            self.finish(Err(PinErrorView::NoMirrorAvailable { model_id: self.entry.model_id }))
        } else {
            match opening(self.mirror(), s) {
                Ok(Some((host, port))) => (
                    self.with_phase(PhaseView::Resolving { host }),
                    ActionView::Lookup { host, port },
                ),
                Ok(None) => self.request(s),
                Err(e) => FetchView { failures: self.failures.push(e), ..self }.try_mirrors(s),
            }
        }
    }

    /// Gives the mirror at hand up and goes on with those after it.
    pub open spec fn give_up(self, e: PinErrorView, s: SettingsView) -> (FetchView, ActionView) {
        FetchView { failures: self.failures.push(e), ..self }.try_mirrors(s)
    }

    /// What an event leads to.
    pub open spec fn next(self, s: SettingsView, event: EventView) -> (FetchView, ActionView)
        recommends
            expects(self.phase, event),
    {
        let file_name = cache_file_name(self.entry.model_id);
        match (self.phase, event) {
            (PhaseView::Checking, EventView::Cache(file)) => match cache_state(self.entry, file) {
                Err(e) => self.finish(Err(e)),
                Ok(true) => self.finish(Ok(file_name)),
                Ok(false) => (self.with_phase(PhaseView::Preparing), ActionView::CreateCacheDir),
            },
            (PhaseView::Preparing, EventView::DirectoryReady(r)) => match r {
                Err(e) => self.finish(Err(PinErrorView::Io(e))),
                Ok(()) => self.try_mirrors(s),
            },
            (PhaseView::Resolving { host }, EventView::Resolved(found)) => match lookup_rejection(
                host,
                found,
                s,
            ) {
                Some(reason) => self.give_up(PinErrorView::ForbiddenMirrorUrl(reason), s),
                None => self.request(s),
            },
            (PhaseView::Requesting { limit }, EventView::Head(r)) => match r {
                Err(e) => self.give_up(PinErrorView::Http(e), s),
                Ok(length) => if length is Some && length->0 > limit {
                    self.give_up(PinErrorView::DownloadTooLarge { limit, actual: length->0 }, s)
                } else {
                    (
                        self.with_phase(PhaseView::Receiving { limit, body: Seq::empty() }),
                        ActionView::NextChunk,
                    )
                },
            },
            (PhaseView::Receiving { limit, body }, EventView::Chunk(r)) => match r {
                Err(e) => self.give_up(PinErrorView::Http(e), s),
                Ok(Some(chunk)) => if grown(body, chunk) > limit {
                    self.give_up(
                        PinErrorView::DownloadTooLarge { limit, actual: grown(body, chunk) },
                        s,
                    )
                } else {
                    (
                        self.with_phase(PhaseView::Receiving { limit, body: body + chunk }),
                        ActionView::NextChunk,
                    )
                },
                Ok(None) => if sha256_digest(body) == self.entry.expected_sha256 {
                    (
                        self.with_phase(PhaseView::Storing),
                        ActionView::Store { file_name, bytes: body },
                    )
                } else {
                    self.give_up(
                        PinErrorView::HashMismatch {
                            expected: lower_hex(self.entry.expected_sha256),
                            actual: lower_hex(sha256_digest(body)),
                        },
                        s,
                    )
                },
            },
            (PhaseView::Storing, EventView::Stored(r)) => match r {
                Err(e) => self.finish(Err(PinErrorView::Io(e))),
                Ok(()) => self.finish(Ok(file_name)),
            },
            _ => arbitrary(),
        }
    }
}

/// Which mirror can be opened does not depend on the phase.
proof fn lemma_try_mirrors_any_phase(f: FetchView, phase: PhaseView, s: SettingsView)
    ensures
        f.with_phase(phase).try_mirrors(s) == f.try_mirrors(s),
    decreases f.entry.mirrors.len() - f.failures.len(),
{
    if f.failures.len() < f.entry.mirrors.len() {
        if let Err(e) = opening(f.mirror(), s) {
            lemma_try_mirrors_any_phase(
                FetchView { failures: f.failures.push(e), ..f },
                phase,
                s,
            );
        }
    }
}

proof fn lemma_try_mirrors_wf(f: FetchView, s: SettingsView)
    requires
        valid_model_id(f.entry.model_id),
        f.failures.len() <= f.entry.mirrors.len(),
    ensures
        f.try_mirrors(s).0.wf(),
    decreases f.entry.mirrors.len() - f.failures.len(),
{
    if f.failures.len() < f.entry.mirrors.len() {
        match opening(f.mirror(), s) {
            Err(e) => lemma_try_mirrors_wf(FetchView { failures: f.failures.push(e), ..f }, s),
            Ok(_) => {},
        }
    }
}

/// What holds of every fetch still holds after a step, as long as the length of
/// what was received can be told.
pub proof fn lemma_next_wf(f: FetchView, s: SettingsView, event: EventView)
    requires
        f.wf(),
        expects(f.phase, event),
        f.phase matches PhaseView::Receiving { limit, body } ==> (event matches EventView::Chunk(
            Ok(Some(chunk)),
        ) ==> (grown(body, chunk) <= limit ==> body.len() + chunk.len() <= u64::MAX)),
    ensures
        f.next(s, event).0.wf(),
{
    assert forall|e: PinErrorView|
        f.failures.len() < f.entry.mirrors.len() implies (#[trigger] f.give_up(e, s)).0.wf() by {
        lemma_try_mirrors_wf(FetchView { failures: f.failures.push(e), ..f }, s);
    }
    lemma_try_mirrors_wf(f, s);
}

impl<'a> Fetch<'a> {
    /// Starts to fetch a model with a look into the cache.
    pub(crate) fn start(entry: &'a ModelEntry) -> (r: (Fetch<'a>, Action))
        requires
            valid_model_id(entry.model_id@),
        ensures
            r.0@ == FetchView::initial(entry@),
            r.1@ == (ActionView::ReadCache { file_name: cache_file_name(entry.model_id@) }),
    {
        let fetch = Fetch { entry, phase: Phase::Checking, failures: Vec::new() };
        assert(fetch@.failures =~= Seq::empty());
        (fetch, Action::ReadCache { file_name: file_name_of(entry.model_id.as_str()) })
    }

    /// Why each mirror tried so far failed, in the order of the mirrors.
    pub fn failures(&self) -> (r: &Vec<PinError>)
        ensures
            errors(r@) == self@.failures,
    {
        &self.failures
    }

    fn finish(self, result: Result<String, PinError>) -> (r: (Fetch<'a>, Action))
        ensures
            match result {
                Ok(file_name) => (r.0@, r.1@) == self@.finish(Ok(file_name@)),
                Err(e) => (r.0@, r.1@) == self@.finish(Err(e@)),
            },
    {
        (Fetch { phase: Phase::Finished, ..self }, Action::Finish(result))
    }

    fn request(self, settings: &Settings) -> (r: (Fetch<'a>, Action))
        requires
            self@.failures.len() < self@.entry.mirrors.len(),
        ensures
            (r.0@, r.1@) == self@.request(settings@),
    {
        let limit = download_limit(self.entry.size_bytes, settings);
        let url = self.entry.mirrors[self.failures.len()].clone();
        (Fetch { phase: Phase::Requesting { limit }, ..self }, Action::Request { url })
    }

    fn try_mirrors(self, settings: &Settings) -> (r: (Fetch<'a>, Action))
        ensures
            (r.0@, r.1@) == self@.try_mirrors(settings@),
    {
        let mut fetch = self;
        while fetch.failures.len() < fetch.entry.mirrors.len()
            invariant
                fetch@.try_mirrors(settings@) == self@.try_mirrors(settings@),
                fetch.entry == self.entry,
            decreases fetch.entry.mirrors.len() - fetch.failures.len(),
        {
            let ghost before = fetch@;
            let i = fetch.failures.len();
            match open_mirror(fetch.entry.mirrors[i].as_str(), settings) {
                Ok(Some((host, port))) => {
                    let lookup = Action::Lookup { host: host.clone(), port };
                    return (Fetch { phase: Phase::Resolving { host }, ..fetch }, lookup);
                },
                Ok(None) => return fetch.request(settings),
                Err(e) => {
                    fetch.failures.push(e);
                    assert(fetch@ =~= (FetchView {
                        failures: before.failures.push(e@),
                        ..before
                    }));
                },
            }
        }
        let model_id = fetch.entry.model_id.clone();
        fetch.finish(Err(PinError::NoMirrorAvailable { model_id }))
    }

    fn give_up(self, e: PinError, settings: &Settings) -> (r: (Fetch<'a>, Action))
        ensures
            (r.0@, r.1@) == self@.give_up(e@, settings@),
    {
        let ghost before = self@;
        let mut fetch = self;
        fetch.failures.push(e);
        assert(fetch@ =~= (FetchView { failures: before.failures.push(e@), ..before }));
        fetch.try_mirrors(settings)
    }

    /// What the cached file leads to.
    fn after_cache(self, file: CacheFile) -> (r: (Fetch<'a>, Action))
        requires
            self@.phase is Checking,
        ensures
            forall|s: SettingsView|
                (r.0@, r.1@) == #[trigger] self@.next(s, EventView::Cache(file@)),
    {
        match cache_holds(self.entry, &file) {
            Err(e) => self.finish(Err(e)),
            Ok(true) => {
                let file_name = file_name_of(self.entry.model_id.as_str());
                self.finish(Ok(file_name))
            },
            Ok(false) => (Fetch { phase: Phase::Preparing, ..self }, Action::CreateCacheDir),
        }
    }

    /// What the head of a response leads to.
    fn after_head(self, limit: u64, head: Result<Option<u64>, String>, settings: &Settings) -> (r: (
        Fetch<'a>,
        Action,
    ))
        requires
            self@.phase == (PhaseView::Requesting { limit }),
        ensures
            (r.0@, r.1@) == self@.next(settings@, Event::Head(head)@),
    {
        match head {
            Err(e) => self.give_up(PinError::Http(e), settings),
            Ok(length) => {
                if let Some(actual) = length {
                    if actual > limit {
                        return self.give_up(PinError::DownloadTooLarge { limit, actual }, settings);
                    }
                }
                let body: Vec<u8> = Vec::new();
                assert(body@ =~= Seq::empty());
                (Fetch { phase: Phase::Receiving { limit, body }, ..self }, Action::NextChunk)
            },
        }
    }

    /// What the end of a body leads to: it is stored if its digest is the expected
    /// one.
    fn after_body(self, body: Vec<u8>, settings: &Settings) -> (r: (Fetch<'a>, Action))
        ensures
            forall|limit: u64|
                (r.0@, r.1@) == #[trigger] self@.with_phase(
                    PhaseView::Receiving { limit, body: body@ },
                ).next(settings@, EventView::Chunk(Ok(None))),
    {
        let ghost before = self@;
        let actual = sha256(body.as_slice());
        if same_digest(&actual, &self.entry.expected_sha256) {
            let file_name = file_name_of(self.entry.model_id.as_str());
            (
                Fetch { phase: Phase::Storing, ..self },
                Action::Store { file_name, bytes: body },
            )
        } else {
            let expected = self.entry.expected_hex();
            let actual = hex_encode(actual.as_slice());
            proof {
                let e = PinErrorView::HashMismatch { expected: expected@, actual: actual@ };
                let failed = FetchView { failures: before.failures.push(e), ..before };
                assert forall|limit: u64|
                    before.give_up(e, settings@) == #[trigger] before.with_phase(
                        PhaseView::Receiving { limit, body: body@ },
                    ).next(settings@, EventView::Chunk(Ok(None))) by {
                    let phase = PhaseView::Receiving { limit, body: body@ };
                    lemma_try_mirrors_any_phase(failed, phase, settings@);
                    assert(failed.with_phase(phase) == (FetchView {
                        failures: before.with_phase(phase).failures.push(e),
                        ..before.with_phase(phase)
                    }));
                }
            }
            self.give_up(PinError::HashMismatch { expected, actual }, settings)
        }
    }

    /// Takes the outcome of the last action and decides what to do next.
    pub fn step(self, settings: &Settings, event: Event) -> (r: (Fetch<'a>, Action))
        requires
            self@.wf(),
            expects(self@.phase, event@),
        ensures
            (r.0@, r.1@) == self@.next(settings@, event@),
            r.0@.wf(),
    {
        let ghost before = self@;
        let Fetch { entry, phase, failures } = self;
        let r = match (phase, event) {
            (Phase::Checking, Event::Cache(file)) => {
                let fetch = Fetch { entry, phase: Phase::Checking, failures };
                fetch.after_cache(file)
            },
            (Phase::Preparing, Event::DirectoryReady(r)) => {
                let fetch = Fetch { entry, phase: Phase::Preparing, failures };
                match r {
                    Err(e) => fetch.finish(Err(PinError::Io(e))),
                    Ok(()) => fetch.try_mirrors(settings),
                }
            },
            (Phase::Resolving { host }, Event::Resolved(found)) => {
                let verdict = validate_resolved_host(host.as_str(), &found, settings);
                let fetch = Fetch { entry, phase: Phase::Resolving { host }, failures };
                match verdict {
                    Err(e) => fetch.give_up(e, settings),
                    Ok(()) => fetch.request(settings),
                }
            },
            (Phase::Requesting { limit }, Event::Head(head)) => {
                let fetch = Fetch { entry, phase: Phase::Requesting { limit }, failures };
                fetch.after_head(limit, head, settings)
            },
            (Phase::Receiving { limit, body }, Event::Chunk(chunk)) => {
                // The body has been taken out of the phase, so the fetch stands in another
                // one until it is decided where the body goes.
                let mut body = body;
                let fetch = Fetch { entry, phase: Phase::Preparing, failures };
                assert forall|e: PinErrorView|
                    #[trigger] fetch@.give_up(e, settings@) == before.give_up(e, settings@) by {
                    lemma_try_mirrors_any_phase(
                        FetchView { failures: before.failures.push(e), ..before },
                        PhaseView::Preparing,
                        settings@,
                    );
                }
                assert(fetch@.with_phase(before.phase) == before);
                match chunk {
                    Err(e) => fetch.give_up(PinError::Http(e), settings),
                    Ok(None) => fetch.after_body(body, settings),
                    Ok(Some(chunk)) => {
                        let mut chunk = chunk;
                        let actual = (body.len() as u64).saturating_add(chunk.len() as u64);
                        if actual > limit {
                            fetch.give_up(PinError::DownloadTooLarge { limit, actual }, settings)
                        } else {
                            body.append(&mut chunk);
                            assert(body.len() <= u64::MAX);
                            (
                                Fetch { phase: Phase::Receiving { limit, body }, ..fetch },
                                Action::NextChunk,
                            )
                        }
                    },
                }
            },
            (Phase::Storing, Event::Stored(r)) => {
                let fetch = Fetch { entry, phase: Phase::Storing, failures };
                match r {
                    Err(e) => fetch.finish(Err(PinError::Io(e))),
                    Ok(()) => {
                        let file_name = file_name_of(entry.model_id.as_str());
                        fetch.finish(Ok(file_name))
                    },
                }
            },
            (phase, _) => {
                assert(false);
                (Fetch { entry, phase, failures }, Action::NextChunk)
            },
        };
        proof {
            lemma_next_wf(before, settings@, event@);
        }
        r
    }
}

} // verus!
