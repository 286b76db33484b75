//! What holds of every fetch, whatever happens on the way.
use vstd::prelude::*;
use crate::digest::{lower_hex, sha256_digest};
use crate::error::PinErrorView;
use crate::fetch::{
    expects, grown, lemma_next_wf, opening, ActionView, EventView, FetchView, PhaseView,
};
use crate::ip::{ip_text, IpView};
use crate::mirror::{
    first_blocked, is_blocked, limit_of, lookup_of, lookup_rejection, url_of, url_rejection,
    SettingsView,
};
use crate::mirror_laws::lookups_are_told_the_first_blocked_address;
use crate::model::{valid_model_id, ModelView};
use crate::pinner::{cache_file_name, cache_state, CacheFileView};

verus! {

/// Whether going on with the mirrors after `f` leads to `g` and `a`: the mirrors
/// passed over cannot be opened, and each leaves its reason; the one that is opened
/// is the one at hand after that.
spec fn goes_on(f: FetchView, s: SettingsView, g: FetchView, a: ActionView) -> bool {
    &&& g.entry == f.entry
    &&& f.failures.len() <= g.failures.len() <= f.entry.mirrors.len()
    &&& forall|i: int| 0 <= i < f.failures.len() ==> #[trigger] g.failures[i] == f.failures[i]
    &&& forall|i: int|
        f.failures.len() <= i < g.failures.len() ==> #[trigger] fails_with(
            f.entry.mirrors[i],
            s,
            g.failures[i],
        )
    &&& match a {
        ActionView::Lookup { host, port } => {
            &&& g.phase == (PhaseView::Resolving { host })
            &&& g.failures.len() < f.entry.mirrors.len()
            &&& opening(g.mirror(), s) == Ok::<_, PinErrorView>(Some((host, port)))
        },
        ActionView::Request { url } => {
            &&& g.phase == (PhaseView::Requesting { limit: limit_of(f.entry.size_bytes, s) })
            &&& g.failures.len() < f.entry.mirrors.len()
            &&& url == g.mirror()
            &&& opening(url, s) == Ok::<Option<(Seq<char>, u16)>, PinErrorView>(None)
        },
        ActionView::Finish(r) => {
            &&& g.phase is Finished
            &&& g.failures.len() == f.entry.mirrors.len()
            &&& r == Err::<Seq<char>, _>(
                PinErrorView::NoMirrorAvailable { model_id: f.entry.model_id },
            )
        },
        _ => false,
    }
}

/// Whether a mirror cannot be opened, for the given reason.
pub open spec fn fails_with(mirror: Seq<char>, s: SettingsView, e: PinErrorView) -> bool {
    opening(mirror, s) == Err::<Option<(Seq<char>, u16)>, _>(e)
}

#[verifier::spinoff_prover]
proof fn lemma_try_mirrors(f: FetchView, s: SettingsView)
    requires
        f.failures.len() <= f.entry.mirrors.len(),
    ensures
        goes_on(f, s, f.try_mirrors(s).0, f.try_mirrors(s).1),
    decreases f.entry.mirrors.len() - f.failures.len(),
{
    if f.failures.len() < f.entry.mirrors.len() {
        let opened = opening(f.mirror(), s);
        if let Err(e) = opened {
            let h = FetchView { failures: f.failures.push(e), ..f };
            lemma_try_mirrors(h, s);
            let (g, a) = h.try_mirrors(s);
            assert(f.try_mirrors(s) == (g, a));
            assert forall|i: int| 0 <= i < f.failures.len() implies #[trigger] g.failures[i]
                == f.failures[i] by {
                assert(h.failures[i] == f.failures[i]);
            }
            assert forall|i: int|
                f.failures.len() <= i < g.failures.len() implies #[trigger] fails_with(
                f.entry.mirrors[i],
                s,
                g.failures[i],
            ) by {
                if i == f.failures.len() {
                    assert(g.failures[i] == h.failures[i]);
                } else {
                    assert(fails_with(h.entry.mirrors[i], s, g.failures[i]));
                }
            }
        }
    }
}

/// The fetch after the mirror at hand failed.
spec fn after_failure(f: FetchView, e: PinErrorView) -> FetchView {
    FetchView { failures: f.failures.push(e), ..f }
}

/// Every step either goes on with the mirrors, from the one at hand or from the
/// one after it, or stays with the one at hand.
proof fn lemma_step(f: FetchView, s: SettingsView, event: EventView)
    requires
        f.wf(),
        expects(f.phase, event),
    ensures
        ({
            let (g, a) = f.next(s, event);
            ||| f.phase is Preparing && goes_on(f, s, g, a)
            ||| exists|e: PinErrorView|
                (f.phase is Resolving || f.phase is Requesting || f.phase is Receiving)
                    && goes_on(#[trigger] after_failure(f, e), s, g, a)
            ||| g.entry == f.entry && g.failures == f.failures && stays(f, s, event, g, a)
        }),
{
    let (g, a) = f.next(s, event);
    lemma_try_mirrors(f, s);
    if f.failures.len() < f.entry.mirrors.len() {
        assert forall|e: PinErrorView| goes_on(
            #[trigger] after_failure(f, e),
            s,
            f.give_up(e, s).0,
            f.give_up(e, s).1,
        ) by {
            lemma_try_mirrors(after_failure(f, e), s);
        }
        if let PhaseView::Resolving { host } = f.phase {
            if let EventView::Resolved(found) = event {
                if let Some(reason) = lookup_rejection(host, found, s) {
                    let e = PinErrorView::ForbiddenMirrorUrl(reason);
                    assert(goes_on(after_failure(f, e), s, g, a));
                }
            }
        }
        if let PhaseView::Requesting { limit } = f.phase {
            if let EventView::Head(Err(t)) = event {
                assert(goes_on(after_failure(f, PinErrorView::Http(t)), s, g, a));
            }
            if let EventView::Head(Ok(Some(actual))) = event {
                if actual > limit {
                    let e = PinErrorView::DownloadTooLarge { limit, actual };
                    assert(goes_on(after_failure(f, e), s, g, a));
                }
            }
        }
        if let PhaseView::Receiving { limit, body } = f.phase {
            if let EventView::Chunk(Err(t)) = event {
                assert(goes_on(after_failure(f, PinErrorView::Http(t)), s, g, a));
            }
            if let EventView::Chunk(Ok(Some(chunk))) = event {
                if grown(body, chunk) > limit {
                    let e = PinErrorView::DownloadTooLarge { limit, actual: grown(body, chunk) };
                    assert(goes_on(after_failure(f, e), s, g, a));
                }
            }
            if let EventView::Chunk(Ok(None)) = event {
                if sha256_digest(body) != f.entry.expected_sha256 {
                    let e = PinErrorView::HashMismatch {
                        expected: lower_hex(f.entry.expected_sha256),
                        actual: lower_hex(sha256_digest(body)),
                    };
                    assert(goes_on(after_failure(f, e), s, g, a));
                }
            }
        }
    }
}

/// What a step that stays with the mirror at hand does.
spec fn stays(
    f: FetchView,
    s: SettingsView,
    event: EventView,
    g: FetchView,
    a: ActionView,
) -> bool {
    let file_name = cache_file_name(f.entry.model_id);
    match (f.phase, event) {
        (PhaseView::Checking, EventView::Cache(file)) => {
            ||| cache_state(f.entry, file) == Ok::<bool, PinErrorView>(false)
                && g.phase is Preparing && a == ActionView::CreateCacheDir
            ||| cache_state(f.entry, file) == Ok::<bool, PinErrorView>(true)
                && g.phase is Finished && a == ActionView::Finish(Ok(file_name))
            ||| g.phase is Finished && a matches ActionView::Finish(Err(PinErrorView::Io(_)))
        },
        (PhaseView::Preparing, EventView::DirectoryReady(_)) => g.phase is Finished
            && a matches ActionView::Finish(Err(PinErrorView::Io(_))),
        (PhaseView::Resolving { host }, EventView::Resolved(found)) => {
            &&& lookup_rejection(host, found, s) is None
            &&& g.phase == (PhaseView::Requesting { limit: limit_of(f.entry.size_bytes, s) })
            &&& a == (ActionView::Request { url: f.mirror() })
        },
        (PhaseView::Requesting { limit }, EventView::Head(_)) => g.phase
            == (PhaseView::Receiving { limit, body: Seq::empty() }) && a == ActionView::NextChunk,
        (PhaseView::Receiving { limit, body }, EventView::Chunk(Ok(Some(chunk)))) => {
            &&& grown(body, chunk) <= limit
            &&& g.phase == (PhaseView::Receiving { limit, body: body + chunk })
            &&& a == ActionView::NextChunk
        },
        (PhaseView::Receiving { limit, body }, EventView::Chunk(Ok(None))) => {
            &&& sha256_digest(body) == f.entry.expected_sha256
            &&& g.phase is Storing
            &&& a == (ActionView::Store { file_name, bytes: body })
        },
        (PhaseView::Storing, EventView::Stored(r)) => {
            &&& g.phase is Finished
            &&& r is Ok ==> a == ActionView::Finish(Ok(file_name))
            &&& r is Err ==> a matches ActionView::Finish(Err(PinErrorView::Io(_)))
        },
        _ => false,
    }
}

/// What is written to the cache has the expected digest, goes to the model's own
/// file, and is no larger than the model where its size is known.
pub proof fn stored_bytes_are_verified(f: FetchView, s: SettingsView, event: EventView)
    requires
        f.wf(),
        expects(f.phase, event),
    ensures
        f.next(s, event).1 matches ActionView::Store { file_name, bytes } ==> {
            &&& sha256_digest(bytes) == f.entry.expected_sha256
            &&& file_name == cache_file_name(f.entry.model_id)
            &&& f.entry.size_bytes > 0 ==> bytes.len() <= f.entry.size_bytes
        },
{
    lemma_step(f, s, event);
}

/// Mirrors are tried in order and each at most once: a failure once recorded
/// stays; a mirror after the one at hand is passed over only if it cannot be
/// opened; and whatever is looked up or requested belongs to the first mirror that
/// has not failed.
pub proof fn mirrors_are_tried_in_order(f: FetchView, s: SettingsView, event: EventView)
    requires
        f.wf(),
        expects(f.phase, event),
    ensures
        ({
            let (g, a) = f.next(s, event);
            &&& g.entry == f.entry
            &&& f.failures.is_prefix_of(g.failures)
            &&& g.failures.len() <= g.entry.mirrors.len()
            &&& forall|i: int|
                f.failures.len() < i < g.failures.len() ==> #[trigger] fails_with(
                    g.entry.mirrors[i],
                    s,
                    g.failures[i],
                )
            &&& a matches ActionView::Request { url } ==> g.failures.len() < g.entry.mirrors.len()
                && url == g.entry.mirrors[g.failures.len() as int]
            &&& a matches ActionView::Lookup { host, port } ==> g.failures.len()
                < g.entry.mirrors.len() && lookup_of(
                url_of(g.entry.mirrors[g.failures.len() as int]),
            ) == Ok::<_, Seq<char>>(Some((host, port)))
        }),
{
    lemma_step(f, s, event);
    let (g, a) = f.next(s, event);
    assert forall|i: int| 0 <= i < f.failures.len() implies #[trigger] g.failures[i]
        == f.failures[i] by {
        if g.failures != f.failures {
            assert forall|e: PinErrorView| (#[trigger] after_failure(f, e)).failures[i]
                == f.failures[i] by {};
        }
    }
    assert(f.failures =~= g.failures.subrange(0, f.failures.len() as int));
}

/// There is no first blocked address if and only if no address is blocked.
proof fn lemma_first_blocked(ips: Seq<IpView>, s: SettingsView)
    ensures
        first_blocked(ips, s) is None <==> forall|i: int|
            0 <= i < ips.len() ==> !is_blocked(#[trigger] ips[i], s),
    decreases ips.len(),
{
    if ips.len() > 0 {
        let rest = ips.drop_first();
        lemma_first_blocked(rest, s);
        assert forall|i: int| 0 <= i < rest.len() implies rest[i] == #[trigger] ips[i + 1] by {};
        if first_blocked(ips, s) is None {
            assert forall|i: int| 0 <= i < ips.len() implies !is_blocked(
                #[trigger] ips[i],
                s,
            ) by {
                if i > 0 {
                    assert(rest[i - 1] == ips[i]);
                }
            }
        } else if !is_blocked(ips[0], s) {
            let j = choose|j: int| 0 <= j < rest.len() && is_blocked(#[trigger] rest[j], s);
            assert(is_blocked(ips[j + 1], s));
        }
    }
}

/// A host that was looked up passes if and only if the lookup succeeded and every
/// address that it gave may be contacted.
pub proof fn resolved_host_passes(
    host: Seq<char>,
    found: Result<Seq<IpView>, Seq<char>>,
    s: SettingsView,
)
    ensures
        lookup_rejection(host, found, s) is None <==> (found matches Ok(ips) && forall|i: int|
            0 <= i < ips.len() ==> !is_blocked(#[trigger] ips[i], s)),
{
    if let Ok(ips) = found {
        lemma_first_blocked(ips, s);
    }
}

/// Whether a mirror is opened with the lookup of a host.
pub open spec fn opens_with(mirror: Seq<char>, s: SettingsView, host: Seq<char>) -> bool {
    opening(mirror, s) matches Ok(Some(target)) && target.0 == host
}

/// Whether the host that is being looked up, if one is, is that of the mirror at
/// hand, whose URL passed the checks under the given settings.
pub open spec fn host_is_checked(f: FetchView, s: SettingsView) -> bool {
    f.phase matches PhaseView::Resolving { host } ==> opens_with(f.mirror(), s, host)
}

/// Whatever is looked up after a step belongs to a URL that passed the checks
/// under the settings of that very step.
pub proof fn lookups_follow_checks(f: FetchView, s: SettingsView, event: EventView)
    requires
        f.wf(),
        expects(f.phase, event),
    ensures
        host_is_checked(f.next(s, event).0, s),
{
    lemma_step(f, s, event);
}

/// Whether a URL may be requested at once: it passes the checks under the settings,
/// and its host is the literal of an address.
pub open spec fn passes_at_once(url: Seq<char>, s: SettingsView) -> bool {
    &&& url_rejection(url_of(url), s) is None
    &&& lookup_of(url_of(url)) == Ok::<Option<(Seq<char>, u16)>, Seq<char>>(None)
}

/// Whether a URL may be requested after the lookup of `host`: it passes the checks
/// under the settings at the time when the lookup was asked for, `host` is its
/// host, and the lookup gave addresses none of which is blocked under the settings
/// at the time of the answer.
pub open spec fn passes_after_lookup(
    url: Seq<char>,
    asked: SettingsView,
    host: Seq<char>,
    answered: SettingsView,
    event: EventView,
) -> bool {
    &&& url_rejection(url_of(url), asked) is None
    &&& lookup_of(url_of(url)) matches Ok(Some(target)) && target.0 == host
    &&& event matches EventView::Resolved(Ok(ips))
    &&& forall|i: int| 0 <= i < ips.len() ==> !is_blocked(#[trigger] ips[i], answered)
}

/// Nothing is contacted that was not checked. A host is looked up only for a URL
/// that passes the checks under the settings of the same step. A request that
/// follows no lookup is sent only for a URL that passes them under the settings of
/// the same step. One that follows a lookup is sent only if the URL passed them
/// under `asked`, the settings of the step that asked for the lookup, and none of
/// the addresses found is blocked under the settings of the step that sends it.
pub proof fn nothing_is_contacted_unchecked(
    f: FetchView,
    asked: SettingsView,
    s: SettingsView,
    event: EventView,
)
    requires
        f.wf(),
        host_is_checked(f, asked),
        expects(f.phase, event),
    ensures
        f.next(s, event).1 matches ActionView::Request { url } ==> {
            &&& "http://"@.is_prefix_of(url) || "https://"@.is_prefix_of(url)
            &&& {
                ||| passes_at_once(url, s)
                ||| f.phase matches PhaseView::Resolving { host } && url == f.mirror()
                    && passes_after_lookup(url, asked, host, s, event)
            }
        },
        f.next(s, event).1 is Lookup ==> {
            let url = f.next(s, event).0.mirror();
            &&& "http://"@.is_prefix_of(url) || "https://"@.is_prefix_of(url)
            &&& url_rejection(url_of(url), s) is None
        },
{
    lemma_step(f, s, event);
    if let PhaseView::Resolving { host } = f.phase {
        if let EventView::Resolved(found) = event {
            resolved_host_passes(host, found, s);
        }
    }
}

/// A fetch ends with `NoMirrorAvailable` only after every mirror has failed, and
/// always once the last of them has.
pub proof fn no_mirror_available_means_all_failed(f: FetchView, s: SettingsView, event: EventView)
    requires
        f.wf(),
        expects(f.phase, event),
    ensures
        ({
            let (g, a) = f.next(s, event);
            let all_failed = g.failures.len() == f.entry.mirrors.len();
            let tried = f.phase is Resolving || f.phase is Requesting || f.phase is Receiving
                || event matches EventView::DirectoryReady(Ok(_));
            let none = PinErrorView::NoMirrorAvailable { model_id: f.entry.model_id };
            &&& a == ActionView::Finish(Err(none)) ==> all_failed
            &&& tried && all_failed ==> a == ActionView::Finish(Err(none))
        }),
{
    lemma_step(f, s, event);
}

/// How far a phase is from the end of the mirror at hand.
pub open spec fn rank(phase: PhaseView) -> nat {
    match phase {
        PhaseView::Checking => 6,
        PhaseView::Preparing => 5,
        PhaseView::Resolving { .. } => 4,
        PhaseView::Requesting { .. } => 3,
        PhaseView::Receiving { .. } => 2,
        PhaseView::Storing => 1,
        PhaseView::Finished => 0,
    }
}

/// Whether the next phase has one more chunk of the body.
pub open spec fn added_chunk(before: PhaseView, event: EventView, after: PhaseView) -> bool {
    &&& before matches PhaseView::Receiving { limit, body }
    &&& event matches EventView::Chunk(Ok(Some(chunk)))
    &&& after == (PhaseView::Receiving { limit, body: body + chunk })
}

/// A fetch never goes round in circles: each step puts one more mirror behind it,
/// or comes closer to the end of the mirror at hand, or adds a chunk to the body.
pub proof fn every_step_makes_progress(f: FetchView, s: SettingsView, event: EventView)
    requires
        f.wf(),
        expects(f.phase, event),
    ensures
        ({
            let g = f.next(s, event).0;
            ||| g.failures.len() > f.failures.len()
            ||| g.failures == f.failures && rank(g.phase) < rank(f.phase)
            ||| g.failures == f.failures && added_chunk(f.phase, event, g.phase)
        }),
{
    lemma_step(f, s, event);
    let g = f.next(s, event).0;
    if g.failures.len() == f.failures.len() {
        assert(g.failures =~= f.failures);
    }
}

/// Where a fetch stands after a list of events, each with the settings of its
/// time, and what it wants done.
pub open spec fn run(entry: ModelView, log: Seq<(SettingsView, EventView)>) -> (
    FetchView,
    ActionView,
)
    decreases log.len(),
{
    if log.len() == 0 {
        (
            FetchView::initial(entry),
            ActionView::ReadCache { file_name: cache_file_name(entry.model_id) },
        )
    } else {
        run(entry, log.drop_last()).0.next(log.last().0, log.last().1)
    }
}

/// Whether every event of a list is one that the fetch waited for, and none makes
/// a body so long that its length cannot be told.
pub open spec fn is_run(entry: ModelView, log: Seq<(SettingsView, EventView)>) -> bool
    decreases log.len(),
{
    log.len() > 0 ==> {
        let f = run(entry, log.drop_last()).0;
        &&& is_run(entry, log.drop_last())
        &&& expects(f.phase, log.last().1)
        &&& f.phase matches PhaseView::Receiving { body, .. } ==> (log.last().1
            matches EventView::Chunk(Ok(Some(chunk))) ==> body.len() + chunk.len() <= u64::MAX)
    }
}

/// What holds of every fetch holds after any events.
pub proof fn every_run_is_well_formed(entry: ModelView, log: Seq<(SettingsView, EventView)>)
    requires
        valid_model_id(entry.model_id),
        is_run(entry, log),
    ensures
        run(entry, log).0.wf(),
        run(entry, log).0.entry == entry,
        log.len() > 0 ==> host_is_checked(run(entry, log).0, log.last().0),
    decreases log.len(),
{
    if log.len() > 0 {
        every_run_is_well_formed(entry, log.drop_last());
        let f = run(entry, log.drop_last()).0;
        lemma_next_wf(f, log.last().0, log.last().1);
        lookups_follow_checks(f, log.last().0, log.last().1);
        lemma_step(f, log.last().0, log.last().1);
    }
}

/// While a host is being looked up, that lookup is what was asked for.
proof fn lemma_resolving(entry: ModelView, log: Seq<(SettingsView, EventView)>)
    requires
        valid_model_id(entry.model_id),
        is_run(entry, log),
    ensures
        run(entry, log).0.phase matches PhaseView::Resolving { host } ==> {
            &&& log.len() > 0
            &&& run(entry, log).1 matches ActionView::Lookup { host: h, port } && h == host
        },
{
    if log.len() > 0 {
        every_run_is_well_formed(entry, log.drop_last());
        lemma_step(run(entry, log.drop_last()).0, log.last().0, log.last().1);
    }
}

/// Whether a request was preceded by the lookup of its host: the action before it
/// was that lookup, the URL passed the checks in the step that asked for it, and
/// the addresses found pass in the step that sends the request.
pub open spec fn follows_lookup(
    entry: ModelView,
    log: Seq<(SettingsView, EventView)>,
    url: Seq<char>,
) -> bool {
    &&& log.len() >= 2
    &&& run(entry, log.drop_last()).1 matches ActionView::Lookup { host, port }
    &&& passes_after_lookup(url, log[log.len() - 2].0, host, log.last().0, log.last().1)
}

/// Whatever happened on the way, a URL is requested only if it passed the checks
/// under settings that were in force: those of the step that sends the request, or,
/// where the host was looked up first, those of the step before it.
pub proof fn requests_passed_under_settings_in_force(
    entry: ModelView,
    log: Seq<(SettingsView, EventView)>,
)
    requires
        valid_model_id(entry.model_id),
        is_run(entry, log),
    ensures
        run(entry, log).1 matches ActionView::Request { url } ==> {
            &&& log.len() > 0
            &&& entry.mirrors.contains(url)
            &&& passes_at_once(url, log.last().0) || follows_lookup(entry, log, url)
            &&& exists|i: int|
                0 <= i < log.len() && (#[trigger] url_rejection(url_of(url), log[i].0)) is None
        },
{
    if log.len() > 0 {
        let before = log.drop_last();
        every_run_is_well_formed(entry, before);
        lemma_resolving(entry, before);
        let f = run(entry, before).0;
        let (s, event) = log.last();
        let asked = if before.len() > 0 {
            before.last().0
        } else {
            s
        };
        nothing_is_contacted_unchecked(f, asked, s, event);
        mirrors_are_tried_in_order(f, s, event);
        if let ActionView::Request { url } = run(entry, log).1 {
            if passes_at_once(url, s) {
                assert(url_rejection(url_of(url), log[log.len() - 1].0) is None);
            } else {
                assert(before.last() == log[log.len() - 2]);
                assert(follows_lookup(entry, log, url));
                assert(url_rejection(url_of(url), log[log.len() - 2].0) is None);
            }
        }
    }
}

/// Under settings that do not change, every URL that is requested passes the checks
/// under them.
pub proof fn requests_pass_under_constant_settings(
    entry: ModelView,
    log: Seq<(SettingsView, EventView)>,
    s: SettingsView,
)
    requires
        valid_model_id(entry.model_id),
        is_run(entry, log),
        forall|i: int| 0 <= i < log.len() ==> (#[trigger] log[i]).0 == s,
    ensures
        run(entry, log).1 matches ActionView::Request { url } ==> url_rejection(url_of(url), s) is None,
{
    requests_passed_under_settings_in_force(entry, log);
}

/// Whether the cache was found to hold bytes of the expected digest.
pub open spec fn found_verified(entry: ModelView, event: EventView) -> bool {
    &&& event matches EventView::Cache(CacheFileView::Contents(bytes))
    &&& sha256_digest(bytes) == entry.expected_sha256
}

/// Whether an action is to write bytes of the expected digest to the model's file.
pub open spec fn stores_verified(entry: ModelView, action: ActionView) -> bool {
    &&& action matches ActionView::Store { file_name, bytes }
    &&& file_name == cache_file_name(entry.model_id)
    &&& sha256_digest(bytes) == entry.expected_sha256
}

/// While a file is being written, what was asked for is to write bytes of the
/// expected digest to the model's file.
proof fn lemma_storing(entry: ModelView, log: Seq<(SettingsView, EventView)>)
    requires
        valid_model_id(entry.model_id),
        is_run(entry, log),
    ensures
        run(entry, log).0.phase is Checking ==> log.len() == 0,
        run(entry, log).0.phase is Storing ==> stores_verified(entry, run(entry, log).1),
{
    if log.len() > 0 {
        every_run_is_well_formed(entry, log.drop_last());
        lemma_step(run(entry, log.drop_last()).0, log.last().0, log.last().1);
    }
}

/// A model that was pinned is there and is the right one: a fetch succeeds only
/// with the model's own file, and only if that file was found to have the expected
/// digest, or bytes with the expected digest have just been written to it.
pub proof fn success_means_a_verified_blob(entry: ModelView, log: Seq<(SettingsView, EventView)>)
    requires
        valid_model_id(entry.model_id),
        is_run(entry, log),
    ensures
        run(entry, log).1 matches ActionView::Finish(Ok(file_name)) ==> {
            &&& file_name == cache_file_name(entry.model_id)
            &&& {
                ||| log.len() == 1 && found_verified(entry, log.last().1)
                ||| stores_verified(entry, run(entry, log.drop_last()).1) && (log.last().1
                    matches EventView::Stored(Ok(_)))
            }
        },
{
    if log.len() > 0 {
        every_run_is_well_formed(entry, log.drop_last());
        lemma_storing(entry, log.drop_last());
        let f = run(entry, log.drop_last()).0;
        let event = log.last().1;
        lemma_step(f, log.last().0, event);
        if let ActionView::Finish(Ok(file_name)) = run(entry, log).1 {
            assert(f.phase is Checking || f.phase is Storing);
            if f.phase is Checking {
                assert(found_verified(entry, event));
            } else {
                assert(event matches EventView::Stored(Ok(_)));
            }
        }
    }
}

/// A verified copy in the cache ends the fetch at once; anything else in its
/// place, a corrupted copy among it, does not count as cached.
pub proof fn only_a_verified_copy_is_a_hit(entry: ModelView, s: SettingsView, bytes: Seq<u8>)
    ensures
        ({
            let event = EventView::Cache(CacheFileView::Contents(bytes));
            let (g, a) = FetchView::initial(entry).next(s, event);
            if sha256_digest(bytes) == entry.expected_sha256 {
                a == ActionView::Finish(Ok(cache_file_name(entry.model_id)))
            } else {
                a == ActionView::CreateCacheDir && g.phase is Preparing
            }
        }),
{
}

/// The bytes of some chunks, one after the other.
pub open spec fn joined(chunks: Seq<Seq<u8>>) -> Seq<u8>
    decreases chunks.len(),
{
    if chunks.len() == 0 {
        Seq::<u8>::empty()
    } else {
        joined(chunks.drop_last()) + chunks.last()
    }
}

/// Where a fetch stands after some chunks of a body.
pub open spec fn received(f: FetchView, s: SettingsView, chunks: Seq<Seq<u8>>) -> FetchView
    decreases chunks.len(),
{
    if chunks.len() == 0 {
        f
    } else {
        received(f, s, chunks.drop_last()).next(s, EventView::Chunk(Ok(Some(chunks.last())))).0
    }
}

/// However a body within the limit is cut into chunks, it is put together again,
/// and stored if its digest is the expected one.
pub proof fn chunks_add_up_to_the_body(
    f: FetchView,
    s: SettingsView,
    limit: u64,
    chunks: Seq<Seq<u8>>,
)
    requires
        f.phase == (PhaseView::Receiving { limit, body: Seq::<u8>::empty() }),
        joined(chunks).len() <= limit,
    ensures
        received(f, s, chunks) == f.with_phase(
            PhaseView::Receiving { limit, body: joined(chunks) },
        ),
        sha256_digest(joined(chunks)) == f.entry.expected_sha256 ==> received(f, s, chunks).next(
            s,
            EventView::Chunk(Ok(None)),
        ).1 == (ActionView::Store {
            file_name: cache_file_name(f.entry.model_id),
            bytes: joined(chunks),
        }),
    decreases chunks.len(),
{
    if chunks.len() > 0 {
        chunks_add_up_to_the_body(f, s, limit, chunks.drop_last());
    }
}

/// A body that outgrows the limit is dropped with the chunk that does it, and the
/// mirror counts as failed for that reason.
pub proof fn oversized_bodies_are_dropped(
    f: FetchView,
    s: SettingsView,
    limit: u64,
    body: Seq<u8>,
    chunk: Seq<u8>,
)
    requires
        f.wf(),
        f.phase == (PhaseView::Receiving { limit, body }),
        limit < body.len() + chunk.len() <= u64::MAX,
    ensures
        ({
            let g = f.next(s, EventView::Chunk(Ok(Some(chunk)))).0;
            &&& g.failures.len() > f.failures.len()
            &&& g.failures[f.failures.len() as int] == (PinErrorView::DownloadTooLarge {
                limit,
                actual: (body.len() + chunk.len()) as u64,
            })
            &&& !(g.phase is Storing)
        }),
{
    let e = PinErrorView::DownloadTooLarge { limit, actual: grown(body, chunk) };
    lemma_try_mirrors(after_failure(f, e), s);
    let n = f.failures.len() as int;
    assert(after_failure(f, e).failures[n] == e);
}

/// A body with another digest than the expected one is dropped, and the mirror
/// counts as failed for that reason.
pub proof fn mismatched_bodies_are_dropped(
    f: FetchView,
    s: SettingsView,
    limit: u64,
    body: Seq<u8>,
)
    requires
        f.wf(),
        f.phase == (PhaseView::Receiving { limit, body }),
        sha256_digest(body) != f.entry.expected_sha256,
    ensures
        ({
            let g = f.next(s, EventView::Chunk(Ok(None))).0;
            &&& g.failures.len() > f.failures.len()
            &&& g.failures[f.failures.len() as int] == (PinErrorView::HashMismatch {
                expected: lower_hex(f.entry.expected_sha256),
                actual: lower_hex(sha256_digest(body)),
            })
            &&& !(g.phase is Storing)
        }),
{
    let e = PinErrorView::HashMismatch {
        expected: lower_hex(f.entry.expected_sha256),
        actual: lower_hex(sha256_digest(body)),
    };
    lemma_try_mirrors(after_failure(f, e), s);
    let n = f.failures.len() as int;
    assert(after_failure(f, e).failures[n] == e);
}

/// A mirror that may be requested and answers with the right bytes within the limit
/// is enough: the bytes are stored, and once they are, the fetch has succeeded.
pub proof fn one_good_mirror_is_enough(
    f: FetchView,
    s: SettingsView,
    limit: u64,
    length: Option<u64>,
    chunks: Seq<Seq<u8>>,
)
    requires
        f.phase == (PhaseView::Requesting { limit }),
        length matches Some(n) ==> n <= limit,
        joined(chunks).len() <= limit,
        sha256_digest(joined(chunks)) == f.entry.expected_sha256,
    ensures
        ({
            let file_name = cache_file_name(f.entry.model_id);
            let answered = f.next(s, EventView::Head(Ok(length))).0;
            let (ended, store) = received(answered, s, chunks).next(s, EventView::Chunk(Ok(None)));
            &&& store == (ActionView::Store { file_name, bytes: joined(chunks) })
            &&& ended.next(s, EventView::Stored(Ok(()))).1 == ActionView::Finish(Ok(file_name))
        }),
{
    let answered = f.next(s, EventView::Head(Ok(length))).0;
    chunks_add_up_to_the_body(answered, s, limit, chunks);
}

/// A host whose lookup succeeded and gave no blocked address, however many it gave, is
/// requested: the next action is the request of the mirror at hand, under the limit of
/// the model, and no failure is recorded.
pub proof fn unblocked_hosts_are_requested(f: FetchView, s: SettingsView, ips: Seq<IpView>)
    requires
        f.phase is Resolving,
        forall|i: int| 0 <= i < ips.len() ==> !is_blocked(#[trigger] ips[i], s),
    ensures
        ({
            let (g, a) = f.next(s, EventView::Resolved(Ok(ips)));
            &&& a == (ActionView::Request { url: f.entry.mirrors[f.failures.len() as int] })
            &&& g.phase == (PhaseView::Requesting { limit: limit_of(f.entry.size_bytes, s) })
            &&& g.failures == f.failures
            &&& g.entry == f.entry
        }),
{
    lemma_first_blocked(ips, s);
}

/// Whether the address at `k` is blocked and none before it is.
pub open spec fn is_first_blocked(ips: Seq<IpView>, k: int, s: SettingsView) -> bool {
    &&& 0 <= k < ips.len()
    &&& is_blocked(ips[k], s)
    &&& forall|i: int| 0 <= i < k ==> !is_blocked(#[trigger] ips[i], s)
}

/// Whether an event makes the mirror at hand fail, and for which reason: its host could
/// not be looked up or has a blocked address; it could not be requested or its answer
/// broke off; the answer is, or is announced, larger than the limit; or the body has
/// another digest than the expected one.
pub open spec fn fails_now(f: FetchView, s: SettingsView, event: EventView, e: PinErrorView) -> bool {
    match (f.phase, event) {
        (PhaseView::Resolving { .. }, EventView::Resolved(Err(t))) => e
            == PinErrorView::ForbiddenMirrorUrl("dns lookup failed: "@ + t),
        (PhaseView::Resolving { host }, EventView::Resolved(Ok(ips))) => exists|k: int| #[trigger]
            is_first_blocked(ips, k, s) && e == PinErrorView::ForbiddenMirrorUrl(
                "host "@ + host + " resolved to forbidden ip: "@ + ip_text(ips[k]),
            ),
        (PhaseView::Requesting { .. }, EventView::Head(Err(t))) => e == PinErrorView::Http(t),
        (PhaseView::Requesting { limit }, EventView::Head(Ok(Some(actual)))) => actual > limit && e
            == (PinErrorView::DownloadTooLarge { limit, actual }),
        (PhaseView::Receiving { .. }, EventView::Chunk(Err(t))) => e == PinErrorView::Http(t),
        (PhaseView::Receiving { limit, body }, EventView::Chunk(Ok(Some(chunk)))) => {
            let n = body.len() + chunk.len();
            &&& n > limit
            &&& limit < u64::MAX
            &&& e == (PinErrorView::DownloadTooLarge {
                limit,
                actual: if n > u64::MAX {
                    u64::MAX
                } else {
                    n as u64
                },
            })
        },
        (PhaseView::Receiving { body, .. }, EventView::Chunk(Ok(None))) => sha256_digest(body)
            != f.entry.expected_sha256 && e == (PinErrorView::HashMismatch {
            expected: lower_hex(f.entry.expected_sha256),
            actual: lower_hex(sha256_digest(body)),
        }),
        _ => false,
    }
}

/// Whether a fetch stands at the mirror with index `k`, just opened: its host is being
/// looked up, or it is being requested; where `k` is past the last mirror, the fetch
/// has failed.
pub open spec fn stands_at(
    entry: ModelView,
    s: SettingsView,
    k: int,
    g: FetchView,
    a: ActionView,
) -> bool {
    &&& g.entry == entry
    &&& g.failures.len() == k
    &&& k == entry.mirrors.len() ==> g.phase is Finished && a == ActionView::Finish(
        Err(PinErrorView::NoMirrorAvailable { model_id: entry.model_id }),
    )
    &&& k < entry.mirrors.len() ==> match opening(entry.mirrors[k], s) {
        Ok(Some((host, port))) => g.phase == (PhaseView::Resolving { host }) && a
            == (ActionView::Lookup { host, port }),
        Ok(None) => g.phase == (PhaseView::Requesting { limit: limit_of(entry.size_bytes, s) }) && a
            == (ActionView::Request { url: entry.mirrors[k] }),
        Err(_) => false,
    }
}

/// Where going on with the mirrors leads, `k` is the first that can be opened.
proof fn lemma_stands_at(f: FetchView, s: SettingsView, k: int, g: FetchView, a: ActionView)
    requires
        goes_on(f, s, g, a),
        f.failures.len() <= k <= f.entry.mirrors.len(),
        forall|i: int|
            f.failures.len() <= i < k ==> (#[trigger] opening(f.entry.mirrors[i], s)) is Err,
        k < f.entry.mirrors.len() ==> opening(f.entry.mirrors[k], s) is Ok,
    ensures
        stands_at(f.entry, s, k, g, a),
{
    let n = g.failures.len() as int;
    if n < k {
        assert(opening(f.entry.mirrors[n], s) is Err);
    }
    if n > k {
        assert(fails_with(f.entry.mirrors[k], s, g.failures[k]));
    }
}

/// A mirror that fails is given up for that reason, and the first mirror after it that
/// can be opened is the next, whose index is `k`: those between leave the reasons why
/// they cannot be opened. Where there is none, the fetch has failed.
pub proof fn the_next_mirror_that_opens_follows_a_failure(
    f: FetchView,
    s: SettingsView,
    event: EventView,
    e: PinErrorView,
    k: int,
)
    requires
        fails_now(f, s, event, e),
        f.failures.len() < k <= f.entry.mirrors.len(),
        forall|i: int|
            f.failures.len() < i < k ==> (#[trigger] opening(f.entry.mirrors[i], s)) is Err,
        k < f.entry.mirrors.len() ==> opening(f.entry.mirrors[k], s) is Ok,
    ensures
        ({
            let (g, a) = f.next(s, event);
            let n = f.failures.len() as int;
            &&& stands_at(f.entry, s, k, g, a)
            &&& g.failures.take(n) == f.failures
            &&& g.failures[n] == e
            &&& forall|i: int|
                n < i < k ==> (#[trigger] opening(f.entry.mirrors[i], s)) == Err::<
                    Option<(Seq<char>, u16)>,
                    _,
                >(g.failures[i])
        }),
{
    let (g, a) = f.next(s, event);
    let n = f.failures.len() as int;
    let h = after_failure(f, e);
    if let PhaseView::Resolving { host } = f.phase {
        if let EventView::Resolved(Ok(ips)) = event {
            let j = choose|j: int| #[trigger]
                is_first_blocked(ips, j, s) && e == PinErrorView::ForbiddenMirrorUrl(
                    "host "@ + host + " resolved to forbidden ip: "@ + ip_text(ips[j]),
                );
            lookups_are_told_the_first_blocked_address(host, Seq::empty(), ips, j, s);
        }
    }
    assert((g, a) == f.give_up(e, s));
    lemma_try_mirrors(h, s);
    assert(h.failures[n] == e);
    lemma_stands_at(h, s, k, g, a);
    assert(g.failures[n] == h.failures[n]);
    assert forall|i: int| 0 <= i < n implies g.failures[i] == f.failures[i] by {
        assert(g.failures[i] == h.failures[i]);
    }
    assert(g.failures.take(n) =~= f.failures);
    assert forall|i: int| n < i < k implies (#[trigger] opening(f.entry.mirrors[i], s)) == Err::<
        Option<(Seq<char>, u16)>,
        _,
    >(g.failures[i]) by {
        assert(fails_with(h.entry.mirrors[i], s, g.failures[i]));
    }
}

/// Once the cache directory is there, the first mirror that can be opened is tried,
/// whose index is `k`: those before it leave the reasons why they cannot be opened.
/// Where there is none, the fetch has failed.
pub proof fn the_first_mirror_that_opens_is_tried(f: FetchView, s: SettingsView, k: int)
    requires
        f.phase is Preparing,
        f.failures.len() <= k <= f.entry.mirrors.len(),
        forall|i: int|
            f.failures.len() <= i < k ==> (#[trigger] opening(f.entry.mirrors[i], s)) is Err,
        k < f.entry.mirrors.len() ==> opening(f.entry.mirrors[k], s) is Ok,
    ensures
        ({
            let (g, a) = f.next(s, EventView::DirectoryReady(Ok(())));
            let n = f.failures.len() as int;
            &&& stands_at(f.entry, s, k, g, a)
            &&& g.failures.take(n) == f.failures
            &&& forall|i: int|
                n <= i < k ==> (#[trigger] opening(f.entry.mirrors[i], s)) == Err::<
                    Option<(Seq<char>, u16)>,
                    _,
                >(g.failures[i])
        }),
{
    let (g, a) = f.next(s, EventView::DirectoryReady(Ok(())));
    let n = f.failures.len() as int;
    lemma_try_mirrors(f, s);
    lemma_stands_at(f, s, k, g, a);
    assert(g.failures.take(n) =~= f.failures);
    assert forall|i: int| n <= i < k implies (#[trigger] opening(f.entry.mirrors[i], s)) == Err::<
        Option<(Seq<char>, u16)>,
        _,
    >(g.failures[i]) by {
        assert(fails_with(f.entry.mirrors[i], s, g.failures[i]));
    }
}

/// What the cached file leads to: a copy with the expected digest ends the fetch with
/// the model's file, a file that cannot be read ends it with that error, and with
/// anything else the cache directory is next.
pub proof fn the_cached_file_decides(f: FetchView, s: SettingsView, t: Seq<char>, bytes: Seq<u8>)
    requires
        f.phase is Checking,
    ensures
        ({
            let (g, a) = f.next(s, EventView::Cache(CacheFileView::Missing));
            &&& g == (FetchView { phase: PhaseView::Preparing, ..f })
            &&& a == ActionView::CreateCacheDir
        }),
        ({
            let (g, a) = f.next(s, EventView::Cache(CacheFileView::Unreadable(t)));
            &&& g == (FetchView { phase: PhaseView::Finished, ..f })
            &&& a == ActionView::Finish(Err(PinErrorView::Io(t)))
        }),
        ({
            let (g, a) = f.next(s, EventView::Cache(CacheFileView::Contents(bytes)));
            if sha256_digest(bytes) == f.entry.expected_sha256 {
                &&& g == (FetchView { phase: PhaseView::Finished, ..f })
                &&& a == ActionView::Finish(Ok(cache_file_name(f.entry.model_id)))
            } else {
                &&& g == (FetchView { phase: PhaseView::Preparing, ..f })
                &&& a == ActionView::CreateCacheDir
            }
        }),
{
}

/// A cache directory that cannot be made, and a file that cannot be written, end the
/// fetch with that error; a file that was written ends it with its name.
pub proof fn the_file_system_decides(f: FetchView, s: SettingsView, t: Seq<char>)
    ensures
        f.phase is Preparing ==> f.next(s, EventView::DirectoryReady(Err(t))) == (
            FetchView { phase: PhaseView::Finished, ..f },
            ActionView::Finish(Err(PinErrorView::Io(t))),
        ),
        f.phase is Storing ==> f.next(s, EventView::Stored(Err(t))) == (
            FetchView { phase: PhaseView::Finished, ..f },
            ActionView::Finish(Err(PinErrorView::Io(t))),
        ),
        f.phase is Storing ==> f.next(s, EventView::Stored(Ok(()))) == (
            FetchView { phase: PhaseView::Finished, ..f },
            ActionView::Finish(Ok(cache_file_name(f.entry.model_id))),
        ),
{
}

/// A response that announces no length, or one within the limit, is received from its
/// start under the same limit.
pub proof fn responses_within_the_limit_are_received(
    f: FetchView,
    s: SettingsView,
    limit: u64,
    length: Option<u64>,
)
    requires
        f.phase == (PhaseView::Requesting { limit }),
        length matches Some(n) ==> n <= limit,
    ensures
        f.next(s, EventView::Head(Ok(length))) == (
            FetchView { phase: PhaseView::Receiving { limit, body: Seq::<u8>::empty() }, ..f },
            ActionView::NextChunk,
        ),
{
}

/// A chunk that keeps the body within the limit is added at its end, and the next one
/// is waited for. The largest limit that there is keeps every body within it.
pub proof fn chunks_within_the_limit_are_kept(
    f: FetchView,
    s: SettingsView,
    limit: u64,
    body: Seq<u8>,
    chunk: Seq<u8>,
)
    requires
        f.phase == (PhaseView::Receiving { limit, body }),
        body.len() + chunk.len() <= limit || limit == u64::MAX,
    ensures
        f.next(s, EventView::Chunk(Ok(Some(chunk)))) == (
            FetchView { phase: PhaseView::Receiving { limit, body: body + chunk }, ..f },
            ActionView::NextChunk,
        ),
{
}

/// A body with the expected digest is written, as it is, to the model's file.
pub proof fn verified_bodies_are_stored(f: FetchView, s: SettingsView, limit: u64, body: Seq<u8>)
    requires
        f.phase == (PhaseView::Receiving { limit, body }),
        sha256_digest(body) == f.entry.expected_sha256,
    ensures
        f.next(s, EventView::Chunk(Ok(None))) == (
            FetchView { phase: PhaseView::Storing, ..f },
            ActionView::Store { file_name: cache_file_name(f.entry.model_id), bytes: body },
        ),
{
}

/// How a mirror is opened. One that begins with `http://` or `https://` is opened if
/// and only if its URL is not rejected and can be looked up or needs no lookup, and
/// fails for the reason that it is told otherwise. Every other mirror fails for its
/// scheme, those of the known kinds with a word on that.
pub proof fn mirrors_are_opened_by_their_scheme(m: Seq<char>, s: SettingsView)
    ensures
        ({
            let web = "http://"@.is_prefix_of(m) || "https://"@.is_prefix_of(m);
            let known = "s3://"@.is_prefix_of(m) || "r2://"@.is_prefix_of(m)
                || "ipfs://"@.is_prefix_of(m);
            &&& web ==> (url_rejection(url_of(m), s) matches Some(t) ==> fails_with(
                m,
                s,
                PinErrorView::ForbiddenMirrorUrl(t),
            ))
            &&& web && url_rejection(url_of(m), s) is None ==> match lookup_of(url_of(m)) {
                Ok(target) => opening(m, s) == Ok::<_, PinErrorView>(target),
                Err(t) => fails_with(m, s, PinErrorView::ForbiddenMirrorUrl(t)),
            }
            &&& !web && known ==> fails_with(
                m,
                s,
                PinErrorView::UnsupportedScheme("scheme not yet wired in skeleton: "@ + m),
            )
            &&& !web && !known ==> fails_with(m, s, PinErrorView::UnsupportedScheme(m))
        }),
{
    reveal_strlit("http://");
    reveal_strlit("https://");
    reveal_strlit("s3://");
    reveal_strlit("r2://");
    reveal_strlit("ipfs://");
}

/// A fetch starts with nothing tried, looking for what is cached.
pub proof fn nothing_is_tried_at_the_start(entry: ModelView)
    ensures
        ({
            let f = FetchView::initial(entry);
            &&& f.entry == entry
            &&& f.phase is Checking
            &&& f.failures.len() == 0
        }),
{
}

/// Whether after an action its own kind of outcome is waited for, and no other; after
/// the last action none is.
pub open spec fn awaits(g: FetchView, a: ActionView, event: EventView) -> bool {
    expects(g.phase, event) <==> match a {
        ActionView::ReadCache { .. } => event is Cache,
        ActionView::CreateCacheDir => event is DirectoryReady,
        ActionView::Lookup { .. } => event is Resolved,
        ActionView::Request { .. } => event is Head,
        ActionView::NextChunk => event is Chunk,
        ActionView::Store { .. } => event is Stored,
        ActionView::Finish(_) => false,
    }
}

/// After each action exactly the outcome of that action is waited for.
pub proof fn every_action_awaits_its_outcome(
    f: FetchView,
    s: SettingsView,
    event: EventView,
    later: EventView,
)
    requires
        f.wf(),
        expects(f.phase, event),
    ensures
        awaits(f.next(s, event).0, f.next(s, event).1, later),
        expects(FetchView::initial(f.entry).phase, later) <==> later is Cache,
{
    lemma_step(f, s, event);
}

} // verus!
