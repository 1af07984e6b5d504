//! Replies of the service, kept for a while.
use cached::{Cached, TimedCache};
use std::time::Duration;
use vstd::prelude::*;

verus! {

/// How long a reply is kept, in seconds.
pub const LIFESPAN_SECS: u64 = 900;

#[verifier::external_type_specification]
#[verifier::external_body]
#[verifier::reject_recursive_types(K)]
#[verifier::reject_recursive_types(V)]
pub struct ExTimedCache<K, V>(TimedCache<K, V>);

/// The entries of a cache, with those that have outlived their time and were not yet dropped.
pub uninterp spec fn cache_entries(cache: TimedCache<String, String>) -> Map<Seq<char>, Seq<char>>;

/// How long the entries of a cache live, in seconds.
pub uninterp spec fn cache_lifespan(cache: TimedCache<String, String>) -> nat;

/// `TimedCache::with_lifespan`: an empty cache whose entries live for `secs` seconds.
#[verifier::external_body]
fn new_cache(secs: u64) -> (cache: TimedCache<String, String>)
    ensures
        cache_entries(cache).dom() == Set::<Seq<char>>::empty(),
        cache_lifespan(cache) == secs,
{
    TimedCache::with_lifespan(Duration::from_secs(secs))
}

/// `TimedCache::cache_get`: the value of an entry that is still alive.  An entry that has
/// expired is dropped.  Whether an entry is alive depends on the clock and is left open.
#[verifier::external_body]
fn cache_get(cache: &mut TimedCache<String, String>, key: &str) -> (value: Option<String>)
    ensures
        value matches Some(text) ==> cache_entries(*old(cache)).contains_pair(key@, text@),
        cache_entries(*final(cache)) == (if value is Some {
            cache_entries(*old(cache))
        } else {
            cache_entries(*old(cache)).remove(key@)
        }),
        cache_lifespan(*final(cache)) == cache_lifespan(*old(cache)),
{
    cache.cache_get(key).cloned()
}

/// `TimedCache::cache_set`: adds an entry, or replaces the one with the same key.
#[verifier::external_body]
fn cache_set(cache: &mut TimedCache<String, String>, key: String, value: String)
    ensures
        cache_entries(*final(cache)) == cache_entries(*old(cache)).insert(key@, value@),
        cache_lifespan(*final(cache)) == cache_lifespan(*old(cache)),
{
    cache.cache_set(key, value);
}

/// `TimedCache::cache_remove`: drops the entry of `key`, where there is one.
#[verifier::external_body]
fn cache_remove(cache: &mut TimedCache<String, String>, key: &str)
    ensures
        cache_entries(*final(cache)) == cache_entries(*old(cache)).remove(key@),
        cache_lifespan(*final(cache)) == cache_lifespan(*old(cache)),
{
    cache.cache_remove(key);
}

/// Why a reply could not be had.
#[derive(Debug)]
pub enum FetchError {
    /// The address could not be loaded.
    NotLoaded,
    /// The body of the reply could not be read.
    NoBody,
    /// The body is not what was asked for; this is what the parser says of it.
    NotParsed(String),
}

impl FetchError {
    pub open spec fn text(self, url: Seq<char>) -> Seq<char> {
        match self {
            FetchError::NotLoaded => "failed to load url: "@ + url,
            FetchError::NoBody => "could not read body of "@ + url,
            FetchError::NotParsed(reason) => reason@,
        }
    }

    /// What is said of a fetch of `url` that failed.
    pub fn message(&self, url: &str) -> (message: String)
        ensures
            message@ == self.text(url@),
    {
        match self {
            FetchError::NotLoaded => "failed to load url: ".to_owned().concat(url),
            FetchError::NoBody => "could not read body of ".to_owned().concat(url),
            FetchError::NotParsed(reason) => reason.clone(),
        }
    }
}

/// What to do next to get the reply of an address.
#[derive(Debug)]
pub enum FetchStep {
    /// Parse this body, which was kept.
    ParseCached(String),
    /// Load the address.
    Download,
    /// Parse this body, which was just loaded.
    ParseDownloaded(String),
    /// Use what this body was parsed to.
    Done(String),
    /// Give up.
    Failed(FetchError),
}

/// What came of a step.
#[derive(Debug)]
pub enum FetchEvent {
    Parsed,
    /// The body does not parse; this is what the parser says of it.
    NotParsed(String),
    Downloaded(String),
    NotLoaded,
    NoBody,
}

/// The event can be what came of the step.
pub open spec fn answers(event: FetchEvent, step: FetchStep) -> bool {
    match step {
        FetchStep::ParseCached(_) | FetchStep::ParseDownloaded(_) => event is Parsed
            || event is NotParsed,
        FetchStep::Download => event is Downloaded || event is NotLoaded || event is NoBody,
        FetchStep::Done(_) | FetchStep::Failed(_) => false,
    }
}

/// The first step of a fetch, where `kept` is the body that is still kept.
pub fn first_step(kept: Option<String>) -> (step: FetchStep)
    ensures
        step == (match kept {
            Some(body) => FetchStep::ParseCached(body),
            None => FetchStep::Download,
        }),
{
    match kept {
        Some(body) => FetchStep::ParseCached(body),
        None => FetchStep::Download,
    }
}

/// A fetch of `url` may begin with `step` and leave `after` kept: it begins with the body that is
/// kept, or, where none is or the one that was has expired, with loading the address.
pub open spec fn begins(
    entries: Map<Seq<char>, Seq<char>>,
    url: Seq<char>,
    step: FetchStep,
    after: Map<Seq<char>, Seq<char>>,
) -> bool {
    match step {
        FetchStep::ParseCached(body) => entries.contains_pair(url, body@) && after == entries,
        FetchStep::Download => after == entries.remove(url),
        _ => false,
    }
}

/// The step after `step`: a kept body that does not parse is loaded anew; a loaded body that
/// does not parse is an error.
pub open spec fn next_step(step: FetchStep, event: FetchEvent) -> FetchStep {
    match (step, event) {
        (FetchStep::ParseCached(body), FetchEvent::Parsed) => FetchStep::Done(body),
        (FetchStep::ParseCached(_), _) => FetchStep::Download,
        (FetchStep::ParseDownloaded(body), FetchEvent::Parsed) => FetchStep::Done(body),
        (FetchStep::ParseDownloaded(_), FetchEvent::NotParsed(reason)) => FetchStep::Failed(
            FetchError::NotParsed(reason),
        ),
        (FetchStep::Download, FetchEvent::Downloaded(body)) => FetchStep::ParseDownloaded(body),
        (FetchStep::Download, FetchEvent::NoBody) => FetchStep::Failed(FetchError::NoBody),
        (FetchStep::Download, _) => FetchStep::Failed(FetchError::NotLoaded),
        (ended, _) => ended,
    }
}

/// What is kept after `step`: a kept body that does not parse is dropped, and a loaded body is
/// kept once it has been parsed.
pub open spec fn next_entries(
    entries: Map<Seq<char>, Seq<char>>,
    url: Seq<char>,
    step: FetchStep,
    event: FetchEvent,
) -> Map<Seq<char>, Seq<char>> {
    match (step, event) {
        (FetchStep::ParseCached(_), FetchEvent::NotParsed(_)) => entries.remove(url),
        (FetchStep::ParseDownloaded(body), FetchEvent::Parsed) => entries.insert(url, body@),
        _ => entries,
    }
}

/// The bodies of replies, kept by the address they came from.
pub struct PageCache {
    store: TimedCache<String, String>,
}

impl View for PageCache {
    type V = Map<Seq<char>, Seq<char>>;

    closed spec fn view(&self) -> Map<Seq<char>, Seq<char>> {
        cache_entries(self.store)
    }
}

impl PageCache {
    /// How long a body is kept, in seconds.
    pub closed spec fn lifespan(&self) -> nat {
        cache_lifespan(self.store)
    }

    pub fn new() -> (cache: Self)
        ensures
            cache@ == Map::<Seq<char>, Seq<char>>::empty(),
            cache.lifespan() == LIFESPAN_SECS,
            cache.lifespan() == 15 * 60,
    {
        PageCache { store: new_cache(LIFESPAN_SECS) }
    }

    /// The first step towards the reply of `url`: parse the body that is kept for it, or load
    /// it where none is kept or the one that was has expired.  Whether a body has expired is up
    /// to the clock; an expired body is no longer kept.
    pub fn begin(&mut self, url: &str) -> (step: FetchStep)
        ensures
            final(self).lifespan() == old(self).lifespan(),
            begins(old(self)@, url@, step, final(self)@),
    {
        first_step(cache_get(&mut self.store, url))
    }

    /// Goes on from `step`, of which `event` came.
    pub fn advance(&mut self, url: &str, step: FetchStep, event: FetchEvent) -> (next: FetchStep)
        requires
            answers(event, step),
        ensures
            next == next_step(step, event),
            final(self)@ == next_entries(old(self)@, url@, step, event),
            final(self).lifespan() == old(self).lifespan(),
    {
        match (step, event) {
            (FetchStep::ParseCached(body), FetchEvent::Parsed) => FetchStep::Done(body),
            (FetchStep::ParseCached(_), _) => {
                cache_remove(&mut self.store, url);
                FetchStep::Download
            },
            (FetchStep::ParseDownloaded(body), FetchEvent::Parsed) => {
                cache_set(&mut self.store, url.to_owned(), body.clone());
                FetchStep::Done(body)
            },
            (FetchStep::ParseDownloaded(_), FetchEvent::NotParsed(reason)) => FetchStep::Failed(
                FetchError::NotParsed(reason),
            ),
            (FetchStep::Download, FetchEvent::Downloaded(body)) => FetchStep::ParseDownloaded(body),
            (FetchStep::Download, FetchEvent::NoBody) => FetchStep::Failed(FetchError::NoBody),
            (FetchStep::Download, _) => FetchStep::Failed(FetchError::NotLoaded),
            (ended, _) => ended,
        }
    }
}

/// A loaded body that was parsed is kept under its address, in place of any other.
pub proof fn law_parsed_body_is_kept(
    entries: Map<Seq<char>, Seq<char>>,
    url: Seq<char>,
    body: String,
)
    ensures
        next_entries(
            entries,
            url,
            FetchStep::ParseDownloaded(body),
            FetchEvent::Parsed,
        ).contains_pair(url, body@),
{
}

/// Beginning to fetch one address leaves what is kept for every other address as it is.
pub proof fn law_beginning_leaves_other_addresses(
    entries: Map<Seq<char>, Seq<char>>,
    url: Seq<char>,
    step: FetchStep,
    after: Map<Seq<char>, Seq<char>>,
    other: Seq<char>,
)
    requires
        begins(entries, url, step, after),
        other != url,
    ensures
        after.contains_key(other) <==> entries.contains_key(other),
        entries.contains_key(other) ==> after[other] == entries[other],
{
}

/// What is kept has gone from `before` to `after` in one step of a fetch of some other address than
/// `url`, or has stayed as it was.
pub open spec fn moved_elsewhere(
    before: Map<Seq<char>, Seq<char>>,
    after: Map<Seq<char>, Seq<char>>,
    url: Seq<char>,
) -> bool {
    ||| after == before
    ||| exists|other: Seq<char>, step: FetchStep|
        other != url && #[trigger] begins(before, other, step, after)
    ||| exists|other: Seq<char>, step: FetchStep, event: FetchEvent|
        other != url && after == #[trigger] next_entries(before, other, step, event)
}

/// However many steps of fetches of other addresses there are, what is kept for `url` stays.
proof fn lemma_moves_elsewhere(history: Seq<Map<Seq<char>, Seq<char>>>, url: Seq<char>)
    requires
        history.len() > 0,
        forall|i: int|
            0 < i < history.len() ==> moved_elsewhere(history[i - 1], #[trigger] history[i], url),
    ensures
        history.last().contains_key(url) <==> history[0].contains_key(url),
        history[0].contains_key(url) ==> history.last()[url] == history[0][url],
    decreases history.len(),
{
    if history.len() > 1 {
        let earlier = history.drop_last();
        assert forall|i: int| 0 < i < earlier.len() implies moved_elsewhere(
            earlier[i - 1],
            #[trigger] earlier[i],
            url,
        ) by {
            assert(earlier[i] == history[i]);
        }
        lemma_moves_elsewhere(earlier, url);
        assert(moved_elsewhere(history[history.len() - 2], history[history.len() - 1], url));
    }
}

/// A second fetch gives back what the first one loaded.  The first fetch of `url` loaded a body
/// that was parsed; then came any number of steps of fetches of other addresses, and `history` is
/// what was kept after each of them.  A fetch of `url` that now finds the body alive begins with
/// it; once it is parsed the fetch is done with it, nothing was loaded, and what is kept is as it
/// was.  Only a fetch that finds the body expired loads the address again.
pub proof fn law_second_fetch_loads_nothing(
    entries: Map<Seq<char>, Seq<char>>,
    url: Seq<char>,
    body: String,
    history: Seq<Map<Seq<char>, Seq<char>>>,
    step: FetchStep,
    after: Map<Seq<char>, Seq<char>>,
)
    requires
        history.len() > 0,
        history[0] == next_entries(
            entries,
            url,
            FetchStep::ParseDownloaded(body),
            FetchEvent::Parsed,
        ),
        forall|i: int|
            0 < i < history.len() ==> moved_elsewhere(history[i - 1], #[trigger] history[i], url),
        begins(history.last(), url, step, after),
    ensures
        history.last().contains_pair(url, body@),
        match step {
            FetchStep::ParseCached(again) => {
                &&& again@ == body@
                &&& after == history.last()
                &&& next_step(step, FetchEvent::Parsed) == FetchStep::Done(again)
                &&& next_entries(after, url, step, FetchEvent::Parsed) == history.last()
            },
            FetchStep::Download => after == history.last().remove(url),
            _ => false,
        },
{
    lemma_moves_elsewhere(history, url);
}

/// A kept body that does not parse is dropped, and its address is loaded anew.
pub proof fn law_unparsed_body_is_dropped(
    entries: Map<Seq<char>, Seq<char>>,
    url: Seq<char>,
    body: String,
    reason: String,
)
    ensures
        !next_entries(
            entries,
            url,
            FetchStep::ParseCached(body),
            FetchEvent::NotParsed(reason),
        ).contains_key(url),
        next_step(FetchStep::ParseCached(body), FetchEvent::NotParsed(reason)) is Download,
{
}

/// A fetch that fails leaves what is kept as it was.
pub proof fn law_failure_keeps_nothing(
    entries: Map<Seq<char>, Seq<char>>,
    url: Seq<char>,
    step: FetchStep,
    event: FetchEvent,
)
    requires
        answers(event, step),
        next_step(step, event) is Failed,
    ensures
        next_entries(entries, url, step, event) == entries,
{
}

/// Only bodies that could be parsed are ever kept: where every kept body is good, and a body is
/// reported as parsed only where it is good, every kept body stays good.
pub proof fn law_kept_bodies_were_parsed(
    entries: Map<Seq<char>, Seq<char>>,
    url: Seq<char>,
    step: FetchStep,
    event: FetchEvent,
    good: spec_fn(Seq<char>, Seq<char>) -> bool,
)
    requires
        forall|u: Seq<char>| #[trigger]
            entries.contains_key(u) ==> good(u, entries[u]),
        step matches FetchStep::ParseDownloaded(body) ==> (event is Parsed ==> good(url, body@)),
    ensures
        forall|u: Seq<char>| #[trigger]
            next_entries(entries, url, step, event).contains_key(u) ==> good(
                u,
                next_entries(entries, url, step, event)[u],
            ),
{
}

/// Fetching one address leaves what is kept for every other address as it is.
pub proof fn law_other_addresses_are_untouched(
    entries: Map<Seq<char>, Seq<char>>,
    url: Seq<char>,
    step: FetchStep,
    event: FetchEvent,
    other: Seq<char>,
)
    requires
        other != url,
    ensures
        next_entries(entries, url, step, event).contains_key(other) <==> entries.contains_key(
            other,
        ),
        entries.contains_key(other) ==> next_entries(entries, url, step, event)[other]
            == entries[other],
{
}

/// How many events can still come before a fetch ends.
pub open spec fn steps_left(step: FetchStep) -> nat {
    match step {
        FetchStep::ParseCached(_) => 3,
        FetchStep::Download => 2,
        FetchStep::ParseDownloaded(_) => 1,
        FetchStep::Done(_) | FetchStep::Failed(_) => 0,
    }
}

/// Every event brings a fetch nearer to its end.
pub proof fn law_fetch_ends(step: FetchStep, event: FetchEvent)
    requires
        answers(event, step),
    ensures
        steps_left(next_step(step, event)) < steps_left(step),
{
}

/// What comes of a fetch.  A kept body that parses ends it and stays kept; one that does not is
/// dropped, and the address is loaded.  A loaded body that parses ends the fetch and is kept from
/// then on; one that does not, and a load that fails, end it with the reason, and what is kept
/// stays as it was.
pub proof fn law_fetch_goes_step_by_step(
    entries: Map<Seq<char>, Seq<char>>,
    url: Seq<char>,
    body: String,
    reason: String,
)
    ensures
        ({
            let cached = FetchStep::ParseCached(body);
            let loaded = FetchStep::ParseDownloaded(body);
            let load = FetchStep::Download;
            let parsed = FetchEvent::Parsed;
            let unparsed = FetchEvent::NotParsed(reason);
            let came = FetchEvent::Downloaded(body);
            &&& next_step(cached, parsed) == FetchStep::Done(body)
            &&& next_entries(entries, url, cached, parsed) == entries
            &&& next_step(cached, unparsed) == load
            &&& next_entries(entries, url, cached, unparsed) == entries.remove(url)
            &&& next_step(load, came) == loaded
            &&& next_entries(entries, url, load, came) == entries
            &&& next_step(load, FetchEvent::NotLoaded) == FetchStep::Failed(FetchError::NotLoaded)
            &&& next_entries(entries, url, load, FetchEvent::NotLoaded) == entries
            &&& next_step(load, FetchEvent::NoBody) == FetchStep::Failed(FetchError::NoBody)
            &&& next_entries(entries, url, load, FetchEvent::NoBody) == entries
            &&& next_step(loaded, parsed) == FetchStep::Done(body)
            &&& next_entries(entries, url, loaded, parsed) == entries.insert(url, body@)
            &&& next_step(loaded, unparsed) == FetchStep::Failed(FetchError::NotParsed(reason))
            &&& next_entries(entries, url, loaded, unparsed) == entries
        }),
{
}

/// A body is parsed or not; an address is loaded, or it is not, or its body cannot be read; and
/// of a fetch that has ended nothing more comes.
pub proof fn law_events_answer_their_step(event: FetchEvent, step: FetchStep)
    ensures
        step is ParseCached || step is ParseDownloaded ==> (answers(event, step) <==> event is Parsed
            || event is NotParsed),
        step is Download ==> (answers(event, step) <==> event is Downloaded || event is NotLoaded
            || event is NoBody),
        step is Done || step is Failed ==> !answers(event, step),
{
}

/// A fetch begins with the very body that is kept for its address, and then leaves everything as
/// it is; or it begins with loading the address, and then nothing is kept for it any more.
pub proof fn law_fetch_begins_with_what_is_kept(
    entries: Map<Seq<char>, Seq<char>>,
    url: Seq<char>,
    step: FetchStep,
    after: Map<Seq<char>, Seq<char>>,
)
    ensures
        begins(entries, url, step, after) <==> {
            ||| step is ParseCached && entries.contains_key(url) && entries[url]
                == step->ParseCached_0@ && after == entries
            ||| step is Download && after == entries.remove(url)
        },
{
}

/// What is said of a failed fetch ends with its address, or is what the parser said.
pub proof fn law_failure_names_its_address(url: Seq<char>, reason: String)
    ensures
        FetchError::NotLoaded.text(url) == "failed to load url: "@ + url,
        FetchError::NoBody.text(url) == "could not read body of "@ + url,
        FetchError::NotParsed(reason).text(url) == reason@,
{
}

/// What is kept, and for how long, is up to the store alone.
proof fn law_store_keeps_the_bodies(cache: PageCache)
    ensures
        cache@ == cache_entries(cache.store),
        cache.lifespan() == cache_lifespan(cache.store),
{
}

} // verus!
