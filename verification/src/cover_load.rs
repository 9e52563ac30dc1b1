//! What a cover-art loader decides when it looks at the cache.
//!
//! A loader makes its decision and marks the key pending in one step, under
//! the lock that guards the cache; it fetches outside the lock and stores
//! the result in a second step. Two kinds of loader share the cache: the
//! on-demand loader, which reports the artwork of the current song, and the
//! prefetch loader, which only warms the cache.

use crate::cover_cache::{marked_pending, stored, CoverCache, CoverCacheView};
use vstd::prelude::*;

verus! {

/// The result of loading cover art: the artwork, if the file has any, and
/// the file key it belongs to.
#[derive(Debug)]
pub enum CoverArtMessage {
    Loaded(Option<Vec<u8>>, String),
}

/// What a loader does next.
#[derive(Debug)]
pub enum CoverLoadStep {
    /// The cache knows the key: report this at once.
    Deliver(CoverArtMessage),
    /// Nothing to do: the key is being fetched, or is not wanted.
    Skip,
    /// The key is now marked pending: fetch it, then store the result.
    Fetch,
}

/// The mathematical value of a [`CoverLoadStep`].
pub enum Decision {
    Deliver(Option<Seq<u8>>, Seq<char>),
    Skip,
    Fetch,
}

impl View for CoverLoadStep {
    type V = Decision;

    open spec fn view(&self) -> Decision {
        match self {
            CoverLoadStep::Deliver(CoverArtMessage::Loaded(data, key)) => Decision::Deliver(
                data.deep_view(),
                key@,
            ),
            CoverLoadStep::Skip => Decision::Skip,
            CoverLoadStep::Fetch => Decision::Fetch,
        }
    }
}

/// What the on-demand loader decides for `key`: a cached result is
/// reported, a pending key is left to the fetch in flight, anything else is
/// fetched.
pub open spec fn on_demand_decision(cache: CoverCacheView, key: Seq<char>) -> Decision {
    if cache.entries.contains_key(key) {
        Decision::Deliver(cache.entries[key], key)
    } else if cache.pending.contains(key) {
        Decision::Skip
    } else {
        Decision::Fetch
    }
}

/// What a prefetch loader decides for `key`: it fetches what is neither
/// cached nor pending, and reports nothing.
pub open spec fn prefetch_decision(cache: CoverCacheView, key: Seq<char>) -> Decision {
    if cache.entries.contains_key(key) || cache.pending.contains(key) {
        Decision::Skip
    } else {
        Decision::Fetch
    }
}

/// The cache after a decision on `key`: a key to fetch is marked pending.
pub open spec fn after_decision(
    cache: CoverCacheView,
    key: Seq<char>,
    decision: Decision,
) -> CoverCacheView {
    if decision is Fetch {
        marked_pending(cache, key)
    } else {
        cache
    }
}

/// A request to a loader.
pub enum LoadRequest {
    OnDemand(Seq<char>),
    Prefetch(Seq<char>),
}

/// The key that a request is for.
pub open spec fn request_key(request: LoadRequest) -> Seq<char> {
    match request {
        LoadRequest::OnDemand(key) => key,
        LoadRequest::Prefetch(key) => key,
    }
}

/// What the loader decides for a request.
pub open spec fn decide(cache: CoverCacheView, request: LoadRequest) -> Decision {
    match request {
        LoadRequest::OnDemand(key) => on_demand_decision(cache, key),
        LoadRequest::Prefetch(key) => prefetch_decision(cache, key),
    }
}

/// How many of the requests, decided one after the other with no fetch
/// ending in between, lead to a fetch of `key`.
pub open spec fn fetches_of(
    cache: CoverCacheView,
    requests: Seq<LoadRequest>,
    key: Seq<char>,
) -> nat
    decreases requests.len(),
{
    if requests.len() == 0 {
        0
    } else {
        let decision = decide(cache, requests[0]);
        let next = after_decision(cache, request_key(requests[0]), decision);
        let here: nat = if decision is Fetch && request_key(requests[0]) == key {
            1
        } else {
            0
        };
        here + fetches_of(next, requests.drop_first(), key)
    }
}

/// While a key is pending, no request leads to a fetch of it.
pub proof fn lemma_pending_is_not_fetched(
    cache: CoverCacheView,
    requests: Seq<LoadRequest>,
    key: Seq<char>,
)
    requires
        cache.pending.contains(key),
    ensures
        fetches_of(cache, requests, key) == 0,
    decreases requests.len(),
{
    if requests.len() > 0 {
        let decision = decide(cache, requests[0]);
        let next = after_decision(cache, request_key(requests[0]), decision);
        lemma_pending_is_not_fetched(next, requests.drop_first(), key);
    }
}

/// However many loaders ask for a key before its fetch ends, and in
/// whatever order they get the lock, at most one of them fetches it.
pub proof fn lemma_one_fetch_per_key(
    cache: CoverCacheView,
    requests: Seq<LoadRequest>,
    key: Seq<char>,
)
    ensures
        fetches_of(cache, requests, key) <= 1,
    decreases requests.len(),
{
    if requests.len() > 0 {
        let decision = decide(cache, requests[0]);
        let next = after_decision(cache, request_key(requests[0]), decision);
        if decision is Fetch && request_key(requests[0]) == key {
            lemma_pending_is_not_fetched(next, requests.drop_first(), key);
        } else {
            lemma_one_fetch_per_key(next, requests.drop_first(), key);
        }
    }
}

/// A copy of artwork.
fn clone_data(data: &Option<Vec<u8>>) -> (r: Option<Vec<u8>>)
    ensures
        r.deep_view() == data.deep_view(),
{
    match data {
        Some(bytes) => {
            let copy = bytes.clone();
            assert(copy.deep_view() =~= bytes.deep_view());
            Some(copy)
        },
        None => None,
    }
}

/// The artwork that a fetch has brought: a fetch that failed counts as a
/// file without artwork, so that it is not tried again at every replay.
pub fn fetched_cover<E>(outcome: Result<Option<Vec<u8>>, E>) -> (data: Option<Vec<u8>>)
    ensures
        data == match outcome {
            Ok(found) => found,
            Err(_) => None,
        },
{
    match outcome {
        Ok(found) => found,
        Err(_) => None,
    }
}

/// The first step of the on-demand loader for `file_path`.
pub fn begin_cover_load(cache: &mut CoverCache, file_path: &str) -> (step: CoverLoadStep)
    ensures
        step@ == on_demand_decision(old(cache)@, file_path@),
        final(cache)@ == after_decision(old(cache)@, file_path@, step@),
{
    match cache.get(file_path) {
        Some(cached) => {
            return CoverLoadStep::Deliver(
                CoverArtMessage::Loaded(clone_data(&cached.data), file_path.to_owned()),
            );
        },
        None => {},
    }
    if cache.is_pending(file_path) {
        return CoverLoadStep::Skip;
    }
    cache.mark_pending(file_path.to_owned());
    CoverLoadStep::Fetch
}

/// The second step of the on-demand loader: stores what the fetch has
/// brought and returns the message to report.
pub fn finish_cover_load(cache: &mut CoverCache, file_path: String, data: Option<Vec<u8>>) -> (msg:
    CoverArtMessage)
    ensures
        final(cache)@ == stored(old(cache)@, file_path@, data.deep_view()),
        msg matches CoverArtMessage::Loaded(d, k) && d.deep_view() == data.deep_view() && k@
            == file_path@,
{
    cache.insert(file_path.clone(), clone_data(&data));
    CoverArtMessage::Loaded(data, file_path)
}

/// The first step of a prefetch loader for `file_path`: whether to fetch.
pub fn begin_prefetch(cache: &mut CoverCache, file_path: &str) -> (fetch: bool)
    ensures
        fetch == (prefetch_decision(old(cache)@, file_path@) is Fetch),
        final(cache)@ == after_decision(
            old(cache)@,
            file_path@,
            prefetch_decision(old(cache)@, file_path@),
        ),
{
    if cache.contains(file_path) || cache.is_pending(file_path) {
        return false;
    }
    cache.mark_pending(file_path.to_owned());
    true
}

/// The second step of a prefetch loader: stores what the fetch has brought.
pub fn finish_prefetch(cache: &mut CoverCache, file_path: String, data: Option<Vec<u8>>)
    ensures
        final(cache)@ == stored(old(cache)@, file_path@, data.deep_view()),
{
    cache.insert(file_path, data);
}

} // verus!
