//! The cover-art cache: what has been fetched for each file key, and which
//! keys are being fetched.
//!
//! A file without cover art is cached too, so that it is not asked for
//! again. The set of pending keys lets several loaders agree that only one
//! of them fetches a key. The cache itself is a plain value: the program
//! shares it behind a lock and calls one operation at a time.

use crate::song::{SongInfo, Track};
use crate::text::text_equal;
use vstd::hash_map::StringHashMap;
use vstd::hash_set::StringHashSet;
use vstd::prelude::*;

verus! {

/// The result of one fetch: the artwork, or `None` for a file without any.
pub struct CachedCover {
    pub data: Option<Vec<u8>>,
}

/// The cache of cover art.
pub struct CoverCache {
    entries: StringHashMap<CachedCover>,
    pending: StringHashSet,
}

/// The mathematical value of a [`CoverCache`].
pub struct CoverCacheView {
    /// What has been fetched for each key.
    pub entries: Map<Seq<char>, Option<Seq<u8>>>,
    /// The keys being fetched.
    pub pending: Set<Seq<char>>,
}

/// The cache once a fetch of `key` has started.
pub open spec fn marked_pending(cache: CoverCacheView, key: Seq<char>) -> CoverCacheView {
    CoverCacheView { entries: cache.entries, pending: cache.pending.insert(key) }
}

/// The cache once the fetch of `key` has ended with `data`.
pub open spec fn stored(
    cache: CoverCacheView,
    key: Seq<char>,
    data: Option<Seq<u8>>,
) -> CoverCacheView {
    CoverCacheView { entries: cache.entries.insert(key, data), pending: cache.pending.remove(key) }
}

/// A fetch that is started and then ends leaves its result in the cache
/// and the key no longer pending, whatever the cache held before.
pub proof fn lemma_fetch_settles(cache: CoverCacheView, key: Seq<char>, data: Option<Seq<u8>>)
    ensures
        stored(marked_pending(cache, key), key, data).entries.contains_key(key),
        stored(marked_pending(cache, key), key, data).entries[key] == data,
        !stored(marked_pending(cache, key), key, data).pending.contains(key),
{
}

impl View for CoverCache {
    type V = CoverCacheView;

    closed spec fn view(&self) -> CoverCacheView {
        CoverCacheView {
            entries: Map::new(
                |k: Seq<char>| self.entries@.contains_key(k),
                |k: Seq<char>| self.entries@[k].data.deep_view(),
            ),
            pending: self.pending@,
        }
    }
}

impl CoverCache {
    /// An empty cache.
    pub fn new() -> (cache: CoverCache)
        ensures
            cache@.entries == Map::<Seq<char>, Option<Seq<u8>>>::empty(),
            cache@.pending == Set::<Seq<char>>::empty(),
    {
        let cache = CoverCache { entries: StringHashMap::new(), pending: StringHashSet::new() };
        assert(cache@.entries =~= Map::<Seq<char>, Option<Seq<u8>>>::empty());
        cache
    }

    /// What has been fetched for `key`, if anything.
    pub fn get(&self, key: &str) -> (r: Option<&CachedCover>)
        ensures
            match r {
                Some(cover) => self@.entries.contains_key(key@) && cover.data.deep_view()
                    == self@.entries[key@],
                None => !self@.entries.contains_key(key@),
            },
    {
        self.entries.get(key)
    }

    /// Whether a fetch of `key` has ended.
    pub fn contains(&self, key: &str) -> (r: bool)
        ensures
            r == self@.entries.contains_key(key@),
    {
        self.entries.contains_key(key)
    }

    /// Whether `key` is being fetched.
    pub fn is_pending(&self, key: &str) -> (r: bool)
        ensures
            r == self@.pending.contains(key@),
    {
        self.pending.contains(key)
    }

    /// Records that a fetch of `key` has started.
    pub fn mark_pending(&mut self, key: String)
        ensures
            final(self)@ == marked_pending(old(self)@, key@),
    {
        self.pending.insert(key);
        assert(self@.entries =~= old(self)@.entries);
    }

    /// Records that the fetch of `key` has ended with `data`. A result
    /// stored before for the same key is overwritten.
    pub fn insert(&mut self, key: String, data: Option<Vec<u8>>)
        ensures
            final(self)@ == stored(old(self)@, key@, data.deep_view()),
    {
        self.pending.remove(key.as_str());
        self.entries.insert(key, CachedCover { data });
        assert(self@.entries =~= old(self)@.entries.insert(key@, data.deep_view()));
    }
}

/// How many entries after the current one are fetched ahead of need.
pub const PREFETCH_AHEAD: usize = 1;

/// How many entries before the current one are fetched ahead of need.
pub const PREFETCH_BEHIND: usize = 1;

/// The place `j` of a queue of `len` entries is next to the current place
/// without being it.
pub open spec fn in_window(len: int, current: int, j: int) -> bool {
    &&& 0 <= j < len
    &&& j != current
    &&& current - PREFETCH_BEHIND <= j <= current + PREFETCH_AHEAD
}

/// `key` is worth fetching ahead of need: it is the key of an entry next
/// to the current one, and not the key of the current entry itself. With
/// no current entry, or one outside the queue, nothing is.
pub open spec fn is_prefetch_target(
    queue: Seq<Track>,
    current: Option<usize>,
    key: Seq<char>,
) -> bool {
    match current {
        Some(i) => i < queue.len() && key != queue[i as int].file_path && exists|j: int|
            in_window(queue.len() as int, i as int, j) && (#[trigger] queue[j]).file_path == key,
        None => false,
    }
}

/// The keys worth fetching among the places of the window before `upto`,
/// each once, in the order of the queue.
pub open spec fn targets_before(queue: Seq<Track>, current: int, upto: int) -> Seq<Seq<char>>
    decreases upto,
{
    if upto <= 0 || upto <= current - PREFETCH_BEHIND {
        Seq::<Seq<char>>::empty()
    } else {
        let sooner = targets_before(queue, current, upto - 1);
        let key = queue[upto - 1].file_path;
        if upto - 1 != current && key != queue[current].file_path && !sooner.contains(key) {
            sooner.push(key)
        } else {
            sooner
        }
    }
}

/// The place after the last place of the window.
pub open spec fn window_end(len: int, current: int) -> int {
    if current + PREFETCH_AHEAD + 1 <= len {
        current + PREFETCH_AHEAD + 1
    } else {
        len
    }
}

/// The file keys worth fetching ahead of need, each once, in the order of
/// the queue. With no current entry, or one outside the queue, there are
/// none.
pub open spec fn prefetch_targets(queue: Seq<Track>, current: Option<usize>) -> Seq<Seq<char>> {
    match current {
        Some(i) if i < queue.len() => targets_before(
            queue,
            i as int,
            window_end(queue.len() as int, i as int),
        ),
        _ => Seq::<Seq<char>>::empty(),
    }
}

proof fn lemma_targets_before(queue: Seq<Track>, current: int, upto: int)
    requires
        0 <= current < queue.len(),
        upto <= window_end(queue.len() as int, current),
    ensures
        targets_before(queue, current, upto).no_duplicates(),
        forall|key: Seq<char>| #[trigger]
            targets_before(queue, current, upto).contains(key) <==> key
                != queue[current].file_path && exists|k: int|
                in_window(queue.len() as int, current, k) && k < upto && (#[trigger] queue[k]).file_path
                    == key,
    decreases upto,
{
    broadcast use vstd::seq_lib::group_seq_properties;

    let own = queue[current].file_path;
    let now = targets_before(queue, current, upto);
    if upto <= 0 || upto <= current - PREFETCH_BEHIND {
        assert forall|key: Seq<char>| #[trigger]
            now.contains(key) <==> key != own && exists|k: int|
                in_window(queue.len() as int, current, k) && k < upto && (#[trigger] queue[k]).file_path
                    == key by {}
    } else {
        let sooner = targets_before(queue, current, upto - 1);
        let here = queue[upto - 1].file_path;
        lemma_targets_before(queue, current, upto - 1);
        assert forall|key: Seq<char>| #[trigger]
            now.contains(key) <==> key != own && exists|k: int|
                in_window(queue.len() as int, current, k) && k < upto && (#[trigger] queue[k]).file_path
                    == key by {
            let was = key != own && exists|k: int|
                in_window(queue.len() as int, current, k) && k < upto - 1 && (
                #[trigger] queue[k]).file_path == key;
            assert(sooner.contains(key) <==> was);
            if now.contains(key) && !sooner.contains(key) {
                assert(key == here);
                assert(in_window(queue.len() as int, current, upto - 1));
            }
            if key != own && exists|k: int|
                in_window(queue.len() as int, current, k) && k < upto && (#[trigger] queue[k]).file_path
                    == key {
                let k = choose|k: int|
                    in_window(queue.len() as int, current, k) && k < upto && (
                    #[trigger] queue[k]).file_path == key;
                if k < upto - 1 {
                    assert(was);
                } else {
                    assert(key == here);
                }
            }
        }
    }
}

/// The keys fetched ahead of need are the keys of the entries next to the
/// current one, but for the key of the current entry, and none comes twice.
pub proof fn lemma_prefetch_targets_fill_the_window(queue: Seq<Track>, current: Option<usize>)
    ensures
        prefetch_targets(queue, current).no_duplicates(),
        forall|key: Seq<char>| #[trigger]
            prefetch_targets(queue, current).contains(key) <==> is_prefetch_target(
                queue,
                current,
                key,
            ),
{
    match current {
        Some(i) if i < queue.len() => {
            lemma_targets_before(queue, i as int, window_end(queue.len() as int, i as int));
        },
        _ => {},
    }
}

/// Whether `key` is one of `keys`.
fn holds_key(keys: &Vec<String>, key: &str) -> (r: bool)
    ensures
        r == keys.deep_view().contains(key@),
{
    let mut i: usize = 0;
    while i < keys.len()
        invariant
            i <= keys.len(),
            forall|k: int| 0 <= k < i ==> (#[trigger] keys.deep_view()[k]) != key@,
        decreases keys.len() - i,
    {
        if text_equal(keys[i].as_str(), key) {
            assert(keys.deep_view()[i as int] == key@);
            return true;
        }
        i += 1;
    }
    false
}

/// The file keys worth fetching ahead of need: those of the entries of the
/// queue next to the current one.
pub fn get_prefetch_targets(queue: &Vec<SongInfo>, current_index: Option<usize>) -> (targets: Vec<
    String,
>)
    ensures
        targets.deep_view() == prefetch_targets(queue.deep_view(), current_index),
{
    let mut targets: Vec<String> = Vec::new();
    let current = match current_index {
        Some(i) => i,
        None => {
            assert(targets.deep_view() =~= Seq::<Seq<char>>::empty());
            return targets;
        },
    };
    if current >= queue.len() {
        assert(targets.deep_view() =~= Seq::<Seq<char>>::empty());
        return targets;
    }
    let ghost q = queue.deep_view();
    let first: usize = if current >= PREFETCH_BEHIND {
        current - PREFETCH_BEHIND
    } else {
        0
    };
    let end: usize = if queue.len() - current <= PREFETCH_AHEAD {
        queue.len()
    } else {
        current + PREFETCH_AHEAD + 1
    };
    let mut j: usize = first;
    proof {
        assert(targets.deep_view() =~= targets_before(q, current as int, first as int));
    }
    while j < end
        invariant
            first <= j <= end,
            end <= queue.len(),
            current < queue.len(),
            q == queue.deep_view(),
            first == if current >= PREFETCH_BEHIND {
                current - PREFETCH_BEHIND
            } else {
                0
            },
            targets.deep_view() == targets_before(q, current as int, j as int),
        decreases end - j,
    {
        let ghost before = targets.deep_view();
        assert(queue[j as int]@.file_path == q[j as int].file_path);
        assert(queue[current as int]@.file_path == q[current as int].file_path);
        let take = j != current && !text_equal(
            queue[j].file_path.as_str(),
            queue[current].file_path.as_str(),
        ) && !holds_key(&targets, queue[j].file_path.as_str());
        if take {
            targets.push(queue[j].file_path.clone());
            proof {
                assert(targets.deep_view() =~= before.push(q[j as int].file_path));
            }
        }
        j += 1;
    }
    targets
}

/// `index` is the place of the current song in the queue: that of the first
/// entry with its file key, or nothing if there is no current song or the
/// queue does not hold it.
pub open spec fn is_current_index(
    queue: Seq<Track>,
    current_song: Option<Track>,
    index: Option<usize>,
) -> bool {
    match index {
        Some(i) => current_song is Some && i < queue.len() && queue[i as int].file_path
            == current_song->0.file_path && forall|k: int|
            0 <= k < i ==> (#[trigger] queue[k]).file_path != current_song->0.file_path,
        None => current_song is None || forall|k: int|
            0 <= k < queue.len() ==> (#[trigger] queue[k]).file_path != current_song->0.file_path,
    }
}

/// The place of the current song in the queue.
pub fn find_current_index(queue: &Vec<SongInfo>, current_song: &Option<SongInfo>) -> (r: Option<
    usize,
>)
    ensures
        is_current_index(queue.deep_view(), current_song.deep_view(), r),
{
    match current_song {
        None => None,
        Some(song) => {
            let mut i: usize = 0;
            assert(current_song.deep_view() == Some(song@));
            while i < queue.len()
                invariant
                    i <= queue.len(),
                    current_song.deep_view() == Some(song@),
                    forall|k: int|
                        0 <= k < i ==> (#[trigger] queue.deep_view()[k]).file_path
                            != song@.file_path,
                decreases queue.len() - i,
            {
                if text_equal(queue[i].file_path.as_str(), song.file_path.as_str()) {
                    assert(queue.deep_view()[i as int].file_path == song@.file_path);
                    return Some(i);
                }
                i += 1;
            }
            None
        },
    }
}

} // verus!
