//! The library loaded lazily: the names of the artists at once, the albums
//! of an artist when they are first asked for.

use crate::album::{Album, AlbumView, Artist, ArtistView, LazyArtist, LazyArtistView};
use crate::grouping::{group_by_album, has_album_named, tracks_of, tracks_on};
use crate::index::{
    clone_entries, entry_lt, is_album_index, listed, same_album, EntryView,
};
use crate::library::{albums_ascend, lemma_entries_ascend, Library};
use crate::song::{SongInfo, SongTags, Track};
use crate::sorting::{is_stable_sort, rearranges, sorted, stable_sort};
use crate::text::{
    lemma_name_le_antisymmetric, lemma_name_le_transitive, name_le, name_lt, text_equal,
};
use vstd::prelude::*;

verus! {

broadcast use vstd::seq_lib::group_to_multiset_ensures;

/// What can go wrong when the library is asked for an artist.
#[derive(Clone, Copy, Debug, PartialEq, Eq, Structural)]
pub enum LibraryError {
    /// There is no artist at the index.
    ArtistIndexOutOfBounds,
}

impl LibraryError {
    /// The error in words.
    pub fn message(&self) -> (r: String)
        ensures
            r@ == "Artist index out of bounds"@,
    {
        "Artist index out of bounds".to_owned()
    }
}

/// The library loaded artist by artist.
#[derive(Debug)]
pub struct LazyLibrary {
    artists: Vec<LazyArtist>,
    all_albums: Vec<(String, Album)>,
    all_albums_complete: bool,
}

/// The mathematical value of a [`LazyLibrary`].
pub struct LazyLibraryView {
    pub artists: Seq<LazyArtistView>,
    pub all_albums: Seq<EntryView>,
    pub all_albums_complete: bool,
}

/// The artist with the albums fetched so far: none before the fetch.
pub open spec fn as_artist(artist: LazyArtistView) -> ArtistView {
    ArtistView {
        name: artist.name,
        albums: match artist.albums {
            Some(albums) => albums,
            None => Seq::<AlbumView>::empty(),
        },
    }
}

/// The artists with the albums fetched so far.
pub open spec fn as_artists(artists: Seq<LazyArtistView>) -> Seq<ArtistView> {
    artists.map_values(|a: LazyArtistView| as_artist(a))
}

/// The albums of every artist have been fetched.
pub open spec fn all_loaded(artists: Seq<LazyArtistView>) -> bool {
    forall|a: int| 0 <= a < artists.len() ==> (#[trigger] artists[a]).albums is Some
}

/// The names of `artists` ascend strictly in the order of names.
pub open spec fn lazy_artists_ascend(artists: Seq<LazyArtistView>) -> bool {
    forall|i: int, j: int|
        0 <= i < j < artists.len() ==> name_lt(
            (#[trigger] artists[i]).name,
            (#[trigger] artists[j]).name,
        )
}

/// `albums` is what the songs `all` of one artist make: the albums in the
/// strict order of names, each with the tracks of its name sorted stably
/// in the order of tracks, and every song on one of them.
pub open spec fn albums_of_songs(albums: Seq<AlbumView>, all: Seq<Track>) -> bool {
    &&& albums_ascend(albums)
    &&& forall|b: int|
        0 <= b < albums.len() ==> (#[trigger] albums[b]).tracks.len() > 0 && is_stable_sort::<
            SongInfo,
        >(albums[b].tracks, tracks_on(all, albums[b].name))
    &&& forall|k: int| 0 <= k < all.len() ==> has_album_named(albums, (#[trigger] all[k]).album)
}

/// What always holds of a lazy library: the artists stand in the strict
/// order of names, the albums of an artist in the strict order of names,
/// the album index is that of the albums fetched so far, and the library
/// is marked complete only when every artist has been fetched.
pub open spec fn well_formed(lib: LazyLibraryView) -> bool {
    &&& lazy_artists_ascend(lib.artists)
    &&& forall|a: int|
        0 <= a < lib.artists.len() ==> albums_ascend(as_artist(#[trigger] lib.artists[a]).albums)
    &&& is_album_index(lib.all_albums, as_artists(lib.artists))
    &&& lib.all_albums_complete ==> all_loaded(lib.artists)
}

impl DeepView for LazyLibrary {
    type V = LazyLibraryView;

    closed spec fn deep_view(&self) -> LazyLibraryView {
        LazyLibraryView {
            artists: self.artists.deep_view(),
            all_albums: self.all_albums.deep_view(),
            all_albums_complete: self.all_albums_complete,
        }
    }
}

impl View for LazyLibrary {
    type V = LazyLibraryView;

    open spec fn view(&self) -> LazyLibraryView {
        self.deep_view()
    }
}

/// A copy of a list of artists that are loaded on demand.
fn clone_lazy_artists(artists: &Vec<LazyArtist>) -> (r: Vec<LazyArtist>)
    ensures
        r.deep_view() == artists.deep_view(),
{
    let mut r: Vec<LazyArtist> = Vec::new();
    let mut i: usize = 0;
    while i < artists.len()
        invariant
            i <= artists.len(),
            r.len() == i,
            forall|k: int| 0 <= k < i ==> r[k]@ == artists[k]@,
        decreases artists.len() - i,
    {
        r.push(artists[i].clone());
        i += 1;
    }
    assert(r.deep_view() =~= artists.deep_view());
    r
}

impl Clone for LazyLibrary {
    fn clone(&self) -> (r: Self)
        ensures
            r@ == self@,
    {
        LazyLibrary {
            artists: clone_lazy_artists(&self.artists),
            all_albums: clone_entries(&self.all_albums),
            all_albums_complete: self.all_albums_complete,
        }
    }
}

/// The names of `names` that are not empty, in their order.
fn without_empty(names: &Vec<String>) -> (kept: Vec<String>)
    ensures
        forall|k: int| 0 <= k < kept.len() ==> (#[trigger] kept[k])@.len() > 0,
        forall|n: Seq<char>|
            #[trigger] kept.deep_view().contains(n) <==> names.deep_view().contains(n) && n.len()
                > 0,
{
    let mut kept: Vec<String> = Vec::new();
    let mut i: usize = 0;
    let ghost src = names.deep_view();
    while i < names.len()
        invariant
            i <= names.len(),
            src == names.deep_view(),
            forall|k: int| 0 <= k < kept.len() ==> (#[trigger] kept[k])@.len() > 0,
            forall|n: Seq<char>|
                #[trigger] kept.deep_view().contains(n) <==> src.take(i as int).contains(n)
                    && n.len() > 0,
        decreases names.len() - i,
    {
        let ghost before = kept.deep_view();
        let ghost x = names[i as int]@;
        proof {
            assert(src.take(i + 1) =~= src.take(i as int).push(x));
        }
        if !names[i].as_str().is_empty() {
            kept.push(names[i].clone());
            proof {
                assert(kept.deep_view() =~= before.push(x));
            }
        }
        proof {
            let after = kept.deep_view();
            assert forall|n: Seq<char>| #[trigger]
                after.contains(n) <==> src.take(i + 1).contains(n) && n.len() > 0 by {
                broadcast use vstd::seq_lib::group_seq_properties;

                assert(before.contains(n) <==> src.take(i as int).contains(n) && n.len() > 0);
            }
        }
        i += 1;
    }
    proof {
        assert(src.take(i as int) =~= src);
    }
    kept
}


/// Some artist of `artists` is named `name`.
pub open spec fn has_artist_named(artists: Seq<LazyArtistView>, name: Seq<char>) -> bool {
    exists|a: int| 0 <= a < artists.len() && (#[trigger] artists[a]).name == name
}

/// One artist without albums for each different name of `names`, which is
/// sorted.
fn artists_of_sorted(names: Vec<String>) -> (artists: Vec<LazyArtist>)
    requires
        sorted::<String>(names.deep_view()),
    ensures
        lazy_artists_ascend(artists.deep_view()),
        forall|a: int| 0 <= a < artists.len() ==> (#[trigger] artists.deep_view()[a]).albums is None,
        forall|n: Seq<char>|
            has_artist_named(artists.deep_view(), n) <==> #[trigger] names.deep_view().contains(n),
{
    let ghost src = names.deep_view();
    let mut artists: Vec<LazyArtist> = Vec::new();
    let mut i: usize = 0;
    while i < names.len()
        invariant
            i <= names.len(),
            src == names.deep_view(),
            sorted::<String>(src),
            lazy_artists_ascend(artists.deep_view()),
            forall|a: int|
                0 <= a < artists.len() ==> (#[trigger] artists.deep_view()[a]).albums is None,
            forall|n: Seq<char>|
                has_artist_named(artists.deep_view(), n) <==> #[trigger] src.take(i as int).contains(
                    n,
                ),
            i > 0 ==> artists.len() > 0 && artists.deep_view().last().name == src[i - 1],
            i == 0 ==> artists.len() == 0,
        decreases names.len() - i,
    {
        let ghost before = artists.deep_view();
        let ghost x = src[i as int];
        proof {
            assert(src.take(i + 1) =~= src.take(i as int).push(x));
            assert(names[i as int]@ == x);
        }
        let fresh = if artists.len() == 0 {
            true
        } else {
            !text_equal(artists[artists.len() - 1].name.as_str(), names[i].as_str())
        };
        if fresh {
            artists.push(LazyArtist::new(names[i].clone()));
            proof {
                let after = artists.deep_view();
                assert(after =~= before.push(LazyArtistView { name: x, albums: None }));
                assert forall|p: int, q: int| 0 <= p < q < after.len() implies name_lt(
                    (#[trigger] after[p]).name,
                    (#[trigger] after[q]).name,
                ) by {
                    if q == before.len() {
                        let last = before.last().name;
                        assert(name_le(src[i - 1], src[i as int]));
                        if p < before.len() - 1 {
                            assert(name_lt(before[p].name, before.last().name));
                            lemma_name_le_transitive(before[p].name, last, x);
                            if before[p].name == x {
                                lemma_name_le_antisymmetric(last, x);
                            }
                        }
                    } else {
                        assert(name_lt(before[p].name, before[q].name));
                    }
                }
                assert forall|n: Seq<char>|
                    has_artist_named(after, n) <==> #[trigger] src.take(i + 1).contains(n) by {
                    broadcast use vstd::seq_lib::group_seq_properties;

                    assert(has_artist_named(before, n) <==> src.take(i as int).contains(n));
                    if has_artist_named(before, n) {
                        let a = choose|a: int|
                            0 <= a < before.len() && (#[trigger] before[a]).name == n;
                        assert(after[a].name == n);
                    }
                    if has_artist_named(after, n) && n != x {
                        let a = choose|a: int| 0 <= a < after.len() && (#[trigger] after[a]).name == n;
                        assert(before[a].name == n);
                    }
                    if n == x {
                        assert(after[before.len() as int].name == n);
                    }
                }
            }
        } else {
            proof {
                assert forall|n: Seq<char>|
                    has_artist_named(before, n) <==> #[trigger] src.take(i + 1).contains(n) by {
                    broadcast use vstd::seq_lib::group_seq_properties;

                    assert(has_artist_named(before, n) <==> src.take(i as int).contains(n));
                    if n == x {
                        assert(before[before.len() - 1].name == n);
                    }
                }
            }
        }
        i += 1;
    }
    proof {
        assert(src.take(i as int) =~= src);
    }
    artists
}

impl LazyLibrary {
    /// The library before any albums are fetched: one artist for each
    /// different name of `names` that is not empty, in the order of names.
    pub fn init(names: &Vec<String>) -> (lib: LazyLibrary)
        ensures
            well_formed(lib@),
            lib@.all_albums.len() == 0,
            !lib@.all_albums_complete,
            forall|a: int| 0 <= a < lib@.artists.len() ==> (#[trigger] lib@.artists[a]).albums is None,
            forall|n: Seq<char>|
                #![trigger has_artist_named(lib@.artists, n)]
                #![trigger names.deep_view().contains(n)]
                has_artist_named(lib@.artists, n) <==> names.deep_view().contains(n) && n.len()
                    > 0,
    {
        let mut kept = without_empty(names);
        let ghost unsorted = kept.deep_view();
        stable_sort(&mut kept);
        let ghost ordered = kept.deep_view();
        let artists = artists_of_sorted(kept);
        let lib = LazyLibrary { artists, all_albums: Vec::new(), all_albums_complete: false };
        proof {
            let v = lib@;
            assert(v.all_albums =~= Seq::<EntryView>::empty());
            assert forall|a: int| 0 <= a < v.artists.len() implies albums_ascend(
                as_artist(#[trigger] v.artists[a]).albums,
            ) by {}
            assert forall|e: EntryView| !listed(as_artists(v.artists), e) by {
                if listed(as_artists(v.artists), e) {
                    let a = choose|a: int|
                        0 <= a < v.artists.len() && (#[trigger] as_artists(v.artists)[a]).name
                            == e.0 && as_artists(v.artists)[a].albums.contains(e.1);
                    assert(v.artists[a].albums is None);
                    assert(as_artists(v.artists)[a].albums.len() == 0);
                }
            }
            assert forall|n: Seq<char>|
                #![trigger has_artist_named(v.artists, n)]
                #![trigger names.deep_view().contains(n)]
                has_artist_named(v.artists, n) <==> names.deep_view().contains(n) && n.len()
                    > 0 by {
                assert(ordered.contains(n) <==> ordered.to_multiset().count(n) > 0);
                assert(unsorted.contains(n) <==> unsorted.to_multiset().count(n) > 0);
                assert(has_artist_named(v.artists, n) <==> ordered.contains(n));
                assert(unsorted.contains(n) <==> names.deep_view().contains(n) && n.len() > 0);
            }
        }
        lib
    }

    /// The artists, in the order of names.
    pub fn artists(&self) -> (r: &Vec<LazyArtist>)
        ensures
            r.deep_view() == self@.artists,
    {
        &self.artists
    }

    /// The album index of the albums fetched so far.
    pub fn all_albums(&self) -> (r: &Vec<(String, Album)>)
        ensures
            r.deep_view() == self@.all_albums,
    {
        &self.all_albums
    }

    /// Whether the library is marked complete.
    pub fn is_complete(&self) -> (r: bool)
        ensures
            r == self@.all_albums_complete,
    {
        self.all_albums_complete
    }

    /// The albums of the artist at `artist_index`, once they are fetched.
    pub fn get_artist_albums(&self, artist_index: usize) -> (r: Option<&Vec<Album>>)
        ensures
            r.deep_view() == if artist_index < self@.artists.len() {
                self@.artists[artist_index as int].albums
            } else {
                None
            },
    {
        if artist_index < self.artists.len() {
            self.artists[artist_index].get_albums()
        } else {
            None
        }
    }

    /// Whether there is an artist at `artist_index` whose albums are fetched.
    pub fn is_artist_loaded(&self, artist_index: usize) -> (r: bool)
        ensures
            r == (artist_index < self@.artists.len() && self@.artists[artist_index as int].albums
                is Some),
    {
        artist_index < self.artists.len() && self.artists[artist_index].is_loaded()
    }

    /// The name of the artist at `artist_index`.
    pub fn get_artist_name(&self, artist_index: usize) -> (r: Option<&str>)
        ensures
            r.deep_view() == if artist_index < self@.artists.len() {
                Some(self@.artists[artist_index as int].name)
            } else {
                None
            },
    {
        if artist_index < self.artists.len() {
            Some(self.artists[artist_index].name.as_str())
        } else {
            None
        }
    }

    /// The artist at `artist_index` with the albums fetched so far.
    pub fn get_artist(&self, artist_index: usize) -> (r: Option<Artist>)
        ensures
            r.deep_view() == if artist_index < self@.artists.len() {
                Some(as_artist(self@.artists[artist_index as int]))
            } else {
                None
            },
    {
        if artist_index < self.artists.len() {
            Some(self.artists[artist_index].to_artist())
        } else {
            None
        }
    }
}


/// Sorts the tracks of each album.
fn sort_tracks_of_each(albums: &mut Vec<Album>)
    ensures
        final(albums).len() == old(albums).len(),
        forall|a: int|
            0 <= a < old(albums).len() ==> {
                let before = (#[trigger] old(albums)[a])@;
                let after = final(albums)[a]@;
                &&& after.name == before.name
                &&& after.tracks.len() == before.tracks.len()
                &&& is_stable_sort::<SongInfo>(after.tracks, before.tracks)
            },
{
    let mut i: usize = 0;
    while i < albums.len()
        invariant
            i <= albums.len(),
            albums.len() == old(albums).len(),
            forall|k: int| i <= k < albums.len() ==> #[trigger] albums[k] == old(albums)[k],
            forall|a: int|
                0 <= a < i ==> {
                    let before = (#[trigger] old(albums)[a])@;
                    let after = albums[a]@;
                    &&& after.name == before.name
                    &&& after.tracks.len() == before.tracks.len()
                    &&& is_stable_sort::<SongInfo>(after.tracks, before.tracks)
                },
        decreases albums.len() - i,
    {
        let ghost prev = albums@;
        stable_sort(&mut albums[i].tracks);
        proof {
            assert forall|a: int| 0 <= a < albums.len() && a != i implies #[trigger] albums[a]
                == prev[a] by {}
            assert(albums[i as int].name == prev[i as int].name);
        }
        i += 1;
    }
}

/// The albums that the songs of one artist make: grouped by album name,
/// the tracks of each album sorted, the albums sorted by name.
pub fn albums_of(songs: &Vec<SongTags>) -> (albums: Vec<Album>)
    ensures
        albums_of_songs(albums.deep_view(), tracks_of(songs.deep_view())),
{
    let ghost all = tracks_of(songs.deep_view());
    let mut albums = group_by_album(songs);
    let ghost grouped = albums.deep_view();
    sort_tracks_of_each(&mut albums);
    let ghost tracks_sorted = albums.deep_view();
    stable_sort(&mut albums);
    proof {
        let done = albums.deep_view();
        let from = choose|from: Seq<int>| rearranges(from, done, tracks_sorted);
        assert forall|i: int, j: int| 0 <= i < j < done.len() implies name_lt(
            (#[trigger] done[i]).name,
            (#[trigger] done[j]).name,
        ) by {
            assert(from[i] != from[j]);
            assert(tracks_sorted[from[i]].name == grouped[from[i]].name);
            assert(tracks_sorted[from[j]].name == grouped[from[j]].name);
            assert(grouped[from[i]].name != grouped[from[j]].name);
        }
        assert forall|b: int| 0 <= b < done.len() implies (#[trigger] done[b]).tracks.len() > 0
            && is_stable_sort::<SongInfo>(done[b].tracks, tracks_on(all, done[b].name)) by {
            let p = from[b];
            assert(done[b] == tracks_sorted[p]);
            assert(grouped[p].tracks == tracks_on(all, grouped[p].name));
        }
        assert forall|k: int| 0 <= k < all.len() implies has_album_named(
            done,
            (#[trigger] all[k]).album,
        ) by {
            let i = choose|i: int|
                0 <= i < grouped.len() && (#[trigger] grouped[i]).name == all[k].album;
            assert(tracks_sorted[i].name == grouped[i].name);
            assert(tracks_sorted.contains(tracks_sorted[i]));
            assert(done.to_multiset().count(tracks_sorted[i]) > 0);
            assert(done.contains(tracks_sorted[i]));
            let b = choose|b: int| 0 <= b < done.len() && done[b] == tracks_sorted[i];
            assert(done[b].name == all[k].album);
        }
    }
    albums
}

/// Whether the index has an entry for the album `album` of `artist`.
fn has_entry(index: &Vec<(String, Album)>, artist: &str, album: &str) -> (r: bool)
    ensures
        r == exists|i: int|
            0 <= i < index.len() && (#[trigger] index.deep_view()[i]).0 == artist@
                && index.deep_view()[i].1.name == album@,
{
    let mut i: usize = 0;
    while i < index.len()
        invariant
            i <= index.len(),
            forall|k: int|
                0 <= k < i ==> !((#[trigger] index.deep_view()[k]).0 == artist@
                    && index.deep_view()[k].1.name == album@),
        decreases index.len() - i,
    {
        if text_equal(index[i].0.as_str(), artist) && text_equal(index[i].1.name.as_str(), album) {
            assert(index.deep_view()[i as int].0 == artist@);
            return true;
        }
        i += 1;
    }
    false
}

/// Whether the albums of every artist have been fetched.
fn every_artist_loaded(artists: &Vec<LazyArtist>) -> (r: bool)
    ensures
        r == all_loaded(artists.deep_view()),
{
    let mut i: usize = 0;
    while i < artists.len()
        invariant
            i <= artists.len(),
            forall|k: int| 0 <= k < i ==> (#[trigger] artists.deep_view()[k]).albums is Some,
        decreases artists.len() - i,
    {
        if !artists[i].is_loaded() {
            assert(artists.deep_view()[i as int].albums is None);
            return false;
        }
        i += 1;
    }
    true
}


/// `after` is `before` with the albums of the artist at `at` fetched: they
/// are what the songs `all` make, nothing else changed, and the library is
/// marked complete when no artist is left to fetch.
pub open spec fn loads(
    before: LazyLibraryView,
    after: LazyLibraryView,
    at: int,
    all: Seq<Track>,
) -> bool {
    &&& after.artists.len() == before.artists.len()
    &&& forall|a: int|
        0 <= a < before.artists.len() && a != at ==> #[trigger] after.artists[a]
            == before.artists[a]
    &&& after.artists[at].name == before.artists[at].name
    &&& (after.artists[at].albums matches Some(albums) && albums_of_songs(albums, all))
    &&& after.all_albums_complete == all_loaded(after.artists)
}

/// The entries for the albums `albums` of the artist `name`.
pub open spec fn entries_for(name: Seq<char>, albums: Seq<AlbumView>) -> Seq<EntryView> {
    Seq::new(albums.len(), |k: int| (name, albums[k]))
}

/// No entry of the index is for an artist whose albums are not fetched.
proof fn lemma_unloaded_has_no_entry(lib: LazyLibraryView, at: int, p: int)
    requires
        well_formed(lib),
        0 <= at < lib.artists.len(),
        lib.artists[at].albums is None,
        0 <= p < lib.all_albums.len(),
    ensures
        lib.all_albums[p].0 != lib.artists[at].name,
{
    let e = lib.all_albums[p];
    let artists = as_artists(lib.artists);
    assert(lib.all_albums.contains(e));
    assert(listed(artists, e));
    let a = choose|a: int|
        0 <= a < artists.len() && (#[trigger] artists[a]).name == e.0 && artists[a].albums.contains(
            e.1,
        );
    if e.0 == lib.artists[at].name {
        if a < at {
            assert(name_lt(lib.artists[a].name, lib.artists[at].name));
        } else if at < a {
            assert(name_lt(lib.artists[at].name, lib.artists[a].name));
        }
        assert(artists[at].albums.len() == 0);
    }
}

/// Fetching the albums of an artist and sorting their entries into the
/// index keeps the index that of the albums fetched so far.
proof fn lemma_load_keeps_index(
    before: LazyLibraryView,
    at: int,
    albums: Seq<AlbumView>,
    index: Seq<EntryView>,
)
    requires
        well_formed(before),
        0 <= at < before.artists.len(),
        before.artists[at].albums is None,
        albums_ascend(albums),
        sorted::<(String, Album)>(index),
        index.to_multiset() == (before.all_albums + entries_for(
            before.artists[at].name,
            albums,
        )).to_multiset(),
        exists|from: Seq<int>|
            rearranges(
                from,
                index,
                before.all_albums + entries_for(before.artists[at].name, albums),
            ),
    ensures
        is_album_index(
            index,
            as_artists(
                before.artists.update(
                    at,
                    LazyArtistView { name: before.artists[at].name, albums: Some(albums) },
                ),
            ),
        ),
{
    let name = before.artists[at].name;
    let fresh = entries_for(name, albums);
    let combined = before.all_albums + fresh;
    let old_artists = as_artists(before.artists);
    let new_artists = as_artists(
        before.artists.update(at, LazyArtistView { name, albums: Some(albums) }),
    );
    let from = choose|from: Seq<int>| rearranges(from, index, combined);
    let old_len = before.all_albums.len() as int;
    assert forall|p: int, q: int|
        0 <= p < combined.len() && 0 <= q < combined.len() && p != q implies !same_album(
        #[trigger] combined[p],
        #[trigger] combined[q],
    ) by {
        if p < old_len && q < old_len {
            if p < q {
                assert(entry_lt(before.all_albums[p], before.all_albums[q]));
            } else {
                assert(entry_lt(before.all_albums[q], before.all_albums[p]));
            }
        } else if p < old_len {
            lemma_unloaded_has_no_entry(before, at, p);
        } else if q < old_len {
            lemma_unloaded_has_no_entry(before, at, q);
        } else {
            let p0 = p - old_len;
            let q0 = q - old_len;
            if p0 < q0 {
                assert(name_lt(albums[p0].name, albums[q0].name));
            } else {
                assert(name_lt(albums[q0].name, albums[p0].name));
            }
        }
    }
    lemma_entries_ascend(index, combined, from);
    assert forall|e: EntryView| #[trigger] index.contains(e) <==> listed(new_artists, e) by {
        assert(index.contains(e) <==> index.to_multiset().count(e) > 0);
        assert(combined.contains(e) <==> combined.to_multiset().count(e) > 0);
        assert(before.all_albums.contains(e) <==> listed(old_artists, e));
        if combined.contains(e) {
            let p = choose|p: int| 0 <= p < combined.len() && combined[p] == e;
            if p < old_len {
                assert(before.all_albums[p] == e);
                assert(before.all_albums.contains(e));
                let a = choose|a: int|
                    0 <= a < old_artists.len() && (#[trigger] old_artists[a]).name == e.0
                        && old_artists[a].albums.contains(e.1);
                assert(old_artists[at].albums.len() == 0);
                assert(a != at);
                assert(new_artists[a] == old_artists[a]);
                assert(listed(new_artists, e));
            } else {
                assert(e == (name, albums[p - old_len]));
                assert(new_artists[at].albums[p - old_len] == e.1);
                assert(new_artists[at].name == e.0);
                assert(listed(new_artists, e));
            }
        }
        if listed(new_artists, e) {
            let a = choose|a: int|
                0 <= a < new_artists.len() && (#[trigger] new_artists[a]).name == e.0
                    && new_artists[a].albums.contains(e.1);
            if a == at {
                let b = choose|b: int| 0 <= b < albums.len() && albums[b] == e.1;
                assert(combined[old_len + b] == e);
                assert(combined.contains(e));
            } else {
                assert(new_artists[a] == old_artists[a]);
                assert(listed(old_artists, e));
                let p = choose|p: int| 0 <= p < old_len && before.all_albums[p] == e;
                assert(combined[p] == e);
                assert(combined.contains(e));
            }
        }
    }
}


impl LazyLibrary {
    /// Which artist to ask the daemon about before `load_artist` is called
    /// for `artist_index`: the name of the artist there, or nothing if the
    /// albums are fetched already.
    pub fn artist_to_fetch(&self, artist_index: usize) -> (r: Result<Option<String>, LibraryError>)
        ensures
            artist_index >= self@.artists.len() ==> r == Err::<Option<String>, LibraryError>(
                LibraryError::ArtistIndexOutOfBounds,
            ),
            artist_index < self@.artists.len() ==> (r matches Ok(name) && name.deep_view() == (
            if self@.artists[artist_index as int].albums is Some {
                None
            } else {
                Some(self@.artists[artist_index as int].name)
            })),
    {
        if artist_index >= self.artists.len() {
            return Err(LibraryError::ArtistIndexOutOfBounds);
        }
        if self.artists[artist_index].is_loaded() {
            Ok(None)
        } else {
            Ok(Some(self.artists[artist_index].name.clone()))
        }
    }

    /// Stores the albums of the artist at `artist_index`, made from the
    /// songs that the daemon has for that artist. Does nothing if the albums
    /// are stored already, and fails if there is no such artist.
    pub fn load_artist(&mut self, artist_index: usize, songs: &Vec<SongTags>) -> (r: Result<
        (),
        LibraryError,
    >)
        requires
            well_formed(old(self)@),
        ensures
            well_formed(final(self)@),
            artist_index >= old(self)@.artists.len() ==> r == Err::<(), LibraryError>(
                LibraryError::ArtistIndexOutOfBounds,
            ) && final(self)@ == old(self)@,
            artist_index < old(self)@.artists.len() ==> r is Ok,
            artist_index < old(self)@.artists.len() && old(self)@.artists[artist_index as int].albums
                is Some ==> final(self)@ == old(self)@,
            artist_index < old(self)@.artists.len() && old(self)@.artists[artist_index as int].albums
                is None ==> loads(
                old(self)@,
                final(self)@,
                artist_index as int,
                tracks_of(songs.deep_view()),
            ),
    {
        if artist_index >= self.artists.len() {
            return Err(LibraryError::ArtistIndexOutOfBounds);
        }
        if self.artists[artist_index].is_loaded() {
            return Ok(());
        }
        let ghost before = self@;
        let ghost at = artist_index as int;
        let name = self.artists[artist_index].name.clone();
        let albums = albums_of(songs);
        let ghost made = albums.deep_view();
        let ghost fresh = entries_for(name@, made);
        let mut i: usize = 0;
        proof {
            assert(self.all_albums.deep_view() =~= before.all_albums + fresh.take(0));
        }
        while i < albums.len()
            invariant
                i <= albums.len(),
                made == albums.deep_view(),
                fresh == entries_for(name@, made),
                name@ == before.artists[at].name,
                well_formed(before),
                0 <= at < before.artists.len(),
                before.artists[at].albums is None,
                albums_ascend(made),
                self.artists.deep_view() == before.artists,
                self.all_albums.deep_view() == before.all_albums + fresh.take(i as int),
            decreases albums.len() - i,
        {
            let ghost so_far = self.all_albums.deep_view();
            let known = has_entry(&self.all_albums, name.as_str(), albums[i].name.as_str());
            proof {
                if known {
                    let p = choose|p: int|
                        0 <= p < so_far.len() && (#[trigger] so_far[p]).0 == name@
                            && so_far[p].1.name == albums[i as int].name@;
                    if p < before.all_albums.len() {
                        assert(so_far[p] == before.all_albums[p]);
                        lemma_unloaded_has_no_entry(before, at, p);
                    } else {
                        let k = p - before.all_albums.len();
                        assert(so_far[p] == fresh[k]);
                        assert(name_lt(made[k].name, made[i as int].name));
                    }
                    assert(false);
                }
            }
            if !known {
                self.all_albums.push((name.clone(), albums[i].clone()));
            }
            proof {
                assert(self.all_albums.deep_view() =~= so_far.push(fresh[i as int]));
                assert(fresh.take(i + 1) =~= fresh.take(i as int).push(fresh[i as int]));
                assert(so_far.push(fresh[i as int]) =~= before.all_albums + fresh.take(i + 1));
            }
            i += 1;
        }
        proof {
            assert(fresh.take(i as int) =~= fresh);
        }
        stable_sort(&mut self.all_albums);
        self.artists[artist_index].albums = Some(albums);
        self.all_albums_complete = every_artist_loaded(&self.artists);
        proof {
            let after = self@;
            let stored = LazyArtistView { name: before.artists[at].name, albums: Some(made) };
            lemma_load_keeps_index(before, at, made, after.all_albums);
            assert(after.artists =~= before.artists.update(at, stored));
            assert forall|a: int| 0 <= a < after.artists.len() implies albums_ascend(
                as_artist(#[trigger] after.artists[a]).albums,
            ) by {
                if a != at {
                    assert(after.artists[a] == before.artists[a]);
                }
            }
            assert forall|p: int, q: int| 0 <= p < q < after.artists.len() implies name_lt(
                (#[trigger] after.artists[p]).name,
                (#[trigger] after.artists[q]).name,
            ) by {
                assert(name_lt(before.artists[p].name, before.artists[q].name));
            }
        }
        Ok(())
    }

    /// The artist whose albums should be fetched next: the first that has
    /// none yet, or nothing when every artist has been fetched.
    pub fn next_unloaded(&self) -> (r: Option<usize>)
        ensures
            match r {
                Some(i) => i < self@.artists.len() && self@.artists[i as int].albums is None
                    && forall|k: int| 0 <= k < i ==> (#[trigger] self@.artists[k]).albums is Some,
                None => all_loaded(self@.artists),
            },
    {
        let mut i: usize = 0;
        while i < self.artists.len()
            invariant
                i <= self.artists.len(),
                forall|k: int| 0 <= k < i ==> (#[trigger] self@.artists[k]).albums is Some,
            decreases self.artists.len() - i,
        {
            if !self.artists[i].is_loaded() {
                assert(self@.artists[i as int].albums is None);
                return Some(i);
            }
            i += 1;
        }
        None
    }

    /// The library as far as it is fetched: artists not fetched yet come
    /// without albums.
    pub fn to_full_library(&self) -> (lib: Library)
        ensures
            lib@.artists == as_artists(self@.artists),
            lib@.all_albums == self@.all_albums,
    {
        let mut artists: Vec<Artist> = Vec::new();
        let mut i: usize = 0;
        while i < self.artists.len()
            invariant
                i <= self.artists.len(),
                artists.len() == i,
                forall|k: int|
                    0 <= k < i ==> (#[trigger] artists.deep_view()[k]) == as_artist(
                        self@.artists[k],
                    ),
            decreases self.artists.len() - i,
        {
            let ghost so_far = artists.deep_view();
            artists.push(self.artists[i].to_artist());
            proof {
                let now = artists.deep_view();
                assert forall|k: int| 0 <= k <= i implies (#[trigger] now[k]) == as_artist(
                    self@.artists[k],
                ) by {
                    if k < i {
                        assert(now[k] == so_far[k]);
                    } else {
                        assert(now[k].albums =~= as_artist(self@.artists[k]).albums);
                    }
                }
            }
            i += 1;
        }
        let all_albums = clone_entries(&self.all_albums);
        proof {
            assert(artists.deep_view() =~= as_artists(self@.artists));
            assert(all_albums.deep_view() =~= self@.all_albums);
        }
        Library { artists, all_albums }
    }
}

} // verus!
