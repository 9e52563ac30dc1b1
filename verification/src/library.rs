//! The library built eagerly from the whole catalog: artists, their albums
//! and the tracks of each album, with the flattened album index.

use crate::album::{clone_artists, Album, AlbumView, Artist, ArtistView};
use crate::grouping::{
    canonical_album_artist, group_by_album, grouped_by_album, has_album_named,
    is_canonical_artist, tracks_of, tracks_on,
};
use crate::index::{
    clone_entries, entry_lt, is_album_index, listed, same_album, EntryView,
};
use crate::places::Places;
use crate::song::{SongInfo, SongTags, Track};
use crate::sorting::{is_stable_sort, rearranges, sorted, stable_sort, Ranked};
use crate::text::name_lt;
use vstd::prelude::*;

verus! {

broadcast use vstd::seq_lib::group_to_multiset_ensures;

/// The whole library.
#[derive(Debug)]
pub struct Library {
    pub artists: Vec<Artist>,
    /// Every album beside the name of its artist, for browsing by album.
    pub all_albums: Vec<(String, Album)>,
}

/// The mathematical value of a [`Library`].
pub struct LibraryView {
    pub artists: Seq<ArtistView>,
    pub all_albums: Seq<EntryView>,
}

impl DeepView for Library {
    type V = LibraryView;

    open spec fn deep_view(&self) -> LibraryView {
        LibraryView {
            artists: self.artists.deep_view(),
            all_albums: self.all_albums.deep_view(),
        }
    }
}

impl View for Library {
    type V = LibraryView;

    open spec fn view(&self) -> LibraryView {
        self.deep_view()
    }
}

impl Clone for Library {
    fn clone(&self) -> (r: Self)
        ensures
            r@ == self@,
    {
        Library {
            artists: clone_artists(&self.artists),
            all_albums: clone_entries(&self.all_albums),
        }
    }
}

/// `tracks`, each credited to `artist`.
pub open spec fn credited_to(tracks: Seq<Track>, artist: Seq<char>) -> Seq<Track> {
    tracks.map_values(|t: Track| Track { album_artist: artist, ..t })
}

/// `album` is what the catalog `all` holds under its name, given to
/// `artist`: `artist` is the one the album is credited to, and the tracks
/// are those of the catalog with that album name, each credited to
/// `artist`, sorted stably in the order of tracks.
pub open spec fn album_settled(album: AlbumView, artist: Seq<char>, all: Seq<Track>) -> bool {
    let on = tracks_on(all, album.name);
    &&& album.tracks.len() > 0
    &&& is_canonical_artist(on, artist)
    &&& is_stable_sort::<SongInfo>(album.tracks, credited_to(on, artist))
}

/// The album names of `albums` ascend strictly in the order of names.
pub open spec fn albums_ascend(albums: Seq<AlbumView>) -> bool {
    forall|i: int, j: int|
        0 <= i < j < albums.len() ==> name_lt((#[trigger] albums[i]).name, (#[trigger] albums[j]).name)
}

/// The names of `artists` ascend strictly in the order of names.
pub open spec fn artists_ascend(artists: Seq<ArtistView>) -> bool {
    forall|i: int, j: int|
        0 <= i < j < artists.len() ==> name_lt(
            (#[trigger] artists[i]).name,
            (#[trigger] artists[j]).name,
        )
}

/// Some artist of `artists` has an album named `name`.
pub open spec fn holds_album_named(artists: Seq<ArtistView>, name: Seq<char>) -> bool {
    exists|a: int| 0 <= a < artists.len() && has_album_named((#[trigger] artists[a]).albums, name)
}

/// `lib` is the library of the catalog `all`: artists in the strict order
/// of names, under each artist at least one album and the albums in the
/// strict order of names, each album settled from the catalog, every track
/// of the catalog on an album of the library, and the album index that of
/// the artists.
pub open spec fn catalogs(lib: LibraryView, all: Seq<Track>) -> bool {
    &&& artists_ascend(lib.artists)
    &&& forall|a: int|
        0 <= a < lib.artists.len() ==> (#[trigger] lib.artists[a]).albums.len() > 0
            && albums_ascend(lib.artists[a].albums)
    &&& forall|a: int, b: int|
        0 <= a < lib.artists.len() && 0 <= b < lib.artists[a].albums.len() ==> album_settled(
            #[trigger] lib.artists[a].albums[b],
            lib.artists[a].name,
            all,
        )
    &&& forall|k: int|
        0 <= k < all.len() ==> holds_album_named(lib.artists, (#[trigger] all[k]).album)
    &&& is_album_index(lib.all_albums, lib.artists)
}

/// Credits every track of the album to the artist settled for it, and
/// sorts the tracks. Returns the artist.
fn settle_album(album: &mut Album) -> (artist: String)
    ensures
        final(album)@.name == old(album)@.name,
        final(album)@.tracks.len() == old(album)@.tracks.len(),
        is_canonical_artist(old(album)@.tracks, artist@),
        is_stable_sort::<SongInfo>(
            final(album)@.tracks,
            credited_to(old(album)@.tracks, artist@),
        ),
{
    let artist = canonical_album_artist(&album.tracks);
    let ghost before = album.tracks.deep_view();
    let mut j: usize = 0;
    while j < album.tracks.len()
        invariant
            j <= album.tracks.len(),
            album.name == old(album).name,
            album.tracks.len() == before.len(),
            forall|k: int|
                0 <= k < j ==> (#[trigger] album.tracks[k])@ == (Track {
                    album_artist: artist@,
                    ..before[k]
                }),
            forall|k: int| j <= k < before.len() ==> (#[trigger] album.tracks[k])@ == before[k],
        decreases album.tracks.len() - j,
    {
        album.tracks[j].album_artist = artist.clone();
        j += 1;
    }
    assert(album.tracks.deep_view() =~= credited_to(before, artist@));
    stable_sort(&mut album.tracks);
    artist
}

/// Settles every album of `albums`. Returns, place for place, the artist
/// that each album is credited to.
fn settle_albums(albums: &mut Vec<Album>) -> (credit: Vec<String>)
    ensures
        final(albums).len() == old(albums).len(),
        credit.len() == old(albums).len(),
        forall|i: int|
            0 <= i < old(albums).len() ==> {
                let before = (#[trigger] old(albums)[i])@;
                let after = final(albums)[i]@;
                &&& after.name == before.name
                &&& after.tracks.len() == before.tracks.len()
                &&& is_canonical_artist(before.tracks, credit[i]@)
                &&& is_stable_sort::<SongInfo>(after.tracks, credited_to(before.tracks, credit[i]@))
            },
{
    let mut credit: Vec<String> = Vec::new();
    let mut i: usize = 0;
    while i < albums.len()
        invariant
            i <= albums.len(),
            albums.len() == old(albums).len(),
            credit.len() == i,
            forall|k: int| i <= k < albums.len() ==> #[trigger] albums[k] == old(albums)[k],
            forall|k: int|
                0 <= k < i ==> {
                    let before = (#[trigger] old(albums)[k])@;
                    let after = albums[k]@;
                    &&& after.name == before.name
                    &&& after.tracks.len() == before.tracks.len()
                    &&& is_canonical_artist(before.tracks, credit[k]@)
                    &&& is_stable_sort::<SongInfo>(
                        after.tracks,
                        credited_to(before.tracks, credit[k]@),
                    )
                },
        decreases albums.len() - i,
    {
        let artist = settle_album(&mut albums[i]);
        credit.push(artist);
        i += 1;
    }
    credit
}

/// The entries of the index for `albums`: each beside its artist.
fn pair_up(albums: &Vec<Album>, credit: &Vec<String>) -> (entries: Vec<(String, Album)>)
    requires
        albums.len() == credit.len(),
    ensures
        entries.len() == albums.len(),
        forall|i: int|
            0 <= i < albums.len() ==> (#[trigger] entries.deep_view()[i]) == (
                credit[i]@,
                albums[i]@,
            ),
{
    let mut entries: Vec<(String, Album)> = Vec::new();
    let mut i: usize = 0;
    while i < albums.len()
        invariant
            i <= albums.len(),
            albums.len() == credit.len(),
            entries.len() == i,
            forall|k: int|
                0 <= k < i ==> (#[trigger] entries.deep_view()[k]) == (credit[k]@, albums[k]@),
        decreases albums.len() - i,
    {
        let ghost before = entries.deep_view();
        entries.push((credit[i].clone(), albums[i].clone()));
        proof {
            let after = entries.deep_view();
            assert forall|k: int| 0 <= k <= i implies (#[trigger] after[k]) == (
                credit[k]@,
                albums[k]@,
            ) by {
                if k < i {
                    assert(after[k] == before[k]);
                }
            }
        }
        i += 1;
    }
    entries
}

/// The names of `artists`, place for place.
pub(crate) open spec fn artist_names(artists: Seq<ArtistView>) -> Seq<Seq<char>> {
    artists.map_values(|a: ArtistView| a.name)
}

/// `artists` holds the albums of `albums`, each under the artist that
/// `credit` names for it: no artist occurs twice or is without an album,
/// every album under an artist is one of `albums` credited to that artist
/// and stands there once, and every album of `albums` is under its artist.
pub open spec fn grouped_by_artist(
    artists: Seq<ArtistView>,
    albums: Seq<AlbumView>,
    credit: Seq<Seq<char>>,
) -> bool {
    &&& forall|a: int, b: int|
        0 <= a < b < artists.len() ==> (#[trigger] artists[a]).name != (#[trigger] artists[b]).name
    &&& forall|a: int| 0 <= a < artists.len() ==> (#[trigger] artists[a]).albums.len() > 0
    &&& forall|a: int|
        0 <= a < artists.len() ==> drawn_from((#[trigger] artists[a]), albums, credit)
    &&& forall|i: int|
        0 <= i < albums.len() ==> listed(artists, (credit[i], #[trigger] albums[i]))
}

/// The albums under `artist` are albums of `albums` credited to it, each
/// from a place of its own.
pub open spec fn drawn_from(
    artist: ArtistView,
    albums: Seq<AlbumView>,
    credit: Seq<Seq<char>>,
) -> bool {
    exists|from: Seq<int>| drawn_by(artist, from, albums, credit)
}

/// The album at place `b` under `artist` is the album at place `from[b]`
/// of `albums`, credited to `artist`; no place is taken twice.
pub open spec fn drawn_by(
    artist: ArtistView,
    from: Seq<int>,
    albums: Seq<AlbumView>,
    credit: Seq<Seq<char>>,
) -> bool {
    &&& from.len() == artist.albums.len()
    &&& from.no_duplicates()
    &&& forall|b: int|
        0 <= b < from.len() ==> {
            &&& 0 <= #[trigger] from[b] < albums.len()
            &&& albums[from[b]] == artist.albums[b]
            &&& credit[from[b]] == artist.name
        }
}

/// Puts each album under the artist that it is credited to.
fn group_by_artist(albums: Vec<Album>, credit: Vec<String>) -> (artists: Vec<Artist>)
    requires
        albums.len() == credit.len(),
    ensures
        grouped_by_artist(artists.deep_view(), albums.deep_view(), credit.deep_view()),
{
    let ghost src = albums.deep_view();
    let ghost names = credit.deep_view();
    let mut albums = albums;
    let mut credit = credit;
    let mut artists: Vec<Artist> = Vec::new();
    let mut places = Places::new();
    let ghost mut froms: Seq<Seq<int>> = Seq::empty();
    proof {
        assert(src.take(src.len() as int) =~= src);
        assert(names.take(names.len() as int) =~= names);
        assert(artist_names(artists.deep_view()) =~= Seq::<Seq<char>>::empty());
    }
    while albums.len() > 0
        invariant
            albums.len() == credit.len(),
            albums.len() <= src.len(),
            src.len() == names.len(),
            albums.deep_view() == src.take(albums.len() as int),
            credit.deep_view() == names.take(albums.len() as int),
            froms.len() == artists.len(),
            places.tells(artist_names(artists.deep_view())),
            forall|a: int, b: int|
                0 <= a < b < artists.len() ==> (#[trigger] artists[a])@.name != (
                #[trigger] artists[b])@.name,
            forall|a: int| 0 <= a < artists.len() ==> (#[trigger] artists[a])@.albums.len() > 0,
            forall|a: int|
                0 <= a < artists.len() ==> drawn_by(
                    (#[trigger] artists[a])@,
                    froms[a],
                    src,
                    names,
                ),
            forall|a: int, b: int|
                0 <= a < froms.len() && 0 <= b < froms[a].len() ==> albums.len() <= (
                #[trigger] froms[a][b]),
            forall|i: int|
                albums.len() <= i < src.len() ==> listed(
                    artists.deep_view(),
                    (names[i], #[trigger] src[i]),
                ),
        decreases albums.len(),
    {
        let ghost n = albums.len() as int;
        let ghost before = artists.deep_view();
        let ghost albums_before = albums.deep_view();
        let ghost credit_before = credit.deep_view();
        let album = albums.pop().unwrap();
        let name = credit.pop().unwrap();
        proof {
            assert(album@ == albums_before[n - 1]);
            assert(name@ == credit_before[n - 1]);
            assert(album@ == src[n - 1]);
            assert(name@ == names[n - 1]);
            assert(albums.deep_view() =~= src.take(n - 1));
            assert(credit.deep_view() =~= names.take(n - 1));
        }
        match places.find(name.as_str(), Ghost(artist_names(before))) {
            Some(at) => {
                assert(artist_names(before)[at as int] == before[at as int].name);
                let ghost under = artists[at as int]@;
                artists[at].albums.push(album);
                proof {
                    let after = artists.deep_view();
                    let grown = froms[at as int].push(n - 1);
                    assert(after[at as int].albums =~= under.albums.push(src[n - 1]));
                    assert forall|a: int| 0 <= a < after.len() && a != at implies after[a]
                        == before[a] by {
                        assert(artists[a]@ == before[a]);
                    }
                    assert(drawn_by(artists[at as int]@, grown, src, names));
                    froms = froms.update(at as int, grown);
                    assert(artist_names(after) =~= artist_names(before)) by {
                        assert(after[at as int].name == before[at as int].name);
                    }
                    assert forall|i: int| n - 1 <= i < src.len() implies listed(
                        after,
                        (names[i], #[trigger] src[i]),
                    ) by {
                        if i == n - 1 {
                            assert(after[at as int].albums[under.albums.len() as int] == src[i]);
                        } else {
                            let a = choose|a: int|
                                0 <= a < before.len() && (#[trigger] before[a]).name == names[i]
                                    && before[a].albums.contains(src[i]);
                            if a == at {
                                let b = choose|b: int|
                                    0 <= b < under.albums.len() && under.albums[b] == src[i];
                                assert(after[a].albums[b] == src[i]);
                            }
                            assert(after[a].name == names[i]);
                        }
                    }
                }
            },
            None => {
                let mut under: Vec<Album> = Vec::new();
                under.push(album);
                assert forall|a: int| 0 <= a < before.len() implies (#[trigger] before[a]).name
                    != name@ by {
                    assert(artist_names(before)[a] != name@);
                }
                places.add(name.clone(), artists.len(), Ghost(artist_names(before)));
                artists.push(Artist { name, albums: under });
                proof {
                    let after = artists.deep_view();
                    let last = before.len() as int;
                    assert(artist_names(after) =~= artist_names(before).push(names[n - 1])) by {
                        assert forall|a: int| 0 <= a < before.len() implies after[a].name
                            == before[a].name by {
                            assert(artists[a]@ == before[a]);
                        }
                    }
                    assert(after[last].albums =~= seq![src[n - 1]]);
                    assert forall|a: int| 0 <= a < before.len() implies after[a] == before[a] by {
                        assert(artists[a]@ == before[a]);
                    }
                    froms = froms.push(seq![n - 1]);
                    assert(drawn_by(artists[last]@, froms[last], src, names));
                    assert forall|a: int, b: int| 0 <= a < b < artists.len() implies (
                    #[trigger] artists[a])@.name != (#[trigger] artists[b])@.name by {
                        assert(artists[a]@ == before[a]);
                        if b < last {
                            assert(artists[b]@ == before[b]);
                        } else {
                            assert(artists[b]@.name == names[n - 1]);
                        }
                    }
                    assert forall|i: int| n - 1 <= i < src.len() implies listed(
                        after,
                        (names[i], #[trigger] src[i]),
                    ) by {
                        if i == n - 1 {
                            assert(after[last].albums[0] == src[i]);
                        } else {
                            let a = choose|a: int|
                                0 <= a < before.len() && (#[trigger] before[a]).name == names[i]
                                    && before[a].albums.contains(src[i]);
                            assert(after[a].name == names[i]);
                        }
                    }
                }
            },
        }
    }
    proof {
        let done = artists.deep_view();
        assert forall|a: int| 0 <= a < done.len() implies drawn_from(
            (#[trigger] done[a]),
            src,
            names,
        ) by {
            assert(drawn_by(artists[a]@, froms[a], src, names));
        }
    }
    artists
}


/// Sorts the albums under each artist by name.
fn sort_albums_of_each(artists: &mut Vec<Artist>)
    ensures
        final(artists).len() == old(artists).len(),
        forall|a: int|
            0 <= a < old(artists).len() ==> {
                let before = (#[trigger] old(artists)[a])@;
                let after = final(artists)[a]@;
                &&& after.name == before.name
                &&& sorted::<Album>(after.albums)
                &&& after.albums.to_multiset() == before.albums.to_multiset()
                &&& exists|from: Seq<int>| rearranges(from, after.albums, before.albums)
            },
{
    let mut i: usize = 0;
    while i < artists.len()
        invariant
            i <= artists.len(),
            artists.len() == old(artists).len(),
            forall|k: int| i <= k < artists.len() ==> #[trigger] artists[k] == old(artists)[k],
            forall|a: int|
                0 <= a < i ==> {
                    let before = (#[trigger] old(artists)[a])@;
                    let after = artists[a]@;
                    &&& after.name == before.name
                    &&& sorted::<Album>(after.albums)
                    &&& after.albums.to_multiset() == before.albums.to_multiset()
                    &&& exists|from: Seq<int>| rearranges(from, after.albums, before.albums)
                },
        decreases artists.len() - i,
    {
        let ghost prev = artists@;
        stable_sort(&mut artists[i].albums);
        proof {
            assert forall|a: int| 0 <= a < artists.len() && a != i implies #[trigger] artists[a]
                == prev[a] by {}
            assert(artists[i as int].name == prev[i as int].name);
        }
        i += 1;
    }
}

/// Sorted albums with different names ascend strictly.
proof fn lemma_albums_ascend(r: Seq<AlbumView>, s: Seq<AlbumView>, from: Seq<int>)
    requires
        sorted::<Album>(r),
        rearranges(from, r, s),
        forall|p: int, q: int|
            0 <= p < s.len() && 0 <= q < s.len() && p != q ==> (#[trigger] s[p]).name != (
            #[trigger] s[q]).name,
    ensures
        albums_ascend(r),
{
    assert forall|i: int, j: int| 0 <= i < j < r.len() implies name_lt(
        (#[trigger] r[i]).name,
        (#[trigger] r[j]).name,
    ) by {
        assert(from[i] != from[j]);
        assert(s[from[i]].name != s[from[j]].name);
    }
}

/// Sorted artists with different names ascend strictly.
proof fn lemma_artists_ascend(r: Seq<ArtistView>, s: Seq<ArtistView>, from: Seq<int>)
    requires
        sorted::<Artist>(r),
        rearranges(from, r, s),
        forall|p: int, q: int|
            0 <= p < s.len() && 0 <= q < s.len() && p != q ==> (#[trigger] s[p]).name != (
            #[trigger] s[q]).name,
    ensures
        artists_ascend(r),
{
    assert forall|i: int, j: int| 0 <= i < j < r.len() implies name_lt(
        (#[trigger] r[i]).name,
        (#[trigger] r[j]).name,
    ) by {
        assert(from[i] != from[j]);
        assert(s[from[i]].name != s[from[j]].name);
    }
}

/// Sorted entries for different albums ascend strictly.
pub proof fn lemma_entries_ascend(r: Seq<EntryView>, s: Seq<EntryView>, from: Seq<int>)
    requires
        sorted::<(String, Album)>(r),
        rearranges(from, r, s),
        forall|p: int, q: int|
            0 <= p < s.len() && 0 <= q < s.len() && p != q ==> !same_album(
                #[trigger] s[p],
                #[trigger] s[q],
            ),
    ensures
        forall|i: int, j: int| 0 <= i < j < r.len() ==> entry_lt(#[trigger] r[i], #[trigger] r[j]),
{
    assert forall|i: int, j: int| 0 <= i < j < r.len() implies entry_lt(
        #[trigger] r[i],
        #[trigger] r[j],
    ) by {
        assert(from[i] != from[j]);
        assert(!same_album(s[from[i]], s[from[j]]));
        assert(<(String, Album) as Ranked>::rank_le(r[i], r[j]));
    }
}

/// Whether an album is listed does not depend on the order of the albums
/// under each artist.
pub proof fn lemma_listed_albums_reordered(x: Seq<ArtistView>, y: Seq<ArtistView>, e: EntryView)
    requires
        x.len() == y.len(),
        forall|a: int|
            0 <= a < x.len() ==> (#[trigger] x[a]).name == y[a].name && x[a].albums.to_multiset()
                == y[a].albums.to_multiset(),
    ensures
        listed(x, e) == listed(y, e),
{
    if listed(x, e) {
        let a = choose|a: int|
            0 <= a < x.len() && (#[trigger] x[a]).name == e.0 && x[a].albums.contains(e.1);
        assert(y[a].albums.to_multiset().count(e.1) > 0);
        assert(y[a].name == e.0 && y[a].albums.contains(e.1));
    }
    if listed(y, e) {
        let a = choose|a: int|
            0 <= a < y.len() && (#[trigger] y[a]).name == e.0 && y[a].albums.contains(e.1);
        assert(x[a].albums.to_multiset().count(e.1) > 0);
        assert(x[a].name == e.0 && x[a].albums.contains(e.1));
    }
}

/// Whether an album is listed does not depend on the order of the artists.
pub proof fn lemma_listed_artists_reordered(x: Seq<ArtistView>, y: Seq<ArtistView>, e: EntryView)
    requires
        x.to_multiset() == y.to_multiset(),
    ensures
        listed(x, e) == listed(y, e),
{
    if listed(x, e) {
        let a = choose|a: int|
            0 <= a < x.len() && (#[trigger] x[a]).name == e.0 && x[a].albums.contains(e.1);
        assert(x.contains(x[a]));
        assert(y.to_multiset().count(x[a]) > 0);
        assert(y.contains(x[a]));
        let b = choose|b: int| 0 <= b < y.len() && y[b] == x[a];
        assert(y[b].name == e.0 && y[b].albums.contains(e.1));
    }
    if listed(y, e) {
        let a = choose|a: int|
            0 <= a < y.len() && (#[trigger] y[a]).name == e.0 && y[a].albums.contains(e.1);
        assert(y.contains(y[a]));
        assert(x.to_multiset().count(y[a]) > 0);
        assert(x.contains(y[a]));
        let b = choose|b: int| 0 <= b < x.len() && x[b] == y[a];
        assert(x[b].name == e.0 && x[b].albums.contains(e.1));
    }
}


/// The steps of the eager build yield the library of the catalog.
proof fn lemma_build_catalogs(
    all: Seq<Track>,
    grouped: Seq<AlbumView>,
    settled: Seq<AlbumView>,
    credit: Seq<Seq<char>>,
    paired: Seq<EntryView>,
    index: Seq<EntryView>,
    by_artist: Seq<ArtistView>,
    albums_sorted: Seq<ArtistView>,
    artists: Seq<ArtistView>,
)
    requires
        grouped_by_album(grouped, all),
        settled.len() == grouped.len(),
        credit.len() == grouped.len(),
        forall|i: int|
            0 <= i < grouped.len() ==> {
                let before = #[trigger] grouped[i];
                let after = settled[i];
                &&& after.name == before.name
                &&& after.tracks.len() == before.tracks.len()
                &&& is_canonical_artist(before.tracks, credit[i])
                &&& is_stable_sort::<SongInfo>(after.tracks, credited_to(before.tracks, credit[i]))
            },
        paired.len() == settled.len(),
        forall|i: int| 0 <= i < settled.len() ==> (#[trigger] paired[i]) == (credit[i], settled[i]),
        sorted::<(String, Album)>(index),
        index.to_multiset() == paired.to_multiset(),
        exists|from: Seq<int>| rearranges(from, index, paired),
        grouped_by_artist(by_artist, settled, credit),
        albums_sorted.len() == by_artist.len(),
        forall|a: int|
            0 <= a < by_artist.len() ==> {
                let before = #[trigger] by_artist[a];
                let after = albums_sorted[a];
                &&& after.name == before.name
                &&& sorted::<Album>(after.albums)
                &&& after.albums.to_multiset() == before.albums.to_multiset()
                &&& exists|from: Seq<int>| rearranges(from, after.albums, before.albums)
            },
        sorted::<Artist>(artists),
        artists.to_multiset() == albums_sorted.to_multiset(),
        exists|from: Seq<int>| rearranges(from, artists, albums_sorted),
    ensures
        catalogs(LibraryView { artists, all_albums: index }, all),
{
    // every settled album is settled from the catalog
    assert forall|i: int| 0 <= i < settled.len() implies album_settled(
        #[trigger] settled[i],
        credit[i],
        all,
    ) by {
        assert(grouped[i].tracks == tracks_on(all, grouped[i].name));
    }
    // what holds of each artist once the albums are sorted
    assert forall|a: int| 0 <= a < albums_sorted.len() implies {
        let artist = #[trigger] albums_sorted[a];
        &&& artist.albums.len() > 0
        &&& albums_ascend(artist.albums)
        &&& forall|b: int|
            0 <= b < artist.albums.len() ==> album_settled(
                #[trigger] artist.albums[b],
                artist.name,
                all,
            )
    } by {
        let before = by_artist[a];
        let after = albums_sorted[a];
        let placed = choose|from: Seq<int>| rearranges(from, after.albums, before.albums);
        assert(drawn_from(before, settled, credit));
        let drawn = choose|from: Seq<int>| drawn_by(before, from, settled, credit);
        assert forall|p: int, q: int|
            0 <= p < before.albums.len() && 0 <= q < before.albums.len() && p != q implies (
        #[trigger] before.albums[p]).name != (#[trigger] before.albums[q]).name by {
            assert(drawn[p] != drawn[q]);
            assert(settled[drawn[p]] == before.albums[p]);
            assert(settled[drawn[q]] == before.albums[q]);
            assert(grouped[drawn[p]].name != grouped[drawn[q]].name);
        }
        lemma_albums_ascend(after.albums, before.albums, placed);
        assert forall|b: int| 0 <= b < after.albums.len() implies album_settled(
            #[trigger] after.albums[b],
            after.name,
            all,
        ) by {
            let p = placed[b];
            assert(after.albums[b] == before.albums[p]);
            assert(settled[drawn[p]] == before.albums[p]);
            assert(album_settled(settled[drawn[p]], credit[drawn[p]], all));
        }
    }
    let moved = choose|from: Seq<int>| rearranges(from, artists, albums_sorted);
    assert forall|p: int, q: int|
        0 <= p < albums_sorted.len() && 0 <= q < albums_sorted.len() && p != q implies (
    #[trigger] albums_sorted[p]).name != (#[trigger] albums_sorted[q]).name by {
        assert(by_artist[p].name != by_artist[q].name);
    }
    lemma_artists_ascend(artists, albums_sorted, moved);
    let lib = LibraryView { artists, all_albums: index };
    assert forall|a: int| 0 <= a < artists.len() implies (#[trigger] artists[a]).albums.len() > 0
        && albums_ascend(artists[a].albums) by {
        assert(artists[a] == albums_sorted[moved[a]]);
    }
    assert forall|a: int, b: int|
        0 <= a < artists.len() && 0 <= b < artists[a].albums.len() implies album_settled(
        #[trigger] artists[a].albums[b],
        artists[a].name,
        all,
    ) by {
        assert(artists[a] == albums_sorted[moved[a]]);
    }
    assert forall|e: EntryView| listed(by_artist, e) == listed(artists, e) by {
        lemma_listed_albums_reordered(by_artist, albums_sorted, e);
        lemma_listed_artists_reordered(albums_sorted, artists, e);
    }
    assert forall|k: int| 0 <= k < all.len() implies holds_album_named(
        artists,
        (#[trigger] all[k]).album,
    ) by {
        let i = choose|i: int|
            0 <= i < grouped.len() && (#[trigger] grouped[i]).name == all[k].album;
        let e = (credit[i], settled[i]);
        assert(listed(by_artist, e));
        assert(listed(artists, e));
        let a = choose|a: int|
            0 <= a < artists.len() && (#[trigger] artists[a]).name == e.0
                && artists[a].albums.contains(e.1);
        let b = choose|b: int| 0 <= b < artists[a].albums.len() && artists[a].albums[b] == e.1;
        assert(artists[a].albums[b].name == all[k].album);
        assert(has_album_named(artists[a].albums, all[k].album));
    }
    // the index
    let ordered = choose|from: Seq<int>| rearranges(from, index, paired);
    assert forall|p: int, q: int|
        0 <= p < paired.len() && 0 <= q < paired.len() && p != q implies !same_album(
        #[trigger] paired[p],
        #[trigger] paired[q],
    ) by {
        assert(grouped[p].name != grouped[q].name);
    }
    lemma_entries_ascend(index, paired, ordered);
    assert forall|e: EntryView| #[trigger] index.contains(e) <==> listed(artists, e) by {
        if index.contains(e) {
            assert(paired.to_multiset().count(e) > 0);
            assert(paired.contains(e));
            let i = choose|i: int| 0 <= i < paired.len() && paired[i] == e;
            assert(listed(by_artist, (credit[i], settled[i])));
        }
        if listed(artists, e) {
            assert(listed(by_artist, e));
            let a = choose|a: int|
                0 <= a < by_artist.len() && (#[trigger] by_artist[a]).name == e.0
                    && by_artist[a].albums.contains(e.1);
            assert(drawn_from(by_artist[a], settled, credit));
            let drawn = choose|from: Seq<int>| drawn_by(by_artist[a], from, settled, credit);
            let b = choose|b: int|
                0 <= b < by_artist[a].albums.len() && by_artist[a].albums[b] == e.1;
            let i = drawn[b];
            assert(paired[i] == e);
            assert(paired.contains(e));
            assert(index.to_multiset().count(e) > 0);
        }
    }
}

impl Library {
    /// Builds the library of a catalog. Each album is credited to one
    /// artist, whatever its tracks say, and stands under that artist.
    pub fn load_library(all_songs: &Vec<SongTags>) -> (lib: Library)
        ensures
            catalogs(lib@, tracks_of(all_songs.deep_view())),
    {
        let ghost all = tracks_of(all_songs.deep_view());
        let mut albums = group_by_album(all_songs);
        let ghost grouped = albums.deep_view();
        let credit = settle_albums(&mut albums);
        let ghost settled = albums.deep_view();
        let mut all_albums = pair_up(&albums, &credit);
        let ghost paired = all_albums.deep_view();
        stable_sort(&mut all_albums);
        let mut artists = group_by_artist(albums, credit);
        let ghost by_artist = artists.deep_view();
        sort_albums_of_each(&mut artists);
        let ghost albums_sorted = artists.deep_view();
        stable_sort(&mut artists);
        proof {
            lemma_build_catalogs(
                all,
                grouped,
                settled,
                credit.deep_view(),
                paired,
                all_albums.deep_view(),
                by_artist,
                albums_sorted,
                artists.deep_view(),
            );
        }
        Library { artists, all_albums }
    }
}

} // verus!
