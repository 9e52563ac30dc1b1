//! What a library is said to be settles it: a catalog has one library only,
//! the songs of an artist make one list of albums only, and a list of
//! artists has one album index only.

use crate::album::{Album, AlbumView, Artist, ArtistView};
use crate::by_artist::{filed_under, files, has_artist_named, is_under, Filed};
use crate::grouping::tracks_of;
use crate::lazy::{albums_of_songs, as_artists, loads, well_formed, LazyLibraryView};
use crate::grouping::{has_album_named, lemma_canonical_artist_unique, tracks_on};
use crate::index::{entry_lt, is_album_index, lemma_entry_le_antisymmetric, listed, EntryView};
use crate::library::{
    album_settled, albums_ascend, artists_ascend, catalogs, credited_to, holds_album_named,
    LibraryView,
};
use crate::song::{SongInfo, Track};
use crate::sorting::{
    lemma_sorted_members_unique, lemma_stable_sort_of_nothing, lemma_stable_sort_unique, no_ties,
    sorted, tied,
};
use crate::text::{lemma_name_le_antisymmetric, name_lt};
use vstd::prelude::*;

verus! {

broadcast use vstd::seq_lib::group_filter_ensures;

/// Albums in the strict order of names are sorted and have no ties.
proof fn lemma_albums_in_order(albums: Seq<AlbumView>)
    requires
        albums_ascend(albums),
    ensures
        sorted::<Album>(albums),
        no_ties::<Album>(albums),
{
    assert forall|i: int, j: int|
        0 <= i < albums.len() && 0 <= j < albums.len() && i != j implies !tied::<Album>(
        #[trigger] albums[i],
        #[trigger] albums[j],
    ) by {
        if tied::<Album>(albums[i], albums[j]) {
            lemma_name_le_antisymmetric(albums[i].name, albums[j].name);
            if i < j {
                assert(name_lt(albums[i].name, albums[j].name));
            } else {
                assert(name_lt(albums[j].name, albums[i].name));
            }
        }
    }
}

/// Artists in the strict order of names are sorted and have no ties.
proof fn lemma_artists_in_order(artists: Seq<ArtistView>)
    requires
        artists_ascend(artists),
    ensures
        sorted::<Artist>(artists),
        no_ties::<Artist>(artists),
{
    assert forall|i: int, j: int|
        0 <= i < artists.len() && 0 <= j < artists.len() && i != j implies !tied::<Artist>(
        #[trigger] artists[i],
        #[trigger] artists[j],
    ) by {
        if tied::<Artist>(artists[i], artists[j]) {
            lemma_name_le_antisymmetric(artists[i].name, artists[j].name);
            if i < j {
                assert(name_lt(artists[i].name, artists[j].name));
            } else {
                assert(name_lt(artists[j].name, artists[i].name));
            }
        }
    }
}

/// Entries in the strict order of entries are sorted and have no ties.
proof fn lemma_entries_in_order(index: Seq<EntryView>)
    requires
        forall|i: int, j: int|
            0 <= i < j < index.len() ==> entry_lt(#[trigger] index[i], #[trigger] index[j]),
    ensures
        sorted::<(String, Album)>(index),
        no_ties::<(String, Album)>(index),
{
    assert forall|i: int, j: int| 0 <= i < j < index.len() implies <(String, Album) as crate::sorting::Ranked>::rank_le(
        #[trigger] index[i],
        #[trigger] index[j],
    ) by {
        assert(entry_lt(index[i], index[j]));
    }
    assert forall|i: int, j: int|
        0 <= i < index.len() && 0 <= j < index.len() && i != j implies !tied::<(String, Album)>(
        #[trigger] index[i],
        #[trigger] index[j],
    ) by {
        if tied::<(String, Album)>(index[i], index[j]) {
            lemma_entry_le_antisymmetric(index[i], index[j]);
            if i < j {
                assert(entry_lt(index[i], index[j]));
            } else {
                assert(entry_lt(index[j], index[i]));
            }
        }
    }
}

/// An album of one library of a catalog stands, under the same artist, in
/// every library of that catalog.
proof fn lemma_album_has_a_twin(a: LibraryView, b: LibraryView, all: Seq<Track>, i: int, p: int)
    requires
        catalogs(a, all),
        catalogs(b, all),
        0 <= i < a.artists.len(),
        0 <= p < a.artists[i].albums.len(),
    ensures
        listed(b.artists, (a.artists[i].name, a.artists[i].albums[p])),
{
    let artist = a.artists[i];
    let album = artist.albums[p];
    let on = tracks_on(all, album.name);
    assert(album_settled(album, artist.name, all));
    lemma_stable_sort_of_nothing::<SongInfo>(album.tracks, credited_to(on, artist.name));
    assert(on.len() > 0);
    // a track of the catalog is on the album
    let t = on[0];
    assert(on.contains(t));
    all.lemma_filter_contains_rev(|x: Track| x.album == album.name, t);
    let k = choose|k: int| 0 <= k < all.len() && all[k] == t;
    assert(t.album == album.name);
    assert(holds_album_named(b.artists, all[k].album));
    let j = choose|j: int|
        0 <= j < b.artists.len() && has_album_named((#[trigger] b.artists[j]).albums, album.name);
    let q = choose|q: int|
        0 <= q < b.artists[j].albums.len() && (#[trigger] b.artists[j].albums[q]).name
            == album.name;
    let twin = b.artists[j].albums[q];
    assert(album_settled(twin, b.artists[j].name, all));
    lemma_canonical_artist_unique(on, artist.name, b.artists[j].name);
    lemma_stable_sort_unique::<SongInfo>(album.tracks, twin.tracks, credited_to(on, artist.name));
    assert(twin == album);
    assert(b.artists[j].albums.contains(album));
}

/// An artist of one library of a catalog stands in every library of that
/// catalog, with the same albums.
proof fn lemma_artist_has_a_twin(a: LibraryView, b: LibraryView, all: Seq<Track>, i: int)
    requires
        catalogs(a, all),
        catalogs(b, all),
        0 <= i < a.artists.len(),
    ensures
        b.artists.contains(a.artists[i]),
{
    let artist = a.artists[i];
    lemma_album_has_a_twin(a, b, all, i, 0);
    let j = choose|j: int|
        0 <= j < b.artists.len() && (#[trigger] b.artists[j]).name == artist.name
            && b.artists[j].albums.contains(artist.albums[0]);
    let other = b.artists[j];
    assert forall|x: AlbumView| artist.albums.contains(x) <==> other.albums.contains(x) by {
        if artist.albums.contains(x) {
            let p = choose|p: int| 0 <= p < artist.albums.len() && artist.albums[p] == x;
            lemma_album_has_a_twin(a, b, all, i, p);
            let j2 = choose|j2: int|
                0 <= j2 < b.artists.len() && (#[trigger] b.artists[j2]).name == artist.name
                    && b.artists[j2].albums.contains(x);
            if j2 < j {
                assert(name_lt(b.artists[j2].name, b.artists[j].name));
            } else if j < j2 {
                assert(name_lt(b.artists[j].name, b.artists[j2].name));
            }
        }
        if other.albums.contains(x) {
            let q = choose|q: int| 0 <= q < other.albums.len() && other.albums[q] == x;
            lemma_album_has_a_twin(b, a, all, j, q);
            let i2 = choose|i2: int|
                0 <= i2 < a.artists.len() && (#[trigger] a.artists[i2]).name == other.name
                    && a.artists[i2].albums.contains(x);
            if i2 < i {
                assert(name_lt(a.artists[i2].name, a.artists[i].name));
            } else if i < i2 {
                assert(name_lt(a.artists[i].name, a.artists[i2].name));
            }
        }
    }
    lemma_albums_in_order(artist.albums);
    lemma_albums_in_order(other.albums);
    lemma_sorted_members_unique::<Album>(artist.albums, other.albums);
    assert(other == artist);
}

/// A list of artists has one album index only.
pub proof fn lemma_artists_have_one_index(
    a: Seq<EntryView>,
    b: Seq<EntryView>,
    artists: Seq<ArtistView>,
)
    requires
        is_album_index(a, artists),
        is_album_index(b, artists),
    ensures
        a == b,
{
    assert forall|e: EntryView| a.contains(e) <==> b.contains(e) by {
        assert(a.contains(e) <==> listed(artists, e));
        assert(b.contains(e) <==> listed(artists, e));
    }
    lemma_entries_in_order(a);
    lemma_entries_in_order(b);
    lemma_sorted_members_unique::<(String, Album)>(a, b);
}

/// An album that the songs of an artist make is in every list of albums
/// that they make.
proof fn lemma_made_album_has_a_twin(
    a: Seq<AlbumView>,
    b: Seq<AlbumView>,
    all: Seq<Track>,
    p: int,
)
    requires
        albums_of_songs(a, all),
        albums_of_songs(b, all),
        0 <= p < a.len(),
    ensures
        b.contains(a[p]),
{
    let album = a[p];
    let on = tracks_on(all, album.name);
    lemma_stable_sort_of_nothing::<SongInfo>(album.tracks, on);
    let t = on[0];
    assert(on.contains(t));
    all.lemma_filter_contains_rev(|x: Track| x.album == album.name, t);
    let k = choose|k: int| 0 <= k < all.len() && all[k] == t;
    assert(t.album == album.name);
    assert(has_album_named(b, all[k].album));
    let q = choose|q: int| 0 <= q < b.len() && (#[trigger] b[q]).name == album.name;
    lemma_stable_sort_unique::<SongInfo>(album.tracks, b[q].tracks, on);
    assert(b[q] == album);
}

/// The songs of an artist make one list of albums only.
pub proof fn lemma_songs_make_one_list_of_albums(
    a: Seq<AlbumView>,
    b: Seq<AlbumView>,
    all: Seq<Track>,
)
    requires
        albums_of_songs(a, all),
        albums_of_songs(b, all),
    ensures
        a == b,
{
    assert forall|x: AlbumView| a.contains(x) <==> b.contains(x) by {
        if a.contains(x) {
            let p = choose|p: int| 0 <= p < a.len() && a[p] == x;
            lemma_made_album_has_a_twin(a, b, all, p);
        }
        if b.contains(x) {
            let q = choose|q: int| 0 <= q < b.len() && b[q] == x;
            lemma_made_album_has_a_twin(b, a, all, q);
        }
    }
    lemma_albums_in_order(a);
    lemma_albums_in_order(b);
    lemma_sorted_members_unique::<Album>(a, b);
}

/// Fetching the albums of an artist has one outcome only.
pub proof fn lemma_load_has_one_outcome(
    before: LazyLibraryView,
    a: LazyLibraryView,
    b: LazyLibraryView,
    at: int,
    all: Seq<Track>,
)
    requires
        0 <= at < before.artists.len(),
        loads(before, a, at, all),
        loads(before, b, at, all),
        well_formed(a),
        well_formed(b),
    ensures
        a == b,
{
    lemma_songs_make_one_list_of_albums(a.artists[at].albums->0, b.artists[at].albums->0, all);
    assert(a.artists =~= b.artists) by {
        assert forall|i: int| 0 <= i < a.artists.len() implies a.artists[i] == b.artists[i] by {
            if i != at {
                assert(a.artists[i] == before.artists[i]);
                assert(b.artists[i] == before.artists[i]);
            }
        }
    }
    lemma_artists_have_one_index(a.all_albums, b.all_albums, as_artists(a.artists));
}

/// An artist that songs are filed under stands in every library of the
/// filed songs, with the same albums.
proof fn lemma_filed_artist_has_a_twin(a: LibraryView, b: LibraryView, filed: Seq<Filed>, i: int)
    requires
        files(a, filed),
        files(b, filed),
        0 <= i < a.artists.len(),
    ensures
        b.artists.contains(a.artists[i]),
{
    let artist = a.artists[i];
    let under = filed.filter(is_under(artist.name));
    assert(filed_under(filed, artist.name).len() == under.len());
    let f = under[0];
    assert(under.contains(f));
    filed.lemma_filter_contains_rev(is_under(artist.name), f);
    let k = choose|k: int| 0 <= k < filed.len() && filed[k] == f;
    assert(is_under(artist.name)(f));
    assert(has_artist_named(b.artists, filed[k].0));
    let j = choose|j: int| 0 <= j < b.artists.len() && (#[trigger] b.artists[j]).name == artist.name;
    lemma_songs_make_one_list_of_albums(
        artist.albums,
        b.artists[j].albums,
        tracks_of(filed_under(filed, artist.name)),
    );
    assert(b.artists[j] == artist);
}

/// Filed songs have one library only.
pub proof fn lemma_filed_songs_have_one_library(a: LibraryView, b: LibraryView, filed: Seq<Filed>)
    requires
        files(a, filed),
        files(b, filed),
    ensures
        a == b,
{
    assert forall|x: ArtistView| a.artists.contains(x) <==> b.artists.contains(x) by {
        if a.artists.contains(x) {
            let i = choose|i: int| 0 <= i < a.artists.len() && a.artists[i] == x;
            lemma_filed_artist_has_a_twin(a, b, filed, i);
        }
        if b.artists.contains(x) {
            let j = choose|j: int| 0 <= j < b.artists.len() && b.artists[j] == x;
            lemma_filed_artist_has_a_twin(b, a, filed, j);
        }
    }
    lemma_artists_in_order(a.artists);
    lemma_artists_in_order(b.artists);
    lemma_sorted_members_unique::<Artist>(a.artists, b.artists);
    lemma_artists_have_one_index(a.all_albums, b.all_albums, a.artists);
}

/// A catalog has one library only.
pub proof fn lemma_catalog_has_one_library(a: LibraryView, b: LibraryView, all: Seq<Track>)
    requires
        catalogs(a, all),
        catalogs(b, all),
    ensures
        a == b,
{
    assert forall|x: ArtistView| a.artists.contains(x) <==> b.artists.contains(x) by {
        if a.artists.contains(x) {
            let i = choose|i: int| 0 <= i < a.artists.len() && a.artists[i] == x;
            lemma_artist_has_a_twin(a, b, all, i);
        }
        if b.artists.contains(x) {
            let j = choose|j: int| 0 <= j < b.artists.len() && b.artists[j] == x;
            lemma_artist_has_a_twin(b, a, all, j);
        }
    }
    lemma_artists_in_order(a.artists);
    lemma_artists_in_order(b.artists);
    lemma_sorted_members_unique::<Artist>(a.artists, b.artists);
    lemma_artists_have_one_index(a.all_albums, b.all_albums, a.artists);
}

} // verus!
