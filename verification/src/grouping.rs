//! Grouping the songs of a flat catalog into albums, and settling which
//! artist an album is credited to.
//!
//! Tracks of one physical album often disagree about the album artist: some
//! carry the tag, others fall back to their own artist. One artist is
//! settled per album name, so that the album is never split.

use crate::album::{Album, AlbumView};
use crate::places::Places;
use crate::sorting::lemma_filter_nothing;
use crate::song::{track_of, unknown_artist, SongInfo, SongTags, SongTagsView, Track};
use crate::text::{
    lemma_text_lt_total, lemma_text_lt_transitive, text_equal, text_le, text_lt, text_precedes,
};
use vstd::prelude::*;

verus! {

broadcast use vstd::seq_lib::group_filter_ensures;

/// The tracks that a list of songs describes, in the order of the list.
pub open spec fn tracks_of(songs: Seq<SongTagsView>) -> Seq<Track> {
    songs.map_values(|s: SongTagsView| track_of(s))
}

/// The tracks of `tracks` that are on the album `album`, in their order.
pub open spec fn tracks_on(tracks: Seq<Track>, album: Seq<char>) -> Seq<Track> {
    tracks.filter(|t: Track| t.album == album)
}

/// `albums` groups `tracks` by album name: no name occurs twice, each album
/// holds exactly the tracks with its name, in their order, and every track
/// is on one of the albums.
pub(crate) open spec fn grouped_by_album(albums: Seq<AlbumView>, tracks: Seq<Track>) -> bool {
    &&& forall|i: int, j: int|
        0 <= i < j < albums.len() ==> (#[trigger] albums[i]).name != (#[trigger] albums[j]).name
    &&& forall|i: int|
        0 <= i < albums.len() ==> (#[trigger] albums[i]).tracks.len() > 0 && albums[i].tracks
            == tracks_on(tracks, albums[i].name)
    &&& forall|k: int| 0 <= k < tracks.len() ==> has_album_named(albums, (#[trigger] tracks[k]).album)
}

/// Some album of `albums` is named `name`.
pub open spec fn has_album_named(albums: Seq<AlbumView>, name: Seq<char>) -> bool {
    exists|b: int| 0 <= b < albums.len() && (#[trigger] albums[b]).name == name
}

/// The names of `albums`, place for place.
pub(crate) open spec fn album_names(albums: Seq<AlbumView>) -> Seq<Seq<char>> {
    albums.map_values(|a: AlbumView| a.name)
}

/// Groups the songs of a catalog into albums by album name. The albums
/// come in the order in which their names first occur, and the tracks of
/// each album in the order of the catalog.
pub(crate) fn group_by_album(songs: &Vec<SongTags>) -> (albums: Vec<Album>)
    ensures
        grouped_by_album(albums.deep_view(), tracks_of(songs.deep_view())),
{
    let ghost all = tracks_of(songs.deep_view());
    let mut albums: Vec<Album> = Vec::new();
    let mut places = Places::new();
    let mut i: usize = 0;
    proof {
        assert(all.take(0) =~= Seq::<Track>::empty());
        assert(album_names(albums.deep_view()) =~= Seq::<Seq<char>>::empty());
    }
    while i < songs.len()
        invariant
            i <= songs.len(),
            all == tracks_of(songs.deep_view()),
            all.len() == songs.len(),
            grouped_by_album(albums.deep_view(), all.take(i as int)),
            places.tells(album_names(albums.deep_view())),
        decreases songs.len() - i,
    {
        let info = SongInfo::from_song(&songs[i]);
        let ghost t = info@;
        let ghost before = albums.deep_view();
        let ghost seen = all.take(i as int);
        let ghost now = all.take(i + 1);
        proof {
            assert(t == all[i as int]);
            assert(now =~= seen.push(t));
            assert forall|n: Seq<char>| #[trigger]
                tracks_on(now, n) == if t.album == n {
                    tracks_on(seen, n).push(t)
                } else {
                    tracks_on(seen, n)
                } by {
                seen.lemma_filter_push(t, |x: Track| x.album == n);
            }
        }
        match places.find(info.album.as_str(), Ghost(album_names(before))) {
            Some(at) => {
                assert(album_names(before)[at as int] == before[at as int].name);
                assert(before[at as int].name == t.album);
                albums[at].tracks.push(info);
                proof {
                    let after = albums.deep_view();
                    assert(after.len() == before.len());
                    assert forall|k: int| 0 <= k < after.len() implies (#[trigger] after[k]).name
                        == before[k].name && after[k].tracks == if k == at {
                        before[k].tracks.push(t)
                    } else {
                        before[k].tracks
                    } by {
                        if k == at {
                            assert(after[k].tracks =~= before[k].tracks.push(t));
                        } else {
                            assert(after[k].tracks =~= before[k].tracks);
                        }
                    }
                    assert forall|k: int| 0 <= k < now.len() implies has_album_named(
                        after,
                        (#[trigger] now[k]).album,
                    ) by {
                        if k < i {
                            assert(seen[k] == now[k]);
                            let a = choose|a: int|
                                0 <= a < before.len() && (#[trigger] before[a]).name
                                    == seen[k].album;
                            assert(after[a].name == now[k].album);
                        } else {
                            assert(after[at as int].name == now[k].album);
                        }
                    }
                    assert(grouped_by_album(after, now));
                    assert(album_names(after) =~= album_names(before));
                }
            },
            None => {
                let ghost name = info.album@;
                let mut tracks: Vec<SongInfo> = Vec::new();
                let name_copy = info.album.clone();
                assert forall|k: int| 0 <= k < before.len() implies (#[trigger] before[k]).name
                    != name by {
                    assert(album_names(before)[k] != name);
                }
                places.add(info.album.clone(), albums.len(), Ghost(album_names(before)));
                tracks.push(info);
                albums.push(Album { name: name_copy, tracks });
                proof {
                    let after = albums.deep_view();
                    assert(after.len() == before.len() + 1);
                    assert(album_names(after) =~= album_names(before).push(name)) by {
                        assert forall|k: int| 0 <= k < before.len() implies after[k].name
                            == before[k].name by {
                            assert(albums[k]@.name == before[k].name);
                        }
                    }
                    assert forall|k: int| 0 <= k < before.len() implies #[trigger] after[k]
                        == before[k] by {
                        assert(after[k].tracks =~= before[k].tracks);
                    }
                    assert forall|k: int| 0 <= k < seen.len() implies (#[trigger] seen[k]).album
                        != name by {
                        let a = choose|a: int|
                            0 <= a < before.len() && (#[trigger] before[a]).name == seen[k].album;
                    }
                    lemma_filter_nothing(seen, |x: Track| x.album == name);
                    assert(after[before.len() as int].tracks =~= seq![t]);
                    assert(tracks_on(now, name) =~= seq![t]);
                    assert forall|k: int| 0 <= k < now.len() implies has_album_named(
                        after,
                        (#[trigger] now[k]).album,
                    ) by {
                        if k < i {
                            assert(seen[k] == now[k]);
                            let a = choose|a: int|
                                0 <= a < before.len() && (#[trigger] before[a]).name
                                    == seen[k].album;
                            assert(after[a].name == now[k].album);
                        } else {
                            assert(after[before.len() as int].name == now[k].album);
                        }
                    }
                    assert forall|a: int, b: int| 0 <= a < b < after.len() implies (
                    #[trigger] after[a]).name != (#[trigger] after[b]).name by {
                        if b == before.len() {
                            assert(after[a] == before[a]);
                        }
                    }
                    assert(grouped_by_album(after, now));
                }
            },
        }
        i += 1;
    }
    proof {
        assert(all.take(i as int) =~= all);
    }
    albums
}

/// How many tracks of `tracks` are credited to `artist`.
pub open spec fn credits(tracks: Seq<Track>, artist: Seq<char>) -> nat {
    tracks.filter(|t: Track| t.album_artist == artist).len()
}

/// `artist` is the artist that the album made of `tracks` is credited to:
/// the album artist of the first track that carries the tag; where no track
/// carries it, the artist credited on the most tracks, and of several such
/// the first in code-point order; for no tracks at all, the placeholder.
pub open spec fn is_canonical_artist(tracks: Seq<Track>, artist: Seq<char>) -> bool {
    if exists|i: int| 0 <= i < tracks.len() && (#[trigger] tracks[i]).has_explicit_album_artist {
        exists|i: int|
            {
                &&& 0 <= i < tracks.len()
                &&& (#[trigger] tracks[i]).has_explicit_album_artist
                &&& tracks[i].album_artist == artist
                &&& forall|j: int| 0 <= j < i ==> !(#[trigger] tracks[j]).has_explicit_album_artist
            }
    } else if tracks.len() == 0 {
        artist == unknown_artist()
    } else {
        &&& exists|i: int| 0 <= i < tracks.len() && (#[trigger] tracks[i]).album_artist == artist
        &&& forall|j: int|
            0 <= j < tracks.len() ==> {
                let other = (#[trigger] tracks[j]).album_artist;
                &&& credits(tracks, other) <= credits(tracks, artist)
                &&& credits(tracks, other) == credits(tracks, artist) ==> text_le(artist, other)
            }
    }
}

/// An album is credited to one artist only.
pub proof fn lemma_canonical_artist_unique(tracks: Seq<Track>, a: Seq<char>, b: Seq<char>)
    requires
        is_canonical_artist(tracks, a),
        is_canonical_artist(tracks, b),
    ensures
        a == b,
{
    if exists|i: int| 0 <= i < tracks.len() && (#[trigger] tracks[i]).has_explicit_album_artist {
        let i = choose|i: int|
            {
                &&& 0 <= i < tracks.len()
                &&& (#[trigger] tracks[i]).has_explicit_album_artist
                &&& tracks[i].album_artist == a
                &&& forall|j: int| 0 <= j < i ==> !(#[trigger] tracks[j]).has_explicit_album_artist
            };
        let k = choose|k: int|
            {
                &&& 0 <= k < tracks.len()
                &&& (#[trigger] tracks[k]).has_explicit_album_artist
                &&& tracks[k].album_artist == b
                &&& forall|j: int| 0 <= j < k ==> !(#[trigger] tracks[j]).has_explicit_album_artist
            };
        assert(i == k);
    } else if tracks.len() > 0 {
        let i = choose|i: int| 0 <= i < tracks.len() && (#[trigger] tracks[i]).album_artist == a;
        let k = choose|k: int| 0 <= k < tracks.len() && (#[trigger] tracks[k]).album_artist == b;
        assert(credits(tracks, tracks[i].album_artist) <= credits(tracks, b));
        assert(credits(tracks, tracks[k].album_artist) <= credits(tracks, a));
        lemma_text_lt_total(a, b);
    }
}

/// Counts the tracks credited to `artist`.
fn count_credits(tracks: &Vec<SongInfo>, artist: &str) -> (r: usize)
    ensures
        r == credits(tracks.deep_view(), artist@),
{
    let ghost all = tracks.deep_view();
    let ghost pred = |t: Track| t.album_artist == artist@;
    let mut count: usize = 0;
    let mut i: usize = 0;
    proof {
        assert(all.take(0) =~= Seq::<Track>::empty());
        lemma_filter_nothing(all.take(0), pred);
    }
    while i < tracks.len()
        invariant
            i <= tracks.len(),
            all == tracks.deep_view(),
            pred == |t: Track| t.album_artist == artist@,
            count == all.take(i as int).filter(pred).len(),
            count <= i,
        decreases tracks.len() - i,
    {
        proof {
            assert(all.take(i + 1) =~= all.take(i as int).push(all[i as int]));
            all.take(i as int).lemma_filter_push(all[i as int], pred);
        }
        if text_equal(tracks[i].album_artist.as_str(), artist) {
            count += 1;
        }
        i += 1;
    }
    proof {
        assert(all.take(i as int) =~= all);
    }
    count
}

/// Settles the artist that an album is credited to.
pub fn canonical_album_artist(tracks: &Vec<SongInfo>) -> (artist: String)
    ensures
        is_canonical_artist(tracks.deep_view(), artist@),
{
    let ghost all = tracks.deep_view();
    let mut i: usize = 0;
    while i < tracks.len()
        invariant
            i <= tracks.len(),
            all == tracks.deep_view(),
            forall|j: int| 0 <= j < i ==> !(#[trigger] all[j]).has_explicit_album_artist,
        decreases tracks.len() - i,
    {
        if tracks[i].has_explicit_album_artist {
            assert(all[i as int].has_explicit_album_artist);
            return tracks[i].album_artist.clone();
        }
        i += 1;
    }
    if tracks.len() == 0 {
        return "Unknown Artist".to_owned();
    }
    let mut best: usize = 0;
    let mut best_count: usize = count_credits(tracks, tracks[0].album_artist.as_str());
    let mut k: usize = 1;
    proof {
        lemma_text_lt_total(all[0].album_artist, all[0].album_artist);
    }
    while k < tracks.len()
        invariant
            1 <= k <= tracks.len(),
            best < k,
            all == tracks.deep_view(),
            best_count == credits(all, all[best as int].album_artist),
            forall|j: int|
                0 <= j < k ==> {
                    let other = (#[trigger] all[j]).album_artist;
                    &&& credits(all, other) <= best_count
                    &&& credits(all, other) == best_count ==> text_le(
                        all[best as int].album_artist,
                        other,
                    )
                },
        decreases tracks.len() - k,
    {
        let count = count_credits(tracks, tracks[k].album_artist.as_str());
        let ghost old_best = all[best as int].album_artist;
        let ghost cand = all[k as int].album_artist;
        proof {
            lemma_text_lt_total(cand, old_best);
        }
        if count > best_count || (count == best_count && text_precedes(
            tracks[k].album_artist.as_str(),
            tracks[best].album_artist.as_str(),
        )) {
            proof {
                assert forall|j: int| 0 <= j <= k implies {
                    let other = (#[trigger] all[j]).album_artist;
                    &&& credits(all, other) <= count
                    &&& credits(all, other) == count ==> text_le(cand, other)
                } by {
                    let other = all[j].album_artist;
                    lemma_text_lt_total(cand, other);
                    if j < k && credits(all, other) == count && text_lt(other, cand) {
                        lemma_text_lt_total(old_best, other);
                        if other != old_best {
                            lemma_text_lt_transitive(other, cand, old_best);
                        }
                    }
                }
            }
            best = k;
            best_count = count;
        }
        k += 1;
    }
    assert(all[best as int].album_artist == tracks[best as int].album_artist@);
    tracks[best].album_artist.clone()
}

} // verus!
