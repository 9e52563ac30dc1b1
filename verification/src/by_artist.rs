//! The library built from one query per artist: the songs that the daemon
//! files under each album artist, and the songs without an album artist,
//! which go under their own artist.

use crate::album::{Album, Artist, ArtistView};
use crate::grouping::tracks_of;
use crate::index::{is_album_index, listed, same_album, EntryView};
use crate::lazy::{albums_of, albums_of_songs};
use crate::places::Places;
use crate::library::{
    albums_ascend, artists_ascend, lemma_entries_ascend, lemma_listed_artists_reordered, Library,
    LibraryView,
};
use crate::song::{track_of, SongTags, SongTagsView};
use crate::sorting::{rearranges, stable_sort};
use crate::text::name_lt;
use vstd::prelude::*;

verus! {

broadcast use vstd::seq_lib::group_to_multiset_ensures;

/// What the daemon answered when asked for the songs of one album artist:
/// the songs, or `None` where the query failed.
#[derive(Debug)]
pub struct ArtistSongs {
    pub name: String,
    pub songs: Option<Vec<SongTags>>,
}

/// The mathematical value of an [`ArtistSongs`].
pub struct ArtistSongsView {
    pub name: Seq<char>,
    pub songs: Option<Seq<SongTagsView>>,
}

impl DeepView for ArtistSongs {
    type V = ArtistSongsView;

    open spec fn deep_view(&self) -> ArtistSongsView {
        ArtistSongsView { name: self.name@, songs: self.songs.deep_view() }
    }
}

impl View for ArtistSongs {
    type V = ArtistSongsView;

    open spec fn view(&self) -> ArtistSongsView {
        self.deep_view()
    }
}

/// A song beside the name of the artist that it is filed under.
pub type Filed = (Seq<char>, SongTagsView);

/// The songs of one answer, each filed under the artist asked for. An
/// answer for the empty name, or to a query that failed, files nothing.
pub open spec fn filed_answer(answer: ArtistSongsView) -> Seq<Filed> {
    match answer.songs {
        Some(songs) if answer.name.len() > 0 => songs.map_values(
            |s: SongTagsView| (answer.name, s),
        ),
        _ => Seq::<Filed>::empty(),
    }
}

/// The songs of all the answers, in the order of the answers.
pub open spec fn filed_answers(answers: Seq<ArtistSongsView>) -> Seq<Filed>
    decreases answers.len(),
{
    if answers.len() == 0 {
        Seq::<Filed>::empty()
    } else {
        filed_answers(answers.drop_last()) + filed_answer(answers.last())
    }
}

/// The songs without an album artist, each filed under its own artist.
pub open spec fn filed_orphans(orphans: Seq<SongTagsView>) -> Seq<Filed> {
    orphans.map_values(|s: SongTagsView| (track_of(s).artist, s))
}

/// The songs filed under `name`, in their order.
pub open spec fn filed_under(filed: Seq<Filed>, name: Seq<char>) -> Seq<SongTagsView> {
    filed.filter(is_under(name)).map_values(song_of())
}

/// Whether a song is filed under `name`.
pub open spec fn is_under(name: Seq<char>) -> spec_fn(Filed) -> bool {
    |f: Filed| f.0 == name
}

/// The song of a filed song.
pub open spec fn song_of() -> spec_fn(Filed) -> SongTagsView {
    |f: Filed| f.1
}

/// `lib` is the library of the filed songs: the artists are those that
/// songs are filed under, in the strict order of names; the albums of each
/// are what the songs filed under it make; and the album index is that of
/// the artists.
pub open spec fn files(lib: LibraryView, filed: Seq<Filed>) -> bool {
    &&& artists_ascend(lib.artists)
    &&& forall|a: int|
        0 <= a < lib.artists.len() ==> {
            let artist = #[trigger] lib.artists[a];
            &&& filed_under(filed, artist.name).len() > 0
            &&& albums_of_songs(artist.albums, tracks_of(filed_under(filed, artist.name)))
        }
    &&& forall|k: int|
        0 <= k < filed.len() ==> has_artist_named(lib.artists, (#[trigger] filed[k]).0)
    &&& is_album_index(lib.all_albums, lib.artists)
}

/// Some artist of `artists` is named `name`.
pub open spec fn has_artist_named(artists: Seq<ArtistView>, name: Seq<char>) -> bool {
    exists|a: int| 0 <= a < artists.len() && (#[trigger] artists[a]).name == name
}

/// The songs filed under one artist so far.
struct Bucket {
    name: String,
    songs: Vec<SongTags>,
}

/// `buckets` holds the filed songs by artist: no name occurs twice, each
/// bucket holds the songs filed under its name, in their order, and every
/// filed song is in one.
spec fn bucketed(buckets: Seq<Bucket>, filed: Seq<Filed>) -> bool {
    &&& forall|i: int, j: int|
        0 <= i < j < buckets.len() ==> (#[trigger] buckets[i]).name@ != (#[trigger] buckets[j]).name@
    &&& forall|i: int|
        0 <= i < buckets.len() ==> (#[trigger] buckets[i]).songs.len() > 0
            && buckets[i].songs.deep_view() == filed_under(filed, buckets[i].name@)
    &&& forall|k: int| 0 <= k < filed.len() ==> has_bucket_named(buckets, (#[trigger] filed[k]).0)
}

/// Some bucket is named `name`.
spec fn has_bucket_named(buckets: Seq<Bucket>, name: Seq<char>) -> bool {
    exists|i: int| 0 <= i < buckets.len() && (#[trigger] buckets[i]).name@ == name
}

/// The names of the buckets, place for place.
spec fn bucket_names(buckets: Seq<Bucket>) -> Seq<Seq<char>> {
    buckets.map_values(|b: Bucket| b.name@)
}

proof fn lemma_filed_under_push(filed: Seq<Filed>, name: Seq<char>, song: SongTagsView, n: Seq<char>)
    ensures
        filed_under(filed.push((name, song)), n) == if n == name {
            filed_under(filed, n).push(song)
        } else {
            filed_under(filed, n)
        },
{
    let pred = is_under(n);
    filed.lemma_filter_push((name, song), pred);
    if n == name {
        assert(filed.filter(pred).push((name, song)).map_values(song_of()) =~= filed.filter(
            pred,
        ).map_values(song_of()).push(song));
    }
}

proof fn lemma_filed_under_nothing(filed: Seq<Filed>, name: Seq<char>)
    requires
        forall|k: int| 0 <= k < filed.len() ==> (#[trigger] filed[k]).0 != name,
    ensures
        filed_under(filed, name) == Seq::<SongTagsView>::empty(),
{
    crate::sorting::lemma_filter_nothing(filed, is_under(name));
    assert(filed_under(filed, name) =~= Seq::<SongTagsView>::empty());
}

/// Files one song under `name`.
fn file_song(
    buckets: &mut Vec<Bucket>,
    places: &mut Places,
    name: &str,
    song: &SongTags,
    Ghost(filed): Ghost<Seq<Filed>>,
)
    requires
        bucketed(old(buckets)@, filed),
        old(places).tells(bucket_names(old(buckets)@)),
    ensures
        bucketed(final(buckets)@, filed.push((name@, song@))),
        final(places).tells(bucket_names(final(buckets)@)),
{
    let ghost before = buckets@;
    let ghost now = filed.push((name@, song@));
    proof {
        assert forall|n: Seq<char>|
            filed_under(now, n) == if n == name@ {
                filed_under(filed, n).push(song@)
            } else {
                filed_under(filed, n)
            } by {
            lemma_filed_under_push(filed, name@, song@, n);
        }
    }
    match places.find(name, Ghost(bucket_names(before))) {
        Some(at) => {
            assert(bucket_names(before)[at as int] == before[at as int].name@);
            let ghost had = buckets[at as int].songs.deep_view();
            buckets[at].songs.push(song.clone());
            proof {
                let after = buckets@;
                assert(after[at as int].songs.deep_view() =~= had.push(song@));
                assert forall|i: int| 0 <= i < after.len() implies (#[trigger] after[i]).songs.len()
                    > 0 && after[i].songs.deep_view() == filed_under(now, after[i].name@) by {
                    if i != at {
                        assert(after[i] == before[i]);
                    }
                }
                assert forall|k: int| 0 <= k < now.len() implies has_bucket_named(
                    after,
                    (#[trigger] now[k]).0,
                ) by {
                    if k < filed.len() {
                        let i = choose|i: int|
                            0 <= i < before.len() && (#[trigger] before[i]).name@ == filed[k].0;
                        assert(after[i].name@ == now[k].0);
                    } else {
                        assert(after[at as int].name@ == now[k].0);
                    }
                }
                assert forall|i: int, j: int| 0 <= i < j < after.len() implies (
                #[trigger] after[i]).name@ != (#[trigger] after[j]).name@ by {
                    assert(after[i].name@ == before[i].name@);
                    assert(after[j].name@ == before[j].name@);
                }
                assert(bucket_names(after) =~= bucket_names(before)) by {
                    assert forall|i: int| 0 <= i < after.len() implies after[i].name@
                        == before[i].name@ by {}
                }
            }
        },
        None => {
            let mut songs: Vec<SongTags> = Vec::new();
            songs.push(song.clone());
            assert forall|i: int| 0 <= i < before.len() implies (#[trigger] before[i]).name@
                != name@ by {
                assert(bucket_names(before)[i] != name@);
            }
            places.add(name.to_owned(), buckets.len(), Ghost(bucket_names(before)));
            buckets.push(Bucket { name: name.to_owned(), songs });
            proof {
                let after = buckets@;
                let last = before.len() as int;
                assert(bucket_names(after) =~= bucket_names(before).push(name@));
                assert forall|k: int| 0 <= k < filed.len() implies (#[trigger] filed[k]).0
                    != name@ by {
                    let i = choose|i: int|
                        0 <= i < before.len() && (#[trigger] before[i]).name@ == filed[k].0;
                }
                lemma_filed_under_nothing(filed, name@);
                assert(after[last].songs.deep_view() =~= seq![song@]);
                assert(filed_under(now, name@) =~= seq![song@]);
                assert forall|i: int| 0 <= i < after.len() implies (#[trigger] after[i]).songs.len()
                    > 0 && after[i].songs.deep_view() == filed_under(now, after[i].name@) by {
                    if i < last {
                        assert(after[i] == before[i]);
                    }
                }
                assert forall|k: int| 0 <= k < now.len() implies has_bucket_named(
                    after,
                    (#[trigger] now[k]).0,
                ) by {
                    if k < filed.len() {
                        let i = choose|i: int|
                            0 <= i < before.len() && (#[trigger] before[i]).name@ == filed[k].0;
                        assert(after[i].name@ == now[k].0);
                    } else {
                        assert(after[last].name@ == now[k].0);
                    }
                }
                assert forall|i: int, j: int| 0 <= i < j < after.len() implies (
                #[trigger] after[i]).name@ != (#[trigger] after[j]).name@ by {
                    if j < last {
                        assert(after[i] == before[i]);
                        assert(after[j] == before[j]);
                    } else {
                        assert(after[i] == before[i]);
                    }
                }
            }
        },
    }
}


/// Files the songs of every answer and the orphans.
fn file_all(answers: &Vec<ArtistSongs>, orphans: &Vec<SongTags>) -> (buckets: Vec<Bucket>)
    ensures
        bucketed(
            buckets@,
            filed_answers(answers.deep_view()) + filed_orphans(orphans.deep_view()),
        ),
{
    let mut buckets: Vec<Bucket> = Vec::new();
    let mut places = Places::new();
    let ghost all = answers.deep_view();
    let ghost mut filed: Seq<Filed> = Seq::empty();
    let mut i: usize = 0;
    proof {
        assert(all.take(0) =~= Seq::<ArtistSongsView>::empty());
        assert(bucketed(buckets@, filed));
        assert(bucket_names(buckets@) =~= Seq::<Seq<char>>::empty());
    }
    while i < answers.len()
        invariant
            i <= answers.len(),
            all == answers.deep_view(),
            filed == filed_answers(all.take(i as int)),
            bucketed(buckets@, filed),
            places.tells(bucket_names(buckets@)),
        decreases answers.len() - i,
    {
        let ghost start = filed;
        let ghost answer = all[i as int];
        proof {
            assert(all.take(i + 1).drop_last() =~= all.take(i as int));
            assert(all.take(i + 1).last() == answer);
            assert(answers[i as int]@ == answer);
        }
        let name = &answers[i].name;
        match &answers[i].songs {
            Some(songs) => {
                if !name.as_str().is_empty() {
                    let ghost these = songs.deep_view();
                    let mut j: usize = 0;
                    proof {
                        assert(filed_answer(answer).take(0) =~= Seq::<Filed>::empty());
                        assert(start + Seq::<Filed>::empty() =~= start);
                    }
                    while j < songs.len()
                        invariant
                            j <= songs.len(),
                            these == songs.deep_view(),
                            answer.songs == Some(these),
                            answer.name == name@,
                            name@.len() > 0,
                            filed == start + filed_answer(answer).take(j as int),
                            bucketed(buckets@, filed),
                            places.tells(bucket_names(buckets@)),
                        decreases songs.len() - j,
                    {
                        file_song(&mut buckets, &mut places, name.as_str(), &songs[j], Ghost(filed));
                        proof {
                            let whole = filed_answer(answer);
                            assert(whole[j as int] == (name@, songs[j as int]@));
                            assert(whole.take(j + 1) =~= whole.take(j as int).push(
                                whole[j as int],
                            ));
                            assert(filed.push((name@, songs[j as int]@)) =~= start + whole.take(
                                j + 1,
                            ));
                            filed = filed.push((name@, songs[j as int]@));
                        }
                        j += 1;
                    }
                    proof {
                        assert(filed_answer(answer).take(j as int) =~= filed_answer(answer));
                    }
                } else {
                    proof {
                        assert(start + filed_answer(answer) =~= start);
                    }
                }
            },
            None => {
                proof {
                    assert(start + filed_answer(answer) =~= start);
                }
            },
        }
        i += 1;
    }
    let ghost listed_songs = filed;
    let ghost strays = orphans.deep_view();
    let mut k: usize = 0;
    proof {
        assert(all.take(i as int) =~= all);
        assert(filed_orphans(strays).take(0) =~= Seq::<Filed>::empty());
        assert(listed_songs + Seq::<Filed>::empty() =~= listed_songs);
    }
    while k < orphans.len()
        invariant
            k <= orphans.len(),
            strays == orphans.deep_view(),
            listed_songs == filed_answers(all),
            filed == listed_songs + filed_orphans(strays).take(k as int),
            bucketed(buckets@, filed),
            places.tells(bucket_names(buckets@)),
        decreases orphans.len() - k,
    {
        let name = match orphans[k].artists.len() {
            0 => "Unknown Artist".to_owned(),
            _ => orphans[k].artists[0].clone(),
        };
        file_song(&mut buckets, &mut places, name.as_str(), &orphans[k], Ghost(filed));
        proof {
            let whole = filed_orphans(strays);
            assert(whole[k as int] == (name@, orphans[k as int]@));
            assert(whole.take(k + 1) =~= whole.take(k as int).push(whole[k as int]));
            assert(filed.push((name@, orphans[k as int]@)) =~= listed_songs + whole.take(k + 1));
            filed = filed.push((name@, orphans[k as int]@));
        }
        k += 1;
    }
    proof {
        assert(filed_orphans(strays).take(k as int) =~= filed_orphans(strays));
    }
    buckets
}

/// One entry of the index for each album of each artist.
fn entries_of(artists: &Vec<Artist>) -> (entries: Vec<(String, Album)>)
    requires
        forall|a: int, b: int|
            0 <= a < b < artists.len() ==> (#[trigger] artists.deep_view()[a]).name != (
            #[trigger] artists.deep_view()[b]).name,
        forall|a: int|
            0 <= a < artists.len() ==> albums_ascend((#[trigger] artists.deep_view()[a]).albums),
    ensures
        forall|e: EntryView| #[trigger]
            entries.deep_view().contains(e) <==> listed(artists.deep_view(), e),
        forall|p: int, q: int|
            0 <= p < entries.len() && 0 <= q < entries.len() && p != q ==> !same_album(
                #[trigger] entries.deep_view()[p],
                #[trigger] entries.deep_view()[q],
            ),
{
    let ghost all = artists.deep_view();
    let mut entries: Vec<(String, Album)> = Vec::new();
    let mut a: usize = 0;
    while a < artists.len()
        invariant
            a <= artists.len(),
            all == artists.deep_view(),
            forall|x: int, y: int|
                0 <= x < y < all.len() ==> (#[trigger] all[x]).name != (#[trigger] all[y]).name,
            forall|x: int| 0 <= x < all.len() ==> albums_ascend((#[trigger] all[x]).albums),
            forall|e: EntryView| #[trigger]
                entries.deep_view().contains(e) <==> listed(all.take(a as int), e),
            forall|p: int, q: int|
                0 <= p < entries.len() && 0 <= q < entries.len() && p != q ==> !same_album(
                    #[trigger] entries.deep_view()[p],
                    #[trigger] entries.deep_view()[q],
                ),
        decreases artists.len() - a,
    {
        let ghost artist = all[a as int];
        let ghost start = entries.deep_view();
        let mut b: usize = 0;
        proof {
            assert(artists[a as int]@ == artist);
        }
        while b < artists[a].albums.len()
            invariant
                a < artists.len(),
                b <= artists[a as int].albums.len(),
                all == artists.deep_view(),
                artist == all[a as int],
                artist == artists[a as int]@,
                albums_ascend(artist.albums),
                forall|x: int, y: int|
                    0 <= x < y < all.len() ==> (#[trigger] all[x]).name != (
                    #[trigger] all[y]).name,
                forall|e: EntryView| #[trigger]
                    start.contains(e) <==> listed(all.take(a as int), e),
                forall|e: EntryView| #[trigger]
                    entries.deep_view().contains(e) <==> start.contains(e) || (e.0 == artist.name
                        && artist.albums.take(b as int).contains(e.1)),
                forall|p: int, q: int|
                    0 <= p < entries.len() && 0 <= q < entries.len() && p != q ==> !same_album(
                        #[trigger] entries.deep_view()[p],
                        #[trigger] entries.deep_view()[q],
                    ),
            decreases artists[a as int].albums.len() - b,
        {
            let ghost before = entries.deep_view();
            let ghost fresh = (artist.name, artist.albums[b as int]);
            entries.push((artists[a].name.clone(), artists[a].albums[b].clone()));
            proof {
                broadcast use vstd::seq_lib::group_seq_properties;

                let after = entries.deep_view();
                assert(after =~= before.push(fresh));
                assert(artist.albums.take(b + 1) =~= artist.albums.take(b as int).push(
                    artist.albums[b as int],
                ));
                assert forall|e: EntryView| #[trigger]
                    after.contains(e) <==> start.contains(e) || (e.0 == artist.name
                        && artist.albums.take(b + 1).contains(e.1)) by {
                    assert(before.contains(e) <==> start.contains(e) || (e.0 == artist.name
                        && artist.albums.take(b as int).contains(e.1)));
                }
                assert forall|p: int| 0 <= p < before.len() implies !same_album(
                    #[trigger] before[p],
                    fresh,
                ) by {
                    let e = before[p];
                    assert(before.contains(e));
                    if start.contains(e) {
                        let x = choose|x: int|
                            0 <= x < all.take(a as int).len() && (#[trigger] all.take(
                                a as int,
                            )[x]).name == e.0 && all.take(a as int)[x].albums.contains(e.1);
                        assert(all[x].name != all[a as int].name);
                    } else {
                        let y = choose|y: int|
                            0 <= y < b && artist.albums.take(b as int)[y] == e.1;
                        assert(name_lt(artist.albums[y].name, artist.albums[b as int].name));
                    }
                }
                assert forall|p: int, q: int|
                    0 <= p < after.len() && 0 <= q < after.len() && p != q implies !same_album(
                    #[trigger] after[p],
                    #[trigger] after[q],
                ) by {
                    if p < before.len() && q < before.len() {
                        assert(!same_album(before[p], before[q]));
                    } else if p < before.len() {
                        assert(!same_album(before[p], fresh));
                    } else {
                        assert(!same_album(before[q], fresh));
                    }
                }
            }
            b += 1;
        }
        proof {
            let after = entries.deep_view();
            assert(artist.albums.take(b as int) =~= artist.albums);
            assert(all.take(a + 1) =~= all.take(a as int).push(artist));
            assert forall|e: EntryView| #[trigger]
                after.contains(e) <==> listed(all.take(a + 1), e) by {
                let sooner = all.take(a as int);
                let now = all.take(a + 1);
                if listed(sooner, e) {
                    let x = choose|x: int|
                        0 <= x < sooner.len() && (#[trigger] sooner[x]).name == e.0
                            && sooner[x].albums.contains(e.1);
                    assert(now[x] == sooner[x]);
                }
                if e.0 == artist.name && artist.albums.contains(e.1) {
                    assert(now[a as int] == artist);
                }
                if listed(now, e) {
                    let x = choose|x: int|
                        0 <= x < now.len() && (#[trigger] now[x]).name == e.0
                            && now[x].albums.contains(e.1);
                    if x < a {
                        assert(sooner[x] == now[x]);
                    }
                }
            }
        }
        a += 1;
    }
    proof {
        assert(all.take(a as int) =~= all);
    }
    entries
}

impl Library {
    /// Builds the library from one answer per album artist and from the
    /// songs without an album artist. Answers for the empty name and to
    /// queries that failed count for nothing; the songs without an album
    /// artist join the albums of their own artist.
    pub fn load_library_by_artist(answers: &Vec<ArtistSongs>, orphans: &Vec<SongTags>) -> (lib:
        Library)
        ensures
            files(
                lib@,
                filed_answers(answers.deep_view()) + filed_orphans(orphans.deep_view()),
            ),
    {
        let ghost filed = filed_answers(answers.deep_view()) + filed_orphans(orphans.deep_view());
        let buckets = file_all(answers, orphans);
        let mut artists: Vec<Artist> = Vec::new();
        let mut i: usize = 0;
        while i < buckets.len()
            invariant
                i <= buckets.len(),
                bucketed(buckets@, filed),
                artists.len() == i,
                forall|a: int|
                    0 <= a < i ==> {
                        let artist = #[trigger] artists.deep_view()[a];
                        &&& artist.name == buckets[a].name@
                        &&& albums_of_songs(artist.albums, tracks_of(buckets[a].songs.deep_view()))
                    },
            decreases buckets.len() - i,
        {
            let ghost before = artists.deep_view();
            let albums = albums_of(&buckets[i].songs);
            artists.push(Artist { name: buckets[i].name.clone(), albums });
            proof {
                let after = artists.deep_view();
                assert forall|a: int| 0 <= a <= i implies {
                    let artist = #[trigger] after[a];
                    &&& artist.name == buckets[a].name@
                    &&& albums_of_songs(artist.albums, tracks_of(buckets[a].songs.deep_view()))
                } by {
                    if a < i {
                        assert(after[a] == before[a]);
                    }
                }
            }
            i += 1;
        }
        let ghost unsorted = artists.deep_view();
        let mut all_albums = entries_of(&artists);
        let ghost paired = all_albums.deep_view();
        stable_sort(&mut all_albums);
        stable_sort(&mut artists);
        proof {
            let done = artists.deep_view();
            let index = all_albums.deep_view();
            let moved = choose|from: Seq<int>| rearranges(from, done, unsorted);
            let ordered = choose|from: Seq<int>| rearranges(from, index, paired);
            assert forall|p: int, q: int| 0 <= p < q < done.len() implies name_lt(
                (#[trigger] done[p]).name,
                (#[trigger] done[q]).name,
            ) by {
                assert(moved[p] != moved[q]);
                assert(unsorted[moved[p]].name == buckets[moved[p]].name@);
                assert(unsorted[moved[q]].name == buckets[moved[q]].name@);
                if moved[p] < moved[q] {
                    assert(buckets[moved[p]].name@ != buckets[moved[q]].name@);
                } else {
                    assert(buckets[moved[q]].name@ != buckets[moved[p]].name@);
                }
            }
            assert forall|a: int| 0 <= a < done.len() implies {
                let artist = #[trigger] done[a];
                &&& filed_under(filed, artist.name).len() > 0
                &&& albums_of_songs(artist.albums, tracks_of(filed_under(filed, artist.name)))
            } by {
                let b = moved[a];
                assert(done[a] == unsorted[b]);
                assert(buckets[b].songs.deep_view() == filed_under(filed, buckets[b].name@));
            }
            assert forall|k: int| 0 <= k < filed.len() implies has_artist_named(
                done,
                (#[trigger] filed[k]).0,
            ) by {
                let b = choose|b: int|
                    0 <= b < buckets.len() && (#[trigger] buckets[b]).name@ == filed[k].0;
                assert(unsorted.contains(unsorted[b]));
                assert(done.to_multiset().count(unsorted[b]) > 0);
                assert(done.contains(unsorted[b]));
                let a = choose|a: int| 0 <= a < done.len() && done[a] == unsorted[b];
                assert(done[a].name == filed[k].0);
            }
            lemma_entries_ascend(index, paired, ordered);
            assert forall|e: EntryView| #[trigger] index.contains(e) <==> listed(done, e) by {
                assert(index.contains(e) <==> index.to_multiset().count(e) > 0);
                assert(paired.contains(e) <==> paired.to_multiset().count(e) > 0);
                assert(paired.contains(e) <==> listed(unsorted, e));
                lemma_listed_artists_reordered(unsorted, done, e);
            }
        }
        Library { artists, all_albums }
    }
}

} // verus!
