//! Albums and artists: the levels of the library above the track.

use crate::song::{SongInfo, Span, Track};
use crate::sorting::Ranked;
use crate::text::{
    lemma_name_le_total, lemma_name_le_transitive, name_le, name_precedes,
};
use vstd::prelude::*;

verus! {

/// An album: its name and its tracks.
#[derive(Debug)]
pub struct Album {
    pub name: String,
    pub tracks: Vec<SongInfo>,
}

/// The mathematical value of an [`Album`].
pub struct AlbumView {
    pub name: Seq<char>,
    pub tracks: Seq<Track>,
}

impl DeepView for Album {
    type V = AlbumView;

    open spec fn deep_view(&self) -> AlbumView {
        AlbumView { name: self.name@, tracks: self.tracks.deep_view() }
    }
}

impl View for Album {
    type V = AlbumView;

    open spec fn view(&self) -> AlbumView {
        self.deep_view()
    }
}

/// A copy of a list of tracks.
pub(crate) fn clone_tracks(tracks: &Vec<SongInfo>) -> (r: Vec<SongInfo>)
    ensures
        r.deep_view() == tracks.deep_view(),
{
    let mut r: Vec<SongInfo> = Vec::new();
    let mut i: usize = 0;
    while i < tracks.len()
        invariant
            i <= tracks.len(),
            r.len() == i,
            forall|k: int| 0 <= k < i ==> r[k]@ == tracks[k]@,
        decreases tracks.len() - i,
    {
        r.push(tracks[i].clone());
        i += 1;
    }
    assert(r.deep_view() =~= tracks.deep_view());
    r
}

impl Clone for Album {
    fn clone(&self) -> (r: Self)
        ensures
            r@ == self@,
    {
        Album { name: self.name.clone(), tracks: clone_tracks(&self.tracks) }
    }
}

/// The whole seconds of the tracks of `tracks` that have a duration, summed.
pub open spec fn total_secs(tracks: Seq<Track>) -> nat
    decreases tracks.len(),
{
    if tracks.len() == 0 {
        0
    } else {
        let rest = total_secs(tracks.drop_last());
        match tracks.last().duration {
            Some(d) => rest + d.secs as nat,
            None => rest,
        }
    }
}

/// Some track of `tracks` has a duration.
pub open spec fn any_duration(tracks: Seq<Track>) -> bool {
    exists|i: int| 0 <= i < tracks.len() && (#[trigger] tracks[i]).duration is Some
}

impl Album {
    /// The playing time of the album in whole seconds: the sum over the
    /// tracks whose duration is known, and nothing when none is known. A sum
    /// beyond what 64 bits hold is reported as the largest value they hold.
    pub fn total_duration(&self) -> (r: Option<Span>)
        ensures
            r is Some <==> any_duration(self@.tracks),
            r matches Some(d) ==> d.nanos == 0 && d.secs == if total_secs(self@.tracks)
                <= u64::MAX {
                total_secs(self@.tracks)
            } else {
                u64::MAX as nat
            },
    {
        let mut total: u64 = 0;
        let mut has_duration = false;
        let mut i: usize = 0;
        let ghost all = self.tracks.deep_view();
        while i < self.tracks.len()
            invariant
                i <= self.tracks.len(),
                all == self.tracks.deep_view(),
                has_duration <==> any_duration(all.take(i as int)),
                total == if total_secs(all.take(i as int)) <= u64::MAX {
                    total_secs(all.take(i as int))
                } else {
                    u64::MAX as nat
                },
            decreases self.tracks.len() - i,
        {
            proof {
                let now = all.take(i as int);
                let next = all.take(i + 1);
                assert(next.drop_last() =~= now);
                assert(next.last() == all[i as int]);
                assert(all[i as int] == self.tracks[i as int]@);
                if any_duration(now) {
                    let w = choose|w: int| 0 <= w < now.len() && (#[trigger] now[w]).duration is Some;
                    assert(next[w] == now[w]);
                }
                if any_duration(next) && !(next.last().duration is Some) {
                    let w = choose|w: int|
                        0 <= w < next.len() && (#[trigger] next[w]).duration is Some;
                    assert(now[w] == next[w]);
                }
            }
            match self.tracks[i].duration {
                Some(d) => {
                    total = total.saturating_add(d.secs);
                    has_duration = true;
                },
                None => {},
            }
            i += 1;
        }
        assert(all.take(i as int) =~= all);
        if has_duration {
            Some(Span { secs: total, nanos: 0 })
        } else {
            None
        }
    }
}

impl Ranked for Album {
    open spec fn rank_le(a: AlbumView, b: AlbumView) -> bool {
        name_le(a.name, b.name)
    }

    proof fn lemma_rank_total(a: AlbumView, b: AlbumView) {
        lemma_name_le_total(a.name, b.name);
    }

    proof fn lemma_rank_transitive(a: AlbumView, b: AlbumView, c: AlbumView) {
        lemma_name_le_transitive(a.name, b.name, c.name);
    }

    fn ranks_le(&self, other: &Self) -> (r: bool) {
        name_precedes(self.name.as_str(), other.name.as_str())
    }
}

/// An artist: a name and the albums under it.
#[derive(Debug)]
pub struct Artist {
    pub name: String,
    pub albums: Vec<Album>,
}

/// The mathematical value of an [`Artist`].
pub struct ArtistView {
    pub name: Seq<char>,
    pub albums: Seq<AlbumView>,
}

impl DeepView for Artist {
    type V = ArtistView;

    open spec fn deep_view(&self) -> ArtistView {
        ArtistView { name: self.name@, albums: self.albums.deep_view() }
    }
}

impl View for Artist {
    type V = ArtistView;

    open spec fn view(&self) -> ArtistView {
        self.deep_view()
    }
}

/// A copy of a list of albums.
pub(crate) fn clone_albums(albums: &Vec<Album>) -> (r: Vec<Album>)
    ensures
        r.deep_view() == albums.deep_view(),
{
    let mut r: Vec<Album> = Vec::new();
    let mut i: usize = 0;
    while i < albums.len()
        invariant
            i <= albums.len(),
            r.len() == i,
            forall|k: int| 0 <= k < i ==> r[k]@ == albums[k]@,
        decreases albums.len() - i,
    {
        r.push(albums[i].clone());
        i += 1;
    }
    assert(r.deep_view() =~= albums.deep_view());
    r
}

impl Clone for Artist {
    fn clone(&self) -> (r: Self)
        ensures
            r@ == self@,
    {
        Artist { name: self.name.clone(), albums: clone_albums(&self.albums) }
    }
}

/// A copy of a list of artists.
pub(crate) fn clone_artists(artists: &Vec<Artist>) -> (r: Vec<Artist>)
    ensures
        r.deep_view() == artists.deep_view(),
{
    let mut r: Vec<Artist> = Vec::new();
    let mut i: usize = 0;
    while i < artists.len()
        invariant
            i <= artists.len(),
            r.len() == i,
            forall|k: int| 0 <= k < i ==> r[k]@ == artists[k]@,
        decreases artists.len() - i,
    {
        r.push(artists[i].clone());
        i += 1;
    }
    assert(r.deep_view() =~= artists.deep_view());
    r
}

impl Ranked for Artist {
    open spec fn rank_le(a: ArtistView, b: ArtistView) -> bool {
        name_le(a.name, b.name)
    }

    proof fn lemma_rank_total(a: ArtistView, b: ArtistView) {
        lemma_name_le_total(a.name, b.name);
    }

    proof fn lemma_rank_transitive(a: ArtistView, b: ArtistView, c: ArtistView) {
        lemma_name_le_transitive(a.name, b.name, c.name);
    }

    fn ranks_le(&self, other: &Self) -> (r: bool) {
        name_precedes(self.name.as_str(), other.name.as_str())
    }
}

/// An artist whose albums are fetched on demand: `None` until they are.
#[derive(Debug)]
pub struct LazyArtist {
    pub name: String,
    pub albums: Option<Vec<Album>>,
}

/// The mathematical value of a [`LazyArtist`].
pub struct LazyArtistView {
    pub name: Seq<char>,
    pub albums: Option<Seq<AlbumView>>,
}

impl DeepView for LazyArtist {
    type V = LazyArtistView;

    open spec fn deep_view(&self) -> LazyArtistView {
        LazyArtistView { name: self.name@, albums: self.albums.deep_view() }
    }
}

impl View for LazyArtist {
    type V = LazyArtistView;

    open spec fn view(&self) -> LazyArtistView {
        self.deep_view()
    }
}

impl Clone for LazyArtist {
    fn clone(&self) -> (r: Self)
        ensures
            r@ == self@,
    {
        LazyArtist {
            name: self.name.clone(),
            albums: match &self.albums {
                Some(albums) => Some(clone_albums(albums)),
                None => None,
            },
        }
    }
}

impl LazyArtist {
    /// An artist of whom only the name is known.
    pub fn new(name: String) -> (r: Self)
        ensures
            r@ == (LazyArtistView { name: name@, albums: None }),
    {
        LazyArtist { name, albums: None }
    }

    /// Whether the albums have been fetched.
    pub fn is_loaded(&self) -> (r: bool)
        ensures
            r == (self@.albums is Some),
    {
        self.albums.is_some()
    }

    /// The albums, if they have been fetched.
    pub fn get_albums(&self) -> (r: Option<&Vec<Album>>)
        ensures
            r.deep_view() == self@.albums,
    {
        self.albums.as_ref()
    }

    /// The artist with the albums fetched so far: none before the fetch.
    pub fn to_artist(&self) -> (r: Artist)
        ensures
            r@.name == self@.name,
            r@.albums == match self@.albums {
                Some(albums) => albums,
                None => Seq::<AlbumView>::empty(),
            },
    {
        Artist {
            name: self.name.clone(),
            albums: match &self.albums {
                Some(albums) => clone_albums(albums),
                None => Vec::new(),
            },
        }
    }
}

} // verus!
