//! Songs as the daemon reports them and as the client keeps them.

use crate::sorting::{is_stable_sort, lemma_sort_ignores_input_order, tied, Ranked};
use crate::text::{lemma_text_lt_total, lemma_text_lt_transitive, text_le, text_lt, text_precedes};
use vstd::prelude::*;
use vstd::std_specs::iter::IteratorSpec;

verus! {

/// A length of time: whole seconds and the nanoseconds beyond them.
#[derive(Clone, Copy, Debug, PartialEq, Eq, Structural)]
pub struct Span {
    pub secs: u64,
    pub nanos: u32,
}

/// What the player is doing.
#[derive(Clone, Copy, Debug, PartialEq, Eq, Structural)]
pub enum PlayState {
    Stopped,
    Playing,
    Paused,
}

/// The tags of one song of the catalog, as the daemon lists them.
#[derive(Debug)]
pub struct SongTags {
    pub title: Option<String>,
    pub artists: Vec<String>,
    pub album_artists: Vec<String>,
    pub album: Option<String>,
    pub file_path: String,
    pub format: Option<String>,
    pub duration: Option<Span>,
    pub disc_number: u64,
    pub track_number: u64,
}

/// The mathematical value of a [`SongTags`].
pub struct SongTagsView {
    pub title: Option<Seq<char>>,
    pub artists: Seq<Seq<char>>,
    pub album_artists: Seq<Seq<char>>,
    pub album: Option<Seq<char>>,
    pub file_path: Seq<char>,
    pub format: Option<Seq<char>>,
    pub duration: Option<Span>,
    pub disc_number: u64,
    pub track_number: u64,
}

impl DeepView for SongTags {
    type V = SongTagsView;

    open spec fn deep_view(&self) -> SongTagsView {
        SongTagsView {
            title: self.title.deep_view(),
            artists: self.artists.deep_view(),
            album_artists: self.album_artists.deep_view(),
            album: self.album.deep_view(),
            file_path: self.file_path@,
            format: self.format.deep_view(),
            duration: self.duration,
            disc_number: self.disc_number,
            track_number: self.track_number,
        }
    }
}

impl View for SongTags {
    type V = SongTagsView;

    open spec fn view(&self) -> SongTagsView {
        self.deep_view()
    }
}

/// One track of the library or of the queue.
#[derive(Debug)]
pub struct SongInfo {
    pub title: String,
    pub artist: String,
    pub album_artist: String,
    pub has_explicit_album_artist: bool,
    pub album: String,
    pub file_path: String,
    pub format: Option<String>,
    pub play_state: Option<PlayState>,
    pub elapsed: Option<Span>,
    pub duration: Option<Span>,
    pub disc_number: u64,
    pub track_number: u64,
}

/// The mathematical value of a [`SongInfo`].
pub struct Track {
    pub title: Seq<char>,
    pub artist: Seq<char>,
    pub album_artist: Seq<char>,
    pub has_explicit_album_artist: bool,
    pub album: Seq<char>,
    pub file_path: Seq<char>,
    pub format: Option<Seq<char>>,
    pub play_state: Option<PlayState>,
    pub elapsed: Option<Span>,
    pub duration: Option<Span>,
    pub disc_number: u64,
    pub track_number: u64,
}

impl DeepView for SongInfo {
    type V = Track;

    open spec fn deep_view(&self) -> Track {
        Track {
            title: self.title@,
            artist: self.artist@,
            album_artist: self.album_artist@,
            has_explicit_album_artist: self.has_explicit_album_artist,
            album: self.album@,
            file_path: self.file_path@,
            format: self.format.deep_view(),
            play_state: self.play_state,
            elapsed: self.elapsed,
            duration: self.duration,
            disc_number: self.disc_number,
            track_number: self.track_number,
        }
    }
}

impl View for SongInfo {
    type V = Track;

    open spec fn view(&self) -> Track {
        self.deep_view()
    }
}

/// A copy of an optional text.
pub(crate) fn clone_text(text: &Option<String>) -> (r: Option<String>)
    ensures
        r.deep_view() == text.deep_view(),
{
    match text {
        Some(t) => Some(t.clone()),
        None => None,
    }
}

/// A copy of a list of texts.
pub(crate) fn clone_texts(texts: &Vec<String>) -> (r: Vec<String>)
    ensures
        r.deep_view() == texts.deep_view(),
{
    let mut r: Vec<String> = Vec::new();
    let mut i: usize = 0;
    while i < texts.len()
        invariant
            i <= texts.len(),
            r.len() == i,
            forall|k: int| 0 <= k < i ==> r[k]@ == texts[k]@,
        decreases texts.len() - i,
    {
        r.push(texts[i].clone());
        i += 1;
    }
    assert(r.deep_view() =~= texts.deep_view());
    r
}

impl Clone for SongTags {
    fn clone(&self) -> (r: Self)
        ensures
            r@ == self@,
    {
        SongTags {
            title: clone_text(&self.title),
            artists: clone_texts(&self.artists),
            album_artists: clone_texts(&self.album_artists),
            album: clone_text(&self.album),
            file_path: self.file_path.clone(),
            format: clone_text(&self.format),
            duration: self.duration,
            disc_number: self.disc_number,
            track_number: self.track_number,
        }
    }
}

impl Clone for SongInfo {
    fn clone(&self) -> (r: Self)
        ensures
            r@ == self@,
    {
        SongInfo {
            title: self.title.clone(),
            artist: self.artist.clone(),
            album_artist: self.album_artist.clone(),
            has_explicit_album_artist: self.has_explicit_album_artist,
            album: self.album.clone(),
            file_path: self.file_path.clone(),
            format: clone_text(&self.format),
            play_state: self.play_state,
            elapsed: self.elapsed,
            duration: self.duration,
            disc_number: self.disc_number,
            track_number: self.track_number,
        }
    }
}

/// The title given to a song that has none.
pub open spec fn unknown_title() -> Seq<char> {
    "Unknown Title"@
}

/// The artist given to a song that has none.
pub open spec fn unknown_artist() -> Seq<char> {
    "Unknown Artist"@
}

/// The album given to a song that has none.
pub open spec fn unknown_album() -> Seq<char> {
    "Unknown Album"@
}

/// The track that a song's tags describe: the first artist and the first
/// album artist count, a missing album artist falls back to the artist, and
/// missing names get their placeholders. Nothing is known of playback yet.
pub open spec fn track_of(tags: SongTagsView) -> Track {
    let artist = if tags.artists.len() > 0 {
        tags.artists[0]
    } else {
        unknown_artist()
    };
    Track {
        title: match tags.title {
            Some(t) => t,
            None => unknown_title(),
        },
        artist,
        album_artist: if tags.album_artists.len() > 0 {
            tags.album_artists[0]
        } else {
            artist
        },
        has_explicit_album_artist: tags.album_artists.len() > 0,
        album: match tags.album {
            Some(a) => a,
            None => unknown_album(),
        },
        file_path: tags.file_path,
        format: tags.format,
        play_state: None,
        elapsed: None,
        duration: tags.duration,
        disc_number: tags.disc_number,
        track_number: tags.track_number,
    }
}

impl SongInfo {
    /// Builds the track that a song's tags describe.
    pub fn from_song(song: &SongTags) -> (r: SongInfo)
        ensures
            r@ == track_of(song@),
    {
        let title = match &song.title {
            Some(t) => t.clone(),
            None => "Unknown Title".to_owned(),
        };
        let artist = if song.artists.len() > 0 {
            song.artists[0].clone()
        } else {
            "Unknown Artist".to_owned()
        };
        let has_explicit_album_artist = song.album_artists.len() > 0;
        let album_artist = if has_explicit_album_artist {
            song.album_artists[0].clone()
        } else {
            artist.clone()
        };
        let album = match &song.album {
            Some(a) => a.clone(),
            None => "Unknown Album".to_owned(),
        };
        SongInfo {
            title,
            artist,
            album_artist,
            has_explicit_album_artist,
            album,
            file_path: song.file_path.clone(),
            format: clone_text(&song.format),
            play_state: None,
            elapsed: None,
            duration: song.duration,
            disc_number: song.disc_number,
            track_number: song.track_number,
        }
    }

    /// Records what the player is doing with this track.
    pub fn update_playback_info(&mut self, play_state: Option<PlayState>)
        ensures
            final(self)@ == (Track { play_state, ..old(self)@ }),
    {
        self.play_state = play_state;
    }

    /// Records how far the track has played and how long it is.
    pub fn update_time_info(&mut self, elapsed: Option<Span>, duration: Option<Span>)
        ensures
            final(self)@ == (Track { elapsed, duration, ..old(self)@ }),
    {
        self.elapsed = elapsed;
        self.duration = duration;
    }
}

/// The order of tracks within an album: by disc, then by track number,
/// then by title in code-point order.
pub open spec fn track_le(a: Track, b: Track) -> bool {
    ||| a.disc_number < b.disc_number
    ||| a.disc_number == b.disc_number && a.track_number < b.track_number
    ||| a.disc_number == b.disc_number && a.track_number == b.track_number && text_le(
        a.title,
        b.title,
    )
}

impl Ranked for SongInfo {
    open spec fn rank_le(a: Track, b: Track) -> bool {
        track_le(a, b)
    }

    proof fn lemma_rank_total(a: Track, b: Track) {
        lemma_text_lt_total(a.title, b.title);
    }

    proof fn lemma_rank_transitive(a: Track, b: Track, c: Track) {
        if a.disc_number == c.disc_number && a.track_number == c.track_number {
            lemma_text_lt_total(a.title, b.title);
            lemma_text_lt_total(b.title, c.title);
            lemma_text_lt_total(a.title, c.title);
            if text_lt(c.title, a.title) && a.title != b.title && b.title != c.title {
                lemma_text_lt_transitive(a.title, b.title, c.title);
            }
        }
    }

    fn ranks_le(&self, other: &Self) -> (r: bool) {
        if self.disc_number != other.disc_number {
            self.disc_number < other.disc_number
        } else if self.track_number != other.track_number {
            self.track_number < other.track_number
        } else {
            !text_precedes(other.title.as_str(), self.title.as_str())
        }
    }
}

/// Two tracks have the same place on an album: the same disc, the same
/// track number and the same title.
pub open spec fn same_place(a: Track, b: Track) -> bool {
    a.disc_number == b.disc_number && a.track_number == b.track_number && a.title == b.title
}

/// The order of the tracks of an album does not depend on the order in
/// which the catalog lists them, as long as no two of them have the same
/// place: two lists of the same tracks have the same stable sort.
pub proof fn lemma_track_order_ignores_input_order(
    a: Seq<Track>,
    b: Seq<Track>,
    s: Seq<Track>,
    t: Seq<Track>,
)
    requires
        s.to_multiset() == t.to_multiset(),
        forall|i: int, j: int|
            0 <= i < s.len() && 0 <= j < s.len() && i != j ==> !same_place(
                #[trigger] s[i],
                #[trigger] s[j],
            ),
        is_stable_sort::<SongInfo>(a, s),
        is_stable_sort::<SongInfo>(b, t),
    ensures
        a == b,
{
    assert forall|i: int, j: int|
        0 <= i < s.len() && 0 <= j < s.len() && i != j implies !tied::<SongInfo>(
        #[trigger] s[i],
        #[trigger] s[j],
    ) by {
        lemma_text_lt_total(s[i].title, s[j].title);
        assert(!same_place(s[i], s[j]));
    }
    lemma_sort_ignores_input_order::<SongInfo>(a, b, s, t);
}

/// The value of a decimal digit.
pub open spec fn digit_value(c: char) -> Option<nat> {
    match c {
        '0' => Some(0nat),
        '1' => Some(1nat),
        '2' => Some(2nat),
        '3' => Some(3nat),
        '4' => Some(4nat),
        '5' => Some(5nat),
        '6' => Some(6nat),
        '7' => Some(7nat),
        '8' => Some(8nat),
        '9' => Some(9nat),
        _ => None,
    }
}

/// Every character of `text` is a decimal digit.
pub open spec fn all_digits(text: Seq<char>) -> bool {
    forall|i: int| 0 <= i < text.len() ==> digit_value(#[trigger] text[i]) is Some
}

/// The number that the digits of `text` write in base ten.
pub open spec fn decimal_value(text: Seq<char>) -> nat
    decreases text.len(),
{
    if text.len() == 0 {
        0
    } else {
        10 * decimal_value(text.drop_last()) + match digit_value(text.last()) {
            Some(d) => d,
            None => 0,
        }
    }
}

/// The number that `text` writes, as the standard library reads a `u32`:
/// an optional `+`, then at least one decimal digit and nothing else, with
/// a value that 32 bits hold.
pub open spec fn parsed_u32(text: Seq<char>) -> Option<u32> {
    let digits = if text.len() > 0 && text[0] == '+' {
        text.drop_first()
    } else {
        text
    };
    if digits.len() > 0 && all_digits(digits) && decimal_value(digits) <= u32::MAX {
        Some(decimal_value(digits) as u32)
    } else {
        None
    }
}

/// The part of `text` before its first colon: all of it if it has none.
pub open spec fn first_field(text: Seq<char>) -> Seq<char>
    decreases text.len(),
{
    if text.len() == 0 || text[0] == ':' {
        Seq::<char>::empty()
    } else {
        seq![text[0]] + first_field(text.drop_first())
    }
}

/// The sample rate that a format of the form `samplerate:bits:channels`
/// gives.
pub open spec fn sample_rate_of(format: Option<Seq<char>>) -> Option<u32> {
    match format {
        Some(f) => parsed_u32(first_field(f)),
        None => None,
    }
}

proof fn lemma_first_field_is_prefix(text: Seq<char>, end: int)
    requires
        0 <= end <= text.len(),
        forall|k: int| 0 <= k < end ==> text[k] != ':',
        end == text.len() || text[end] == ':',
    ensures
        first_field(text) == text.take(end),
    decreases end,
{
    if end == 0 {
        assert(text.take(0) =~= Seq::<char>::empty());
    } else {
        let rest = text.drop_first();
        assert forall|k: int| 0 <= k < end - 1 implies rest[k] != ':' by {
            assert(rest[k] == text[k + 1]);
        }
        lemma_first_field_is_prefix(rest, end - 1);
        assert(text.take(end) =~= seq![text[0]] + rest.take(end - 1));
    }
}

proof fn lemma_decimal_value_grows(text: Seq<char>, k: int)
    requires
        0 <= k <= text.len(),
    ensures
        decimal_value(text.take(k)) <= decimal_value(text),
    decreases text.len(),
{
    if k == text.len() {
        assert(text.take(k) =~= text);
    } else {
        lemma_decimal_value_grows(text.drop_last(), k);
        assert(text.drop_last().take(k) =~= text.take(k));
    }
}

/// The digit that `c` is, if it is one.
fn digit_of(c: char) -> (r: Option<u64>)
    ensures
        match r {
            Some(d) => digit_value(c) == Some(d as nat) && d <= 9,
            None => digit_value(c) is None,
        },
{
    match c {
        '0' => Some(0),
        '1' => Some(1),
        '2' => Some(2),
        '3' => Some(3),
        '4' => Some(4),
        '5' => Some(5),
        '6' => Some(6),
        '7' => Some(7),
        '8' => Some(8),
        '9' => Some(9),
        _ => None,
    }
}

/// Reads a `u32` written in base ten.
pub fn parse_u32(text: &Vec<char>) -> (r: Option<u32>)
    ensures
        r == parsed_u32(text@),
{
    let start: usize = if text.len() > 0 && text[0] == '+' {
        1
    } else {
        0
    };
    let ghost digits = text@.skip(start as int);
    proof {
        if start == 1 {
            assert(text@.drop_first() =~= digits);
        } else {
            assert(text@ =~= digits);
        }
    }
    if start == text.len() {
        return None;
    }
    let mut value: u64 = 0;
    let mut i: usize = start;
    proof {
        assert(digits.take(0) =~= Seq::<char>::empty());
    }
    while i < text.len()
        invariant
            start <= i <= text.len(),
            digits == text@.skip(start as int),
            digits == if text@.len() > 0 && text@[0] == '+' {
                text@.drop_first()
            } else {
                text@
            },
            all_digits(digits.take(i - start)),
            value == decimal_value(digits.take(i - start)),
            value <= u32::MAX,
        decreases text.len() - i,
    {
        let ghost seen = digits.take(i - start);
        let ghost more = digits.take(i - start + 1);
        proof {
            assert(more.drop_last() =~= seen);
            assert(more.last() == text[i as int]);
        }
        match digit_of(text[i]) {
            None => {
                assert(digits[i - start] == text[i as int]);
                return None;
            },
            Some(d) => {
                value = value * 10 + d;
                proof {
                    assert forall|k: int| 0 <= k < more.len() implies digit_value(
                        #[trigger] more[k],
                    ) is Some by {
                        if k < seen.len() {
                            assert(more[k] == seen[k]);
                        }
                    }
                }
                if value > 0xffff_ffff {
                    proof {
                        lemma_decimal_value_grows(digits, i - start + 1);
                    }
                    return None;
                }
            },
        }
        i += 1;
    }
    proof {
        assert(digits.take(i - start) =~= digits);
    }
    Some(value as u32)
}

/// The characters of `text` before its first colon.
pub fn first_field_of(text: &str) -> (field: Vec<char>)
    ensures
        field@ == first_field(text@),
{
    let mut field: Vec<char> = Vec::new();
    let mut rest = text.chars();
    let ghost mut at: int = 0;
    proof {
        assert(text@.skip(0) =~= text@);
        assert(text@.take(0) =~= Seq::<char>::empty());
    }
    loop
        invariant
            0 <= at <= text@.len(),
            rest.remaining() == text@.skip(at),
            field@ == text@.take(at),
            forall|k: int| 0 <= k < at ==> text@[k] != ':',
            rest.decrease() is Some,
        decreases rest.decrease()->0,
    {
        match rest.next() {
            None => {
                proof {
                    lemma_first_field_is_prefix(text@, at);
                }
                return field;
            },
            Some(c) => {
                assert(c == text@[at]);
                if c == ':' {
                    proof {
                        lemma_first_field_is_prefix(text@, at);
                    }
                    return field;
                }
                field.push(c);
                proof {
                    assert(text@.skip(at).drop_first() =~= text@.skip(at + 1));
                    assert(text@.take(at + 1) =~= text@.take(at).push(c));
                    at = at + 1;
                }
            },
        }
    }
}

impl SongInfo {
    /// The sample rate of the track, if its format gives one.
    pub fn sample_rate(&self) -> (r: Option<u32>)
        ensures
            r == sample_rate_of(self@.format),
    {
        match &self.format {
            Some(f) => {
                let field = first_field_of(f.as_str());
                parse_u32(&field)
            },
            None => None,
        }
    }
}

} // verus!
