use mpd_tui_core::album::Album;
use mpd_tui_core::grouping::canonical_album_artist;
use mpd_tui_core::lazy::{albums_of, LazyLibrary, LibraryError};
use mpd_tui_core::library::Library;
use mpd_tui_core::song::{SongInfo, SongTags, Span};
use mpd_tui_core::sorting::stable_sort;

fn tags(
    title: &str,
    artist: &str,
    album_artist: Option<&str>,
    album: &str,
    disc: u64,
    track: u64,
) -> SongTags {
    SongTags {
        title: Some(title.to_string()),
        artists: vec![artist.to_string()],
        album_artists: match album_artist {
            Some(a) => vec![a.to_string()],
            None => vec![],
        },
        album: Some(album.to_string()),
        file_path: format!("{}/{}/{}.flac", artist, album, title),
        format: Some("44100:16:2".to_string()),
        duration: Some(Span { secs: 200, nanos: 0 }),
        disc_number: disc,
        track_number: track,
    }
}

fn info(title: &str, artist: &str, album_artist: Option<&str>, album: &str) -> SongInfo {
    SongInfo::from_song(&tags(title, artist, album_artist, album, 1, 1))
}

fn titles(album: &Album) -> Vec<String> {
    album.tracks.iter().map(|t| t.title.clone()).collect()
}

fn album_names(albums: &[Album]) -> Vec<String> {
    albums.iter().map(|a| a.name.clone()).collect()
}

#[test]
fn canonical_artist_is_the_explicit_tag() {
    let tracks = vec![info("one", "X", None, "A"), info("two", "Y", Some("Z"), "A")];
    assert_eq!(canonical_album_artist(&tracks), "Z");
}

#[test]
fn canonical_artist_is_the_first_explicit_tag() {
    let tracks = vec![
        info("one", "X", None, "A"),
        info("two", "Y", Some("Z"), "A"),
        info("three", "Y", Some("W"), "A"),
    ];
    assert_eq!(canonical_album_artist(&tracks), "Z");
}

#[test]
fn canonical_artist_is_the_majority() {
    let tracks =
        vec![info("one", "X", None, "A"), info("two", "X", None, "A"), info("three", "Y", None, "A")];
    assert_eq!(canonical_album_artist(&tracks), "X");
    let tracks =
        vec![info("one", "Y", None, "A"), info("two", "X", None, "A"), info("three", "X", None, "A")];
    assert_eq!(canonical_album_artist(&tracks), "X");
}

#[test]
fn canonical_artist_tie_goes_to_the_first_in_code_point_order() {
    let tracks = vec![info("one", "b", None, "A"), info("two", "a", None, "A")];
    assert_eq!(canonical_album_artist(&tracks), "a");
    let tracks = vec![info("one", "a", None, "A"), info("two", "B", None, "A")];
    assert_eq!(canonical_album_artist(&tracks), "B");
}

#[test]
fn canonical_artist_of_no_tracks_is_the_placeholder() {
    assert_eq!(canonical_album_artist(&Vec::new()), "Unknown Artist");
}

#[test]
fn explicit_tag_credits_every_track_of_the_album() {
    let songs = vec![tags("one", "X", None, "A", 1, 1), tags("two", "Y", Some("Z"), "A", 1, 2)];
    let lib = Library::load_library(&songs);
    assert_eq!(lib.artists.len(), 1);
    assert_eq!(lib.artists[0].name, "Z");
    assert_eq!(lib.artists[0].albums.len(), 1);
    let album = &lib.artists[0].albums[0];
    assert_eq!(titles(album), vec!["one", "two"]);
    assert!(album.tracks.iter().all(|t| t.album_artist == "Z"));
    assert_eq!(album.tracks[0].artist, "X");
    assert!(!album.tracks[0].has_explicit_album_artist);
}

#[test]
fn tracks_are_ordered_by_disc_track_and_title() {
    let songs = vec![
        tags("B", "X", None, "A", 1, 2),
        tags("A", "X", None, "A", 1, 1),
        tags("C", "X", None, "A", 2, 1),
    ];
    let lib = Library::load_library(&songs);
    let album = &lib.artists[0].albums[0];
    let order: Vec<(u64, u64, String)> =
        album.tracks.iter().map(|t| (t.disc_number, t.track_number, t.title.clone())).collect();
    assert_eq!(
        order,
        vec![(1, 1, "A".to_string()), (1, 2, "B".to_string()), (2, 1, "C".to_string())]
    );
    let permuted = vec![
        tags("C", "X", None, "A", 2, 1),
        tags("B", "X", None, "A", 1, 2),
        tags("A", "X", None, "A", 1, 1),
    ];
    let again = Library::load_library(&permuted);
    assert_eq!(titles(&again.artists[0].albums[0]), vec!["A", "B", "C"]);
}

#[test]
fn tracks_with_the_same_numbers_are_ordered_by_title() {
    let songs = vec![
        tags("beta", "X", None, "A", 0, 0),
        tags("Beta", "X", None, "A", 0, 0),
        tags("alpha", "X", None, "A", 0, 0),
    ];
    let lib = Library::load_library(&songs);
    assert_eq!(titles(&lib.artists[0].albums[0]), vec!["Beta", "alpha", "beta"]);
}

#[test]
fn library_sorts_artists_and_albums_without_regard_to_case() {
    let songs = vec![
        tags("t1", "beta", None, "zebra", 1, 1),
        tags("t2", "Alpha", None, "moon", 1, 1),
        tags("t3", "beta", None, "Apple", 1, 1),
        tags("t4", "Gamma", None, "apple", 1, 1),
        tags("t5", "beta", None, "zebra", 1, 2),
    ];
    let lib = Library::load_library(&songs);
    let artists: Vec<&str> = lib.artists.iter().map(|a| a.name.as_str()).collect();
    assert_eq!(artists, vec!["Alpha", "beta", "Gamma"]);
    assert_eq!(album_names(&lib.artists[1].albums), vec!["Apple", "zebra"]);
    assert_eq!(titles(&lib.artists[1].albums[1]), vec!["t1", "t5"]);
    let index: Vec<(&str, &str)> =
        lib.all_albums.iter().map(|(artist, album)| (album.name.as_str(), artist.as_str())).collect();
    assert_eq!(
        index,
        vec![("Apple", "beta"), ("apple", "Gamma"), ("moon", "Alpha"), ("zebra", "beta")]
    );
}

#[test]
fn album_index_breaks_ties_by_artist_without_regard_to_case() {
    let songs = vec![
        tags("t1", "b", Some("b"), "Hits", 1, 1),
        tags("t2", "A", Some("A"), "hits", 1, 1),
    ];
    let lib = Library::load_library(&songs);
    let index: Vec<(&str, &str)> =
        lib.all_albums.iter().map(|(artist, album)| (album.name.as_str(), artist.as_str())).collect();
    assert_eq!(index, vec![("hits", "A"), ("Hits", "b")]);
}

#[test]
fn an_album_is_never_split_between_artists() {
    let songs = vec![
        tags("one", "X", None, "Split", 1, 1),
        tags("two", "Y", None, "Split", 1, 2),
        tags("three", "Y", None, "Split", 1, 3),
        tags("four", "X", None, "Other", 1, 1),
    ];
    let lib = Library::load_library(&songs);
    let artists: Vec<&str> = lib.artists.iter().map(|a| a.name.as_str()).collect();
    assert_eq!(artists, vec!["X", "Y"]);
    assert_eq!(album_names(&lib.artists[0].albums), vec!["Other"]);
    assert_eq!(album_names(&lib.artists[1].albums), vec!["Split"]);
    assert_eq!(titles(&lib.artists[1].albums[0]), vec!["one", "two", "three"]);
    assert!(lib.artists[1].albums[0].tracks.iter().all(|t| t.album_artist == "Y"));
}

#[test]
fn empty_catalog_gives_an_empty_library() {
    let lib = Library::load_library(&Vec::new());
    assert!(lib.artists.is_empty());
    assert!(lib.all_albums.is_empty());
}

#[test]
fn albums_of_sorts_albums_and_tracks() {
    let songs = vec![
        tags("t1", "X", None, "beta", 1, 2),
        tags("t2", "X", None, "Alpha", 1, 1),
        tags("t3", "X", None, "beta", 1, 1),
    ];
    let albums = albums_of(&songs);
    assert_eq!(album_names(&albums), vec!["Alpha", "beta"]);
    assert_eq!(titles(&albums[1]), vec!["t3", "t1"]);
}

#[test]
fn stable_sort_orders_names_without_regard_to_case() {
    let mut v: Vec<String> =
        vec!["delta", "Charlie", "alpha", "Bravo", "bravo", "alpha"].into_iter().map(String::from).collect();
    stable_sort(&mut v);
    assert_eq!(v, vec!["alpha", "alpha", "Bravo", "bravo", "Charlie", "delta"]);
}

#[test]
fn lazy_init_sorts_names_and_drops_empty_and_repeated_ones() {
    let names: Vec<String> =
        vec!["beta", "", "Alpha", "gamma", "beta"].into_iter().map(String::from).collect();
    let lib = LazyLibrary::init(&names);
    let got: Vec<&str> = lib.artists().iter().map(|a| a.name.as_str()).collect();
    assert_eq!(got, vec!["Alpha", "beta", "gamma"]);
    assert!(lib.artists().iter().all(|a| !a.is_loaded()));
    assert!(lib.all_albums().is_empty());
    assert!(!lib.is_complete());
    assert_eq!(lib.next_unloaded(), Some(0));
    assert_eq!(lib.get_artist_name(1), Some("beta"));
    assert_eq!(lib.get_artist_name(3), None);
    assert!(lib.get_artist_albums(0).is_none());
    assert!(!lib.is_artist_loaded(0));
    assert!(!lib.is_artist_loaded(7));
    assert!(lib.get_artist(0).unwrap().albums.is_empty());
    assert!(lib.get_artist(3).is_none());
}

#[test]
fn lazy_load_is_idempotent() {
    let names: Vec<String> = vec!["X", "Y"].into_iter().map(String::from).collect();
    let mut lib = LazyLibrary::init(&names);
    let songs = vec![tags("t1", "X", Some("X"), "B", 1, 1), tags("t2", "X", Some("X"), "a", 1, 1)];
    assert_eq!(lib.artist_to_fetch(0), Ok(Some("X".to_string())));
    assert_eq!(lib.load_artist(0, &songs), Ok(()));
    assert!(lib.is_artist_loaded(0));
    assert_eq!(lib.artist_to_fetch(0), Ok(None));
    assert_eq!(album_names(lib.get_artist_albums(0).unwrap()), vec!["a", "B"]);
    assert_eq!(lib.all_albums().len(), 2);
    assert!(!lib.is_complete());
    let other = vec![tags("t9", "X", Some("X"), "Z", 1, 1)];
    assert_eq!(lib.load_artist(0, &other), Ok(()));
    assert_eq!(album_names(lib.get_artist_albums(0).unwrap()), vec!["a", "B"]);
    assert_eq!(lib.all_albums().len(), 2);
    assert_eq!(lib.load_artist(0, &songs), Ok(()));
    assert_eq!(lib.all_albums().len(), 2);
}

#[test]
fn lazy_load_out_of_range_is_an_error() {
    let names: Vec<String> = vec!["X".to_string()];
    let mut lib = LazyLibrary::init(&names);
    assert_eq!(lib.load_artist(1, &Vec::new()), Err(LibraryError::ArtistIndexOutOfBounds));
    assert_eq!(lib.artist_to_fetch(1), Err(LibraryError::ArtistIndexOutOfBounds));
    assert_eq!(LibraryError::ArtistIndexOutOfBounds.message(), "Artist index out of bounds");
    assert!(!lib.is_artist_loaded(0));
    assert!(lib.all_albums().is_empty());
}

#[test]
fn lazy_index_grows_and_completes() {
    let names: Vec<String> = vec!["b", "A"].into_iter().map(String::from).collect();
    let mut lib = LazyLibrary::init(&names);
    let of_b = vec![tags("t1", "b", Some("b"), "Moon", 1, 1), tags("t2", "b", Some("b"), "apple", 1, 1)];
    let of_a = vec![tags("t3", "A", Some("A"), "banana", 1, 1), tags("t4", "A", Some("A"), "moon", 1, 1)];
    assert_eq!(lib.load_artist(1, &of_b), Ok(()));
    let index: Vec<(&str, &str)> =
        lib.all_albums().iter().map(|(artist, album)| (album.name.as_str(), artist.as_str())).collect();
    assert_eq!(index, vec![("apple", "b"), ("Moon", "b")]);
    assert!(!lib.is_complete());
    assert_eq!(lib.next_unloaded(), Some(0));
    assert_eq!(lib.load_artist(0, &of_a), Ok(()));
    let index: Vec<(&str, &str)> =
        lib.all_albums().iter().map(|(artist, album)| (album.name.as_str(), artist.as_str())).collect();
    assert_eq!(index, vec![("apple", "b"), ("banana", "A"), ("moon", "A"), ("Moon", "b")]);
    assert!(lib.is_complete());
    assert_eq!(lib.next_unloaded(), None);
    let full = lib.to_full_library();
    assert_eq!(full.artists.len(), 2);
    assert_eq!(full.artists[0].name, "A");
    assert_eq!(album_names(&full.artists[0].albums), vec!["banana", "moon"]);
    assert_eq!(full.all_albums.len(), 4);
}

#[test]
fn lazy_artist_without_songs_is_loaded_with_no_albums() {
    let names: Vec<String> = vec!["X".to_string()];
    let mut lib = LazyLibrary::init(&names);
    assert_eq!(lib.load_artist(0, &Vec::new()), Ok(()));
    assert!(lib.is_artist_loaded(0));
    assert!(lib.get_artist_albums(0).unwrap().is_empty());
    assert!(lib.is_complete());
}

#[test]
fn full_library_of_a_partly_loaded_one_has_empty_artists() {
    let names: Vec<String> = vec!["X", "Y"].into_iter().map(String::from).collect();
    let mut lib = LazyLibrary::init(&names);
    assert_eq!(lib.load_artist(1, &vec![tags("t", "Y", Some("Y"), "Al", 1, 1)]), Ok(()));
    let full = lib.to_full_library();
    assert_eq!(full.artists.len(), 2);
    assert!(full.artists[0].albums.is_empty());
    assert_eq!(album_names(&full.artists[1].albums), vec!["Al"]);
    assert_eq!(full.all_albums.len(), 1);
}
