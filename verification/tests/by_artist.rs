use mpd_tui_core::by_artist::ArtistSongs;
use mpd_tui_core::library::Library;
use mpd_tui_core::song::SongTags;

fn tags(title: &str, artist: &str, album_artist: Option<&str>, album: &str, track: u64) -> SongTags {
    SongTags {
        title: Some(title.to_string()),
        artists: vec![artist.to_string()],
        album_artists: match album_artist {
            Some(a) => vec![a.to_string()],
            None => vec![],
        },
        album: Some(album.to_string()),
        file_path: format!("{}/{}.flac", album, title),
        format: None,
        duration: None,
        disc_number: 1,
        track_number: track,
    }
}

fn answer(name: &str, songs: Option<Vec<SongTags>>) -> ArtistSongs {
    ArtistSongs { name: name.to_string(), songs }
}

fn shape(lib: &Library) -> Vec<(String, Vec<(String, Vec<String>)>)> {
    lib.artists
        .iter()
        .map(|artist| {
            let albums = artist
                .albums
                .iter()
                .map(|album| (album.name.clone(), album.tracks.iter().map(|t| t.title.clone()).collect()))
                .collect();
            (artist.name.clone(), albums)
        })
        .collect()
}

fn s(text: &str) -> String {
    text.to_string()
}

#[test]
fn answers_become_artists_with_sorted_albums() {
    let answers = vec![
        answer("beta", Some(vec![tags("t2", "x", Some("beta"), "Zoo", 2), tags("t1", "y", Some("beta"), "Zoo", 1), tags("t3", "x", Some("beta"), "ant", 1)])),
        answer("Alpha", Some(vec![tags("u1", "Alpha", Some("Alpha"), "Moon", 1)])),
    ];
    let lib = Library::load_library_by_artist(&answers, &Vec::new());
    assert_eq!(
        shape(&lib),
        vec![
            (s("Alpha"), vec![(s("Moon"), vec![s("u1")])]),
            (s("beta"), vec![(s("ant"), vec![s("t3")]), (s("Zoo"), vec![s("t1"), s("t2")])]),
        ]
    );
    let index: Vec<(&str, &str)> =
        lib.all_albums.iter().map(|(artist, album)| (album.name.as_str(), artist.as_str())).collect();
    assert_eq!(index, vec![("ant", "beta"), ("Moon", "Alpha"), ("Zoo", "beta")]);
    assert_eq!(lib.artists[1].albums[1].tracks[0].artist, "y");
    assert_eq!(lib.artists[1].albums[1].tracks[0].album_artist, "beta");
}

#[test]
fn failed_empty_and_nameless_answers_count_for_nothing() {
    let answers = vec![
        answer("", Some(vec![tags("n", "N", None, "Nameless", 1)])),
        answer("Failed", None),
        answer("Empty", Some(vec![])),
        answer("Real", Some(vec![tags("r", "Real", Some("Real"), "Album", 1)])),
    ];
    let lib = Library::load_library_by_artist(&answers, &Vec::new());
    assert_eq!(shape(&lib), vec![(s("Real"), vec![(s("Album"), vec![s("r")])])]);
    assert_eq!(lib.all_albums.len(), 1);
}

#[test]
fn orphans_join_their_own_artist() {
    let answers = vec![answer("Real", Some(vec![tags("r2", "Real", Some("Real"), "Album", 2)]))];
    let orphans = vec![
        tags("r1", "Real", None, "Album", 1),
        tags("o1", "Real", None, "B-sides", 1),
        tags("s1", "Stray", None, "Demo", 1),
    ];
    let lib = Library::load_library_by_artist(&answers, &orphans);
    assert_eq!(
        shape(&lib),
        vec![
            (s("Real"), vec![(s("Album"), vec![s("r1"), s("r2")]), (s("B-sides"), vec![s("o1")])]),
            (s("Stray"), vec![(s("Demo"), vec![s("s1")])]),
        ]
    );
    assert_eq!(lib.all_albums.len(), 3);
    assert_eq!(lib.artists[0].albums[0].tracks[0].album_artist, "Real");
    assert!(!lib.artists[0].albums[0].tracks[0].has_explicit_album_artist);
}

#[test]
fn orphans_without_an_artist_go_under_the_placeholder() {
    let mut orphan = tags("o", "x", None, "Al", 1);
    orphan.artists = vec![];
    let lib = Library::load_library_by_artist(&Vec::new(), &vec![orphan]);
    assert_eq!(shape(&lib), vec![(s("Unknown Artist"), vec![(s("Al"), vec![s("o")])])]);
}

#[test]
fn answers_for_the_same_artist_are_merged() {
    let answers = vec![
        answer("X", Some(vec![tags("a", "X", Some("X"), "One", 2)])),
        answer("X", Some(vec![tags("b", "X", Some("X"), "One", 1), tags("c", "X", Some("X"), "Two", 1)])),
    ];
    let lib = Library::load_library_by_artist(&answers, &Vec::new());
    assert_eq!(
        shape(&lib),
        vec![(s("X"), vec![(s("One"), vec![s("b"), s("a")]), (s("Two"), vec![s("c")])])]
    );
}

#[test]
fn nothing_gives_an_empty_library() {
    let lib = Library::load_library_by_artist(&Vec::new(), &Vec::new());
    assert!(lib.artists.is_empty());
    assert!(lib.all_albums.is_empty());
}
