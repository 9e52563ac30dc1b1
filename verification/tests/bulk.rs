use mpd_tui_core::lazy::LazyLibrary;
use mpd_tui_core::library::Library;
use mpd_tui_core::song::{SongInfo, SongTags};
use mpd_tui_core::sorting::stable_sort;
use std::collections::BTreeMap;

struct Dice(u64);

impl Dice {
    fn roll(&mut self, sides: u64) -> u64 {
        self.0 = self.0.wrapping_mul(6364136223846793005).wrapping_add(1442695040888963407);
        (self.0 >> 33) % sides
    }
}

fn name_key(name: &str) -> (String, String) {
    (name.to_lowercase(), name.to_string())
}

fn catalog(dice: &mut Dice, songs: usize, albums: u64, artists: u64) -> Vec<SongTags> {
    let spellings = ["alb", "Alb", "ALB", "álb", "Zed", "zed"];
    (0..songs)
        .map(|n| {
            let album = dice.roll(albums);
            let artist = (album * 7 + dice.roll(2)) % artists;
            let tagged = dice.roll(3) == 0;
            SongTags {
                title: Some(format!("title {}", dice.roll(40))),
                artists: vec![format!("{} {}", spellings[(artist % 6) as usize], artist / 6)],
                album_artists: if tagged {
                    vec![format!("{} {}", spellings[(album % 6) as usize], album % artists)]
                } else {
                    vec![]
                },
                album: Some(format!("{} {}", spellings[((album / 3) % 6) as usize], album)),
                file_path: format!("file {}", n),
                format: None,
                duration: None,
                disc_number: dice.roll(3),
                track_number: dice.roll(12),
            }
        })
        .collect()
}

type Shape = Vec<(String, Vec<(String, Vec<String>)>)>;

fn shape(lib: &Library) -> Shape {
    lib.artists
        .iter()
        .map(|artist| {
            let albums = artist
                .albums
                .iter()
                .map(|album| {
                    (album.name.clone(), album.tracks.iter().map(|t| t.file_path.clone()).collect())
                })
                .collect();
            (artist.name.clone(), albums)
        })
        .collect()
}

fn expected_shape(songs: &[SongTags]) -> Shape {
    let tracks: Vec<SongInfo> = songs.iter().map(SongInfo::from_song).collect();
    let mut by_album: BTreeMap<String, Vec<&SongInfo>> = BTreeMap::new();
    for track in &tracks {
        by_album.entry(track.album.clone()).or_default().push(track);
    }
    let mut by_artist: BTreeMap<(String, String), BTreeMap<(String, String), Vec<String>>> =
        BTreeMap::new();
    for (album, mut tracks) in by_album {
        let artist = match tracks.iter().find(|t| t.has_explicit_album_artist) {
            Some(t) => t.album_artist.clone(),
            None => {
                let mut counts: BTreeMap<&str, usize> = BTreeMap::new();
                for t in &tracks {
                    *counts.entry(t.album_artist.as_str()).or_default() += 1;
                }
                let most = *counts.values().max().unwrap();
                counts.iter().find(|(_, n)| **n == most).unwrap().0.to_string()
            }
        };
        tracks.sort_by(|a, b| {
            (a.disc_number, a.track_number, &a.title).cmp(&(b.disc_number, b.track_number, &b.title))
        });
        by_artist
            .entry(name_key(&artist))
            .or_default()
            .insert(name_key(&album), tracks.iter().map(|t| t.file_path.clone()).collect());
    }
    by_artist
        .into_iter()
        .map(|(artist, albums)| {
            (artist.1, albums.into_iter().map(|(album, tracks)| (album.1, tracks)).collect())
        })
        .collect()
}

fn expected_index(lib: &Library) -> Vec<(String, String)> {
    let mut index: Vec<(String, String)> = lib
        .artists
        .iter()
        .flat_map(|artist| artist.albums.iter().map(|album| (album.name.clone(), artist.name.clone())))
        .collect();
    index.sort_by_key(|(album, artist)| {
        (album.to_lowercase(), artist.to_lowercase(), album.clone(), artist.clone())
    });
    index
}

fn index_of(lib: &Library) -> Vec<(String, String)> {
    lib.all_albums.iter().map(|(artist, album)| (album.name.clone(), artist.clone())).collect()
}

#[test]
fn eager_library_of_a_mixed_catalog() {
    let mut dice = Dice(7);
    for round in 0..20 {
        let songs = catalog(&mut dice, 50 + round * 30, 5 + round as u64 * 3, 4 + round as u64);
        let lib = Library::load_library(&songs);
        assert_eq!(shape(&lib), expected_shape(&songs), "round {}", round);
        assert_eq!(index_of(&lib), expected_index(&lib), "round {}", round);
        let tracks: usize = lib.artists.iter().flat_map(|a| a.albums.iter()).map(|a| a.tracks.len()).sum();
        assert_eq!(tracks, songs.len());
    }
}

#[test]
fn eager_library_of_a_large_catalog() {
    let mut dice = Dice(11);
    let songs = catalog(&mut dice, 30_000, 3_000, 900);
    let lib = Library::load_library(&songs);
    assert_eq!(shape(&lib), expected_shape(&songs));
    assert_eq!(index_of(&lib), expected_index(&lib));
}

#[test]
fn lazy_library_agrees_with_one_query_per_artist() {
    let mut dice = Dice(23);
    let mut songs = catalog(&mut dice, 600, 60, 20);
    for song in &mut songs {
        if song.album_artists.is_empty() {
            song.album_artists = vec![song.artists[0].clone()];
        }
    }
    let mut names: Vec<String> = songs.iter().map(|s| s.album_artists[0].clone()).collect();
    names.sort();
    names.dedup();
    names.reverse();
    let mut lazy = LazyLibrary::init(&names);
    let mut order: Vec<usize> = (0..lazy.artists().len()).collect();
    order.reverse();
    order.rotate_left(3);
    for artist_index in order {
        let name = lazy.artist_to_fetch(artist_index).unwrap().unwrap();
        let found: Vec<SongTags> =
            songs.iter().filter(|s| s.album_artists[0] == name).cloned().collect();
        lazy.load_artist(artist_index, &found).unwrap();
        let full = lazy.to_full_library();
        assert_eq!(index_of(&full), expected_index(&full));
    }
    assert!(lazy.is_complete());
    let full = lazy.to_full_library();
    let answers: Vec<mpd_tui_core::by_artist::ArtistSongs> = names
        .iter()
        .map(|name| mpd_tui_core::by_artist::ArtistSongs {
            name: name.clone(),
            songs: Some(songs.iter().filter(|s| &s.album_artists[0] == name).cloned().collect()),
        })
        .collect();
    let queried = Library::load_library_by_artist(&answers, &Vec::new());
    assert_eq!(shape(&full), shape(&queried));
    assert_eq!(index_of(&full), index_of(&queried));
    let tracks: usize = full.artists.iter().flat_map(|a| a.albums.iter()).map(|a| a.tracks.len()).sum();
    assert_eq!(tracks, songs.len());
}

#[test]
fn stable_sort_agrees_with_the_standard_sort() {
    let mut dice = Dice(3);
    for len in [0usize, 1, 2, 3, 7, 64, 65, 1000] {
        let mut names: Vec<String> = (0..len)
            .map(|_| {
                let word = ["a", "A", "b", "B", "é", "É", "ab", "Ab", "aB", ""][dice.roll(10) as usize];
                format!("{}{}", word, dice.roll(4))
            })
            .collect();
        let mut expected = names.clone();
        expected.sort_by_key(|n| name_key(n));
        stable_sort(&mut names);
        assert_eq!(names, expected, "length {}", len);
    }
}

#[test]
fn stable_sort_keeps_the_order_of_tracks_that_rank_alike() {
    let mut dice = Dice(5);
    let mut tracks: Vec<SongInfo> = (0..500)
        .map(|n| {
            SongInfo::from_song(&SongTags {
                title: Some(format!("t{}", dice.roll(3))),
                artists: vec![],
                album_artists: vec![],
                album: None,
                file_path: format!("{:04}", n),
                format: None,
                duration: None,
                disc_number: dice.roll(2),
                track_number: dice.roll(3),
            })
        })
        .collect();
    stable_sort(&mut tracks);
    for pair in tracks.windows(2) {
        let a = (pair[0].disc_number, pair[0].track_number, &pair[0].title, &pair[0].file_path);
        let b = (pair[1].disc_number, pair[1].track_number, &pair[1].title, &pair[1].file_path);
        assert!(a < b);
    }
    assert_eq!(tracks.len(), 500);
}
