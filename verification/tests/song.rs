use mpd_tui_core::album::{Album, LazyArtist};
use mpd_tui_core::song::{first_field_of, parse_u32, PlayState, SongInfo, SongTags, Span};
use mpd_tui_core::text::{name_precedes, text_equal, text_precedes};

fn bare(format: Option<&str>, duration: Option<u64>) -> SongTags {
    SongTags {
        title: None,
        artists: vec![],
        album_artists: vec![],
        album: None,
        file_path: "a/b.flac".to_string(),
        format: format.map(String::from),
        duration: duration.map(|secs| Span { secs, nanos: 500 }),
        disc_number: 0,
        track_number: 0,
    }
}

#[test]
fn missing_tags_get_placeholders() {
    let song = SongInfo::from_song(&bare(None, None));
    assert_eq!(song.title, "Unknown Title");
    assert_eq!(song.artist, "Unknown Artist");
    assert_eq!(song.album_artist, "Unknown Artist");
    assert!(!song.has_explicit_album_artist);
    assert_eq!(song.album, "Unknown Album");
    assert_eq!(song.file_path, "a/b.flac");
    assert_eq!(song.format, None);
    assert_eq!(song.play_state, None);
    assert_eq!(song.elapsed, None);
    assert_eq!(song.duration, None);
}

#[test]
fn first_artist_and_first_album_artist_count() {
    let tags = SongTags {
        title: Some("T".to_string()),
        artists: vec!["A1".to_string(), "A2".to_string()],
        album_artists: vec!["AA1".to_string(), "AA2".to_string()],
        album: Some("Al".to_string()),
        file_path: "f".to_string(),
        format: Some("96000:24:2".to_string()),
        duration: Some(Span { secs: 61, nanos: 7 }),
        disc_number: 2,
        track_number: 9,
    };
    let song = SongInfo::from_song(&tags);
    assert_eq!(song.title, "T");
    assert_eq!(song.artist, "A1");
    assert_eq!(song.album_artist, "AA1");
    assert!(song.has_explicit_album_artist);
    assert_eq!(song.album, "Al");
    assert_eq!(song.duration, Some(Span { secs: 61, nanos: 7 }));
    assert_eq!((song.disc_number, song.track_number), (2, 9));
    assert_eq!(song.sample_rate(), Some(96000));
}

#[test]
fn album_artist_falls_back_to_the_artist() {
    let mut tags = bare(None, None);
    tags.artists = vec!["Solo".to_string()];
    let song = SongInfo::from_song(&tags);
    assert_eq!(song.album_artist, "Solo");
    assert!(!song.has_explicit_album_artist);
}

#[test]
fn playback_updates_touch_only_their_fields() {
    let mut song = SongInfo::from_song(&bare(Some("44100:16:2"), Some(10)));
    song.update_playback_info(Some(PlayState::Playing));
    assert_eq!(song.play_state, Some(PlayState::Playing));
    assert_eq!(song.elapsed, None);
    song.update_time_info(Some(Span { secs: 3, nanos: 0 }), Some(Span { secs: 11, nanos: 0 }));
    assert_eq!(song.elapsed, Some(Span { secs: 3, nanos: 0 }));
    assert_eq!(song.duration, Some(Span { secs: 11, nanos: 0 }));
    assert_eq!(song.play_state, Some(PlayState::Playing));
    assert_eq!(song.title, "Unknown Title");
    let copy = song.clone();
    assert_eq!(copy.file_path, song.file_path);
    assert_eq!(copy.elapsed, song.elapsed);
}

fn rate(format: Option<&str>) -> Option<u32> {
    SongInfo::from_song(&bare(format, None)).sample_rate()
}

#[test]
fn sample_rate_is_the_first_field_of_the_format() {
    assert_eq!(rate(Some("44100:16:2")), Some(44100));
    assert_eq!(rate(Some("192000:24:2")), Some(192000));
    assert_eq!(rate(Some("48000")), Some(48000));
    assert_eq!(rate(Some("+48000:f:2")), Some(48000));
    assert_eq!(rate(Some("00044100:16:2")), Some(44100));
    assert_eq!(rate(Some("0:16:2")), Some(0));
    assert_eq!(rate(Some("4294967295:16:2")), Some(4294967295));
}

#[test]
fn sample_rate_of_a_bad_format_is_none() {
    assert_eq!(rate(None), None);
    assert_eq!(rate(Some("")), None);
    assert_eq!(rate(Some(":16:2")), None);
    assert_eq!(rate(Some("dsd64:2")), None);
    assert_eq!(rate(Some("44100 :16:2")), None);
    assert_eq!(rate(Some("-44100:16:2")), None);
    assert_eq!(rate(Some("+:16:2")), None);
    assert_eq!(rate(Some("++1:16:2")), None);
    assert_eq!(rate(Some("4294967296:16:2")), None);
    assert_eq!(rate(Some("99999999999999999999999:16:2")), None);
    assert_eq!(rate(Some("４４:16:2")), None);
}

#[test]
fn parse_u32_agrees_with_the_standard_library() {
    for text in ["0", "7", "+7", "007", "4294967295", "4294967296", "", "+", "-1", "1a", "a1", " 1", "1 "] {
        let chars: Vec<char> = text.chars().collect();
        assert_eq!(parse_u32(&chars), text.parse::<u32>().ok(), "{:?}", text);
    }
}

#[test]
fn first_field_stops_at_the_first_colon() {
    let field: String = first_field_of("ab:cd:ef").into_iter().collect();
    assert_eq!(field, "ab");
    assert!(first_field_of(":x").is_empty());
    assert!(first_field_of("").is_empty());
    let field: String = first_field_of("héllo").into_iter().collect();
    assert_eq!(field, "héllo");
}

fn album_of(durations: &[Option<u64>]) -> Album {
    Album {
        name: "A".to_string(),
        tracks: durations.iter().map(|d| SongInfo::from_song(&bare(None, *d))).collect(),
    }
}

#[test]
fn total_duration_sums_whole_seconds() {
    assert_eq!(album_of(&[Some(10), None, Some(32)]).total_duration(), Some(Span { secs: 42, nanos: 0 }));
    assert_eq!(album_of(&[Some(0)]).total_duration(), Some(Span { secs: 0, nanos: 0 }));
    assert_eq!(album_of(&[None, None]).total_duration(), None);
    assert_eq!(album_of(&[]).total_duration(), None);
}

#[test]
fn total_duration_stops_at_the_largest_value() {
    assert_eq!(
        album_of(&[Some(u64::MAX - 1), Some(5)]).total_duration(),
        Some(Span { secs: u64::MAX, nanos: 0 })
    );
}

#[test]
fn lazy_artist_starts_without_albums() {
    let artist = LazyArtist::new("X".to_string());
    assert!(!artist.is_loaded());
    assert!(artist.get_albums().is_none());
    let plain = artist.to_artist();
    assert_eq!(plain.name, "X");
    assert!(plain.albums.is_empty());
    let loaded = LazyArtist { name: "Y".to_string(), albums: Some(vec![album_of(&[Some(1)])]) };
    assert!(loaded.is_loaded());
    assert_eq!(loaded.get_albums().unwrap().len(), 1);
    assert_eq!(loaded.to_artist().albums.len(), 1);
    assert_eq!(loaded.clone().albums.unwrap()[0].name, "A");
}

#[test]
fn text_order_is_the_order_of_str() {
    let words = ["", "a", "A", "ab", "b", "é", "z", "Z", "日本", "abc", "ab\u{10000}", "ab\u{ffff}"];
    for a in words {
        for b in words {
            assert_eq!(text_precedes(a, b), a < b, "{:?} {:?}", a, b);
            assert_eq!(text_equal(a, b), a == b, "{:?} {:?}", a, b);
        }
    }
}

#[test]
fn name_order_ignores_case_first() {
    assert!(name_precedes("alpha", "Beta"));
    assert!(!name_precedes("Beta", "alpha"));
    assert!(name_precedes("Beta", "beta"));
    assert!(!name_precedes("beta", "Beta"));
    assert!(name_precedes("same", "same"));
    assert!(name_precedes("ÉCOLE", "école"));
    assert!(name_precedes("Zed", "école"));
}
