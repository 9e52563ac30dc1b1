use mpd_tui_core::cover_cache::{find_current_index, get_prefetch_targets, CoverCache};
use mpd_tui_core::cover_load::{
    begin_cover_load, begin_prefetch, fetched_cover, finish_cover_load, finish_prefetch,
    CoverArtMessage, CoverLoadStep,
};
use mpd_tui_core::song::{PlayState, SongInfo, SongTags};
use mpd_tui_core::state::{check_song_change, handle_pipewire_state_change, RateAction};

fn song(key: &str, format: Option<&str>) -> SongInfo {
    SongInfo::from_song(&SongTags {
        title: Some(key.to_string()),
        artists: vec![],
        album_artists: vec![],
        album: None,
        file_path: key.to_string(),
        format: format.map(String::from),
        duration: None,
        disc_number: 0,
        track_number: 0,
    })
}

fn queue(keys: &[&str]) -> Vec<SongInfo> {
    keys.iter().map(|k| song(k, None)).collect()
}

#[test]
fn new_cache_knows_nothing() {
    let cache = CoverCache::new();
    assert!(cache.get("a").is_none());
    assert!(!cache.contains("a"));
    assert!(!cache.is_pending("a"));
}

#[test]
fn insert_after_mark_pending_settles_the_key() {
    let mut cache = CoverCache::new();
    cache.mark_pending("a".to_string());
    assert!(cache.is_pending("a"));
    assert!(!cache.contains("a"));
    assert!(cache.get("a").is_none());
    cache.insert("a".to_string(), Some(vec![1, 2, 3]));
    assert_eq!(cache.get("a").unwrap().data, Some(vec![1, 2, 3]));
    assert!(cache.contains("a"));
    assert!(!cache.is_pending("a"));
}

#[test]
fn a_file_without_art_is_cached_too() {
    let mut cache = CoverCache::new();
    cache.mark_pending("a".to_string());
    cache.insert("a".to_string(), None);
    assert!(cache.contains("a"));
    assert_eq!(cache.get("a").unwrap().data, None);
    assert!(!cache.is_pending("a"));
}

#[test]
fn a_later_insert_overwrites() {
    let mut cache = CoverCache::new();
    cache.insert("a".to_string(), None);
    cache.insert("a".to_string(), Some(vec![9]));
    assert_eq!(cache.get("a").unwrap().data, Some(vec![9]));
    cache.insert("b".to_string(), Some(vec![7]));
    assert_eq!(cache.get("a").unwrap().data, Some(vec![9]));
    assert_eq!(cache.get("b").unwrap().data, Some(vec![7]));
}

#[test]
fn pending_keys_do_not_affect_each_other() {
    let mut cache = CoverCache::new();
    cache.mark_pending("a".to_string());
    cache.mark_pending("b".to_string());
    cache.insert("a".to_string(), None);
    assert!(!cache.is_pending("a"));
    assert!(cache.is_pending("b"));
}

#[test]
fn only_one_loader_fetches_a_key() {
    let mut cache = CoverCache::new();
    let mut fetches = 0;
    for turn in 0..10 {
        if turn % 2 == 0 {
            match begin_cover_load(&mut cache, "a") {
                CoverLoadStep::Fetch => fetches += 1,
                CoverLoadStep::Skip => {}
                CoverLoadStep::Deliver(_) => panic!("nothing is cached yet"),
            }
        } else if begin_prefetch(&mut cache, "a") {
            fetches += 1;
        }
    }
    assert_eq!(fetches, 1);
    assert!(cache.is_pending("a"));
    let mut cache = CoverCache::new();
    assert!(begin_prefetch(&mut cache, "b"));
    assert!(matches!(begin_cover_load(&mut cache, "b"), CoverLoadStep::Skip));
    assert!(!begin_prefetch(&mut cache, "b"));
    assert!(begin_prefetch(&mut cache, "c"));
}

#[test]
fn on_demand_load_reports_what_is_cached() {
    let mut cache = CoverCache::new();
    assert!(matches!(begin_cover_load(&mut cache, "a"), CoverLoadStep::Fetch));
    let CoverArtMessage::Loaded(data, key) =
        finish_cover_load(&mut cache, "a".to_string(), Some(vec![4, 2]));
    assert_eq!(data, Some(vec![4, 2]));
    assert_eq!(key, "a");
    assert!(!cache.is_pending("a"));
    match begin_cover_load(&mut cache, "a") {
        CoverLoadStep::Deliver(CoverArtMessage::Loaded(data, key)) => {
            assert_eq!(data, Some(vec![4, 2]));
            assert_eq!(key, "a");
        }
        _ => panic!("the key is cached"),
    }
    assert!(!cache.is_pending("a"));
    assert!(!begin_prefetch(&mut cache, "a"));
}

#[test]
fn a_failed_fetch_is_remembered_as_no_art() {
    let mut cache = CoverCache::new();
    assert!(begin_prefetch(&mut cache, "a"));
    let failed: Result<Option<Vec<u8>>, String> = Err("timeout".to_string());
    finish_prefetch(&mut cache, "a".to_string(), fetched_cover(failed));
    match begin_cover_load(&mut cache, "a") {
        CoverLoadStep::Deliver(CoverArtMessage::Loaded(data, key)) => {
            assert_eq!(data, None);
            assert_eq!(key, "a");
        }
        _ => panic!("the failure is cached"),
    }
    let found: Result<Option<Vec<u8>>, String> = Ok(Some(vec![1]));
    assert_eq!(fetched_cover(found), Some(vec![1]));
    let none: Result<Option<Vec<u8>>, String> = Ok(None);
    assert_eq!(fetched_cover(none), None);
}

#[test]
fn prefetch_window_is_the_neighbours_of_the_current_entry() {
    let q = queue(&["A", "B", "C", "D", "E"]);
    assert_eq!(get_prefetch_targets(&q, Some(2)), vec!["B", "D"]);
    assert_eq!(get_prefetch_targets(&q, Some(0)), vec!["B"]);
    assert_eq!(get_prefetch_targets(&q, Some(4)), vec!["D"]);
}

#[test]
fn prefetch_window_without_a_current_entry_is_empty() {
    let q = queue(&["A", "B", "C"]);
    assert!(get_prefetch_targets(&q, None).is_empty());
    assert!(get_prefetch_targets(&q, Some(3)).is_empty());
    assert!(get_prefetch_targets(&q, Some(usize::MAX)).is_empty());
    assert!(get_prefetch_targets(&Vec::new(), Some(0)).is_empty());
    assert!(get_prefetch_targets(&queue(&["A"]), Some(0)).is_empty());
}

#[test]
fn prefetch_window_holds_each_key_once_and_never_the_current_one() {
    assert_eq!(get_prefetch_targets(&queue(&["A", "C", "A"]), Some(1)), vec!["A"]);
    assert!(get_prefetch_targets(&queue(&["C", "C", "C"]), Some(1)).is_empty());
    assert_eq!(get_prefetch_targets(&queue(&["C", "C", "D"]), Some(1)), vec!["D"]);
}

#[test]
fn current_index_is_the_first_entry_with_the_key() {
    let q = queue(&["A", "B", "C", "B"]);
    assert_eq!(find_current_index(&q, &Some(song("B", None))), Some(1));
    assert_eq!(find_current_index(&q, &Some(song("A", None))), Some(0));
    assert_eq!(find_current_index(&q, &Some(song("Z", None))), None);
    assert_eq!(find_current_index(&q, &None), None);
}

#[test]
fn song_change_is_reported_once() {
    let q = queue(&["A", "B", "C", "D", "E"]);
    let mut last: Option<String> = None;
    let current = Some(song("C", None));
    let first = check_song_change(&mut last, &current, &q);
    assert!(first.changed);
    assert!(!first.clear_art);
    assert_eq!(first.load_cover, Some("C".to_string()));
    assert_eq!(first.prefetch, vec!["B", "D"]);
    assert_eq!(last, Some("C".to_string()));
    let second = check_song_change(&mut last, &current, &q);
    assert!(!second.changed);
    assert!(!second.clear_art);
    assert_eq!(second.load_cover, None);
    assert!(second.prefetch.is_empty());
    assert_eq!(last, Some("C".to_string()));
}

#[test]
fn song_change_to_nothing_clears_the_art() {
    let q = queue(&["A", "B"]);
    let mut last = Some("A".to_string());
    let actions = check_song_change(&mut last, &None, &q);
    assert!(actions.changed);
    assert!(actions.clear_art);
    assert_eq!(actions.load_cover, None);
    assert!(actions.prefetch.is_empty());
    assert_eq!(last, None);
    let again = check_song_change(&mut last, &None, &q);
    assert!(!again.changed);
    assert!(!again.clear_art);
}

#[test]
fn song_outside_the_queue_is_loaded_without_prefetch() {
    let q = queue(&["A", "B"]);
    let mut last = None;
    let actions = check_song_change(&mut last, &Some(song("Z", None)), &q);
    assert!(actions.changed);
    assert_eq!(actions.load_cover, Some("Z".to_string()));
    assert!(actions.prefetch.is_empty());
}

fn poll(
    state: Option<PlayState>,
    format: Option<&str>,
    last_state: &mut Option<PlayState>,
    last_rate: &mut Option<u32>,
) -> RateAction {
    handle_pipewire_state_change(true, true, state, &Some(song("s", format)), last_state, last_rate)
}

#[test]
fn rate_is_switched_when_playing_begins_or_the_rate_changes() {
    let mut last_state = Some(PlayState::Paused);
    let mut last_rate = None;
    let playing = Some(PlayState::Playing);
    assert_eq!(poll(playing, Some("44100:16:2"), &mut last_state, &mut last_rate), RateAction::Switch(44100));
    assert_eq!((last_state, last_rate), (playing, Some(44100)));
    assert_eq!(poll(playing, Some("44100:16:2"), &mut last_state, &mut last_rate), RateAction::Keep);
    assert_eq!(poll(playing, Some("96000:24:2"), &mut last_state, &mut last_rate), RateAction::Switch(96000));
    assert_eq!(poll(playing, None, &mut last_state, &mut last_rate), RateAction::Keep);
    assert_eq!((last_state, last_rate), (playing, None));
    assert_eq!(poll(playing, Some("96000:24:2"), &mut last_state, &mut last_rate), RateAction::Switch(96000));
}

#[test]
fn rate_is_reset_when_playing_ends_or_nothing_was_seen() {
    let mut last_state = Some(PlayState::Playing);
    let mut last_rate = Some(44100);
    assert_eq!(poll(Some(PlayState::Paused), Some("44100:16:2"), &mut last_state, &mut last_rate), RateAction::Reset);
    assert_eq!(last_state, Some(PlayState::Paused));
    assert_eq!(poll(Some(PlayState::Paused), Some("44100:16:2"), &mut last_state, &mut last_rate), RateAction::Keep);
    assert_eq!(poll(Some(PlayState::Stopped), Some("44100:16:2"), &mut last_state, &mut last_rate), RateAction::Keep);
    let mut last_state = None;
    assert_eq!(poll(Some(PlayState::Stopped), None, &mut last_state, &mut last_rate), RateAction::Reset);
    let mut last_state = None;
    assert_eq!(poll(None, None, &mut last_state, &mut last_rate), RateAction::Reset);
    assert_eq!(poll(None, None, &mut last_state, &mut last_rate), RateAction::Reset);
    let mut last_state = Some(PlayState::Playing);
    assert_eq!(poll(None, None, &mut last_state, &mut last_rate), RateAction::Reset);
}

#[test]
fn rate_is_left_alone_where_switching_is_off() {
    for (available, enabled) in [(false, true), (true, false), (false, false)] {
        let mut last_state = Some(PlayState::Paused);
        let mut last_rate = Some(1);
        let action = handle_pipewire_state_change(
            available,
            enabled,
            Some(PlayState::Playing),
            &Some(song("s", Some("44100:16:2"))),
            &mut last_state,
            &mut last_rate,
        );
        assert_eq!(action, RateAction::Keep);
        assert_eq!((last_state, last_rate), (Some(PlayState::Paused), Some(1)));
    }
}

#[test]
fn rate_needs_a_current_song() {
    let mut last_state = None;
    let mut last_rate = Some(44100);
    let action = handle_pipewire_state_change(
        true,
        true,
        Some(PlayState::Playing),
        &None,
        &mut last_state,
        &mut last_rate,
    );
    assert_eq!(action, RateAction::Keep);
    assert_eq!((last_state, last_rate), (Some(PlayState::Playing), None));
}
