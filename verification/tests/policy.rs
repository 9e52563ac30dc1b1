use mpd_tui_core::binds::{KeyBinds, KeyCode, KeyPress, MPDAction, MenuMode, Modifiers, PanelFocus};
use mpd_tui_core::retry::{
    load_songs_with_retry, validate_connection, LoadError, LoadStep, BASE_DELAY_MS, MAX_RETRIES,
};
use mpd_tui_core::song::SongTags;

fn failure(attempt: u32) -> LoadStep {
    load_songs_with_retry(attempt, Err("connection reset".to_string()))
}

#[test]
fn failed_attempts_are_retried_up_to_the_bound() {
    assert_eq!(MAX_RETRIES, 3);
    assert_eq!(BASE_DELAY_MS, 1000);
    let mut delays = Vec::new();
    let mut attempt = 1;
    let error = loop {
        match failure(attempt) {
            LoadStep::RetryAfter(delay) => delays.push(delay),
            LoadStep::Failed(error) => break error,
            LoadStep::Done(_) => panic!("nothing was loaded"),
        }
        attempt += 1;
    };
    assert_eq!(attempt, 3);
    assert_eq!(delays, vec![1000, 2000]);
    assert!(delays.windows(2).all(|w| w[0] < w[1]));
    assert_eq!(error.message(), "Failed to load library after 3 attempts: connection reset");
    assert!(matches!(error, LoadError::Exhausted(reason) if reason == "connection reset"));
}

#[test]
fn attempts_beyond_the_bound_fail_at_once() {
    assert!(matches!(failure(4), LoadStep::Failed(_)));
    assert!(matches!(failure(u32::MAX), LoadStep::Failed(_)));
    assert!(matches!(failure(0), LoadStep::RetryAfter(1000)));
}

#[test]
fn a_catalog_that_came_is_handed_on() {
    let song = SongTags {
        title: None,
        artists: vec![],
        album_artists: vec![],
        album: None,
        file_path: "f".to_string(),
        format: None,
        duration: None,
        disc_number: 0,
        track_number: 0,
    };
    for attempt in [1, 2, 3, 9] {
        match load_songs_with_retry(attempt, Ok(vec![])) {
            LoadStep::Done(songs) => assert!(songs.is_empty()),
            _ => panic!("the catalog came"),
        }
    }
    match load_songs_with_retry(2, Ok(vec![song])) {
        LoadStep::Done(songs) => assert_eq!(songs[0].file_path, "f"),
        _ => panic!("the catalog came"),
    }
}

#[test]
fn a_silent_daemon_is_a_connection_error() {
    assert!(validate_connection(Ok(())).is_ok());
    let error = validate_connection(Err("refused".to_string())).unwrap_err();
    assert_eq!(error.message(), "Failed to validate MPD connection: refused");
    assert!(matches!(error, LoadError::Connection(reason) if reason == "refused"));
}

fn press(modifiers: Modifiers, code: KeyCode) -> KeyPress {
    KeyPress { modifiers, code }
}

fn plain(c: char) -> KeyPress {
    press(Modifiers::Plain, KeyCode::Char(c))
}

fn act(key: KeyPress, mode: MenuMode, focus: PanelFocus) -> Option<MPDAction> {
    KeyBinds::handle_key(key, &mode, &focus)
}

#[test]
fn global_keys_mean_the_same_in_every_menu() {
    let table = [
        (plain(' '), MPDAction::TogglePlayPause),
        (plain('p'), MPDAction::TogglePlayPause),
        (plain('>'), MPDAction::Next),
        (press(Modifiers::Shift, KeyCode::Char('J')), MPDAction::Next),
        (press(Modifiers::Shift, KeyCode::Down), MPDAction::Next),
        (plain('<'), MPDAction::Previous),
        (press(Modifiers::Shift, KeyCode::Char('K')), MPDAction::Previous),
        (press(Modifiers::Shift, KeyCode::Up), MPDAction::Previous),
        (plain('='), MPDAction::VolumeUp),
        (plain('+'), MPDAction::VolumeUp),
        (plain('-'), MPDAction::VolumeDown),
        (plain('_'), MPDAction::VolumeDown),
        (plain('m'), MPDAction::ToggleMute),
        (press(Modifiers::Control, KeyCode::Char('l')), MPDAction::CycleModeRight),
        (press(Modifiers::Control, KeyCode::Right), MPDAction::CycleModeRight),
        (press(Modifiers::Control, KeyCode::Char('h')), MPDAction::CycleModeLeft),
        (press(Modifiers::Control, KeyCode::Left), MPDAction::CycleModeLeft),
        (plain('d'), MPDAction::ClearQueue),
        (plain('r'), MPDAction::Repeat),
        (plain('z'), MPDAction::Random),
        (plain('s'), MPDAction::Single),
        (plain('c'), MPDAction::Consume),
        (press(Modifiers::Plain, KeyCode::Esc), MPDAction::Quit),
        (plain('q'), MPDAction::Quit),
        (press(Modifiers::Control, KeyCode::Char('c')), MPDAction::Quit),
        (plain('u'), MPDAction::Refresh),
        (plain('1'), MPDAction::SwitchToQueueMenu),
        (plain('2'), MPDAction::SwitchToTracks),
        (press(Modifiers::Shift, KeyCode::Char('L')), MPDAction::SeekForward),
        (press(Modifiers::Shift, KeyCode::Right), MPDAction::SeekForward),
        (press(Modifiers::Shift, KeyCode::Char('H')), MPDAction::SeekBackward),
        (press(Modifiers::Shift, KeyCode::Left), MPDAction::SeekBackward),
    ];
    for (key, action) in table {
        assert_eq!(KeyBinds::handle_global_key(key), Some(action));
        for mode in [MenuMode::Queue, MenuMode::Tracks] {
            for focus in [PanelFocus::Artists, PanelFocus::Albums] {
                assert_eq!(act(key, mode, focus), Some(action), "{:?}", key);
            }
        }
    }
}

#[test]
fn queue_menu_keys() {
    let table = [
        (plain('j'), MPDAction::QueueDown),
        (press(Modifiers::Plain, KeyCode::Down), MPDAction::QueueDown),
        (plain('k'), MPDAction::QueueUp),
        (press(Modifiers::Plain, KeyCode::Up), MPDAction::QueueUp),
        (press(Modifiers::Plain, KeyCode::Enter), MPDAction::PlaySelected),
        (plain('l'), MPDAction::PlaySelected),
        (press(Modifiers::Plain, KeyCode::Right), MPDAction::PlaySelected),
        (plain('x'), MPDAction::RemoveFromQueue),
        (press(Modifiers::Plain, KeyCode::Backspace), MPDAction::RemoveFromQueue),
        (press(Modifiers::Control, KeyCode::Char('k')), MPDAction::MoveUpInQueue),
        (press(Modifiers::Control, KeyCode::Up), MPDAction::MoveUpInQueue),
        (press(Modifiers::Control, KeyCode::Char('j')), MPDAction::MoveDownInQueue),
        (press(Modifiers::Control, KeyCode::Down), MPDAction::MoveDownInQueue),
    ];
    for (key, action) in table {
        assert_eq!(act(key, MenuMode::Queue, PanelFocus::Artists), Some(action), "{:?}", key);
        assert_eq!(KeyBinds::handle_queue_mode_key(key), Some(action));
    }
    assert_eq!(act(plain('a'), MenuMode::Queue, PanelFocus::Artists), None);
    assert_eq!(act(plain('h'), MenuMode::Queue, PanelFocus::Artists), None);
}

#[test]
fn tracks_menu_keys() {
    let table = [
        (plain('h'), MPDAction::SwitchPanelLeft),
        (press(Modifiers::Plain, KeyCode::Left), MPDAction::SwitchPanelLeft),
        (plain('j'), MPDAction::NavigateDown),
        (press(Modifiers::Plain, KeyCode::Down), MPDAction::NavigateDown),
        (plain('k'), MPDAction::NavigateUp),
        (press(Modifiers::Plain, KeyCode::Up), MPDAction::NavigateUp),
        (plain('a'), MPDAction::AddSongToQueue),
        (press(Modifiers::Plain, KeyCode::Enter), MPDAction::AddSongToQueue),
    ];
    for (key, action) in table {
        for focus in [PanelFocus::Artists, PanelFocus::Albums] {
            assert_eq!(act(key, MenuMode::Tracks, focus), Some(action), "{:?}", key);
            assert_eq!(KeyBinds::handle_tracks_mode_key(key, &focus), Some(action));
        }
    }
    for key in [plain('l'), press(Modifiers::Plain, KeyCode::Right)] {
        assert_eq!(act(key, MenuMode::Tracks, PanelFocus::Artists), Some(MPDAction::SwitchPanelRight));
        assert_eq!(act(key, MenuMode::Tracks, PanelFocus::Albums), Some(MPDAction::ToggleAlbumExpansion));
    }
    assert_eq!(act(plain('x'), MenuMode::Tracks, PanelFocus::Albums), None);
    assert_eq!(act(press(Modifiers::Control, KeyCode::Char('j')), MenuMode::Tracks, PanelFocus::Albums), None);
}

#[test]
fn unbound_keys_ask_for_nothing() {
    for mode in [MenuMode::Queue, MenuMode::Tracks] {
        assert_eq!(act(plain('y'), mode, PanelFocus::Artists), None);
        assert_eq!(act(press(Modifiers::Other, KeyCode::Char('q')), mode, PanelFocus::Artists), None);
        assert_eq!(act(press(Modifiers::Shift, KeyCode::Char('q')), mode, PanelFocus::Artists), None);
        assert_eq!(act(press(Modifiers::Plain, KeyCode::Other), mode, PanelFocus::Artists), None);
        assert_eq!(act(press(Modifiers::Shift, KeyCode::Char('j')), mode, PanelFocus::Artists), None);
    }
}
