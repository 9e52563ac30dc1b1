//! Key bindings: which action a key press asks for.
//!
//! Some keys mean the same everywhere. The others depend on the menu that
//! is open, and in the tracks menu on the panel that has the focus.

use vstd::prelude::*;

verus! {

/// The modifier keys held with a key: none, one of the two that bindings
/// use, or anything else.
#[derive(Clone, Copy, Debug, PartialEq, Eq, Structural)]
pub enum Modifiers {
    Plain,
    Shift,
    Control,
    Other,
}

/// The key pressed.
#[derive(Clone, Copy, Debug, PartialEq, Eq, Structural)]
pub enum KeyCode {
    Char(char),
    Up,
    Down,
    Left,
    Right,
    Enter,
    Esc,
    Backspace,
    Other,
}

/// A key press.
#[derive(Clone, Copy, Debug, PartialEq, Eq, Structural)]
pub struct KeyPress {
    pub modifiers: Modifiers,
    pub code: KeyCode,
}

/// The menu that is open.
#[derive(Clone, Copy, Debug, PartialEq, Eq, Structural)]
pub enum MenuMode {
    Queue,
    Tracks,
}

/// The panel of the tracks menu that has the focus.
#[derive(Clone, Copy, Debug, PartialEq, Eq, Structural)]
pub enum PanelFocus {
    Artists,
    Albums,
}

/// What a key press can ask for.
#[derive(Clone, Copy, Debug, PartialEq, Eq, Structural)]
pub enum MPDAction {
    TogglePlayPause,
    Next,
    Previous,
    VolumeUp,
    VolumeDown,
    ToggleMute,
    CycleModeRight,
    CycleModeLeft,
    ClearQueue,
    Repeat,
    Random,
    Single,
    Consume,
    Quit,
    Refresh,
    SwitchToQueueMenu,
    SwitchToTracks,
    SeekForward,
    SeekBackward,
    QueueDown,
    QueueUp,
    PlaySelected,
    RemoveFromQueue,
    MoveUpInQueue,
    MoveDownInQueue,
    SwitchPanelLeft,
    SwitchPanelRight,
    ToggleAlbumExpansion,
    NavigateDown,
    NavigateUp,
    AddSongToQueue,
}

/// The action that a key asks for in every menu, if it has one.
pub open spec fn global_binding(key: KeyPress) -> Option<MPDAction> {
    match (key.modifiers, key.code) {
        (Modifiers::Plain, KeyCode::Char(' ')) => Some(MPDAction::TogglePlayPause),
        (Modifiers::Plain, KeyCode::Char('p')) => Some(MPDAction::TogglePlayPause),
        (Modifiers::Plain, KeyCode::Char('>')) => Some(MPDAction::Next),
        (Modifiers::Shift, KeyCode::Char('J')) => Some(MPDAction::Next),
        (Modifiers::Shift, KeyCode::Down) => Some(MPDAction::Next),
        (Modifiers::Plain, KeyCode::Char('<')) => Some(MPDAction::Previous),
        (Modifiers::Shift, KeyCode::Char('K')) => Some(MPDAction::Previous),
        (Modifiers::Shift, KeyCode::Up) => Some(MPDAction::Previous),
        (Modifiers::Plain, KeyCode::Char('=')) => Some(MPDAction::VolumeUp),
        (Modifiers::Plain, KeyCode::Char('+')) => Some(MPDAction::VolumeUp),
        (Modifiers::Plain, KeyCode::Char('-')) => Some(MPDAction::VolumeDown),
        (Modifiers::Plain, KeyCode::Char('_')) => Some(MPDAction::VolumeDown),
        (Modifiers::Plain, KeyCode::Char('m')) => Some(MPDAction::ToggleMute),
        (Modifiers::Control, KeyCode::Char('l')) => Some(MPDAction::CycleModeRight),
        (Modifiers::Control, KeyCode::Right) => Some(MPDAction::CycleModeRight),
        (Modifiers::Control, KeyCode::Char('h')) => Some(MPDAction::CycleModeLeft),
        (Modifiers::Control, KeyCode::Left) => Some(MPDAction::CycleModeLeft),
        (Modifiers::Plain, KeyCode::Char('d')) => Some(MPDAction::ClearQueue),
        (Modifiers::Plain, KeyCode::Char('r')) => Some(MPDAction::Repeat),
        (Modifiers::Plain, KeyCode::Char('z')) => Some(MPDAction::Random),
        (Modifiers::Plain, KeyCode::Char('s')) => Some(MPDAction::Single),
        (Modifiers::Plain, KeyCode::Char('c')) => Some(MPDAction::Consume),
        (Modifiers::Plain, KeyCode::Esc) => Some(MPDAction::Quit),
        (Modifiers::Plain, KeyCode::Char('q')) => Some(MPDAction::Quit),
        (Modifiers::Control, KeyCode::Char('c')) => Some(MPDAction::Quit),
        (Modifiers::Plain, KeyCode::Char('u')) => Some(MPDAction::Refresh),
        (Modifiers::Plain, KeyCode::Char('1')) => Some(MPDAction::SwitchToQueueMenu),
        (Modifiers::Plain, KeyCode::Char('2')) => Some(MPDAction::SwitchToTracks),
        (Modifiers::Shift, KeyCode::Char('L')) => Some(MPDAction::SeekForward),
        (Modifiers::Shift, KeyCode::Right) => Some(MPDAction::SeekForward),
        (Modifiers::Shift, KeyCode::Char('H')) => Some(MPDAction::SeekBackward),
        (Modifiers::Shift, KeyCode::Left) => Some(MPDAction::SeekBackward),
        _ => None,
    }
}

/// The action that a key asks for in the queue menu, if it has one there.
pub open spec fn queue_binding(key: KeyPress) -> Option<MPDAction> {
    match (key.modifiers, key.code) {
        (Modifiers::Plain, KeyCode::Char('j')) => Some(MPDAction::QueueDown),
        (Modifiers::Plain, KeyCode::Down) => Some(MPDAction::QueueDown),
        (Modifiers::Plain, KeyCode::Char('k')) => Some(MPDAction::QueueUp),
        (Modifiers::Plain, KeyCode::Up) => Some(MPDAction::QueueUp),
        (Modifiers::Plain, KeyCode::Enter) => Some(MPDAction::PlaySelected),
        (Modifiers::Plain, KeyCode::Char('l')) => Some(MPDAction::PlaySelected),
        (Modifiers::Plain, KeyCode::Right) => Some(MPDAction::PlaySelected),
        (Modifiers::Plain, KeyCode::Char('x')) => Some(MPDAction::RemoveFromQueue),
        (Modifiers::Plain, KeyCode::Backspace) => Some(MPDAction::RemoveFromQueue),
        (Modifiers::Control, KeyCode::Char('k')) => Some(MPDAction::MoveUpInQueue),
        (Modifiers::Control, KeyCode::Up) => Some(MPDAction::MoveUpInQueue),
        (Modifiers::Control, KeyCode::Char('j')) => Some(MPDAction::MoveDownInQueue),
        (Modifiers::Control, KeyCode::Down) => Some(MPDAction::MoveDownInQueue),
        _ => None,
    }
}

/// The action that a key asks for in the tracks menu, if it has one there.
/// Moving right opens the albums of an artist, and unfolds an album.
pub open spec fn tracks_binding(key: KeyPress, panel_focus: PanelFocus) -> Option<MPDAction> {
    match (key.modifiers, key.code) {
        (Modifiers::Plain, KeyCode::Char('h')) => Some(MPDAction::SwitchPanelLeft),
        (Modifiers::Plain, KeyCode::Left) => Some(MPDAction::SwitchPanelLeft),
        (Modifiers::Plain, KeyCode::Char('l')) | (Modifiers::Plain, KeyCode::Right) => Some(
            match panel_focus {
                PanelFocus::Artists => MPDAction::SwitchPanelRight,
                PanelFocus::Albums => MPDAction::ToggleAlbumExpansion,
            },
        ),
        (Modifiers::Plain, KeyCode::Char('j')) => Some(MPDAction::NavigateDown),
        (Modifiers::Plain, KeyCode::Down) => Some(MPDAction::NavigateDown),
        (Modifiers::Plain, KeyCode::Char('k')) => Some(MPDAction::NavigateUp),
        (Modifiers::Plain, KeyCode::Up) => Some(MPDAction::NavigateUp),
        (Modifiers::Plain, KeyCode::Char('a')) => Some(MPDAction::AddSongToQueue),
        (Modifiers::Plain, KeyCode::Enter) => Some(MPDAction::AddSongToQueue),
        _ => None,
    }
}

/// The key bindings.
#[derive(Debug)]
pub struct KeyBinds;

impl KeyBinds {
    /// The action that a key press asks for: what the key means everywhere,
    /// or else what it means in the open menu.
    pub fn handle_key(key: KeyPress, mode: &MenuMode, panel_focus: &PanelFocus) -> (r: Option<
        MPDAction,
    >)
        ensures
            r == match global_binding(key) {
                Some(action) => Some(action),
                None => match *mode {
                    MenuMode::Queue => queue_binding(key),
                    MenuMode::Tracks => tracks_binding(key, *panel_focus),
                },
            },
    {
        match Self::handle_global_key(key) {
            Some(action) => Some(action),
            None => match mode {
                MenuMode::Queue => Self::handle_queue_mode_key(key),
                MenuMode::Tracks => Self::handle_tracks_mode_key(key, panel_focus),
            },
        }
    }

    /// The action that a key press asks for in every menu.
    pub fn handle_global_key(key: KeyPress) -> (r: Option<MPDAction>)
        ensures
            r == global_binding(key),
    {
        match key.modifiers {
            Modifiers::Plain => match key.code {
                KeyCode::Char(' ') | KeyCode::Char('p') => Some(MPDAction::TogglePlayPause),
                KeyCode::Char('>') => Some(MPDAction::Next),
                KeyCode::Char('<') => Some(MPDAction::Previous),
                KeyCode::Char('=') | KeyCode::Char('+') => Some(MPDAction::VolumeUp),
                KeyCode::Char('-') | KeyCode::Char('_') => Some(MPDAction::VolumeDown),
                KeyCode::Char('m') => Some(MPDAction::ToggleMute),
                KeyCode::Char('d') => Some(MPDAction::ClearQueue),
                KeyCode::Char('r') => Some(MPDAction::Repeat),
                KeyCode::Char('z') => Some(MPDAction::Random),
                KeyCode::Char('s') => Some(MPDAction::Single),
                KeyCode::Char('c') => Some(MPDAction::Consume),
                KeyCode::Esc | KeyCode::Char('q') => Some(MPDAction::Quit),
                KeyCode::Char('u') => Some(MPDAction::Refresh),
                KeyCode::Char('1') => Some(MPDAction::SwitchToQueueMenu),
                KeyCode::Char('2') => Some(MPDAction::SwitchToTracks),
                _ => None,
            },
            Modifiers::Shift => match key.code {
                KeyCode::Char('J') | KeyCode::Down => Some(MPDAction::Next),
                KeyCode::Char('K') | KeyCode::Up => Some(MPDAction::Previous),
                KeyCode::Char('L') | KeyCode::Right => Some(MPDAction::SeekForward),
                KeyCode::Char('H') | KeyCode::Left => Some(MPDAction::SeekBackward),
                _ => None,
            },
            Modifiers::Control => match key.code {
                KeyCode::Char('l') | KeyCode::Right => Some(MPDAction::CycleModeRight),
                KeyCode::Char('h') | KeyCode::Left => Some(MPDAction::CycleModeLeft),
                KeyCode::Char('c') => Some(MPDAction::Quit),
                _ => None,
            },
            Modifiers::Other => None,
        }
    }

    /// The action that a key press asks for in the queue menu.
    pub fn handle_queue_mode_key(key: KeyPress) -> (r: Option<MPDAction>)
        ensures
            r == queue_binding(key),
    {
        match key.modifiers {
            Modifiers::Plain => match key.code {
                KeyCode::Char('j') | KeyCode::Down => Some(MPDAction::QueueDown),
                KeyCode::Char('k') | KeyCode::Up => Some(MPDAction::QueueUp),
                KeyCode::Enter | KeyCode::Char('l') | KeyCode::Right => Some(
                    MPDAction::PlaySelected,
                ),
                KeyCode::Char('x') | KeyCode::Backspace => Some(MPDAction::RemoveFromQueue),
                _ => None,
            },
            Modifiers::Control => match key.code {
                KeyCode::Char('k') | KeyCode::Up => Some(MPDAction::MoveUpInQueue),
                KeyCode::Char('j') | KeyCode::Down => Some(MPDAction::MoveDownInQueue),
                _ => None,
            },
            _ => None,
        }
    }

    /// The action that a key press asks for in the tracks menu.
    pub fn handle_tracks_mode_key(key: KeyPress, panel_focus: &PanelFocus) -> (r: Option<
        MPDAction,
    >)
        ensures
            r == tracks_binding(key, *panel_focus),
    {
        match key.modifiers {
            Modifiers::Plain => match key.code {
                KeyCode::Char('h') | KeyCode::Left => Some(MPDAction::SwitchPanelLeft),
                KeyCode::Char('l') | KeyCode::Right => match panel_focus {
                    PanelFocus::Artists => Some(MPDAction::SwitchPanelRight),
                    PanelFocus::Albums => Some(MPDAction::ToggleAlbumExpansion),
                },
                KeyCode::Char('j') | KeyCode::Down => Some(MPDAction::NavigateDown),
                KeyCode::Char('k') | KeyCode::Up => Some(MPDAction::NavigateUp),
                KeyCode::Char('a') | KeyCode::Enter => Some(MPDAction::AddSongToQueue),
                _ => None,
            },
            _ => None,
        }
    }
}

} // verus!
