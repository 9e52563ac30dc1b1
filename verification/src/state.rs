//! The reactors of the main loop: what to do when the playing song or the
//! play state changes.
//!
//! Each reactor is polled with what the daemon reports, keeps what it saw
//! last, and answers with the actions to carry out. Polled twice with the
//! same report, it answers the second time that there is nothing to do.

use crate::cover_cache::{
    find_current_index, get_prefetch_targets, is_current_index, prefetch_targets,
};
use crate::song::{sample_rate_of, PlayState, SongInfo, Track};
use crate::text::text_equal;
use vstd::prelude::*;

verus! {

/// What to do after a poll for the current song.
#[derive(Debug)]
pub struct SongChange {
    /// The current song is not the one seen last.
    pub changed: bool,
    /// There is no current song any more: clear the artwork on display.
    pub clear_art: bool,
    /// The file key to load cover art for on demand.
    pub load_cover: Option<String>,
    /// The file keys to fetch ahead of need.
    pub prefetch: Vec<String>,
}

/// The file key of the current song.
pub open spec fn key_of(current_song: Option<Track>) -> Option<Seq<char>> {
    match current_song {
        Some(song) => Some(song.file_path),
        None => None,
    }
}

/// Whether two optional file keys are the same.
fn same_key(a: &Option<String>, b: &Option<String>) -> (r: bool)
    ensures
        r == (a.deep_view() == b.deep_view()),
{
    match (a, b) {
        (Some(x), Some(y)) => text_equal(x.as_str(), y.as_str()),
        (None, None) => true,
        _ => false,
    }
}

/// Polls for a change of the current song. `current_song_file` is the
/// file key seen at the last poll and is updated to the one seen now.
///
/// Nothing is to be done while the key stays the same. When it changes:
/// the artwork on display is cleared if there is no current song; cover art
/// is loaded on demand for the new key, if there is one; and the entries of
/// the queue next to the current song are fetched ahead of need.
pub fn check_song_change(
    current_song_file: &mut Option<String>,
    current_song: &Option<SongInfo>,
    queue: &Vec<SongInfo>,
) -> (actions: SongChange)
    ensures
        final(current_song_file).deep_view() == key_of(current_song.deep_view()),
        actions.changed == (old(current_song_file).deep_view() != key_of(current_song.deep_view())),
        !actions.changed ==> !actions.clear_art && actions.load_cover is None && actions.prefetch@.len() == 0,
        actions.changed ==> actions.clear_art == (current_song is None) && actions.load_cover.deep_view()
            == key_of(current_song.deep_view()) && exists|index: Option<usize>|
            is_current_index(queue.deep_view(), current_song.deep_view(), index)
                && actions.prefetch.deep_view() == prefetch_targets(queue.deep_view(), index),
{
    let new_song_file: Option<String> = match current_song {
        Some(song) => Some(song.file_path.clone()),
        None => None,
    };
    if same_key(&new_song_file, current_song_file) {
        return SongChange {
            changed: false,
            clear_art: false,
            load_cover: None,
            prefetch: Vec::new(),
        };
    }
    let load_cover = match &new_song_file {
        Some(key) => Some(key.clone()),
        None => None,
    };
    let current_index = find_current_index(queue, current_song);
    let prefetch = get_prefetch_targets(queue, current_index);
    let clear_art = current_song.is_none();
    *current_song_file = new_song_file;
    SongChange { changed: true, clear_art, load_cover, prefetch }
}

/// What to ask of the audio device after a poll of the play state.
#[derive(Clone, Copy, Debug, PartialEq, Eq, Structural)]
pub enum RateAction {
    /// Leave the device as it is.
    Keep,
    /// Switch the device to the rate that suits a song of this sample rate.
    Switch(u32),
    /// Let the device choose its rate again.
    Reset,
}

/// What a poll of the play state asks of the device, given what the last
/// poll saw. On playing, the device is switched if playing has just begun
/// or the sample rate is not the one seen last, provided the song has a
/// sample rate. On anything else, the device is reset if the last poll saw
/// playing or nothing.
pub open spec fn rate_action(
    play_state: Option<PlayState>,
    sample_rate: Option<u32>,
    last_play_state: Option<PlayState>,
    last_sample_rate: Option<u32>,
) -> RateAction {
    if play_state == Some(PlayState::Playing) {
        match sample_rate {
            Some(rate) if play_state != last_play_state || sample_rate != last_sample_rate =>
                RateAction::Switch(rate),
            _ => RateAction::Keep,
        }
    } else if last_play_state == Some(PlayState::Playing) || last_play_state is None {
        RateAction::Reset
    } else {
        RateAction::Keep
    }
}

/// Polls the play state for the sake of the audio device. Where rate
/// switching is off or the device cannot do it, nothing is asked and what
/// was seen last is kept; else what is seen now is recorded.
pub fn handle_pipewire_state_change(
    available: bool,
    bit_perfect_enabled: bool,
    play_state: Option<PlayState>,
    current_song: &Option<SongInfo>,
    last_play_state: &mut Option<PlayState>,
    last_sample_rate: &mut Option<u32>,
) -> (action: RateAction)
    ensures
        !(available && bit_perfect_enabled) ==> {
            &&& action == RateAction::Keep
            &&& *final(last_play_state) == *old(last_play_state)
            &&& *final(last_sample_rate) == *old(last_sample_rate)
        },
        available && bit_perfect_enabled ==> {
            let rate = match current_song.deep_view() {
                Some(song) => sample_rate_of(song.format),
                None => None,
            };
            &&& action == rate_action(
                play_state,
                rate,
                *old(last_play_state),
                *old(last_sample_rate),
            )
            &&& *final(last_play_state) == play_state
            &&& *final(last_sample_rate) == rate
        },
{
    if !bit_perfect_enabled || !available {
        return RateAction::Keep;
    }
    let sample_rate: Option<u32> = match current_song {
        Some(song) => song.sample_rate(),
        None => None,
    };
    let playing = match play_state {
        Some(PlayState::Playing) => true,
        _ => false,
    };
    let was_playing = match *last_play_state {
        Some(PlayState::Playing) => true,
        _ => false,
    };
    let action = if playing {
        let rate_changed = match (sample_rate, *last_sample_rate) {
            (Some(a), Some(b)) => a != b,
            (None, None) => false,
            _ => true,
        };
        match sample_rate {
            Some(rate) => {
                if !was_playing || rate_changed {
                    RateAction::Switch(rate)
                } else {
                    RateAction::Keep
                }
            },
            None => RateAction::Keep,
        }
    } else if was_playing || last_play_state.is_none() {
        RateAction::Reset
    } else {
        RateAction::Keep
    };
    *last_play_state = play_state;
    *last_sample_rate = sample_rate;
    action
}

} // verus!
