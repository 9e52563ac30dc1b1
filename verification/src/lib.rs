//! The core of a terminal client for a music-playback daemon: the song
//! model, the library index with its two loading strategies, the cover-art
//! cache with fetch deduplication, and the reactors that decide what to
//! fetch when the playing song changes.
//!
//! Everything here is pure: the daemon, the terminal and the audio device
//! are driven by the program around this library, which hands in plain
//! values and carries out the actions that come back.

pub mod album;
pub mod binds;
pub mod by_artist;
pub mod cover_cache;
pub mod cover_load;
pub mod grouping;
pub mod index;
pub mod lazy;
pub mod library;
mod places;
pub mod retry;
pub mod song;
pub mod sorting;
pub mod state;
pub mod text;
pub mod unique;
