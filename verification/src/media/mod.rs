//! The media session that the notch follows.

pub mod artwork;
pub mod session;

use crate::lyrics::{copy_text, text_view};
use vstd::prelude::*;

verus! {

/// What is playing right now.
#[derive(Debug, PartialEq)]
pub struct MediaState {
    pub title: String,
    pub artist: String,
    pub album: String,
    pub app_name: String,
    pub source_id: String,
    pub playing: bool,
    /// Length of the track in ticks, when the player says.
    pub duration: Option<i64>,
    /// Ticks into the track, when they are known.
    pub elapsed: Option<i64>,
    /// When `elapsed` held, in ticks since the Unix epoch.
    pub elapsed_at: i64,
    /// The cover as a data URL.
    pub artwork: Option<String>,
}

impl Clone for MediaState {
    fn clone(&self) -> (res: Self)
        ensures
            res.title@ == self.title@,
            res.artist@ == self.artist@,
            res.album@ == self.album@,
            res.app_name@ == self.app_name@,
            res.source_id@ == self.source_id@,
            res.playing == self.playing,
            res.duration == self.duration,
            res.elapsed == self.elapsed,
            res.elapsed_at == self.elapsed_at,
            text_view(res.artwork) == text_view(self.artwork),
    {
        MediaState {
            title: self.title.clone(),
            artist: self.artist.clone(),
            album: self.album.clone(),
            app_name: self.app_name.clone(),
            source_id: self.source_id.clone(),
            playing: self.playing,
            duration: self.duration,
            elapsed: self.elapsed,
            elapsed_at: self.elapsed_at,
            artwork: copy_text(&self.artwork),
        }
    }
}

/// What a player is asked to do.
#[derive(Debug, Clone, Copy, PartialEq, Eq, Structural)]
pub enum MediaCommand {
    Toggle,
    Next,
    Previous,
    /// Goes to a position in the track, in ticks.
    Seek { position: i64 },
}

} // verus!
