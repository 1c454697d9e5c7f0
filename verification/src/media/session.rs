//! Reading a player's session: who plays, what plays and how far it is.
//!
//! Times are counted in ticks of 100 ns.

use crate::lyrics::{copy_text, text_view};
use crate::media::{MediaCommand, MediaState};
use crate::number::{clamped, hold, ABOVE};
use crate::text::{
    append_str, chars_of, contains, has_text, holds, last_position, last_position_of,
    law_contained_text_is_a_part, law_last_position_is_last, lemma_position, lowercase, owned,
    position, position_of, same, same_text, stands_at, stands_here, string_of,
};
use vstd::prelude::*;
use vstd::slice::slice_subrange;

verus! {

/// Ticks between the epoch that players count from (1601) and the Unix epoch.
pub const UNIX_EPOCH_TICKS: i64 = 116_444_736_000_000_000;

/// Looks (one per second) to keep asking a player for its artwork.
pub const ARTWORK_ATTEMPTS: u8 = 20;

/// What a player's session says of itself.
#[derive(Debug)]
pub struct SessionReport {
    pub title: String,
    pub artist: String,
    pub album: String,
    pub source_id: String,
    pub playing: bool,
    /// Where the timeline starts.
    pub start: i64,
    /// Where the timeline ends.
    pub end: i64,
    /// Where on the timeline the track is.
    pub position: i64,
    /// When that held, in ticks since 1601.
    pub updated: i64,
}

/// The time at which a session is read.
#[derive(Debug, Clone, Copy, PartialEq, Eq, Structural)]
pub struct Clock {
    /// Ticks of a clock that never goes back.
    pub steady: u64,
    /// Ticks since the Unix epoch.
    pub unix: i64,
}

/// Position kept for players that publish no timeline at all (NetEase Cloud
/// Music on Windows reports start, end and position as zero and never updates
/// them). It runs only while the player says it is playing, and it is only
/// trusted for a track that was seen to begin: one that replaced another track
/// in the same player. A track already under way at the start, or the one a
/// player restores at launch, could be anywhere, and a wrong lyric is worse
/// than none. A seek inside the player cannot be seen at all.
#[derive(Debug)]
pub struct Stopwatch {
    track: String,
    trusted: bool,
    banked: u64,
    running_since: Option<u64>,
}

/// What a stopwatch holds.
#[verifier::ext_equal]
pub struct StopwatchView {
    pub track: Seq<char>,
    pub trusted: bool,
    /// Ticks counted before the last stop.
    pub banked: int,
    pub running_since: Option<u64>,
}

impl View for Stopwatch {
    type V = StopwatchView;

    closed spec fn view(&self) -> StopwatchView {
        StopwatchView {
            track: self.track@,
            trusted: self.trusted,
            banked: self.banked as int,
            running_since: self.running_since,
        }
    }
}

/// A stopwatch that has seen no track.
pub open spec fn fresh() -> StopwatchView {
    StopwatchView { track: Seq::empty(), trusted: false, banked: 0, running_since: None }
}

/// The player that a track's key starts with.
pub open spec fn player_in(track: Seq<char>) -> Seq<char> {
    track.take(position(track, '\u{1f}', 0))
}

/// The stopwatch on a track: a new one starts it over. Another player taking
/// over the session and handing it back is not a new song.
pub open spec fn turned(watch: StopwatchView, track: Seq<char>) -> StopwatchView {
    if watch.track == track {
        watch
    } else {
        StopwatchView {
            track,
            trusted: watch.track.len() > 0 && player_in(watch.track) == player_in(track),
            banked: 0,
            running_since: None,
        }
    }
}

/// The ticks from `since` to `now`.
pub open spec fn passed(since: u64, now: u64) -> int {
    if now < since {
        0
    } else {
        now - since
    }
}

/// The most that a count can tell.
pub open spec fn capped(ticks: int) -> int {
    if ticks > u64::MAX {
        u64::MAX as int
    } else {
        ticks
    }
}

/// The stopwatch as the player goes on or stops.
pub open spec fn driven(watch: StopwatchView, playing: bool, now: u64) -> StopwatchView {
    match watch.running_since {
        None if playing => StopwatchView { running_since: Some(now), ..watch },
        Some(since) if !playing => StopwatchView {
            banked: capped(watch.banked + passed(since, now)),
            running_since: None,
            ..watch
        },
        _ => watch,
    }
}

/// What a stopwatch shows.
pub open spec fn shown(watch: StopwatchView, now: u64) -> int {
    match watch.running_since {
        Some(since) => capped(watch.banked + passed(since, now)),
        None => watch.banked,
    }
}

/// The stopwatch after a look at the player.
pub open spec fn watched(
    watch: StopwatchView,
    track: Seq<char>,
    playing: bool,
    now: u64,
) -> StopwatchView {
    driven(turned(watch, track), playing, now)
}

/// How far the track is, where that can be trusted.
pub open spec fn trusted_time(watch: StopwatchView, now: u64) -> Option<u64> {
    if watch.trusted {
        Some(shown(watch, now) as u64)
    } else {
        None
    }
}

impl Default for Stopwatch {
    fn default() -> (res: Self)
        ensures
            res@ == fresh(),
    {
        let res = Stopwatch {
            track: String::new(),
            trusted: false,
            banked: 0,
            running_since: None,
        };
        assert(res@ =~= fresh());
        res
    }
}

fn same_player(a: &str, b: &str) -> (res: bool)
    ensures
        res == (player_in(a@) == player_in(b@)),
{
    let left = chars_of(a);
    let right = chars_of(b);
    let l = slice_subrange(left.as_slice(), 0, position_of(left.as_slice(), '\u{1f}', 0));
    let r = slice_subrange(right.as_slice(), 0, position_of(right.as_slice(), '\u{1f}', 0));
    assert(l@ =~= player_in(a@));
    assert(r@ =~= player_in(b@));
    same(l, r)
}

impl Stopwatch {
    /// Looks at the player at `now`: how far `track` is, where that can be
    /// trusted.
    pub fn elapsed(&mut self, track: &str, playing: bool, now: u64) -> (res: Option<u64>)
        ensures
            final(self)@ == watched(old(self)@, track@, playing, now),
            res == trusted_time(final(self)@, now),
    {
        if !same_text(self.track.as_str(), track) {
            let trusted = !self.track.as_str().is_empty() && same_player(
                self.track.as_str(),
                track,
            );
            self.track = owned(track);
            self.trusted = trusted;
            self.banked = 0;
            self.running_since = None;
        }
        match (playing, self.running_since) {
            (true, None) => {
                self.running_since = Some(now);
            },
            (false, Some(since)) => {
                self.banked = self.banked.saturating_add(now.saturating_sub(since));
                self.running_since = None;
            },
            _ => {},
        }
        if !self.trusted {
            return None;
        }
        match self.running_since {
            Some(since) => Some(self.banked.saturating_add(now.saturating_sub(since))),
            None => Some(self.banked),
        }
    }
}

/// The cover of the track that plays, and how often it was asked for.
#[derive(Debug)]
pub struct ArtworkCache {
    track: String,
    attempts: u8,
    data_url: Option<String>,
}

/// What an artwork cache holds.
#[verifier::ext_equal]
pub struct ArtworkView {
    pub track: Seq<char>,
    pub attempts: u8,
    pub data_url: Option<Seq<char>>,
}

impl View for ArtworkCache {
    type V = ArtworkView;

    closed spec fn view(&self) -> ArtworkView {
        ArtworkView {
            track: self.track@,
            attempts: self.attempts,
            data_url: text_view(self.data_url),
        }
    }
}

/// A cache that has seen no track.
pub open spec fn no_artwork() -> ArtworkView {
    ArtworkView { track: Seq::empty(), attempts: 0, data_url: None }
}

/// The cache on a track: a new one starts it over.
pub open spec fn changed(cache: ArtworkView, track: Seq<char>) -> ArtworkView {
    if cache.track == track {
        cache
    } else {
        ArtworkView { track, attempts: 0, data_url: None }
    }
}

/// Whether the player is asked for the cover once more.
pub open spec fn wants_artwork(cache: ArtworkView) -> bool {
    cache.data_url is None && cache.attempts < ARTWORK_ATTEMPTS
}

/// The cache after a look at the player, before the cover comes.
pub open spec fn asking(cache: ArtworkView, track: Seq<char>) -> ArtworkView {
    let now = changed(cache, track);
    if wants_artwork(now) {
        ArtworkView { attempts: (now.attempts + 1) as u8, ..now }
    } else {
        now
    }
}

impl Default for ArtworkCache {
    fn default() -> (res: Self)
        ensures
            res@ == no_artwork(),
    {
        let res = ArtworkCache { track: String::new(), attempts: 0, data_url: None };
        assert(res@ =~= no_artwork());
        res
    }
}

impl ArtworkCache {
    /// Turns to `track`, and says whether to ask the player for its cover.
    /// Players often publish it well after the title, some only once playback
    /// actually starts, so they are asked for a while.
    pub fn ask(&mut self, track: &str) -> (res: bool)
        ensures
            final(self)@ == asking(old(self)@, track@),
            res == wants_artwork(changed(old(self)@, track@)),
    {
        if !same_text(self.track.as_str(), track) {
            self.track = owned(track);
            self.attempts = 0;
            self.data_url = None;
        }
        if self.data_url.is_none() && self.attempts < ARTWORK_ATTEMPTS {
            self.attempts = self.attempts + 1;
            true
        } else {
            false
        }
    }

    /// Keeps the cover, if one came.
    pub fn keep(&mut self, data_url: Option<String>)
        ensures
            final(self)@ == (match text_view(data_url) {
                Some(url) => ArtworkView { data_url: Some(url), ..old(self)@ },
                None => old(self)@,
            }),
    {
        if data_url.is_some() {
            self.data_url = data_url;
        }
    }

    /// The cover, once it came.
    pub fn data_url(&self) -> (res: Option<String>)
        ensures
            text_view(res) == self@.data_url,
    {
        copy_text(&self.data_url)
    }

    /// Whether the player was asked for the last time, and sent nothing.
    pub fn gave_up(&self) -> (res: bool)
        ensures
            res == (self@.data_url is None && self@.attempts >= ARTWORK_ATTEMPTS),
    {
        self.data_url.is_none() && self.attempts >= ARTWORK_ATTEMPTS
    }
}

/// The key of the track that a session plays.
pub open spec fn session_key(report: SessionReport) -> Seq<char> {
    report.source_id@ + seq!['\u{1f}'] + report.title@ + seq!['\u{1f}'] + report.artist@ + seq![
        '\u{1f}',
    ] + report.album@
}

/// How long the timeline is, where it has a length.
pub open spec fn timeline_length(report: SessionReport) -> Option<i64> {
    if report.end > report.start {
        Some(clamped(report.end - report.start) as i64)
    } else {
        None
    }
}

/// Whether a player publishes a timeline at all.
pub open spec fn has_timeline(report: SessionReport) -> bool {
    timeline_length(report) is Some || report.position != 0 || report.updated > UNIX_EPOCH_TICKS
}

/// How far the track is, by the timeline where there is one.
pub open spec fn elapsed_in(report: SessionReport, counted: Option<u64>) -> Option<i64> {
    if has_timeline(report) {
        match timeline_length(report) {
            Some(_) => Some(clamped(report.position - report.start) as i64),
            None => None,
        }
    } else {
        match counted {
            Some(ticks) => Some(clamped(ticks as int) as i64),
            None => None,
        }
    }
}

/// When that held, in ticks since the Unix epoch.
pub open spec fn elapsed_at(report: SessionReport, clock: Clock) -> i64 {
    if report.updated > UNIX_EPOCH_TICKS {
        (report.updated - UNIX_EPOCH_TICKS) as i64
    } else {
        clock.unix
    }
}

/// The names of players that identifiers tell of.
pub open spec fn known_name(lower: Seq<char>) -> Option<Seq<char>> {
    if contains(lower, "spotify"@) {
        Some("Spotify"@)
    } else if contains(lower, "qqmusic"@) {
        Some("QQ 音乐"@)
    } else if contains(lower, "cloudmusic"@) {
        Some("网易云音乐"@)
    } else if contains(lower, "kugou"@) {
        Some("酷狗音乐"@)
    } else if contains(lower, "kuwo"@) {
        Some("酷我音乐"@)
    } else if contains(lower, "zunemusic"@) {
        Some("媒体播放器"@)
    } else if contains(lower, "msedge"@) {
        Some("Microsoft Edge"@)
    } else if contains(lower, "chrome"@) {
        Some("Google Chrome"@)
    } else if contains(lower, "firefox"@) {
        Some("Firefox"@)
    } else {
        None
    }
}

/// What stands behind the last backslash or exclamation mark.
pub open spec fn last_part(source_id: Seq<char>) -> Seq<char> {
    let slash = last_position(source_id, '\\', source_id.len() as int);
    let mark = last_position(source_id, '!', source_id.len() as int);
    source_id.skip(
        if slash < mark {
            mark + 1
        } else {
            slash + 1
        },
    )
}

/// A program's name without its extension.
pub open spec fn without_extension(name: Seq<char>) -> Seq<char> {
    if stands_at(name, ".exe"@, name.len() - 4) || stands_at(name, ".EXE"@, name.len() - 4) {
        name.take(name.len() - 4)
    } else {
        name
    }
}

/// The name that a player is shown by.
pub open spec fn app_name_of(source_id: Seq<char>) -> Seq<char> {
    match known_name(lowercase(source_id)) {
        Some(name) => name,
        None => without_extension(last_part(source_id)),
    }
}

/// What a session says, once the clock and the cover are known.
pub open spec fn is_state_of(
    state: MediaState,
    report: SessionReport,
    counted: Option<u64>,
    clock: Clock,
    artwork: Option<Seq<char>>,
) -> bool {
    &&& state.title@ == report.title@
    &&& state.artist@ == report.artist@
    &&& state.album@ == report.album@
    &&& state.app_name@ == app_name_of(report.source_id@)
    &&& state.source_id@ == report.source_id@
    &&& state.playing == report.playing
    &&& state.duration == timeline_length(report)
    &&& state.elapsed == elapsed_in(report, counted)
    &&& state.elapsed_at == elapsed_at(report, clock)
    &&& text_view(state.artwork) == artwork
}

fn name_known(lower: &str) -> (res: Option<String>)
    ensures
        text_view(res) == known_name(lower@),
{
    if has_text(lower, "spotify") {
        Some(owned("Spotify"))
    } else if has_text(lower, "qqmusic") {
        Some(owned("QQ 音乐"))
    } else if has_text(lower, "cloudmusic") {
        Some(owned("网易云音乐"))
    } else if has_text(lower, "kugou") {
        Some(owned("酷狗音乐"))
    } else if has_text(lower, "kuwo") {
        Some(owned("酷我音乐"))
    } else if has_text(lower, "zunemusic") {
        Some(owned("媒体播放器"))
    } else if has_text(lower, "msedge") {
        Some(owned("Microsoft Edge"))
    } else if has_text(lower, "chrome") {
        Some(owned("Google Chrome"))
    } else if has_text(lower, "firefox") {
        Some(owned("Firefox"))
    } else {
        None
    }
}

fn after_last(s: &[char], c: char) -> (res: usize)
    ensures
        res == last_position(s@, c, s@.len() as int) + 1,
        res <= s@.len(),
{
    let end: usize = s.len();
    match last_position_of(s, c) {
        Some(i) if i < end => i + 1,
        _ => 0,
    }
}

/// The name that a player is shown by: a familiar one, or else what its
/// identifier ends with.
pub fn friendly_app_name(source_id: &str) -> (res: String)
    ensures
        res@ == app_name_of(source_id@),
{
    let lower = source_id.to_lowercase();
    if let Some(name) = name_known(lower.as_str()) {
        return name;
    }
    let chars = chars_of(source_id);
    let slash = after_last(chars.as_slice(), '\\');
    let mark = after_last(chars.as_slice(), '!');
    let from = if slash < mark {
        mark
    } else {
        slash
    };
    let name = slice_subrange(chars.as_slice(), from, chars.len());
    assert(name@ =~= last_part(source_id@));
    let small = chars_of(".exe");
    let large = chars_of(".EXE");
    proof {
        reveal_strlit(".exe");
        reveal_strlit(".EXE");
    }
    if name.len() >= 4 && (stands_here(name, small.as_slice(), name.len() - 4) || stands_here(
        name,
        large.as_slice(),
        name.len() - 4,
    )) {
        let bare = slice_subrange(name, 0, name.len() - 4);
        assert(bare@ =~= name@.take(name@.len() - 4));
        string_of(bare)
    } else {
        string_of(name)
    }
}

fn key_of(report: &SessionReport) -> (res: String)
    ensures
        res@ == session_key(*report),
{
    let mut key = chars_of(report.source_id.as_str());
    key.push('\u{1f}');
    append_str(&mut key, report.title.as_str());
    key.push('\u{1f}');
    append_str(&mut key, report.artist.as_str());
    key.push('\u{1f}');
    append_str(&mut key, report.album.as_str());
    assert(key@ =~= session_key(*report));
    string_of(key.as_slice())
}

/// Reads a session: what it says of the track, with the cover that is at hand,
/// and whether to ask the player for the cover. A session without a title says
/// nothing.
pub fn read_session(
    report: &SessionReport,
    artwork: &mut ArtworkCache,
    stopwatch: &mut Stopwatch,
    clock: Clock,
) -> (res: Option<(MediaState, bool)>)
    ensures
        report.title@.len() == 0 ==> {
            &&& res is None
            &&& final(artwork)@ == old(artwork)@
            &&& final(stopwatch)@ == old(stopwatch)@
        },
        report.title@.len() > 0 ==> {
            let track = session_key(*report);
            let watch = watched(old(stopwatch)@, track, report.playing, clock.steady);
            &&& final(artwork)@ == asking(old(artwork)@, track)
            &&& final(stopwatch)@ == (if has_timeline(*report) {
                old(stopwatch)@
            } else {
                watch
            })
            &&& res matches Some((state, ask)) && {
                &&& is_state_of(
                    state,
                    *report,
                    trusted_time(watch, clock.steady),
                    clock,
                    changed(old(artwork)@, track).data_url,
                )
                &&& ask == wants_artwork(changed(old(artwork)@, track))
            }
        },
{
    if report.title.as_str().is_empty() {
        return None;
    }
    let duration = if report.end > report.start {
        Some(hold(report.end as i128 - report.start as i128))
    } else {
        None
    };
    let timeline = duration.is_some() || report.position != 0 || report.updated
        > UNIX_EPOCH_TICKS;
    let track = key_of(report);
    let elapsed = if timeline {
        if duration.is_some() {
            Some(hold(report.position as i128 - report.start as i128))
        } else {
            None
        }
    } else {
        match stopwatch.elapsed(track.as_str(), report.playing, clock.steady) {
            Some(ticks) => Some(hold(ticks as i128)),
            None => None,
        }
    };
    let elapsed_at = if report.updated > UNIX_EPOCH_TICKS {
        report.updated - UNIX_EPOCH_TICKS
    } else {
        clock.unix
    };
    let ask = artwork.ask(track.as_str());
    let state = MediaState {
        title: report.title.clone(),
        artist: report.artist.clone(),
        album: report.album.clone(),
        app_name: friendly_app_name(report.source_id.as_str()),
        source_id: report.source_id.clone(),
        playing: report.playing,
        duration,
        elapsed,
        elapsed_at,
        artwork: artwork.data_url(),
    };
    Some((state, ask))
}

/// Where on a timeline that starts at `start` a command sends the track, if it
/// is one that does.
pub fn seek_target(command: MediaCommand, start: i64) -> (res: Option<i64>)
    ensures
        res == (match command {
            MediaCommand::Seek { position } => Some(
                clamped(
                    start + if position < 0 {
                        0
                    } else {
                        position as int
                    },
                ) as i64,
            ),
            _ => None,
        }),
{
    match command {
        MediaCommand::Seek { position } => {
            let ahead: i64 = if position < 0 {
                0
            } else {
                position
            };
            Some(hold(start as i128 + ahead as i128))
        },
        _ => None,
    }
}

/// A track that was under way when the watch began, or after the player quit,
/// could be anywhere: its time is not told.
pub proof fn law_first_track_is_not_trusted(track: Seq<char>, playing: bool, now: u64, later: u64)
    ensures
        trusted_time(watched(fresh(), track, playing, now), later) is None,
{
}

/// A track that another player brought could be anywhere as well.
pub proof fn law_other_player_is_not_trusted(
    watch: StopwatchView,
    track: Seq<char>,
    playing: bool,
    now: u64,
    later: u64,
)
    requires
        player_in(watch.track) != player_in(track),
    ensures
        trusted_time(watched(watch, track, playing, now), later) is None,
{
}

/// A track that follows another in the same player begins at zero.
pub proof fn law_next_track_begins_at_zero(
    watch: StopwatchView,
    track: Seq<char>,
    playing: bool,
    now: u64,
)
    requires
        watch.track.len() > 0,
        watch.track != track,
        player_in(watch.track) == player_in(track),
    ensures
        trusted_time(watched(watch, track, playing, now), now) == Some(0u64),
{
}

/// While a track plays, its time grows as the clock does.
pub proof fn law_time_runs_while_playing(
    watch: StopwatchView,
    track: Seq<char>,
    now: u64,
    later: u64,
)
    requires
        watch.track == track,
        now <= later,
        watch.running_since matches Some(since) && since <= now && watch.banked + (later - since)
            <= u64::MAX,
    ensures
        shown(watched(watch, track, true, later), later) == shown(
            watched(watch, track, true, now),
            now,
        ) + (later - now),
{
}

/// While a track is paused, its time stands still; and stopping or going on
/// does not change it.
pub proof fn law_time_stands_while_paused(
    watch: StopwatchView,
    track: Seq<char>,
    now: u64,
    later: u64,
)
    requires
        watch.track == track,
        0 <= watch.banked <= u64::MAX,
    ensures
        ({
            let paused = watched(watch, track, false, now);
            &&& shown(watched(paused, track, false, later), later) == shown(paused, now)
            &&& shown(watched(paused, track, true, later), later) == shown(paused, now)
            &&& shown(paused, now) == shown(watch, now)
        }),
{
}

/// A player is asked for a cover at most as often as is allowed for one track,
/// and no more once the cover came.
pub proof fn law_artwork_is_asked_for_a_while(cache: ArtworkView, track: Seq<char>)
    requires
        cache.attempts <= ARTWORK_ATTEMPTS,
    ensures
        asking(cache, track).attempts <= ARTWORK_ATTEMPTS,
        wants_artwork(changed(cache, track)) ==> asking(cache, track).attempts == changed(
            cache,
            track,
        ).attempts + 1,
        changed(cache, track).data_url is Some ==> asking(cache, track) == changed(cache, track),
{
}

/// The cover of one track is never shown for another.
pub proof fn law_artwork_belongs_to_its_track(cache: ArtworkView, track: Seq<char>)
    requires
        cache.track != track,
    ensures
        asking(cache, track).data_url is None,
{
}

/// A player that publishes no timeline gives neither a length nor a position of
/// its own: the time is the one that was counted.
pub proof fn law_counted_time_stands_in(report: SessionReport, counted: Option<u64>)
    requires
        report.start == 0,
        report.end == 0,
        report.position == 0,
        report.updated <= UNIX_EPOCH_TICKS,
    ensures
        timeline_length(report) is None,
        counted is None ==> elapsed_in(report, counted) is None,
        counted matches Some(ticks) && ticks < ABOVE ==> elapsed_in(report, counted) == Some(
            counted->0 as i64,
        ),
{
}

/// What is told of a track is what the player says of it: its title, its artist
/// and its album, each in its place, who plays it and whether it does, and the
/// cover that is at hand.
pub proof fn law_state_repeats_the_report(
    state: MediaState,
    report: SessionReport,
    counted: Option<u64>,
    clock: Clock,
    artwork: Option<Seq<char>>,
)
    requires
        is_state_of(state, report, counted, clock, artwork),
    ensures
        state.title@ == report.title@,
        state.artist@ == report.artist@,
        state.album@ == report.album@,
        state.source_id@ == report.source_id@,
        state.playing == report.playing,
        match state.artwork {
            Some(url) => artwork == Some(url@),
            None => artwork is None,
        },
{
}

/// A track is as long as its timeline, and as far as the position is from where
/// the timeline starts. One that ends where it starts, or before, tells neither.
pub proof fn law_timeline_is_measured_from_its_start(
    state: MediaState,
    report: SessionReport,
    counted: Option<u64>,
    clock: Clock,
    artwork: Option<Seq<char>>,
)
    requires
        is_state_of(state, report, counted, clock, artwork),
        report.end - report.start < i64::MAX - 1,
        i64::MIN + 1 < report.position - report.start < i64::MAX - 1,
    ensures
        report.end > report.start ==> {
            &&& state.duration is Some && report.start + state.duration->0 == report.end
            &&& state.elapsed is Some && report.start + state.elapsed->0 == report.position
        },
        report.end <= report.start ==> state.duration is None,
        report.end <= report.start && report.position != 0 ==> state.elapsed is None,
        report.end <= report.start && report.updated > 116_444_736_000_000_000
            ==> state.elapsed is None,
        report.end <= report.start && report.position == 0 && report.updated
            <= 116_444_736_000_000_000 ==> {
            &&& counted is None <==> state.elapsed is None
            &&& counted is Some && counted->0 < i64::MAX - 1 ==> state.elapsed->0 == counted->0
        },
{
}

/// A time that a player counts from 1601 is told from 1970 on; where it tells
/// none, it is now.
pub proof fn law_times_are_told_from_the_unix_epoch(
    state: MediaState,
    report: SessionReport,
    counted: Option<u64>,
    clock: Clock,
    artwork: Option<Seq<char>>,
)
    requires
        is_state_of(state, report, counted, clock, artwork),
    ensures
        report.updated > 116_444_736_000_000_000 ==> state.elapsed_at + 116_444_736_000_000_000
            == report.updated,
        report.updated <= 116_444_736_000_000_000 ==> state.elapsed_at == clock.unix,
{
}

/// Only a player without any timeline is timed by the watch: one without a
/// length, at no position and never updated.
pub proof fn law_only_missing_timelines_are_counted(report: SessionReport)
    ensures
        has_timeline(report) <==> report.end > report.start || report.position != 0
            || report.updated > 116_444_736_000_000_000,
{
}

/// Whether no mark stands in what a report says of its track.
pub open spec fn unmarked_report(report: SessionReport) -> bool {
    &&& !report.source_id@.contains('\u{1f}')
    &&& !report.title@.contains('\u{1f}')
    &&& !report.artist@.contains('\u{1f}')
    &&& !report.album@.contains('\u{1f}')
}

proof fn lemma_marked(front: Seq<char>, back: Seq<char>)
    requires
        !front.contains('\u{1f}'),
    ensures
        position(front + seq!['\u{1f}'] + back, '\u{1f}', 0) == front.len(),
        (front + seq!['\u{1f}'] + back).take(front.len() as int) == front,
        (front + seq!['\u{1f}'] + back).skip((front.len() + 1) as int) == back,
{
    let all = front + seq!['\u{1f}'] + back;
    lemma_position(all, '\u{1f}', 0);
    assert(all[front.len() as int] == '\u{1f}');
    let at = position(all, '\u{1f}', 0);
    if at < front.len() {
        assert(all[at] == front[at]);
        assert(front.contains(front[at]));
    }
    assert(all.take(front.len() as int) =~= front);
    assert(all.skip((front.len() + 1) as int) =~= back);
}

proof fn lemma_session_key(report: SessionReport)
    ensures
        session_key(report) == report.source_id@ + seq!['\u{1f}'] + (report.title@ + seq!['\u{1f}']
            + (report.artist@ + seq!['\u{1f}'] + report.album@)),
{
    assert(session_key(report) =~= report.source_id@ + seq!['\u{1f}'] + (report.title@ + seq![
        '\u{1f}',
    ] + (report.artist@ + seq!['\u{1f}'] + report.album@)));
}

/// Two reports are of one track exactly when player, title, artist and album are
/// the same; whether it plays and how far it is play no part in that.
pub proof fn law_session_keys_tell_tracks_apart(one: SessionReport, other: SessionReport)
    requires
        unmarked_report(one),
        unmarked_report(other),
    ensures
        session_key(one) == session_key(other) <==> {
            &&& one.source_id@ == other.source_id@
            &&& one.title@ == other.title@
            &&& one.artist@ == other.artist@
            &&& one.album@ == other.album@
        },
{
    let mark = seq!['\u{1f}'];
    lemma_session_key(one);
    lemma_session_key(other);
    let a = one.artist@ + mark + one.album@;
    let b = other.artist@ + mark + other.album@;
    lemma_marked(one.source_id@, one.title@ + mark + a);
    lemma_marked(other.source_id@, other.title@ + mark + b);
    lemma_marked(one.title@, a);
    lemma_marked(other.title@, b);
    lemma_marked(one.artist@, one.album@);
    lemma_marked(other.artist@, other.album@);
}

/// The player of a track that a session plays is the session's.
pub proof fn law_player_leads_the_key(report: SessionReport)
    requires
        !report.source_id@.contains('\u{1f}'),
    ensures
        player_in(session_key(report)) == report.source_id@,
{
    lemma_session_key(report);
    lemma_marked(
        report.source_id@,
        report.title@ + seq!['\u{1f}'] + (report.artist@ + seq!['\u{1f}'] + report.album@),
    );
}

/// As long as the track stays, its time is trusted or not as it was, and one that
/// is trusted is told: while it plays, as much later as the clock is.
pub proof fn law_trust_stays_with_the_track(
    watch: StopwatchView,
    track: Seq<char>,
    playing: bool,
    now: u64,
    later: u64,
)
    requires
        watch.track == track,
        0 <= watch.banked,
        now <= later,
        watch.running_since matches Some(since) ==> since <= now,
        watch.banked + later <= u64::MAX,
    ensures
        watched(watch, track, playing, now).trusted == watch.trusted,
        watched(watch, track, playing, now).track == track,
        trusted_time(watched(watch, track, playing, now), now) is Some <==> watch.trusted,
        watch.trusted ==> {
            let first = watched(watch, track, playing, now);
            let second = watched(first, track, playing, later);
            trusted_time(second, later)->0 == trusted_time(first, now)->0 + if playing {
                later - now
            } else {
                0
            }
        },
{
}

/// A track that follows another in its player is told from zero on, by as much
/// as it has played: until it pauses, not while it does, and from then on.
pub proof fn law_played_time_is_counted(
    watch: StopwatchView,
    track: Seq<char>,
    begun: u64,
    paused: u64,
    resumed: u64,
    now: u64,
)
    requires
        watch.track.len() > 0,
        watch.track != track,
        player_in(watch.track) == player_in(track),
        begun <= paused <= resumed <= now,
    ensures
        ({
            let one = watched(watch, track, true, begun);
            let two = watched(one, track, false, paused);
            let three = watched(two, track, true, resumed);
            let four = watched(three, track, true, now);
            &&& trusted_time(one, begun) == Some(0u64)
            &&& trusted_time(two, paused) == Some((paused - begun) as u64)
            &&& trusted_time(three, resumed) == Some((paused - begun) as u64)
            &&& trusted_time(four, now) == Some(((paused - begun) + (now - resumed)) as u64)
        }),
{
}

/// The player is asked for a cover up to twenty times for one track, and not once
/// one is at hand; a cover stays for as long as the track does.
pub proof fn law_cover_stays_with_its_track(cache: ArtworkView, track: Seq<char>)
    ensures
        cache.track == track ==> {
            &&& asking(cache, track).data_url == cache.data_url
            &&& wants_artwork(changed(cache, track)) <==> cache.data_url is None && cache.attempts
                < 20
        },
        cache.track != track ==> {
            &&& wants_artwork(changed(cache, track))
            &&& asking(cache, track).attempts == 1
            &&& asking(cache, track).data_url is None
        },
        asking(cache, track).track == track,
{
}

/// A player without a familiar name is shown by what its identifier ends with,
/// behind the last backslash or exclamation mark, without `.exe`.
pub proof fn law_unknown_players_are_shown_by_their_program(
    front: Seq<char>,
    mark: char,
    name: Seq<char>,
)
    requires
        mark == '\\' || mark == '!',
        !name.contains('\\') && !name.contains('!'),
    ensures
        ({
            let id = front + seq![mark] + name + ".exe"@;
            let lower = lowercase(id);
            !holds(lower, "spotify"@) && !holds(lower, "qqmusic"@) && !holds(lower, "cloudmusic"@)
                && !holds(lower, "kugou"@) && !holds(lower, "kuwo"@) && !holds(lower, "zunemusic"@)
                && !holds(lower, "msedge"@) && !holds(lower, "chrome"@) && !holds(
                lower,
                "firefox"@,
            ) ==> app_name_of(id) == name
        }),
{
    reveal_strlit(".exe");
    let tail = ".exe"@;
    assert(tail.len() == 4 && tail[0] == '.' && tail[1] == 'e' && tail[2] == 'x' && tail[3] == 'e');
    let id = front + seq![mark] + name + tail;
    let lower = lowercase(id);
    lemma_known(lower);
    let start = (front.len() + 1) as int;
    assert(id[front.len() as int] == mark);
    assert forall|i: int| start <= i < id.len() implies id[i] != '\\' && id[i] != '!' by {
        if i < start + name.len() {
            assert(id[i] == name[i - start]);
            assert(name.contains(name[i - start]));
        } else {
            assert(id[i] == tail[i - start - name.len()]);
        }
    }
    law_last_position_is_last(id, '\\', id.len() as int);
    law_last_position_is_last(id, '!', id.len() as int);
    let whole = name + tail;
    assert(last_part(id) =~= whole);
    assert(whole.subrange(whole.len() - 4, whole.len() - 4 + 4) =~= tail);
    assert(stands_at(whole, tail, whole.len() - 4));
    assert(whole.take(whole.len() - 4) =~= name);
}

proof fn lemma_known(lower: Seq<char>)
    ensures
        known_name(lower) is None <==> !holds(lower, "spotify"@) && !holds(lower, "qqmusic"@)
            && !holds(lower, "cloudmusic"@) && !holds(lower, "kugou"@) && !holds(lower, "kuwo"@)
            && !holds(lower, "zunemusic"@) && !holds(lower, "msedge"@) && !holds(lower, "chrome"@)
            && !holds(lower, "firefox"@),
{
    law_contained_text_is_a_part(lower, "spotify"@);
    law_contained_text_is_a_part(lower, "qqmusic"@);
    law_contained_text_is_a_part(lower, "cloudmusic"@);
    law_contained_text_is_a_part(lower, "kugou"@);
    law_contained_text_is_a_part(lower, "kuwo"@);
    law_contained_text_is_a_part(lower, "zunemusic"@);
    law_contained_text_is_a_part(lower, "msedge"@);
    law_contained_text_is_a_part(lower, "chrome"@);
    law_contained_text_is_a_part(lower, "firefox"@);
}

/// A player whose identifier holds a familiar name is shown by it; the first of
/// these that it holds counts.
pub proof fn law_familiar_players_have_names(source_id: Seq<char>)
    ensures
        ({
            let lower = lowercase(source_id);
            let name = app_name_of(source_id);
            &&& holds(lower, "spotify"@) ==> name == "Spotify"@
            &&& !holds(lower, "spotify"@) ==> {
                &&& holds(lower, "qqmusic"@) ==> name == "QQ 音乐"@
                &&& !holds(lower, "qqmusic"@) ==> {
                    &&& holds(lower, "cloudmusic"@) ==> name == "网易云音乐"@
                    &&& !holds(lower, "cloudmusic"@) ==> {
                        &&& holds(lower, "kugou"@) ==> name == "酷狗音乐"@
                        &&& !holds(lower, "kugou"@) && holds(lower, "kuwo"@) ==> name
                            == "酷我音乐"@
                    }
                }
            }
        }),
{
    let lower = lowercase(source_id);
    law_contained_text_is_a_part(lower, "spotify"@);
    law_contained_text_is_a_part(lower, "qqmusic"@);
    law_contained_text_is_a_part(lower, "cloudmusic"@);
    law_contained_text_is_a_part(lower, "kugou"@);
    law_contained_text_is_a_part(lower, "kuwo"@);
}

} // verus!
