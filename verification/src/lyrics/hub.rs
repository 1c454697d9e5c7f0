//! The lyrics that are shown, and what is asked of the providers.

use crate::lyrics::cache::{kept_file, write_cache, CacheFile};
use crate::lyrics::select::{LookupOutcome, OutcomeView};
use crate::lyrics::song::{
    key, law_keys_tell_tracks_apart, normal, player_kind, player_of, track_key, unmarked,
    FoldedSong, Request, RequestView,
};
use crate::lyrics::{no_lyrics, same_lyrics, LyricStatus, Lyrics, LyricsView};
use crate::media::MediaState;
use crate::text::{owned, same_text};
use vstd::prelude::*;

verus! {

/// What is playing, with the texts that the lookup compares.
#[derive(Debug)]
pub struct Playing {
    pub media: MediaState,
    /// The whole billing, folded like the other texts.
    pub artist: String,
    pub folded: FoldedSong,
}

/// Keeps the lyrics that are shown, and counts the lookups so that an answer
/// to an old one is told from that to the newest.
#[derive(Debug)]
pub struct LyricsHub {
    lyrics: Lyrics,
    generation: u64,
}

/// What the hub holds.
#[verifier::ext_equal]
pub struct HubView {
    pub current: LyricsView,
    pub generation: u64,
}

/// What a change asks of the shell: lyrics to announce, in this order, and a
/// lookup to make.
#[derive(Debug)]
pub struct Step {
    pub published: Vec<Lyrics>,
    pub request: Option<Request>,
}

/// What a step holds.
#[verifier::ext_equal]
pub struct StepView {
    pub published: Seq<LyricsView>,
    pub request: Option<RequestView>,
}

/// Why a refresh is refused.
#[derive(Debug, Clone, Copy, PartialEq, Eq, Structural)]
pub enum RefreshError {
    Disabled,
    NothingPlaying,
}

/// What to do with a request once the cache was looked at.
#[derive(Debug)]
pub enum CacheStep {
    /// The request is no longer wanted.
    Drop,
    /// The cache had the answer; announce it if it is new.
    Served(Option<Lyrics>),
    /// Ask the providers; these lyrics stand in if they have none.
    Fetch(Option<Lyrics>),
}

/// What to do once the providers were asked.
#[derive(Debug)]
pub enum LookupStep {
    /// The request is no longer wanted.
    Drop,
    /// The lyrics at hand stay; announce them if they are new.
    Stale(Option<Lyrics>),
    /// The outcome is shown; keep it in the cache and announce it if it is
    /// new.
    Fresh(Option<Lyrics>, CacheFile),
}

impl View for LyricsHub {
    type V = HubView;

    closed spec fn view(&self) -> HubView {
        HubView { current: self.lyrics@, generation: self.generation }
    }
}

impl View for Step {
    type V = StepView;

    open spec fn view(&self) -> StepView {
        StepView {
            published: Seq::new(self.published@.len(), |i: int| self.published@[i]@),
            request: request_view(self.request),
        }
    }
}

pub open spec fn request_view(request: Option<Request>) -> Option<RequestView> {
    match request {
        Some(request) => Some(request@),
        None => None,
    }
}

pub open spec fn lyrics_view(lyrics: Option<Lyrics>) -> Option<LyricsView> {
    match lyrics {
        Some(lyrics) => Some(lyrics@),
        None => None,
    }
}

impl Playing {
    /// The identity of the track.
    pub open spec fn key(&self) -> Seq<char> {
        key(self.folded@.title, self.artist@, self.folded@.album)
    }

    /// The lookup for the track.
    pub open spec fn request(&self, generation: u64, force: bool) -> RequestView {
        RequestView {
            track: self.key(),
            title: self.media.title@,
            artist: self.media.artist@,
            album: self.media.album@,
            duration: self.media.duration,
            player: player_of(self.media.source_id@, self.media.app_name@),
            generation,
            force,
            folded: self.folded@,
        }
    }
}

/// Whether something with a title is playing.
pub open spec fn heard(playing: Option<Playing>) -> bool {
    playing is Some && playing->0.media.title@.len() > 0
}

/// The number after `generation`; after the last comes the first.
pub open spec fn next(generation: u64) -> u64 {
    if generation == u64::MAX {
        0
    } else {
        (generation + 1) as u64
    }
}

/// What is announced when one set of lyrics takes the place of another.
pub open spec fn announced(before: LyricsView, after: LyricsView) -> Seq<LyricsView> {
    if before == after {
        Seq::empty()
    } else {
        seq![after]
    }
}

/// The lyrics that stand right after a new track began.
pub open spec fn opening(track: Seq<char>, enabled: bool) -> LyricsView {
    LyricsView {
        track,
        status: if enabled {
            LyricStatus::Loading
        } else {
            LyricStatus::Idle
        },
        ..no_lyrics()
    }
}

/// The hub after the media state changed.
pub open spec fn synced(hub: HubView, playing: Option<Playing>, enabled: bool) -> HubView {
    if !heard(playing) {
        HubView { current: no_lyrics(), generation: next(hub.generation) }
    } else if hub.current.track == playing->0.key() {
        hub
    } else {
        HubView { current: opening(playing->0.key(), enabled), generation: next(hub.generation) }
    }
}

/// The lookup that a change of the media state calls for: one for each new
/// track.
pub open spec fn asked(hub: HubView, playing: Option<Playing>, enabled: bool) -> Option<
    RequestView,
> {
    if heard(playing) && hub.current.track != playing->0.key() && enabled {
        Some(playing->0.request(next(hub.generation), false))
    } else {
        None
    }
}

/// Whether an answer to `request` is still wanted.
pub open spec fn current_request(hub: HubView, request: RequestView) -> bool {
    hub.generation == request.generation && hub.current.track == request.track
}

/// Lyrics from the cache, as they are shown for a request.
pub open spec fn from_cache(lyrics: LyricsView, track: Seq<char>) -> LyricsView {
    LyricsView { track, from_cache: true, ..lyrics }
}

/// Whether a cached lookup answers a request.
pub open spec fn answers(cached: Option<CacheFile>, request: RequestView, now: u64) -> bool {
    !request.force && cached is Some && cached->0@.expires_at > now
}

/// The lyrics that stand in when the providers have none: the cached ones, or
/// else those on show.
pub open spec fn fallback(
    hub: HubView,
    cached: Option<CacheFile>,
    request: RequestView,
) -> Option<LyricsView> {
    match cached {
        Some(cached) => Some(cached@.lyrics),
        None => if hub.current.track == request.track && hub.current.lines.len() > 0 {
            Some(hub.current)
        } else {
            None
        },
    }
}

/// Whether the lyrics at hand are kept though the lookup is over.
pub open spec fn keeps_stale(stale: Option<LyricsView>, outcome: OutcomeView) -> bool {
    outcome.lyrics.status != LyricStatus::Found && stale is Some && stale->0.lines.len() > 0
}

/// The lyrics that are shown when the lookup is over.
pub open spec fn answer(
    stale: Option<LyricsView>,
    outcome: OutcomeView,
    track: Seq<char>,
) -> LyricsView {
    if keeps_stale(stale, outcome) {
        LyricsView { track, status: LyricStatus::Found, from_cache: true, ..stale->0 }
    } else {
        LyricsView { track, ..outcome.lyrics }
    }
}

impl RefreshError {
    /// What the user is told.
    pub fn message(self) -> (res: String)
        ensures
            res@ == (match self {
                RefreshError::Disabled => "lyrics are disabled"@,
                RefreshError::NothingPlaying => "nothing is playing"@,
            }),
    {
        match self {
            RefreshError::Disabled => owned("lyrics are disabled"),
            RefreshError::NothingPlaying => owned("nothing is playing"),
        }
    }
}

impl Default for LyricsHub {
    fn default() -> (res: Self)
        ensures
            res@ == (HubView { current: no_lyrics(), generation: 0 }),
    {
        LyricsHub { lyrics: Lyrics::default(), generation: 0 }
    }
}

fn make_request(playing: &Playing, generation: u64, force: bool) -> (res: Request)
    ensures
        res@ == playing.request(generation, force),
{
    Request {
        track: track_of(playing),
        title: playing.media.title.clone(),
        artist: playing.media.artist.clone(),
        album: playing.media.album.clone(),
        duration: playing.media.duration,
        player: player_kind(&playing.media),
        generation,
        force,
        folded: playing.folded.clone(),
    }
}

fn track_of(playing: &Playing) -> (res: String)
    ensures
        res@ == playing.key(),
{
    track_key(
        playing.folded.title.as_str(),
        playing.artist.as_str(),
        playing.folded.album.as_str(),
    )
}

impl LyricsHub {
    /// The lyrics that are shown.
    pub fn current(&self) -> (res: Lyrics)
        ensures
            res@ == self@.current,
    {
        self.lyrics.clone()
    }

    /// Shows `lyrics`; hands them back when that is a change to announce.
    pub fn publish(&mut self, lyrics: Lyrics) -> (res: Option<Lyrics>)
        ensures
            final(self)@ == (HubView { current: lyrics@, ..old(self)@ }),
            lyrics_view(res) == (if old(self)@.current == lyrics@ {
                None
            } else {
                Some(lyrics@)
            }),
    {
        if same_lyrics(&self.lyrics, &lyrics) {
            return None;
        }
        self.lyrics = lyrics.clone();
        Some(lyrics)
    }

    fn publish_to(&mut self, lyrics: Lyrics, published: &mut Vec<Lyrics>)
        ensures
            final(self)@ == (HubView { current: lyrics@, ..old(self)@ }),
            Seq::new(final(published)@.len(), |i: int| final(published)@[i]@) == Seq::new(
                old(published)@.len(),
                |i: int| old(published)@[i]@,
            ) + announced(old(self)@.current, lyrics@),
    {
        let ghost before = published@;
        match self.publish(lyrics) {
            Some(lyrics) => {
                published.push(lyrics);
            },
            None => {},
        }
        assert(Seq::new(published@.len(), |i: int| published@[i]@) =~= Seq::new(
            before.len(),
            |i: int| before[i]@,
        ) + announced(old(self)@.current, lyrics@));
    }

    /// Whether an answer to `request` is still wanted: it is the newest, and
    /// its track still plays.
    pub fn is_current(&self, request: &Request) -> (res: bool)
        ensures
            res == current_request(self@, request@),
    {
        self.generation == request.generation && same_text(
            self.lyrics.track.as_str(),
            request.track.as_str(),
        )
    }

    fn advance(&mut self) -> (res: u64)
        ensures
            final(self)@ == (HubView { generation: next(old(self)@.generation), ..old(self)@ }),
            res == final(self)@.generation,
    {
        self.generation = self.generation.wrapping_add(1);
        self.generation
    }

    /// Follows a change of the media state: the old lines go at once, since
    /// they belong to the previous song, and each new track is looked up once.
    pub fn sync(&mut self, playing: Option<&Playing>, enabled: bool) -> (res: Step)
        ensures
            final(self)@ == synced(old(self)@, own(playing), enabled),
            res@ == (StepView {
                published: announced(
                    old(self)@.current,
                    synced(old(self)@, own(playing), enabled).current,
                ),
                request: asked(old(self)@, own(playing), enabled),
            }),
    {
        let mut published: Vec<Lyrics> = Vec::new();
        let mut request: Option<Request> = None;
        assert(Seq::new(published@.len(), |i: int| published@[i]@) =~= Seq::empty());
        match playing {
            Some(playing) if !playing.media.title.as_str().is_empty() => {
                let track = track_of(playing);
                if !same_text(self.lyrics.track.as_str(), track.as_str()) {
                    let generation = self.advance();
                    let mut lyrics = Lyrics::default();
                    lyrics.track = track;
                    if enabled {
                        lyrics.status = LyricStatus::Loading;
                        request = Some(make_request(playing, generation, false));
                    }
                    self.publish_to(lyrics, &mut published);
                }
            },
            _ => {
                let _ = self.advance();
                self.publish_to(Lyrics::default(), &mut published);
            },
        }
        let res = Step { published, request };
        assert(res@.published =~= announced(
            old(self)@.current,
            synced(old(self)@, own(playing), enabled).current,
        ));
        res
    }

    /// Applies a change to the lyrics setting: the lines go, and the track
    /// that plays is looked up if lyrics are wanted. `setting` is what the
    /// settings say by now, which is what a new track goes by.
    pub fn set_enabled(&mut self, enabled: bool, setting: bool, playing: Option<&Playing>) -> (res:
        Step)
        ensures
            ({
                let cleared = HubView { current: no_lyrics(), ..old(self)@ };
                let after = if enabled {
                    synced(cleared, own(playing), setting)
                } else {
                    cleared
                };
                &&& final(self)@ == after
                &&& res@.published == announced(old(self)@.current, no_lyrics()) + announced(
                    no_lyrics(),
                    after.current,
                )
                &&& res@.request == (if enabled {
                    asked(cleared, own(playing), setting)
                } else {
                    None
                })
            }),
    {
        let mut published: Vec<Lyrics> = Vec::new();
        assert(Seq::new(published@.len(), |i: int| published@[i]@) =~= Seq::empty());
        self.publish_to(Lyrics::default(), &mut published);
        if !enabled {
            let res = Step { published, request: None };
            assert(res@.published =~= announced(old(self)@.current, no_lyrics()) + announced(
                no_lyrics(),
                no_lyrics(),
            ));
            return res;
        }
        let ghost first = published@;
        let mut step = self.sync(playing, setting);
        let ghost second = step.published@;
        published.append(&mut step.published);
        let res = Step { published, request: step.request };
        assert(res@.published =~= Seq::new(first.len(), |i: int| first[i]@) + Seq::new(
            second.len(),
            |i: int| second[i]@,
        ));
        res
    }

    /// Looks the track that plays up again, past the cache. Its lines stay on
    /// show meanwhile.
    pub fn lyrics_refresh(&mut self, enabled: bool, playing: Option<&Playing>) -> (res: Result<
        Step,
        RefreshError,
    >)
        ensures
            !enabled ==> res == Err::<Step, RefreshError>(RefreshError::Disabled),
            enabled && !heard(own(playing)) ==> res == Err::<Step, RefreshError>(
                RefreshError::NothingPlaying,
            ),
            res is Err <==> !enabled || !heard(own(playing)),
            res is Err ==> final(self)@ == old(self)@,
            res matches Ok(step) ==> {
                let track = own(playing)->0.key();
                if old(self)@.current.track != track {
                    &&& final(self)@ == synced(old(self)@, own(playing), true)
                    &&& step@.published == announced(old(self)@.current, final(self)@.current)
                    &&& step@.request == asked(old(self)@, own(playing), true)
                } else if old(self)@.current.status == LyricStatus::Loading {
                    &&& final(self)@ == old(self)@
                    &&& step@ == (StepView { published: Seq::empty(), request: None })
                } else {
                    let generation = next(old(self)@.generation);
                    let waiting = LyricsView {
                        status: LyricStatus::Loading,
                        ..old(self)@.current
                    };
                    &&& final(self)@ == (HubView { current: waiting, generation })
                    &&& step@.published == seq![waiting]
                    &&& step@.request == Some(own(playing)->0.request(generation, true))
                }
            },
    {
        if !enabled {
            return Err(RefreshError::Disabled);
        }
        let playing = match playing {
            Some(playing) => playing,
            None => {
                return Err(RefreshError::NothingPlaying);
            },
        };
        if playing.media.title.as_str().is_empty() {
            return Err(RefreshError::NothingPlaying);
        }
        let track = track_of(playing);
        if !same_text(self.lyrics.track.as_str(), track.as_str()) {
            return Ok(self.sync(Some(playing), true));
        }
        let mut published: Vec<Lyrics> = Vec::new();
        assert(Seq::new(published@.len(), |i: int| published@[i]@) =~= Seq::empty());
        if self.lyrics.status == LyricStatus::Loading {
            let res = Step { published, request: None };
            assert(res@.published =~= Seq::empty());
            return Ok(res);
        }
        let generation = self.advance();
        let mut lyrics = self.lyrics.clone();
        lyrics.status = LyricStatus::Loading;
        let ghost waiting = lyrics@;
        self.publish_to(lyrics, &mut published);
        let res = Step { published, request: Some(make_request(playing, generation, true)) };
        assert(res@.published =~= seq![waiting]);
        Ok(res)
    }

    /// Takes up a request: drops it when it is no longer wanted, answers it
    /// from the cache when that has not expired, and otherwise has the
    /// providers asked.
    pub fn answer_from_cache(
        &mut self,
        request: &Request,
        cached: Option<CacheFile>,
        now: u64,
    ) -> (res: CacheStep)
        ensures
            !current_request(old(self)@, request@) ==> res == CacheStep::Drop && final(self)@
                == old(self)@,
            current_request(old(self)@, request@) && answers(cached, request@, now) ==> {
                let shown = from_cache(cached->0@.lyrics, request@.track);
                &&& res is Served
                &&& final(self)@ == (HubView { current: shown, ..old(self)@ })
                &&& lyrics_view(res->Served_0) == (if old(self)@.current == shown {
                    None
                } else {
                    Some(shown)
                })
            },
            current_request(old(self)@, request@) && !answers(cached, request@, now) ==> {
                &&& res is Fetch
                &&& final(self)@ == old(self)@
                &&& lyrics_view(res->Fetch_0) == fallback(old(self)@, cached, request@)
            },
    {
        if !self.is_current(request) {
            return CacheStep::Drop;
        }
        match cached {
            Some(cache) => {
                if !request.force && cache.expires_at > now {
                    let mut lyrics = cache.lyrics;
                    lyrics.track = request.track.clone();
                    lyrics.from_cache = true;
                    CacheStep::Served(self.publish(lyrics))
                } else {
                    CacheStep::Fetch(Some(cache.lyrics))
                }
            },
            None => {
                if same_text(self.lyrics.track.as_str(), request.track.as_str())
                    && self.lyrics.lines.len() > 0 {
                    CacheStep::Fetch(Some(self.lyrics.clone()))
                } else {
                    CacheStep::Fetch(None)
                }
            },
        }
    }

    /// Ends a request with what the providers came to. A lookup that found
    /// nothing does not take away lines that are at hand.
    pub fn answer_from_lookup(
        &mut self,
        request: &Request,
        stale: Option<Lyrics>,
        outcome: LookupOutcome,
        now: u64,
    ) -> (res: LookupStep)
        ensures
            !current_request(old(self)@, request@) ==> res == LookupStep::Drop && final(self)@
                == old(self)@,
            current_request(old(self)@, request@) ==> {
                let shown = answer(lyrics_view(stale), outcome@, request@.track);
                let news = if old(self)@.current == shown {
                    None
                } else {
                    Some(shown)
                };
                &&& final(self)@ == (HubView { current: shown, ..old(self)@ })
                &&& if keeps_stale(lyrics_view(stale), outcome@) {
                    res is Stale && lyrics_view(res->Stale_0) == news
                } else {
                    &&& res is Fresh
                    &&& lyrics_view(res->Fresh_0) == news
                    &&& res->Fresh_1@ == kept_file(
                        shown,
                        outcome.match_score,
                        outcome.ttl,
                        now,
                    )
                }
            },
    {
        if !self.is_current(request) {
            return LookupStep::Drop;
        }
        let found = outcome.lyrics.status == LyricStatus::Found;
        match stale {
            Some(lyrics) if !found && lyrics.lines.len() > 0 => {
                let mut lyrics = lyrics;
                lyrics.track = request.track.clone();
                lyrics.status = LyricStatus::Found;
                lyrics.from_cache = true;
                LookupStep::Stale(self.publish(lyrics))
            },
            _ => {
                let mut lyrics = outcome.lyrics;
                lyrics.track = request.track.clone();
                let file = write_cache(&lyrics, outcome.match_score, outcome.ttl, now);
                LookupStep::Fresh(self.publish(lyrics), file)
            },
        }
    }
}

/// What is playing, taken by value.
pub open spec fn own(playing: Option<&Playing>) -> Option<Playing> {
    match playing {
        Some(playing) => Some(*playing),
        None => None,
    }
}

/// A track is known by what is compared of its title, artist and album, and by
/// nothing else: not by the player, the time or the cover. What the law asks of
/// the texts holds of any that `track_key` was called with.
pub proof fn law_track_is_known_by_its_texts(one: Playing, other: Playing)
    requires
        unmarked(one.folded@.title) && unmarked(one.artist@) && unmarked(one.folded@.album),
        unmarked(other.folded@.title) && unmarked(other.artist@) && unmarked(
            other.folded@.album,
        ),
    ensures
        one.key() == other.key() <==> {
            &&& normal(one.folded@.title) == normal(other.folded@.title)
            &&& normal(one.artist@) == normal(other.artist@)
            &&& normal(one.folded@.album) == normal(other.folded@.album)
        },
{
    law_keys_tell_tracks_apart(
        one.folded@.title,
        one.artist@,
        one.folded@.album,
        other.folded@.title,
        other.artist@,
        other.folded@.album,
    );
}

/// A lookup that a change calls for is the one whose answer is wanted.
pub proof fn law_new_request_is_current(hub: HubView, playing: Option<Playing>, enabled: bool)
    requires
        asked(hub, playing, enabled) is Some,
    ensures
        current_request(synced(hub, playing, enabled), asked(hub, playing, enabled)->0),
{
}

/// Once another track plays, or none, the answer to an earlier lookup is no
/// longer wanted.
pub proof fn law_old_request_is_dropped(
    hub: HubView,
    request: RequestView,
    playing: Option<Playing>,
    enabled: bool,
)
    requires
        current_request(hub, request),
        !heard(playing) || playing->0.key() != hub.current.track,
    ensures
        !current_request(synced(hub, playing, enabled), request),
{
}

/// A track is looked up once: hearing of it again changes nothing and asks for
/// nothing.
pub proof fn law_track_is_looked_up_once(hub: HubView, playing: Option<Playing>, enabled: bool)
    requires
        heard(playing),
    ensures
        synced(synced(hub, playing, enabled), playing, enabled) == synced(hub, playing, enabled),
        asked(synced(hub, playing, enabled), playing, enabled) is None,
{
}

/// Turning lyrics off makes every answer unwanted: no key of a track is empty.
pub proof fn law_disabling_drops_requests(hub: HubView, playing: Playing, force: bool)
    ensures
        !current_request(
            HubView { current: no_lyrics(), ..hub },
            playing.request(hub.generation, force),
        ),
{
}

/// A lookup never takes lines away: if some are at hand when it ends, some are
/// on show afterwards, unless it found a lyric.
pub proof fn law_lookup_keeps_lines(
    stale: Option<LyricsView>,
    outcome: OutcomeView,
    track: Seq<char>,
)
    requires
        stale is Some,
        stale->0.lines.len() > 0,
        outcome.lyrics.status != LyricStatus::Found,
    ensures
        answer(stale, outcome, track).lines == stale->0.lines,
        answer(stale, outcome, track).status == LyricStatus::Found,
{
}

/// When another track begins, the old lines go at once: what stands is the new
/// track without lines or a source, loading where lyrics are on and idle where
/// they are off, and no answer that was wanted before still is.
pub proof fn law_new_track_takes_the_old_lines_away(
    hub: HubView,
    playing: Playing,
    enabled: bool,
    request: RequestView,
)
    requires
        playing.media.title@.len() > 0,
        hub.current.track != playing.key(),
        hub.generation == request.generation,
    ensures
        ({
            let after = synced(hub, Some(playing), enabled);
            &&& after.current.track == playing.key()
            &&& after.current.lines.len() == 0
            &&& after.current.source is None
            &&& !after.current.timed && !after.current.word_timed && !after.current.from_cache
            &&& after.current.status == LyricStatus::Loading <==> enabled
            &&& after.current.status == LyricStatus::Idle <==> !enabled
            &&& after.generation != hub.generation
            &&& !current_request(after, request)
        }),
{
}

/// Silence takes everything away, and with it what was asked for.
pub proof fn law_silence_clears_the_hub(
    hub: HubView,
    playing: Option<Playing>,
    enabled: bool,
    request: RequestView,
)
    requires
        playing is Some ==> playing->0.media.title@.len() == 0,
        hub.generation == request.generation,
    ensures
        ({
            let after = synced(hub, playing, enabled);
            &&& after.current.track.len() == 0
            &&& after.current.lines.len() == 0
            &&& after.current.source is None
            &&& after.current.status == LyricStatus::Idle
            &&& !after.current.timed && !after.current.word_timed && !after.current.from_cache
            &&& !current_request(after, request)
        }),
        asked(hub, playing, enabled) is None,
{
}

/// As long as the track stays, so does everything else, whatever the setting
/// says.
pub proof fn law_same_track_changes_nothing(hub: HubView, playing: Playing, enabled: bool)
    requires
        playing.media.title@.len() > 0,
        hub.current.track == playing.key(),
    ensures
        synced(hub, Some(playing), enabled) == hub,
        asked(hub, Some(playing), enabled) is None,
{
}

/// A lookup is called for exactly when lyrics are on and another track began. It
/// asks for what plays, under a new number, and may be answered by the cache.
pub proof fn law_lookup_asks_for_what_plays(hub: HubView, playing: Playing, enabled: bool)
    requires
        playing.media.title@.len() > 0,
    ensures
        asked(hub, Some(playing), enabled) is Some <==> enabled && hub.current.track
            != playing.key(),
        asked(hub, Some(playing), enabled) matches Some(request) ==> {
            &&& request.track == playing.key()
            &&& request.title == playing.media.title@
            &&& request.artist == playing.media.artist@
            &&& request.album == playing.media.album@
            &&& request.duration == playing.media.duration
            &&& request.player == player_of(playing.media.source_id@, playing.media.app_name@)
            &&& request.folded == playing.folded@
            &&& request.generation == synced(hub, Some(playing), enabled).generation
            &&& request.generation != hub.generation
            &&& !request.force
        },
{
}

/// A lookup, forced or not, asks for what plays.
pub proof fn law_requests_repeat_what_plays(playing: Playing, generation: u64, force: bool)
    ensures
        ({
            let request = playing.request(generation, force);
            &&& request.track == playing.key()
            &&& request.title == playing.media.title@
            &&& request.artist == playing.media.artist@
            &&& request.album == playing.media.album@
            &&& request.duration == playing.media.duration
            &&& request.player == player_of(playing.media.source_id@, playing.media.app_name@)
            &&& request.folded == playing.folded@
            &&& request.generation == generation
            &&& request.force == force
        }),
{
}

/// An answer is wanted exactly while its request is the newest and its track is
/// the one on show.
pub proof fn law_only_the_newest_answer_is_wanted(hub: HubView, request: RequestView)
    ensures
        current_request(hub, request) <==> hub.generation == request.generation && hub.current.track
            == request.track,
        next(hub.generation) != hub.generation,
{
}

/// The cache answers exactly when a lookup was kept that has not expired and the
/// request does not go past it.
pub proof fn law_forced_requests_pass_the_cache(
    cached: Option<CacheFile>,
    request: RequestView,
    now: u64,
)
    ensures
        request.force ==> !answers(cached, request, now),
        cached is None ==> !answers(cached, request, now),
        !request.force && cached is Some ==> (answers(cached, request, now) <==> now
            < cached->0.expires_at),
{
}

/// Lyrics from the cache are shown as they were kept, marked as such and under
/// the track that was asked for.
pub proof fn law_cached_lyrics_are_shown_as_kept(lyrics: LyricsView, track: Seq<char>)
    ensures
        ({
            let shown = from_cache(lyrics, track);
            &&& shown.track == track && shown.from_cache
            &&& shown.lines == lyrics.lines
            &&& shown.status == lyrics.status
            &&& shown.source == lyrics.source
            &&& shown.timed == lyrics.timed && shown.word_timed == lyrics.word_timed
        }),
{
}

/// What stands in is what was kept, expired or not; else the lines on show, where
/// they are the track's; else nothing.
pub proof fn law_what_is_at_hand_stands_in(
    hub: HubView,
    cached: Option<CacheFile>,
    request: RequestView,
)
    ensures
        cached is Some ==> fallback(hub, cached, request) == Some(cached->0.lyrics@),
        cached is None && hub.current.track == request.track && hub.current.lines.len() > 0
            ==> fallback(hub, cached, request) == Some(hub.current),
        cached is None && (hub.current.track != request.track || hub.current.lines.len() == 0)
            ==> fallback(hub, cached, request) is None,
{
}

/// What a lookup came to is shown for its track, lines, source and all, unless it
/// found nothing and there are lines at hand: these are then shown as they are,
/// marked as kept, and nothing is written to the cache.
pub proof fn law_lookup_is_shown(stale: Option<LyricsView>, outcome: OutcomeView, track: Seq<char>)
    ensures
        ({
            let shown = answer(stale, outcome, track);
            let keeps = outcome.lyrics.status != LyricStatus::Found && stale is Some
                && stale->0.lines.len() > 0;
            &&& keeps_stale(stale, outcome) == keeps
            &&& shown.track == track
            &&& !keeps ==> {
                &&& shown.lines == outcome.lyrics.lines
                &&& shown.status == outcome.lyrics.status
                &&& shown.source == outcome.lyrics.source
                &&& shown.timed == outcome.lyrics.timed
                &&& shown.word_timed == outcome.lyrics.word_timed
                &&& shown.from_cache == outcome.lyrics.from_cache
            }
            &&& keeps ==> {
                &&& shown.lines == stale->0.lines
                &&& shown.status == LyricStatus::Found
                &&& shown.source == stale->0.source
                &&& shown.timed == stale->0.timed
                &&& shown.word_timed == stale->0.word_timed
                &&& shown.from_cache
            }
        }),
{
}

/// Nothing is announced where nothing changed, and otherwise what is on show, in
/// one announcement.
pub proof fn law_changes_are_announced_once(before: LyricsView, after: LyricsView)
    ensures
        before == after <==> announced(before, after).len() == 0,
        before != after ==> announced(before, after).len() == 1 && announced(before, after)[0]
            == after,
{
}

} // verus!
