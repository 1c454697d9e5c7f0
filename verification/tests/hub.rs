use bangs::lyrics::cache::{write_cache, CacheFile};
use bangs::lyrics::hub::{CacheStep, LookupStep, LyricsHub, Playing, RefreshError};
use bangs::lyrics::select::{missing_outcome, LookupOutcome};
use bangs::lyrics::song::{comparable, split_artists, PlayerKind, Request};
use bangs::lyrics::{LyricLine, LyricStatus, Lyrics};
use bangs::media::MediaState;

fn playing(title: &str) -> Playing {
    Playing {
        media: MediaState {
            title: title.into(),
            artist: "Artist".into(),
            album: "Album".into(),
            app_name: "QQ 音乐".into(),
            source_id: "x".into(),
            playing: true,
            duration: Some(1_800_000_000),
            elapsed: None,
            elapsed_at: 0,
            artwork: None,
        },
        artist: "Artist".into(),
        folded: comparable(title, &split_artists("Artist"), "Album"),
    }
}

fn lyrics(status: LyricStatus, texts: &[&str]) -> Lyrics {
    Lyrics {
        status,
        timed: !texts.is_empty(),
        lines: texts
            .iter()
            .map(|text| LyricLine {
                at: 0,
                text: text.to_string(),
                translation: None,
                words: Vec::new(),
            })
            .collect(),
        ..Lyrics::default()
    }
}

fn found(texts: &[&str]) -> LookupOutcome {
    LookupOutcome { lyrics: lyrics(LyricStatus::Found, texts), match_score: Some(90), ttl: 60 }
}

fn begun(hub: &mut LyricsHub, title: &str) -> Request {
    hub.sync(Some(&playing(title)), true).request.unwrap()
}

fn cached(texts: &[&str]) -> CacheFile {
    write_cache(&lyrics(LyricStatus::Found, texts), Some(90), 100, 1_000)
}

#[test]
fn a_new_track_is_looked_up_once() {
    let mut hub = LyricsHub::default();
    assert_eq!(hub.current(), Lyrics::default());
    let step = hub.sync(Some(&playing("Song")), true);
    let request = step.request.unwrap();
    assert_eq!(request.title, "Song");
    assert_eq!(request.track, "song\u{1f}artist\u{1f}album");
    assert_eq!(request.player, PlayerKind::QqMusic);
    assert_eq!((request.generation, request.force), (1, false));
    assert_eq!(step.published.len(), 1);
    assert_eq!(step.published[0].status, LyricStatus::Loading);
    assert!(hub.is_current(&request));

    let again = hub.sync(Some(&playing("Song")), true);
    assert!(again.request.is_none() && again.published.is_empty());
}

#[test]
fn an_old_request_is_dropped() {
    let mut hub = LyricsHub::default();
    let first = begun(&mut hub, "Song");
    let second = begun(&mut hub, "Else");
    assert!(!hub.is_current(&first));
    assert!(hub.is_current(&second));
    assert!(matches!(hub.answer_from_cache(&first, Some(cached(&["a"])), 0), CacheStep::Drop));
    assert!(matches!(
        hub.answer_from_lookup(&first, None, found(&["a"]), 0),
        LookupStep::Drop
    ));
    hub.sync(None, true);
    assert!(!hub.is_current(&second));
    assert_eq!(hub.current(), Lyrics::default());
}

#[test]
fn a_session_without_a_title_is_silence() {
    let mut hub = LyricsHub::default();
    begun(&mut hub, "Song");
    let step = hub.sync(Some(&playing("")), true);
    assert!(step.request.is_none());
    assert_eq!(step.published, [Lyrics::default()]);
}

#[test]
fn lyrics_that_are_off_are_not_looked_up() {
    let mut hub = LyricsHub::default();
    let step = hub.sync(Some(&playing("Song")), false);
    assert!(step.request.is_none());
    assert_eq!(step.published[0].status, LyricStatus::Idle);

    let step = hub.set_enabled(true, true, Some(&playing("Song")));
    let request = step.request.unwrap();
    assert_eq!(step.published.len(), 2);
    assert!(hub.is_current(&request));
    let step = hub.set_enabled(false, false, Some(&playing("Song")));
    assert!(step.request.is_none());
    assert!(!hub.is_current(&request));
    // The settings have the last word.
    let step = hub.set_enabled(true, false, Some(&playing("Song")));
    assert!(step.request.is_none());
    assert_eq!(hub.current().status, LyricStatus::Idle);
}

#[test]
fn a_fresh_cache_answers() {
    let mut hub = LyricsHub::default();
    let request = begun(&mut hub, "Song");
    match hub.answer_from_cache(&request, Some(cached(&["a"])), 1_099) {
        CacheStep::Served(Some(shown)) => {
            assert_eq!(shown.track, request.track);
            assert!(shown.from_cache);
            assert_eq!(shown.lines[0].text, "a");
        }
        other => panic!("{other:?}"),
    }
    // The same again is no news.
    assert!(matches!(
        hub.answer_from_cache(&request, Some(cached(&["a"])), 1_099),
        CacheStep::Served(None)
    ));
}

#[test]
fn an_expired_cache_stands_in() {
    let mut hub = LyricsHub::default();
    let request = begun(&mut hub, "Song");
    let stale = match hub.answer_from_cache(&request, Some(cached(&["a"])), 1_100) {
        CacheStep::Fetch(stale) => stale,
        other => panic!("{other:?}"),
    };
    match hub.answer_from_lookup(&request, stale, missing_outcome(true), 1_100) {
        LookupStep::Stale(Some(shown)) => {
            assert_eq!(shown.status, LyricStatus::Found);
            assert!(shown.from_cache);
            assert_eq!(shown.lines[0].text, "a");
        }
        other => panic!("{other:?}"),
    }
}

#[test]
fn a_found_lyric_is_kept_and_shown() {
    let mut hub = LyricsHub::default();
    let request = begun(&mut hub, "Song");
    assert!(matches!(hub.answer_from_cache(&request, None, 5), CacheStep::Fetch(None)));
    match hub.answer_from_lookup(&request, None, found(&["a"]), 5) {
        LookupStep::Fresh(Some(shown), file) => {
            assert_eq!(shown.track, request.track);
            assert!(!shown.from_cache);
            assert_eq!(file.lyrics, shown);
            assert_eq!((file.created_at, file.expires_at), (5, 65));
            assert_eq!(file.match_score, Some(90));
        }
        other => panic!("{other:?}"),
    }
    assert_eq!(hub.current().status, LyricStatus::Found);
}

#[test]
fn nothing_found_is_shown_when_nothing_is_at_hand() {
    let mut hub = LyricsHub::default();
    let request = begun(&mut hub, "Song");
    match hub.answer_from_lookup(&request, None, missing_outcome(false), 5) {
        LookupStep::Fresh(Some(shown), file) => {
            assert_eq!(shown.status, LyricStatus::NotFound);
            assert_eq!(file.expires_at, 305);
        }
        other => panic!("{other:?}"),
    }
}

#[test]
fn a_refresh_goes_past_the_cache() {
    let mut hub = LyricsHub::default();
    assert_eq!(
        hub.lyrics_refresh(false, Some(&playing("Song"))).unwrap_err(),
        RefreshError::Disabled
    );
    assert_eq!(hub.lyrics_refresh(true, None).unwrap_err(), RefreshError::NothingPlaying);
    assert_eq!(
        hub.lyrics_refresh(true, Some(&playing(""))).unwrap_err(),
        RefreshError::NothingPlaying
    );
    assert_eq!(RefreshError::Disabled.message(), "lyrics are disabled");
    assert_eq!(RefreshError::NothingPlaying.message(), "nothing is playing");

    // Another track: as if it had just begun.
    let first = hub.lyrics_refresh(true, Some(&playing("Song"))).unwrap().request.unwrap();
    assert!(!first.force);
    // While it is loading, nothing more.
    let step = hub.lyrics_refresh(true, Some(&playing("Song"))).unwrap();
    assert!(step.request.is_none() && step.published.is_empty());

    hub.answer_from_lookup(&first, None, found(&["a"]), 5);
    let step = hub.lyrics_refresh(true, Some(&playing("Song"))).unwrap();
    let second = step.request.unwrap();
    assert!(second.force);
    assert_eq!(second.generation, 2);
    assert_eq!(step.published[0].status, LyricStatus::Loading);
    assert_eq!(step.published[0].lines.len(), 1);
    assert!(!hub.is_current(&first));
    match hub.answer_from_cache(&second, Some(cached(&["b"])), 0) {
        CacheStep::Fetch(Some(stale)) => assert_eq!(stale.lines[0].text, "b"),
        other => panic!("{other:?}"),
    }
    // Without a cache, what is on show stands in.
    match hub.answer_from_cache(&second, None, 0) {
        CacheStep::Fetch(Some(stale)) => assert_eq!(stale.lines[0].text, "a"),
        other => panic!("{other:?}"),
    }
}

#[test]
fn the_same_lyrics_are_published_once() {
    let mut hub = LyricsHub::default();
    let shown = lyrics(LyricStatus::Found, &["a"]);
    assert_eq!(hub.publish(shown.clone()), Some(shown.clone()));
    assert_eq!(hub.publish(shown), None);
}
