use bangs::media::artwork::{artwork_size, artwork_url, sniff};
use bangs::media::session::{
    friendly_app_name, read_session, seek_target, ArtworkCache, Clock, SessionReport, Stopwatch,
    UNIX_EPOCH_TICKS,
};
use bangs::media::MediaCommand;
use bangs::number::ABOVE;

const SECOND: u64 = 10_000_000;

fn report(source_id: &str, title: &str) -> SessionReport {
    SessionReport {
        title: title.into(),
        artist: "Artist".into(),
        album: "Album".into(),
        source_id: source_id.into(),
        playing: true,
        start: 0,
        end: 0,
        position: 0,
        updated: 0,
    }
}

fn clock(seconds: u64) -> Clock {
    Clock { steady: seconds * SECOND, unix: 5 }
}

#[test]
fn a_track_under_way_is_not_timed() {
    let mut watch = Stopwatch::default();
    assert_eq!(watch.elapsed("p\u{1f}one", true, 0), None);
    assert_eq!(watch.elapsed("p\u{1f}one", true, 9 * SECOND), None);
}

#[test]
fn a_track_that_follows_another_is_timed() {
    let mut watch = Stopwatch::default();
    watch.elapsed("p\u{1f}one", true, 0);
    assert_eq!(watch.elapsed("p\u{1f}two", true, 10 * SECOND), Some(0));
    assert_eq!(watch.elapsed("p\u{1f}two", true, 13 * SECOND), Some(3 * SECOND));
    // Paused: the time stands still, and goes on from there.
    assert_eq!(watch.elapsed("p\u{1f}two", false, 14 * SECOND), Some(4 * SECOND));
    assert_eq!(watch.elapsed("p\u{1f}two", false, 20 * SECOND), Some(4 * SECOND));
    assert_eq!(watch.elapsed("p\u{1f}two", true, 30 * SECOND), Some(4 * SECOND));
    assert_eq!(watch.elapsed("p\u{1f}two", true, 31 * SECOND), Some(5 * SECOND));
    // A clock that goes back counts nothing.
    assert_eq!(watch.elapsed("p\u{1f}two", true, 2 * SECOND), Some(4 * SECOND));
}

#[test]
fn another_player_is_not_timed() {
    let mut watch = Stopwatch::default();
    watch.elapsed("p\u{1f}one", true, 0);
    assert_eq!(watch.elapsed("q\u{1f}two", true, SECOND), None);
    assert_eq!(watch.elapsed("p\u{1f}one", true, 2 * SECOND), None);
    assert_eq!(watch.elapsed("p\u{1f}three", true, 3 * SECOND), Some(0));
}

#[test]
fn sessions_without_a_title_say_nothing() {
    let mut artwork = ArtworkCache::default();
    let mut watch = Stopwatch::default();
    assert!(read_session(&report("x", ""), &mut artwork, &mut watch, clock(0)).is_none());
}

#[test]
fn timelines_are_read() {
    let mut artwork = ArtworkCache::default();
    let mut watch = Stopwatch::default();
    let session = SessionReport {
        start: 100,
        end: 1_000,
        position: 400,
        updated: UNIX_EPOCH_TICKS + 77,
        ..report("Spotify.exe", "Song")
    };
    let (state, ask) = read_session(&session, &mut artwork, &mut watch, clock(0)).unwrap();
    assert!(ask);
    assert_eq!(state.title, "Song");
    assert_eq!(state.app_name, "Spotify");
    assert_eq!(state.source_id, "Spotify.exe");
    assert_eq!((state.duration, state.elapsed, state.elapsed_at), (Some(900), Some(300), 77));
    assert_eq!(state.artwork, None);

    // A position without a length says nothing.
    let session = SessionReport { position: 400, ..report("x", "Song") };
    let (state, _) = read_session(&session, &mut artwork, &mut watch, clock(0)).unwrap();
    assert_eq!((state.duration, state.elapsed, state.elapsed_at), (None, None, 5));
}

#[test]
fn counted_time_stands_in_for_a_timeline() {
    let mut artwork = ArtworkCache::default();
    let mut watch = Stopwatch::default();
    let first = report("cloudmusic.exe", "One");
    let second = report("cloudmusic.exe", "Two");
    let (state, _) = read_session(&first, &mut artwork, &mut watch, clock(1)).unwrap();
    assert_eq!(state.elapsed, None);
    let (state, _) = read_session(&second, &mut artwork, &mut watch, clock(2)).unwrap();
    assert_eq!(state.elapsed, Some(0));
    let (state, _) = read_session(&second, &mut artwork, &mut watch, clock(5)).unwrap();
    assert_eq!((state.elapsed, state.duration), (Some(30_000_000), None));
    assert_eq!(state.app_name, "网易云音乐");
}

#[test]
fn artwork_is_asked_for_twenty_times() {
    let mut artwork = ArtworkCache::default();
    for _ in 0..20 {
        assert!(!artwork.gave_up());
        assert!(artwork.ask("one"));
        artwork.keep(None);
    }
    assert!(!artwork.ask("one"));
    assert!(artwork.gave_up());
    assert!(artwork.ask("two"));
    artwork.keep(Some("data:x".into()));
    assert!(!artwork.ask("two"));
    assert!(!artwork.gave_up());
    assert_eq!(artwork.data_url().as_deref(), Some("data:x"));
    assert!(artwork.ask("three"));
    assert_eq!(artwork.data_url(), None);
}

#[test]
fn a_kept_cover_is_shown() {
    let mut artwork = ArtworkCache::default();
    let mut watch = Stopwatch::default();
    let session = report("x", "Song");
    let (_, ask) = read_session(&session, &mut artwork, &mut watch, clock(0)).unwrap();
    assert!(ask);
    artwork.keep(Some("data:x".into()));
    let (state, ask) = read_session(&session, &mut artwork, &mut watch, clock(1)).unwrap();
    assert!(!ask);
    assert_eq!(state.artwork.as_deref(), Some("data:x"));
}

#[test]
fn images_are_told_by_their_bytes() {
    assert_eq!(sniff(&[0x89, b'P', b'N', b'G', 0]).as_deref(), Some("image/png"));
    assert_eq!(sniff(&[0xFF, 0xD8, 0xFF]).as_deref(), Some("image/jpeg"));
    assert_eq!(sniff(b"GIF89a").as_deref(), Some("image/gif"));
    assert_eq!(sniff(b"BM").as_deref(), Some("image/bmp"));
    assert_eq!(sniff(b"RIFF....WEBPVP8").as_deref(), Some("image/webp"));
    assert_eq!(sniff(b"RIFF....WAVE"), None);
    assert_eq!(sniff(b"RIFF....WEB"), None);
    assert_eq!(sniff(b"GIF"), None);
    assert_eq!(sniff(&[]), None);
}

#[test]
fn covers_become_data_urls() {
    assert_eq!(
        artwork_url(b"GIF8", "text/html").as_deref(),
        Some("data:image/gif;base64,R0lGOA==")
    );
    assert_eq!(
        artwork_url(b"abc", "image/avif").as_deref(),
        Some("data:image/avif;base64,YWJj")
    );
    assert_eq!(
        artwork_url(&[0xfb, 0xff], "application/octet-stream").as_deref(),
        Some("data:image/jpeg;base64,+/8=")
    );
    assert_eq!(artwork_url(&[], "image/png"), None);
    let url = artwork_url(&[0; 100], "").unwrap();
    assert_eq!(url.len(), "data:image/jpeg;base64,".len() + 136);
}

#[test]
fn covers_are_read_up_to_a_size() {
    assert_eq!(artwork_size(0), None);
    assert_eq!(artwork_size(1), Some(1));
    assert_eq!(artwork_size(8 * 1024 * 1024), Some(8 * 1024 * 1024));
    assert_eq!(artwork_size(8 * 1024 * 1024 + 1), None);
    assert_eq!(artwork_size(u64::MAX), None);
}

#[test]
fn players_have_friendly_names() {
    assert_eq!(friendly_app_name("SpotifyAB.SpotifyMusic_x!Spotify"), "Spotify");
    assert_eq!(friendly_app_name("QQMusic.exe"), "QQ 音乐");
    assert_eq!(friendly_app_name("cloudmusic.exe"), "网易云音乐");
    assert_eq!(friendly_app_name("KuGou"), "酷狗音乐");
    assert_eq!(friendly_app_name("kuwo"), "酷我音乐");
    assert_eq!(friendly_app_name("Microsoft.ZuneMusic_8!x"), "媒体播放器");
    assert_eq!(friendly_app_name("MSEdge"), "Microsoft Edge");
    assert_eq!(friendly_app_name("Chrome"), "Google Chrome");
    assert_eq!(friendly_app_name("firefox.exe"), "Firefox");
    assert_eq!(friendly_app_name("C:\\Apps\\Player.exe"), "Player");
    assert_eq!(friendly_app_name("C:\\Apps\\PLAYER.EXE"), "PLAYER");
    assert_eq!(friendly_app_name("Pack!App"), "App");
    assert_eq!(friendly_app_name("a!b\\c"), "c");
    assert_eq!(friendly_app_name("Player.Exe"), "Player.Exe");
    assert_eq!(friendly_app_name(".exe"), "");
    assert_eq!(friendly_app_name(""), "");
}

#[test]
fn seeking_starts_where_the_timeline_does() {
    assert_eq!(seek_target(MediaCommand::Seek { position: 50 }, 7), Some(57));
    assert_eq!(seek_target(MediaCommand::Seek { position: -50 }, 7), Some(7));
    assert_eq!(seek_target(MediaCommand::Seek { position: i64::MAX }, 7), Some(ABOVE - 1));
    assert_eq!(seek_target(MediaCommand::Toggle, 7), None);
    assert_eq!(seek_target(MediaCommand::Next, 7), None);
    assert_eq!(seek_target(MediaCommand::Previous, 7), None);
}
