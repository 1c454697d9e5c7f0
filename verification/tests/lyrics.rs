use bangs::lyrics::align::{align_translation, pair_translation};
use bangs::lyrics::cache::{cache_name, read_cache, write_cache, CacheFile, CACHE_VERSION};
use bangs::lyrics::parse::{
    parse_lrc, parse_qrc, parse_qrc_words, parse_stamp, parse_translation, parse_yrc,
    parse_yrc_words, qrc_content, sort_lines,
};
use bangs::lyrics::select::{
    choose_from_batches, choose_result, has_timing, missing_outcome, source_affinity,
    FetchedLyrics, SourceBatch, ERROR_CACHE_TTL, GOOD_CACHE_TTL, MISS_CACHE_TTL,
    PARTIAL_CACHE_TTL,
};
use bangs::lyrics::song::{
    comparable, first_artist, match_score, normalize, plain_title, player_kind, playing_texts,
    same_recording, split_artists, track_key, version_tags, Confidence, MatchScore, PlayerKind, Request, SongMeta,
};
use bangs::lyrics::{LyricLine, LyricStatus, LyricWord, Lyrics, Provider};
use bangs::media::MediaState;
use bangs::number::{read_number, ABOVE, BELOW, NEGATIVE_NOT_A_NUMBER, NOT_A_NUMBER};
use std::collections::hash_map::DefaultHasher;
use std::hash::{Hash, Hasher};

fn ticks(seconds: f64) -> i64 {
    (seconds * 10_000_000.0).round() as i64
}

fn seconds(ticks: i64) -> f64 {
    ticks as f64 / 10_000_000.0
}

fn length(duration: Option<f64>) -> Option<i64> {
    duration.map(ticks)
}

fn chars(text: &str) -> Vec<char> {
    text.chars().collect()
}

fn media(source_id: &str, app_name: &str) -> MediaState {
    MediaState {
        title: "Song".into(),
        artist: "Artist".into(),
        album: "Album".into(),
        app_name: app_name.into(),
        source_id: source_id.into(),
        playing: true,
        duration: Some(ticks(180.0)),
        elapsed: Some(ticks(10.0)),
        elapsed_at: 0,
        artwork: None,
    }
}

fn request(title: &str, artist: &str, album: &str, duration: Option<f64>) -> Request {
    Request {
        track: "track".into(),
        title: title.into(),
        artist: artist.into(),
        album: album.into(),
        duration: length(duration),
        player: PlayerKind::Other,
        generation: 1,
        force: false,
        folded: comparable(title, &split_artists(artist), album),
    }
}

fn meta(title: &str, artist: &str, album: &str, duration: Option<f64>) -> SongMeta {
    let artists: Vec<String> = if artist.is_empty() {
        Vec::new()
    } else {
        vec![artist.into()]
    };
    SongMeta {
        title: title.into(),
        folded: comparable(title, &artists, album),
        artists,
        album: album.into(),
        duration: length(duration),
    }
}

fn lines(prefix: &str, count: usize, offset: f64) -> Vec<LyricLine> {
    (0..count)
        .map(|index| LyricLine {
            at: ticks(index as f64 * 2.0 + offset),
            text: format!("{prefix}{index}"),
            translation: None,
            words: Vec::new(),
        })
        .collect()
}

fn candidate(
    provider: Provider,
    score: i32,
    confidence: Confidence,
    word_timed: bool,
    translations: Vec<LyricLine>,
) -> FetchedLyrics {
    let mut lyric_lines = lines("line", 10, 0.0);
    if word_timed {
        for line in &mut lyric_lines {
            line.words.push(LyricWord {
                at: line.at,
                duration: ticks(1.0),
                text: line.text.clone(),
            });
        }
    }
    FetchedLyrics {
        provider,
        meta: meta("Song", "Artist", "Album", Some(180.0)),
        score: MatchScore {
            total: score,
            confidence,
        },
        lines: lyric_lines,
        translations,
    }
}

#[test]
fn detects_known_player_identifiers() {
    assert_eq!(
        player_kind(&media("com.tencent.QQMusicMac", "QQ 音乐")),
        PlayerKind::QqMusic
    );
    assert_eq!(
        player_kind(&media("com.netease.163music", "网易云音乐")),
        PlayerKind::NetEase
    );
    assert_eq!(
        player_kind(&media("com.spotify.client", "Spotify")),
        PlayerKind::Spotify
    );
}

#[test]
fn exact_metadata_is_reliable_and_title_only_is_uncertain() {
    let exact = match_score(
        &request("Song", "Artist", "Album", Some(180.0)),
        &meta("Song", "Artist", "Album", Some(181.0)),
    );
    assert_eq!(exact.confidence, Confidence::Reliable);
    assert!(exact.total >= 75);

    let title_only = match_score(
        &request("Song", "", "", None),
        &meta("Song", "Other", "Other", None),
    );
    assert_eq!(title_only.confidence, Confidence::Uncertain);
}

#[test]
fn missing_artist_requires_album_and_duration() {
    let score = match_score(
        &request("Song", "", "Album", Some(180.0)),
        &meta("Song", "Artist", "Album", Some(181.0)),
    );
    assert_eq!(score.confidence, Confidence::Reliable);
}

#[test]
fn conflicting_versions_are_not_reliable() {
    let score = match_score(
        &request("Song - Live", "Artist", "Album", Some(180.0)),
        &meta("Song - Remix", "Artist", "Album", Some(180.0)),
    );
    assert_eq!(score.confidence, Confidence::Uncertain);
}

#[test]
fn parses_yrc_words() {
    let lines = parse_yrc("[1000,1000]he(1000,400)llo(1400,600)");
    assert_eq!(lines[0].text, "hello");
    assert_eq!(lines[0].words.len(), 2);
    assert!((seconds(lines[0].words[1].at) - 1.4).abs() < f64::EPSILON);

    let prefixed = parse_yrc("[1000,1000](1000,400,0)he(1400,600,0)llo");
    assert_eq!(prefixed[0].text, "hello");
    assert_eq!(prefixed[0].words.len(), 2);
    assert!((seconds(prefixed[0].words[0].at) - 1.0).abs() < f64::EPSILON);
}

#[test]
fn parses_qrc_content_and_character_timings() {
    let lines = parse_qrc(r#"<LyricContent="[0,1000]he(0,500)llo(500,500)"/>"#);
    assert_eq!(lines[0].text, "hello");
    assert_eq!(lines[0].words.len(), 2);
    assert!((seconds(lines[0].words[1].duration) - 0.5).abs() < f64::EPSILON);
}

#[test]
fn aligns_positive_and_negative_translation_offsets() {
    let original = lines("line", 8, 0.0);
    let translated = lines("译", 8, 1.2);
    let (_, offset, matched) = align_translation(&original, &translated).unwrap();
    assert!((seconds(offset) + 1.2).abs() <= 0.05);
    assert_eq!(matched, 8);

    let early = lines("译", 8, -0.8);
    let (_, offset, matched) = align_translation(&original, &early).unwrap();
    assert!((seconds(offset) - 0.8).abs() <= 0.05);
    assert_eq!(matched, 8);
}

#[test]
fn rejects_translation_with_low_timeline_coverage() {
    let original = lines("line", 10, 0.0);
    let mut translated = lines("译", 3, 0.0);
    translated.extend(lines("wrong", 7, 100.0));
    assert!(align_translation(&original, &translated).is_none());
}

#[test]
fn qrc_translation_preserves_literal_parentheses() {
    let lines = parse_qrc(r#"<LyricContent="[1000,1000]Hello(1200,800)"/>"#);
    let translations =
        parse_translation(r#"<LyricContent="[1000,1000]你好（朋友）(1000,1000)"/>"#);
    let (lines, _, _) = align_translation(&lines, &translations).unwrap();
    assert_eq!(lines[0].translation.as_deref(), Some("你好（朋友）"));
}

#[test]
fn selection_prefers_match_then_word_timing_then_translation() {
    let translation = lines("译", 10, 1.0);
    let lower_match = candidate(
        Provider::NeteaseYrc,
        80,
        Confidence::Reliable,
        true,
        translation.clone(),
    );
    let higher_match = candidate(Provider::QqLrc, 90, Confidence::Reliable, false, Vec::new());
    let outcome = choose_result(vec![lower_match, higher_match], PlayerKind::Other, true);
    assert_eq!(outcome.lyrics.source.unwrap().original, Provider::QqLrc);

    let plain = candidate(Provider::QqLrc, 90, Confidence::Reliable, false, Vec::new());
    let timed = candidate(
        Provider::NeteaseYrc,
        90,
        Confidence::Reliable,
        true,
        translation,
    );
    let outcome = choose_result(vec![plain, timed], PlayerKind::Other, true);
    assert_eq!(
        outcome.lyrics.source.unwrap().original,
        Provider::NeteaseYrc
    );
    assert!(outcome.lyrics.word_timed);
}

#[test]
fn cross_source_translation_is_reported_and_extends_cache_ttl() {
    let original = candidate(Provider::QqQrc, 90, Confidence::Reliable, true, Vec::new());
    let translation = candidate(
        Provider::NeteaseLrc,
        90,
        Confidence::Reliable,
        false,
        lines("译", 10, 1.0),
    );
    let outcome = choose_result(vec![original, translation], PlayerKind::Other, true);
    let source = outcome.lyrics.source.unwrap();
    assert_eq!(source.original, Provider::QqQrc);
    assert_eq!(source.translation, Some(Provider::NeteaseLrc));
    assert_eq!(outcome.ttl, GOOD_CACHE_TTL);
}

#[test]
fn player_source_breaks_equal_quality_ties() {
    let qq = candidate(Provider::QqQrc, 90, Confidence::Reliable, true, Vec::new());
    let netease = candidate(
        Provider::NeteaseYrc,
        90,
        Confidence::Reliable,
        true,
        Vec::new(),
    );
    let outcome = choose_result(vec![qq, netease], PlayerKind::NetEase, true);
    assert_eq!(
        outcome.lyrics.source.unwrap().original,
        Provider::NeteaseYrc
    );
}

#[test]
fn uncertain_result_never_exposes_lines() {
    let outcome = choose_result(
        vec![candidate(
            Provider::QqLrc,
            60,
            Confidence::Uncertain,
            false,
            Vec::new(),
        )],
        PlayerKind::Other,
        true,
    );
    assert_eq!(outcome.lyrics.status, LyricStatus::Uncertain);
    assert!(outcome.lyrics.lines.is_empty());
    assert_eq!(outcome.ttl, MISS_CACHE_TTL);
}

fn found_cache(version: u8) -> CacheFile {
    CacheFile {
        version,
        created_at: 10,
        expires_at: 20,
        match_score: Some(90),
        lyrics: Lyrics {
            status: LyricStatus::Found,
            ..Lyrics::default()
        },
    }
}

#[test]
fn cache_v4_round_trips_and_v3_is_rejected() {
    assert_eq!(CACHE_VERSION, 4);
    assert_eq!(read_cache(found_cache(CACHE_VERSION)).unwrap().expires_at, 20);
    assert!(read_cache(found_cache(3)).is_none());
    assert_eq!(Provider::NeteaseYrc.name(), "netease-yrc");
    assert_eq!(missing_outcome(false).ttl, ERROR_CACHE_TTL);
}

#[test]
fn players_are_told_by_either_name() {
    assert_eq!(player_kind(&media("x", "QQ音乐")), PlayerKind::QqMusic);
    assert_eq!(player_kind(&media("QQMusic.exe", "")), PlayerKind::QqMusic);
    assert_eq!(player_kind(&media("CloudMusic.exe", "")), PlayerKind::NetEase);
    assert_eq!(player_kind(&media("", "NETEASE")), PlayerKind::NetEase);
    assert_eq!(player_kind(&media("com.apple.Music", "Music")), PlayerKind::Other);
    // Spotify is looked for first.
    assert_eq!(player_kind(&media("spotify", "QQ 音乐")), PlayerKind::Spotify);
}

#[test]
fn scores_add_up() {
    let wanted = request("Song", "Artist", "Album", Some(180.0));
    // 50 + 25 + 10 + 10 + 5
    assert_eq!(match_score(&wanted, &meta("Song", "Artist", "Album", Some(183.0))).total, 100);
    // The length is more than three seconds off: 5 points in place of 10.
    assert_eq!(match_score(&wanted, &meta("Song", "Artist", "Album", Some(183.5))).total, 95);
    assert_eq!(match_score(&wanted, &meta("Song", "Artist", "Album", Some(188.0))).total, 95);
    assert_eq!(match_score(&wanted, &meta("Song", "Artist", "Album", Some(189.0))).total, 90);
    assert_eq!(match_score(&wanted, &meta("Song", "Artist", "Album", None)).total, 90);
    // One album's name within the other: 5; an artist's: 15.
    assert_eq!(match_score(&wanted, &meta("Song", "Artist", "Album II", None)).total, 85);
    assert_eq!(match_score(&wanted, &meta("Song", "The Artist", "Album", None)).total, 80);
    // The plain titles agree: 42; one is within the other: 25.
    assert_eq!(match_score(&wanted, &meta("Song (x)", "Artist", "Album", None)).total, 82);
    assert_eq!(match_score(&wanted, &meta("Songs", "Artist", "Album", None)).total, 65);
    // Another version: -20 in place of 5.
    assert_eq!(match_score(&wanted, &meta("Song - Live", "Artist", "Album", None)).total, 57);
    // Nothing below zero.
    let other = match_score(&wanted, &meta("Else Live", "", "", None));
    assert_eq!(other.total, 0);
    assert_eq!(other.confidence, Confidence::Rejected);
}

#[test]
fn a_title_with_nothing_in_common_is_rejected() {
    let score = match_score(
        &request("Song", "Artist", "Album", Some(180.0)),
        &meta("Else", "Artist", "Album", Some(180.0)),
    );
    assert_eq!(score.confidence, Confidence::Rejected);
    assert_eq!(score.total, 50);
}

#[test]
fn conflicting_versions_may_share_every_letter() {
    // The two titles name different versions and are the same all the same.
    let score = match_score(
        &request("Song Li-ve", "Artist", "Album", Some(180.0)),
        &meta("Song Live", "Artist", "Album", Some(180.0)),
    );
    assert_eq!(score.confidence, Confidence::Reliable);
    assert_eq!(score.total, 75);
}

#[test]
fn titles_lose_their_decoration() {
    assert_eq!(plain_title("Song - Live"), "Song");
    assert_eq!(plain_title("Song (feat. X)"), "Song");
    assert_eq!(plain_title("歌（现场）"), "歌");
    assert_eq!(plain_title("Song [Remix] - Y"), "Song");
    assert_eq!(plain_title(" Song "), "Song");
    assert_eq!(plain_title("(Don't Fear) The Reaper"), "(Don't Fear) The Reaper");
    assert_eq!(plain_title(" (x) "), "(x)");
    assert_eq!(plain_title(""), "");
}

#[test]
fn billings_are_split() {
    assert_eq!(split_artists("A feat. B & C, D"), ["a", "b", "c", "d"]);
    assert_eq!(split_artists("A x B featuring C feat D"), ["a", "b", "c", "d"]);
    assert_eq!(split_artists("周杰伦、方文山×A；B，C"), ["周杰伦", "方文山", "a", "b", "c"]);
    assert_eq!(split_artists(" / ;"), Vec::<String>::new());
    assert_eq!(first_artist("Simon & Garfunkel"), "simon");
    assert_eq!(first_artist(" / "), "/");
    assert_eq!(first_artist(""), "");
}

#[test]
fn texts_are_compared_by_letters_and_digits() {
    assert_eq!(normalize("Don't Stop! (2024)"), "dontstop2024");
    assert_eq!(normalize("当时的 月亮"), "当时的月亮");
    assert_eq!(normalize("ÀÉ"), "àé");
    assert_eq!(normalize("!?"), "");
    assert_eq!(track_key("Song!", "An Artist", ""), "song\u{1f}anartist\u{1f}");
}

#[test]
fn versions_are_read_from_titles() {
    let tags = version_tags("Song (LIVE) 现场 伴奏");
    assert!(tags.live && tags.on_stage && tags.backing);
    assert!(!tags.remix && !tags.acoustic && !tags.instrumental && !tags.remaster);
    assert!(version_tags("Remixed").remix);
    assert!(version_tags("Acoustic").acoustic);
    assert!(version_tags("Instrumental").instrumental);
    assert!(version_tags("2011 Remastered").remaster);
}

#[test]
fn one_recording_is_told_in_either_order() {
    let left = meta("Song - Live", "Artist", "Album", Some(180.0));
    let right = meta("Song", "ARTIST", "Other", None);
    assert!(same_recording(&left, &right));
    assert!(same_recording(&right, &left));

    let third = meta("Song", "Nobody", "album", Some(188.0));
    assert!(same_recording(&left, &third));
    let fourth = meta("Song", "Nobody", "album", Some(188.5));
    assert!(!same_recording(&left, &fourth));
    assert!(!same_recording(&left, &meta("Else", "Artist", "Album", Some(180.0))));
}

#[test]
fn stamps_are_read() {
    assert_eq!(parse_stamp(&chars("1:2.5")), Some(ticks(62.5)));
    assert_eq!(parse_stamp(&chars("00:01.00")), Some(ticks(1.0)));
    assert_eq!(parse_stamp(&chars("00:01:50")), Some(ticks(1.5)));
    assert_eq!(parse_stamp(&chars("ar:someone")), None);
    assert_eq!(parse_stamp(&chars("12")), None);
    assert_eq!(parse_stamp(&chars("-1:00")), Some(ticks(-60.0)));
}

#[test]
fn numbers_are_read_as_std_reads_them() {
    let texts = [
        "1", "+1", "-1", "1.5", ".5", "5.", "1e3", "1E-3", "1e+2", "00.10", "-0", "12345.678",
        "0.000001", "1e", "e1", ".", "", "+", "1.2.3", " 1", "1 ", "0x1", "1_0", "inf", "-inf",
        "infinity", "NaN", "-nan", "+nan", "in", "--1", "1e-400", "9e18", "-9e18", "1e308", "1.7976931348623157e308",
        "1.7976931348623158e308", "1.7976931348623159e308", "-1.8e308", "1e309", "0.1e309", "1e400",
        "179769e304", "000179770e304", "0e999", "1e99999999999999999999999999999999999999999999",
        "-1e-99999999999999999999999999999999999999999999",
    ];
    for text in texts {
        let mine = read_number(&chars(text), 7);
        match text.parse::<f64>() {
            Ok(value) if value.is_finite() => {
                let count = mine.unwrap();
                let wanted = value * 1e7;
                if wanted.abs() < 9e18 {
                    assert!((count as f64 - wanted).abs() <= 1.0, "{text}");
                } else {
                    assert!(count == ABOVE - 1 || count == BELOW + 1, "{text}");
                }
            }
            Ok(value) => {
                let wanted = match (value.is_nan(), value.is_sign_negative()) {
                    (true, true) => NEGATIVE_NOT_A_NUMBER,
                    (true, false) => NOT_A_NUMBER,
                    (false, true) => BELOW,
                    (false, false) => ABOVE,
                };
                assert_eq!(mine, Some(wanted), "{text}");
            }
            Err(_) => assert_eq!(mine, None, "{text}"),
        }
    }
}

#[test]
fn lrc_rows_share_their_text_and_come_in_order() {
    let lines = parse_lrc("[ar:x]\r\n[00:10.00][00:02.00]two\n[00:05]five\n\n[00:01]  \nno stamp");
    let shown: Vec<(i64, &str)> = lines.iter().map(|l| (l.at, l.text.as_str())).collect();
    assert_eq!(
        shown,
        [(ticks(2.0), "two"), (ticks(5.0), "five"), (ticks(10.0), "two")]
    );
    assert!(lines.iter().all(|line| line.words.is_empty() && line.translation.is_none()));
}

#[test]
fn sorting_keeps_the_order_of_equal_times() {
    let mut rows = lines("a", 1, 4.0);
    rows.extend(lines("b", 1, 2.0));
    rows.extend(lines("c", 1, 4.0));
    rows.extend(lines("d", 1, 2.0));
    let sorted = sort_lines(rows);
    let texts: Vec<&str> = sorted.iter().map(|line| line.text.as_str()).collect();
    assert_eq!(texts, ["b0", "d0", "a0", "c0"]);
}

#[test]
fn words_are_read_with_their_times() {
    let words = parse_qrc_words(&chars("he(0,500)llo(500,250)"));
    assert_eq!(words.len(), 2);
    assert_eq!((words[0].at, words[0].duration), (0, ticks(0.5)));
    assert_eq!((words[1].at, words[1].duration), (ticks(0.5), ticks(0.25)));
    assert_eq!(words[1].text, "llo");

    let words = parse_yrc_words(&chars("(0,500,0)he(500,250,0)llo"));
    assert_eq!(words.len(), 2);
    assert_eq!((words[1].at, words[1].duration), (ticks(0.5), ticks(0.25)));
    assert_eq!(words[1].text, "llo");
}

#[test]
fn qrc_content_ends_at_the_last_quote() {
    assert_eq!(qrc_content(r#"<a LyricContent="x"y"/>"#).as_deref(), Some("x\"y"));
    assert_eq!(qrc_content("<a/>"), None);
    assert_eq!(qrc_content("LyricContent=\"x"), None);
}

#[test]
fn plain_translations_are_read_as_lrc() {
    let rows = parse_translation("[00:01.00]你好\n[00:03.00]//");
    assert_eq!(rows[0].text, "你好");
    assert_eq!(rows[0].at, ticks(1.0));
}

#[test]
fn pairing_only_adds_translations() {
    let original = lines("line", 3, 0.0);
    let (paired, matched) = pair_translation(&original, &lines("译", 3, 0.0), 0);
    assert_eq!(matched, 3);
    for (before, after) in original.iter().zip(&paired) {
        assert_eq!((before.at, &before.text), (after.at, &after.text));
    }
    assert_eq!(paired[2].translation.as_deref(), Some("译2"));
}

#[test]
fn alignment_keeps_within_reach() {
    let original = lines("line", 8, 0.0);
    assert!(align_translation(&original, &lines("译", 8, 30.0)).is_none());
    assert!(align_translation(&original, &Vec::new()).is_none());
    assert!(align_translation(&Vec::new(), &original).is_none());
}

#[test]
fn affinity_follows_the_player() {
    assert!(Provider::QqLrc.is_qq() && Provider::QqQrc.is_qq());
    assert!(!Provider::NeteaseLrc.is_qq() && !Provider::NeteaseYrc.is_qq());
    assert!(
        source_affinity(PlayerKind::QqMusic, Provider::QqLrc)
            > source_affinity(PlayerKind::QqMusic, Provider::NeteaseLrc)
    );
    assert!(
        source_affinity(PlayerKind::NetEase, Provider::NeteaseLrc)
            > source_affinity(PlayerKind::NetEase, Provider::QqLrc)
    );
}

#[test]
fn timing_wants_finite_times_from_zero_on() {
    assert!(has_timing(&lines("line", 2, 0.0)));
    assert!(!has_timing(&Vec::new()));
    assert!(!has_timing(&lines("line", 2, -1.0)));
    let mut endless = lines("line", 2, 0.0);
    endless[1].at = ABOVE;
    assert!(!has_timing(&endless));
    endless[1].at = NOT_A_NUMBER;
    assert!(!has_timing(&endless));
}

#[test]
fn nothing_found_is_kept_for_a_while() {
    let silent = missing_outcome(false);
    assert_eq!(silent.lyrics.status, LyricStatus::NotFound);
    assert_eq!(silent.ttl, 300);
    let missed = missing_outcome(true);
    assert_eq!(missed.lyrics.status, LyricStatus::NotFound);
    assert_eq!(missed.ttl, 21_600);
    assert_eq!(missed.match_score, None);
}

#[test]
fn plain_lyrics_are_kept_for_a_week() {
    let outcome = choose_result(
        vec![candidate(Provider::QqLrc, 90, Confidence::Reliable, false, Vec::new())],
        PlayerKind::Other,
        true,
    );
    assert_eq!(outcome.lyrics.status, LyricStatus::Found);
    assert_eq!(outcome.lyrics.lines.len(), 10);
    assert!(outcome.lyrics.timed && !outcome.lyrics.word_timed);
    assert_eq!(outcome.match_score, Some(90));
    assert_eq!(outcome.ttl, PARTIAL_CACHE_TTL);
}

#[test]
fn batches_are_chosen_from_together() {
    let batches = vec![
        SourceBatch {
            candidates: vec![candidate(Provider::QqLrc, 80, Confidence::Reliable, false, Vec::new())],
            responded: true,
        },
        SourceBatch {
            candidates: vec![candidate(
                Provider::NeteaseLrc,
                90,
                Confidence::Reliable,
                false,
                Vec::new(),
            )],
            responded: false,
        },
    ];
    let outcome = choose_from_batches(batches, PlayerKind::QqMusic);
    assert_eq!(outcome.lyrics.source.unwrap().original, Provider::NeteaseLrc);
    assert_eq!(choose_from_batches(Vec::new(), PlayerKind::Other).ttl, ERROR_CACHE_TTL);
}

#[test]
fn cache_names_are_the_hash_of_the_track() {
    for track in ["", "song\u{1f}artist\u{1f}album", "当时的月亮"] {
        let mut hasher = DefaultHasher::new();
        track.hash(&mut hasher);
        let wanted = format!("{:016x}.json", hasher.finish());
        assert_eq!(cache_name(track), wanted);
        assert_eq!(wanted.len(), 21);
    }
}

#[test]
fn written_caches_are_read_back() {
    let lyrics = Lyrics {
        track: "track".into(),
        status: LyricStatus::Found,
        lines: lines("line", 2, 0.0),
        ..Lyrics::default()
    };
    let cache = write_cache(&lyrics, Some(90), 300, 1_000);
    assert_eq!((cache.version, cache.created_at, cache.expires_at), (4, 1_000, 1_300));
    let read = read_cache(cache).unwrap();
    assert_eq!(read.lyrics, lyrics);
    assert_eq!(read.match_score, Some(90));
    assert_eq!(write_cache(&lyrics, None, 300, u64::MAX).expires_at, u64::MAX);
}

#[test]
fn names_are_read_again() {
    for status in [
        LyricStatus::Idle,
        LyricStatus::Loading,
        LyricStatus::Found,
        LyricStatus::Uncertain,
        LyricStatus::NotFound,
    ] {
        assert_eq!(LyricStatus::from_name(&status.name()), Some(status));
    }
    for provider in [
        Provider::QqQrc,
        Provider::QqLrc,
        Provider::NeteaseYrc,
        Provider::NeteaseLrc,
    ] {
        assert_eq!(Provider::from_name(&provider.name()), Some(provider));
    }
    assert_eq!(LyricStatus::NotFound.name(), "notFound");
    assert_eq!(LyricStatus::default(), LyricStatus::Idle);
    assert_eq!(LyricStatus::from_name("lost"), None);
    assert_eq!(Provider::from_name("qq"), None);
}

#[test]
fn written_words_are_read_back() {
    let lines = parse_qrc("LyricContent=\"[500,900]a b(500,400)（c）(900,500)\"");
    let words: Vec<(i64, i64, &str)> =
        lines[0].words.iter().map(|w| (w.at, w.duration, w.text.as_str())).collect();
    assert_eq!(words, [(ticks(0.5), ticks(0.4), "a b"), (ticks(0.9), ticks(0.5), "（c）")]);
    assert_eq!(lines[0].at, ticks(0.5));
    // A YRC row starts where its first word does.
    let lines = parse_yrc("[500,900](700,200,0)x(900,500,0)y");
    assert_eq!((lines[0].at, lines[0].text.as_str()), (ticks(0.7), "xy"));
}

#[test]
fn keys_tell_tracks_apart() {
    let texts = ["", "a", "A!", "b", "a\u{1f}b", "\u{1f}", "ab"];
    let alike = |a: &str, b: &str| normalize(a) == normalize(b);
    for a in texts {
        assert!(!normalize(a).contains('\u{1f}'));
        for b in texts {
            for c in texts {
                for d in texts {
                    let same = track_key(a, b, "x") == track_key(c, d, "x");
                    assert_eq!(same, alike(a, c) && alike(b, d), "{a:?} {b:?} {c:?} {d:?}");
                }
            }
        }
    }
}

#[test]
fn what_plays_is_compared_by_its_texts() {
    let mut playing = media("", "");
    playing.title = "Song - Live".into();
    playing.artist = "A feat. B".into();
    let texts = playing_texts(&playing);
    assert_eq!((texts.title.as_str(), texts.base.as_str()), ("Song - Live", "Song"));
    assert_eq!(texts.artists, ["a", "b"]);
    assert_eq!(texts.album, "Album");
}

#[test]
fn no_number_stops_the_pairing() {
    let original = lines("line", 3, 0.0);
    for at in [NOT_A_NUMBER, NEGATIVE_NOT_A_NUMBER, ABOVE] {
        let mut rows = lines("译", 3, 0.0);
        rows[1].at = at;
        let (paired, matched) = pair_translation(&original, &rows, 0);
        assert_eq!(matched, 1);
        assert_eq!(paired[0].translation.as_deref(), Some("译0"));
        assert_eq!(paired[2].translation, None);
    }
    // Minus infinity is only early.
    let mut rows = lines("译", 3, 0.0);
    rows[1].at = BELOW;
    assert_eq!(pair_translation(&original, &rows, 0).1, 2);
}

#[test]
fn no_number_sorts_last_and_infinities_cancel() {
    let rows = parse_yrc("[0,1](nan,1,0)a\n[0,1](inf,1,0)b\n[0,1](5,1,0)c\n[0,1](-nan,1,0)d");
    let texts: Vec<&str> = rows.iter().map(|row| row.text.as_str()).collect();
    assert_eq!(texts, ["d", "c", "b", "a"]);
    assert_eq!(parse_stamp(&chars("inf:-inf")), Some(NOT_A_NUMBER));
    assert_eq!(parse_stamp(&chars("inf:1")), Some(ABOVE));
    assert_eq!(parse_stamp(&chars("1:-inf")), Some(BELOW));
    assert_eq!(parse_stamp(&chars("1:nan")), Some(NOT_A_NUMBER));
}

#[test]
fn numbers_turn_infinite_where_doubles_do() {
    let least = "179769313486231580793728971405303415079934132710037826936173778980444968292764750946649017977587207096330286416692887910946555547851940402630657488671505820681908902000708383676273854845817711531764475730270069855571366959622842914819860834936475292719074168444365510704342711559699508093042880177904174497792";
    let under = "179769313486231580793728971405303415079934132710037826936173778980444968292764750946649017977587207096330286416692887910946555547851940402630657488671505820681908902000708383676273854845817711531764475730270069855571366959622842914819860834936475292719074168444365510704342711559699508093042880177904174497791";
    assert_eq!(least.parse::<f64>().unwrap(), f64::INFINITY);
    assert_eq!(under.parse::<f64>().unwrap(), f64::MAX);
    assert_eq!(read_number(&chars(least), 7), Some(ABOVE));
    assert_eq!(read_number(&chars(under), 7), Some(ABOVE - 1));
    assert_eq!(read_number(&chars(&format!("-00{least}.5")), 7), Some(BELOW));
    assert_eq!(read_number(&chars(&format!("-{under}.9")), 7), Some(BELOW + 1));
    assert_eq!(read_number(&chars(&format!("0.{least}e309")), 7), Some(ABOVE));
}

#[test]
fn counts_are_rounded_down() {
    assert_eq!(read_number(&chars("0.00000019"), 7), Some(1));
    assert_eq!(read_number(&chars("-0.00000019"), 7), Some(-2));
    assert_eq!(read_number(&chars("-0.00000001"), 7), Some(-1));
    assert_eq!(read_number(&chars("-0.0000001000"), 7), Some(-1));
    assert_eq!(read_number(&chars("-0.0"), 7), Some(0));
    // What starts before the track is not timed, however little before.
    assert!(!has_timing(&parse_lrc("[0:-0.00000001]line")));
}
