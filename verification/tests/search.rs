use bangs::lyrics::lookup::{rank, Ask, Lookup};
use bangs::lyrics::search::{
    encode, lyric_page, netease_lyric, netease_lyric_in, netease_meta, qq_lyric, qq_lyric_in,
    qq_meta, qrc_lyric, qrc_sealed, read_sheet, search_page, search_queries, search_songs, songs_in,
    strip_jsonp, Catalogue, LyricFile, SearchHit, Sheet,
};
use bangs::lyrics::song::{
    comparable, split_artists, Confidence, MatchScore, PlayerKind, Request, SongMeta,
};
use bangs::lyrics::{LyricLine, Provider};
use bangs::number::ABOVE;
use serde_json::Value;

fn parse(raw: &str) -> Value {
    serde_json::from_str(raw).unwrap()
}

fn ticks(seconds: f64) -> i64 {
    (seconds * 10_000_000.0).round() as i64
}

fn request(title: &str, artist: &str) -> Request {
    Request {
        track: "track".into(),
        title: title.into(),
        artist: artist.into(),
        album: "Album".into(),
        duration: Some(ticks(180.0)),
        player: PlayerKind::Other,
        generation: 1,
        force: false,
        folded: comparable(title, &split_artists(artist), "Album"),
    }
}

fn hit(title: &str, artist: &str, id: Option<i64>, mid: &str) -> SearchHit {
    let artists = vec![artist.to_string()];
    SearchHit {
        meta: SongMeta {
            title: title.into(),
            folded: comparable(title, &artists, "Album"),
            artists,
            album: "Album".into(),
            duration: Some(ticks(180.0)),
        },
        id,
        mid: mid.into(),
    }
}

fn sheet(provider: Provider) -> Sheet {
    Sheet {
        provider,
        lines: vec![LyricLine {
            at: 0,
            text: "line".into(),
            translation: None,
            words: Vec::new(),
        }],
        translations: Vec::new(),
    }
}

fn lyric_url(ask: Ask) -> (LyricFile, String, bool) {
    match ask {
        Ask::Lyric { file, page, again } => (file, page.url, again),
        other => panic!("{other:?}"),
    }
}

fn search_url(ask: Ask) -> String {
    match ask {
        Ask::Search(page) => page.url,
        other => panic!("{other:?}"),
    }
}

#[test]
fn queries_are_percent_encoded() {
    assert_eq!(encode("aZ09-_.~"), "aZ09-_.~");
    assert_eq!(encode("a b&c"), "a%20b%26c");
    assert_eq!(encode("月/\u{7f}"), "%E6%9C%88%2F%7F");
    assert_eq!(encode("é😀"), "%C3%A9%F0%9F%98%80");
    assert_eq!(encode(""), "");
}

#[test]
fn callbacks_are_stripped() {
    assert_eq!(strip_jsonp("MusicJsonCallback({\"a\":{}})"), "{\"a\":{}}");
    assert_eq!(strip_jsonp("{\"a\":1}"), "{\"a\":1}");
    assert_eq!(strip_jsonp("}{"), "}{");
    assert_eq!(strip_jsonp("none"), "none");
    assert_eq!(strip_jsonp("回调({\"月\":1});"), "{\"月\":1}");
}

#[test]
fn qq_songs_are_described() {
    let meta = qq_meta(&parse(
        r#"{"songname":"歌 (Live)","singer":[{"name":"A"},{"id":1},{"name":"B"}],
            "albumname":"专辑","interval":181}"#,
    ));
    assert_eq!(meta.title, "歌 (Live)");
    assert_eq!(meta.artists, ["A", "B"]);
    assert_eq!(meta.album, "专辑");
    assert_eq!(meta.duration, Some(ticks(181.0)));
    assert_eq!(meta.folded.base, "歌");
    assert_eq!(meta.folded.artists, ["A", "B"]);
}

#[test]
fn netease_songs_are_described() {
    let meta = netease_meta(&parse(
        r#"{"name":"Song","artists":[{"name":"A"}],"album":{"name":"Album"},"duration":180500}"#,
    ));
    assert_eq!(meta.title, "Song");
    assert_eq!(meta.artists, ["A"]);
    assert_eq!(meta.album, "Album");
    assert_eq!(meta.duration, Some(ticks(180.5)));
}

#[test]
fn missing_descriptions_are_empty() {
    for raw in ["{}", "null", "[]", r#"{"songname":1,"singer":"A","interval":"1"}"#] {
        let meta = qq_meta(&parse(raw));
        assert_eq!(meta.title, "");
        assert!(meta.artists.is_empty());
        assert_eq!(meta.duration, None);
    }
}

#[test]
fn lengths_may_be_any_number() {
    let length = |raw: &str| qq_meta(&parse(&format!("{{\"interval\":{raw}}}"))).duration;
    assert_eq!(length("1.5"), Some(ticks(1.5)));
    assert_eq!(length("-2"), Some(ticks(-2.0)));
    assert_eq!(length("1e2"), Some(ticks(100.0)));
    assert_eq!(length("0.0"), Some(0));
    assert_eq!(length("1e300"), Some(ABOVE - 1));
    assert_eq!(length("true"), None);
}

#[test]
fn searches_list_their_songs() {
    let qq = r#"callback({"data":{"song":{"list":[
        {"songname":"A","songid":7,"songmid":"m7"},
        {"songname":"B","songid":"7"},
        {"songname":"C","songid":1.0,"songmid":""}]}}})"#;
    let hits = search_songs(Catalogue::Qq, qq).unwrap();
    let found: Vec<(&str, Option<i64>, &str)> = hits
        .iter()
        .map(|hit| (hit.meta.title.as_str(), hit.id, hit.mid.as_str()))
        .collect();
    assert_eq!(found, [("A", Some(7), "m7"), ("B", None, ""), ("C", None, "")]);

    let netease = r#"{"result":{"songs":[{"name":"A","id":-7},{"id":9223372036854775808}]}}"#;
    let hits = search_songs(Catalogue::NetEase, netease).unwrap();
    assert_eq!(hits[0].id, Some(-7));
    assert_eq!(hits[1].id, None);
    assert!(hits[1].meta.title.is_empty());

    assert!(search_songs(Catalogue::NetEase, "no json").is_none());
    assert!(search_songs(Catalogue::NetEase, "{}").is_none());
    assert!(search_songs(Catalogue::Qq, r#"{"data":{"song":{"list":{}}}}"#).is_none());
    // Only QQ Music wraps its answers.
    assert!(search_songs(Catalogue::NetEase, r#"c({"result":{"songs":[]}})"#).is_none());
    let empty = parse(r#"{"data":{"song":{"list":[]}}}"#);
    assert!(songs_in(Catalogue::Qq, &empty).unwrap().is_empty());
}

#[test]
fn qq_lyrics_are_read() {
    let found = qq_lyric(r#"cb({"lyric":"[00:01.00]one","trans":"[00:01.00]一"})"#).unwrap();
    assert_eq!(found.provider, Provider::QqLrc);
    assert_eq!(found.lines[0].text, "one");
    assert_eq!(found.translations[0].text, "一");
    assert!(qq_lyric(r#"{"lyric":"no lines"}"#).is_none());
    assert!(qq_lyric("").is_none());
    assert!(qq_lyric_in(&parse(r#"{"trans":"[00:01.00]x"}"#)).is_none());
    assert!(qq_lyric_in(&parse(r#"{"lyric":"[00:01]x"}"#)).unwrap().translations.is_empty());
}

#[test]
fn netease_prefers_word_timed_lyrics() {
    let both = r#"{"yrc":{"lyric":"[1000,1000](1000,400,0)he(1400,600,0)llo"},
        "lrc":{"lyric":"[00:01.00]plain"},"tlyric":{"lyric":"[00:01.00]一"}}"#;
    let found = netease_lyric(both).unwrap();
    assert_eq!(found.provider, Provider::NeteaseYrc);
    assert_eq!(found.lines[0].text, "hello");
    assert_eq!(found.translations[0].text, "一");

    let plain = parse(r#"{"yrc":{"lyric":""},"lrc":{"lyric":"[00:01.00]plain"}}"#);
    let found = netease_lyric_in(&plain).unwrap();
    assert_eq!(found.provider, Provider::NeteaseLrc);
    assert_eq!(found.lines[0].text, "plain");
    assert!(found.translations.is_empty());
    assert!(netease_lyric(r#"{"nolyric":true}"#).is_none());
    assert!(netease_lyric("<html>").is_none());
}

#[test]
fn sealed_blocks_are_found() {
    let document = "<a><![CDATA[ 0A1B ]]></a><b><![CDATA[2C]]></b>";
    let (lyric, translation) = qrc_sealed(document).unwrap();
    assert_eq!(lyric, "0A1B");
    assert_eq!(translation.as_deref(), Some("2C"));

    let (lyric, translation) = qrc_sealed("<![CDATA[x]]><![CDATA[ ]]>").unwrap();
    assert_eq!(lyric, "x");
    assert_eq!(translation, None);
    assert_eq!(qrc_sealed("<![CDATA[open").unwrap(), ("open".to_string(), None));
    assert!(qrc_sealed("<a/>").is_none());
}

#[test]
fn decrypted_lyrics_are_read() {
    let lyric = r#"<LyricContent="[1000,1000]Hello(1200,800)"/>"#;
    let translation = r#"<LyricContent="[1000,1000]你好(1000,1000)"/>"#;
    let found = qrc_lyric(lyric, Some(translation.to_string())).unwrap();
    assert_eq!(found.provider, Provider::QqQrc);
    assert_eq!(found.lines[0].text, "Hello");
    assert_eq!(found.translations[0].text, "你好");
    assert!(qrc_lyric(lyric, None).unwrap().translations.is_empty());
    assert!(qrc_lyric("nothing", None).is_none());
}

#[test]
fn plain_queries_follow_whole_ones() {
    assert_eq!(
        search_queries(Catalogue::Qq, "Song - Live", "A & B"),
        ["Song - Live A & B", "Song a"]
    );
    assert_eq!(search_queries(Catalogue::Qq, "Song", "a"), ["Song a"]);
    assert_eq!(search_queries(Catalogue::NetEase, "Song - Live", "A & B"), ["Song a"]);
}

#[test]
fn pages_are_spelled_out() {
    let page = search_page(Catalogue::Qq, "a b");
    assert_eq!(
        page.url,
        "https://c.y.qq.com/soso/fcgi-bin/client_search_cp?w=a%20b&format=json&n=20&p=1"
    );
    assert_eq!(page.referer, "https://y.qq.com/portal/player.html");
    let page = search_page(Catalogue::NetEase, "a b");
    assert_eq!(
        page.url,
        "https://music.163.com/api/search/get/web?s=a%20b&type=1&offset=0&total=true&limit=10"
    );
    assert_eq!(page.referer, "https://music.163.com/");
    let page = lyric_page(LyricFile::Qrc, 12, "");
    assert_eq!(
        page.url,
        "https://c.y.qq.com/qqmusic/fcgi-bin/lyric_download.fcg?version=15&miniversion=82&lrctype=4&musicid=12"
    );
    assert_eq!(page.referer, "https://y.qq.com");
    let page = lyric_page(LyricFile::QqLyric, 0, "m/1");
    assert_eq!(
        page.url,
        "https://c.y.qq.com/lyric/fcgi-bin/fcg_query_lyric_new.fcg?songmid=m%2F1&format=json&nobase64=1&g_tk=5381"
    );
    let page = lyric_page(LyricFile::NetEaseLyric, i64::MIN, "");
    assert_eq!(
        page.url,
        "https://music.163.com/api/song/lyric?id=-9223372036854775808&lv=1&kv=1&tv=-1"
    );
}

#[test]
fn the_three_best_hits_are_pursued() {
    let hits = vec![
        hit("Else", "Artist", Some(0), ""),
        hit("Song (x)", "Artist", Some(1), ""),
        hit("Song", "Artist", Some(2), ""),
        hit("Song (y)", "Artist", Some(3), ""),
        hit("Song", "Other", Some(4), ""),
        hit("Song", "Artist", Some(5), ""),
    ];
    let ranked = rank(&request("Song", "Artist"), hits);
    let found: Vec<(Option<i64>, MatchScore)> =
        ranked.iter().map(|one| (one.hit.id, one.score)).collect();
    let reliable = |total: i32| MatchScore { total, confidence: Confidence::Reliable };
    assert_eq!(
        found,
        [(Some(2), reliable(100)), (Some(5), reliable(100)), (Some(1), reliable(92))]
    );
}

#[test]
fn qq_is_asked_file_by_file() {
    let mut lookup = Lookup::new(Catalogue::Qq, &request("Song - Live", "Artist & Other"));
    assert!(search_url(lookup.ask()).contains("?w=Song%20-%20Live%20Artist%20%26%20Other&"));
    // No response: the plain query is next.
    lookup.hear_search(None);
    assert!(search_url(lookup.ask()).contains("?w=Song%20artist&"));
    lookup.hear_search(Some(Some(vec![
        hit("Song - Live", "Artist", Some(7), "m7"),
        hit("Song - Live", "Artist", None, "m8"),
    ])));

    let (file, url, again) = lyric_url(lookup.ask());
    assert_eq!((file, again), (LyricFile::Qrc, false));
    assert!(url.ends_with("musicid=7"));
    lookup.hear_lyric(None);

    let (file, url, again) = lyric_url(lookup.ask());
    assert_eq!((file, again), (LyricFile::QqLyric, false));
    assert!(url.contains("songmid=m7&"));
    // Plain lyrics are tried twice.
    lookup.hear_lyric(None);
    let (file, _, again) = lyric_url(lookup.ask());
    assert_eq!((file, again), (LyricFile::QqLyric, true));
    lookup.hear_lyric(None);

    let (_, url, again) = lyric_url(lookup.ask());
    assert!(url.contains("songmid=m8&") && !again);
    lookup.hear_lyric(Some(sheet(Provider::QqLrc)));
    assert!(matches!(lookup.ask(), Ask::Done));

    let batch = lookup.finish();
    assert!(batch.responded);
    assert_eq!(batch.candidates.len(), 1);
    assert_eq!(batch.candidates[0].provider, Provider::QqLrc);
    assert_eq!(batch.candidates[0].meta.title, "Song - Live");
    assert_eq!(batch.candidates[0].score.confidence, Confidence::Reliable);
}

#[test]
fn a_search_that_led_to_lyrics_is_the_last() {
    let mut lookup = Lookup::new(Catalogue::Qq, &request("Song - Live", "Artist"));
    lookup.hear_search(Some(Some(vec![hit("Song - Live", "Artist", Some(7), "")])));
    lookup.hear_lyric(Some(sheet(Provider::QqQrc)));
    assert!(matches!(lookup.ask(), Ask::Done));

    // One that led to none is not.
    let mut lookup = Lookup::new(Catalogue::Qq, &request("Song - Live", "Artist"));
    lookup.hear_search(Some(Some(vec![hit("Song - Live", "Artist", Some(7), "")])));
    lookup.hear_lyric(None);
    assert!(matches!(lookup.ask(), Ask::Search(_)));
    lookup.hear_search(Some(None));
    assert!(matches!(lookup.ask(), Ask::Done));
    let batch = lookup.finish();
    assert!(batch.responded && batch.candidates.is_empty());
}

#[test]
fn netease_is_searched_once() {
    let mut lookup = Lookup::new(Catalogue::NetEase, &request("Song", "Artist"));
    assert!(search_url(lookup.ask()).contains("?s=Song%20artist&"));
    lookup.hear_search(Some(Some(vec![
        hit("Song", "Artist", Some(7), "ignored"),
        hit("Song", "Artist", None, "ignored"),
    ])));
    let (file, url, _) = lyric_url(lookup.ask());
    assert_eq!(file, LyricFile::NetEaseLyric);
    assert!(url.contains("id=7&"));
    // Answers that were not asked for change nothing.
    lookup.hear_search(None);
    lookup.hear_lyric(None);
    assert!(matches!(lookup.ask(), Ask::Done));

    let mut silent = Lookup::new(Catalogue::NetEase, &request("Song", "Artist"));
    silent.hear_search(None);
    assert!(!silent.finish().responded);
}

#[test]
fn batches_are_fair() {
    let mut lookup = Lookup::new(Catalogue::Qq, &request("Song", "Artist"));
    let hits = (0..5)
        .map(|n| {
            let title = if n % 2 == 0 { "Song (x)" } else { "Song" };
            hit(title, "Artist", Some(n), "mid")
        })
        .collect();
    lookup.hear_search(Some(Some(hits)));
    while let Ask::Lyric { file, .. } = lookup.ask() {
        let provider = if file == LyricFile::Qrc { Provider::QqQrc } else { Provider::QqLrc };
        lookup.hear_lyric(Some(sheet(provider)));
    }
    let batch = lookup.finish();
    assert!(batch.responded);
    assert!(batch.candidates.iter().all(|one| one.provider.is_qq()));
    let totals: Vec<i32> = batch.candidates.iter().map(|one| one.score.total).collect();
    assert_eq!(totals, [100, 100, 100, 100, 92, 92]);
}

#[test]
fn a_sheet_without_lines_is_none() {
    let empty = || Sheet { lines: Vec::new(), ..sheet(Provider::QqLrc) };
    let mut lookup = Lookup::new(Catalogue::Qq, &request("Song", "Artist"));
    lookup.hear_search(Some(Some(vec![hit("Song", "Artist", None, "mid")])));
    lookup.hear_lyric(Some(empty()));
    // As if nothing had come: it is tried once more.
    assert!(matches!(lookup.ask(), Ask::Lyric { again: true, .. }));
    // A sheet of another file is none either.
    lookup.hear_lyric(Some(sheet(Provider::NeteaseLrc)));
    assert!(lookup.finish().candidates.is_empty());
}

#[test]
fn files_are_read_by_their_kind() {
    let qq = r#"cb({"lyric":"[00:01.00]one"})"#;
    let netease = r#"{"lrc":{"lyric":"[00:01.00]two"}}"#;
    let opened = || Some((r#"<LyricContent="[1000,1000]Hello(1200,800)"/>"#.to_string(), None));
    let read = |file: LyricFile, body: &str| {
        read_sheet(file, body, opened()).map(|found| (found.provider, found.lines[0].text.clone()))
    };
    assert_eq!(read(LyricFile::Qrc, ""), Some((Provider::QqQrc, "Hello".to_string())));
    assert_eq!(read(LyricFile::QqLyric, qq), Some((Provider::QqLrc, "one".to_string())));
    assert_eq!(
        read(LyricFile::NetEaseLyric, netease),
        Some((Provider::NeteaseLrc, "two".to_string()))
    );
    assert_eq!(read(LyricFile::QqLyric, netease), None);
    assert!(read_sheet(LyricFile::Qrc, qq, None).is_none());
}
