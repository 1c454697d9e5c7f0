//! What is asked of the providers, and what their answers say.

use crate::json::{
    integer_if_any, integer_of, items_if_any, items_of, json_in, json_of, jsons, member, member_of,
    number_if_any, number_of, parse_json, seen, text_if_any, text_of, text_or_empty, text_or_none,
    Json,
};
use crate::lyrics::parse::{
    lrc_lines, parse_lrc, parse_qrc, parse_translation, parse_yrc, qrc_lines, translation_lines,
    yrc_lines, MILLISECOND, SECOND,
};
use crate::lyrics::song::{
    comparable, first_artist, lead, plain, plain_title, FoldedView, MetaView, SongMeta,
};
use crate::lyrics::{lines_view, LineView, LyricLine, Provider};
use crate::number::{
    clamped, decimal, law_integers_are_read_again, law_integers_are_written_differently,
    lemma_overflow_is_huge, number, read_number, ten_to, write_decimal,
};
use crate::text::{
    append, append_str, chars_of, find, find_of, last_position, last_position_of,
    law_find_is_first, law_last_position_is_last, lemma_position, position, position_of, same,
    stands_at, string_of, texts, trim, trim_of,
};
use serde_json::Value;
use vstd::prelude::*;
use vstd::slice::slice_subrange;
use vstd::utf8::encode_utf8;

verus! {

/// The catalogues that are searched.
#[derive(Debug, Clone, Copy, PartialEq, Eq, Structural)]
pub enum Catalogue {
    Qq,
    NetEase,
}

/// The files of lyrics that the catalogues hand out.
#[derive(Debug, Clone, Copy, PartialEq, Eq, Structural)]
pub enum LyricFile {
    /// QQ Music's word-timed lyrics, encrypted.
    Qrc,
    /// QQ Music's plain lyrics.
    QqLyric,
    NetEaseLyric,
}

/// A page to fetch.
#[derive(Debug)]
pub struct Page {
    pub url: String,
    /// What the `Referer` header says.
    pub referer: String,
}

/// A song that a search found.
#[derive(Debug)]
pub struct SearchHit {
    pub meta: SongMeta,
    /// The song's number in the catalogue.
    pub id: Option<i64>,
    /// QQ Music's other name for it; empty where there is none.
    pub mid: String,
}

/// The lyrics of a song as a catalogue has them.
#[derive(Debug)]
pub struct Sheet {
    pub provider: Provider,
    pub lines: Vec<LyricLine>,
    pub translations: Vec<LyricLine>,
}

/// What a page holds.
#[verifier::ext_equal]
pub struct PageView {
    pub url: Seq<char>,
    pub referer: Seq<char>,
}

/// What a hit holds.
#[verifier::ext_equal]
pub struct HitView {
    pub meta: MetaView,
    pub id: Option<i64>,
    pub mid: Seq<char>,
}

/// What a sheet holds.
#[verifier::ext_equal]
pub struct SheetView {
    pub provider: Provider,
    pub lines: Seq<LineView>,
    pub translations: Seq<LineView>,
}

impl View for Page {
    type V = PageView;

    open spec fn view(&self) -> PageView {
        PageView { url: self.url@, referer: self.referer@ }
    }
}

impl View for SearchHit {
    type V = HitView;

    open spec fn view(&self) -> HitView {
        HitView { meta: self.meta@, id: self.id, mid: self.mid@ }
    }
}

impl View for Sheet {
    type V = SheetView;

    open spec fn view(&self) -> SheetView {
        SheetView {
            provider: self.provider,
            lines: lines_view(self.lines@),
            translations: lines_view(self.translations@),
        }
    }
}

pub open spec fn hits_view(hits: Seq<SearchHit>) -> Seq<HitView> {
    Seq::new(hits.len(), |i: int| hits[i]@)
}

pub open spec fn sheet_view(sheet: Option<Sheet>) -> Option<SheetView> {
    match sheet {
        Some(sheet) => Some(sheet@),
        None => None,
    }
}

/// The bytes that stand for themselves in a query.
pub open spec fn unreserved(byte: u8) -> bool {
    ||| 0x41 <= byte <= 0x5a
    ||| 0x61 <= byte <= 0x7a
    ||| 0x30 <= byte <= 0x39
    ||| byte == 0x2d
    ||| byte == 0x5f
    ||| byte == 0x2e
    ||| byte == 0x7e
}

/// The base-sixteen figure that writes `d`, in capital letters.
pub open spec fn capital(d: int) -> char {
    seq!['0', '1', '2', '3', '4', '5', '6', '7', '8', '9', 'A', 'B', 'C', 'D', 'E', 'F'][d]
}

/// A byte as it is written in a query.
pub open spec fn escaped_byte(byte: u8) -> Seq<char> {
    if unreserved(byte) {
        seq![byte as char]
    } else {
        seq!['%', capital(byte as int / 16), capital(byte as int % 16)]
    }
}

/// Bytes as they are written in a query.
pub open spec fn escaped(bytes: Seq<u8>) -> Seq<char>
    decreases bytes.len(),
{
    if bytes.len() == 0 {
        Seq::empty()
    } else {
        escaped_byte(bytes[0]) + escaped(bytes.drop_first())
    }
}

proof fn lemma_escaped_push(bytes: Seq<u8>, byte: u8)
    ensures
        escaped(bytes.push(byte)) == escaped(bytes) + escaped_byte(byte),
    decreases bytes.len(),
{
    let longer = bytes.push(byte);
    if bytes.len() == 0 {
        assert(longer.drop_first() =~= bytes);
        assert(escaped(longer) =~= escaped_byte(byte) + escaped(bytes));
        assert(escaped(longer) =~= escaped(bytes) + escaped_byte(byte));
    } else {
        assert(longer.drop_first() =~= bytes.drop_first().push(byte));
        lemma_escaped_push(bytes.drop_first(), byte);
        assert(escaped(longer) =~= escaped(bytes) + escaped_byte(byte));
    }
}

fn write_capital(d: u8) -> (res: char)
    requires
        d < 16,
    ensures
        res == capital(d as int),
{
    let figures: [char; 16] = [
        '0', '1', '2', '3', '4', '5', '6', '7', '8', '9', 'A', 'B', 'C', 'D', 'E', 'F',
    ];
    figures[d as usize]
}

fn is_unreserved(byte: u8) -> (res: bool)
    ensures
        res == unreserved(byte),
{
    (0x41 <= byte && byte <= 0x5a) || (0x61 <= byte && byte <= 0x7a) || (0x30 <= byte && byte
        <= 0x39) || byte == 0x2d || byte == 0x5f || byte == 0x2e || byte == 0x7e
}

/// Writes a text as it stands in a query.
pub fn encode(value: &str) -> (res: String)
    ensures
        res@ == escaped(encode_utf8(value@)),
{
    let bytes = value.as_bytes();
    let mut res: Vec<char> = Vec::new();
    assert(escaped(bytes@.take(0)) =~= Seq::<char>::empty());
    for i in 0..bytes.len()
        invariant
            res@ == escaped(bytes@.take(i as int)),
    {
        let byte: u8 = bytes[i];
        let ghost before = res@;
        if is_unreserved(byte) {
            res.push(byte as char);
        } else {
            res.push('%');
            res.push(write_capital(byte / 16));
            res.push(write_capital(byte % 16));
        }
        proof {
            assert(res@ =~= before + escaped_byte(byte));
            assert(bytes@.take(i + 1) =~= bytes@.take(i as int).push(byte));
            lemma_escaped_push(bytes@.take(i as int), byte);
        }
    }
    assert(bytes@.take(bytes@.len() as int) =~= bytes@);
    string_of(res.as_slice())
}

/// A response without the callback that it may come wrapped in.
pub open spec fn unwrapped(raw: Seq<char>) -> Seq<char> {
    let start = position(raw, '{', 0);
    let end = last_position(raw, '}', raw.len() as int);
    if start < raw.len() && start < end {
        raw.subrange(start, end + 1)
    } else {
        raw
    }
}

/// Some responses come back wrapped in a callback, e.g. `MusicJsonCallback({…})`.
pub fn strip_jsonp(raw: &str) -> (res: String)
    ensures
        res@ == unwrapped(raw@),
{
    let chars = chars_of(raw);
    let start = position_of(chars.as_slice(), '{', 0);
    match last_position_of(chars.as_slice(), '}') {
        Some(end) if start < chars.len() && start < end => {
            string_of(slice_subrange(chars.as_slice(), start, end + 1))
        },
        _ => string_of(chars.as_slice()),
    }
}

/// A number as a count of `10^-places`, or none where there is no number.
pub open spec fn count_if_any(json: Json, places: int) -> Option<i64> {
    match number_if_any(json) {
        Some(text) => match number(text, places) {
            Some(count) => Some(count as i64),
            None => None,
        },
        None => None,
    }
}

/// The names of those items that have one.
pub open spec fn names(items: Seq<Json>) -> Seq<Seq<char>>
    decreases items.len(),
{
    if items.len() == 0 {
        Seq::empty()
    } else {
        match text_if_any(member(items.last(), "name"@)) {
            Some(name) => names(items.drop_last()).push(name),
            None => names(items.drop_last()),
        }
    }
}

pub open spec fn names_if_any(json: Json) -> Seq<Seq<char>> {
    match items_if_any(json) {
        Some(items) => names(items),
        None => Seq::empty(),
    }
}

/// A song's description, compared by its own texts.
pub open spec fn described(
    title: Seq<char>,
    artists: Seq<Seq<char>>,
    album: Seq<char>,
    duration: Option<i64>,
) -> MetaView {
    MetaView {
        title,
        artists,
        album,
        duration,
        folded: FoldedView { title, base: plain(title), artists, album },
    }
}

/// How QQ Music describes a song.
pub open spec fn qq_described(song: Json) -> MetaView {
    described(
        text_or_empty(member(song, "songname"@)),
        names_if_any(member(song, "singer"@)),
        text_or_empty(member(song, "albumname"@)),
        count_if_any(member(song, "interval"@), SECOND as int),
    )
}

/// How NetEase describes a song.
pub open spec fn netease_described(song: Json) -> MetaView {
    described(
        text_or_empty(member(song, "name"@)),
        names_if_any(member(song, "artists"@)),
        text_or_empty(member(member(song, "album"@), "name"@)),
        count_if_any(member(song, "duration"@), MILLISECOND as int),
    )
}

/// A song that a search in a catalogue found.
pub open spec fn hit(catalogue: Catalogue, song: Json) -> HitView {
    match catalogue {
        Catalogue::Qq => HitView {
            meta: qq_described(song),
            id: integer_if_any(member(song, "songid"@)),
            mid: text_or_empty(member(song, "songmid"@)),
        },
        Catalogue::NetEase => HitView {
            meta: netease_described(song),
            id: integer_if_any(member(song, "id"@)),
            mid: Seq::empty(),
        },
    }
}

/// The songs that an answer lists, or none where it has no list.
pub open spec fn listed(catalogue: Catalogue, answer: Json) -> Option<Seq<HitView>> {
    let list = match catalogue {
        Catalogue::Qq => member(member(member(answer, "data"@), "song"@), "list"@),
        Catalogue::NetEase => member(member(answer, "result"@), "songs"@),
    };
    match items_if_any(list) {
        Some(songs) => Some(Seq::new(songs.len(), |i: int| hit(catalogue, songs[i]))),
        None => None,
    }
}

fn read_count(value: Option<&Value>, places: u8) -> (res: Option<i64>)
    ensures
        res == count_if_any(seen(value), places as int),
{
    match number_of(value) {
        Some(text) => {
            let chars = chars_of(text.as_str());
            read_number(chars.as_slice(), places)
        },
        None => None,
    }
}

fn read_names(value: Option<&Value>) -> (res: Vec<String>)
    ensures
        texts(res@) == names_if_any(seen(value)),
{
    let mut res: Vec<String> = Vec::new();
    match items_of(value) {
        Some(items) => {
            let ghost all = jsons(items@);
            assert(texts(res@) =~= names(all.take(0)));
            for i in 0..items.len()
                invariant
                    all == jsons(items@),
                    texts(res@) == names(all.take(i as int)),
            {
                let ghost before = res@;
                assert(all.take(i + 1).drop_last() =~= all.take(i as int));
                if let Some(name) = text_of(member_of(Some(&items[i]), "name")) {
                    res.push(name);
                    assert(texts(res@) =~= texts(before).push(name@));
                }
            }
            assert(all.take(all.len() as int) =~= all);
        },
        None => {
            assert(texts(res@) =~= Seq::<Seq<char>>::empty());
        },
    }
    res
}

fn describe(title: String, artists: Vec<String>, album: String, duration: Option<i64>) -> (res:
    SongMeta)
    ensures
        res@ == described(title@, texts(artists@), album@, duration),
{
    let folded = comparable(title.as_str(), &artists, album.as_str());
    SongMeta { title, artists, album, duration, folded }
}

/// How QQ Music describes a song.
pub fn qq_meta(song: &Value) -> (res: SongMeta)
    ensures
        res@ == qq_described(json_of(*song)),
{
    describe(
        text_or_none(member_of(Some(song), "songname")),
        read_names(member_of(Some(song), "singer")),
        text_or_none(member_of(Some(song), "albumname")),
        read_count(member_of(Some(song), "interval"), SECOND),
    )
}

/// How NetEase describes a song.
pub fn netease_meta(song: &Value) -> (res: SongMeta)
    ensures
        res@ == netease_described(json_of(*song)),
{
    describe(
        text_or_none(member_of(Some(song), "name")),
        read_names(member_of(Some(song), "artists")),
        text_or_none(member_of(member_of(Some(song), "album"), "name")),
        read_count(member_of(Some(song), "duration"), MILLISECOND),
    )
}

fn read_hit(catalogue: Catalogue, song: &Value) -> (res: SearchHit)
    ensures
        res@ == hit(catalogue, json_of(*song)),
{
    match catalogue {
        Catalogue::Qq => SearchHit {
            meta: qq_meta(song),
            id: integer_of(member_of(Some(song), "songid")),
            mid: text_or_none(member_of(Some(song), "songmid")),
        },
        Catalogue::NetEase => SearchHit {
            meta: netease_meta(song),
            id: integer_of(member_of(Some(song), "id")),
            mid: String::new(),
        },
    }
}

/// The songs that an answer lists, in its order.
pub fn songs_in(catalogue: Catalogue, answer: &Value) -> (res: Option<Vec<SearchHit>>)
    ensures
        match res {
            Some(hits) => listed(catalogue, json_of(*answer)) == Some(hits_view(hits@)),
            None => listed(catalogue, json_of(*answer)) is None,
        },
{
    let list = match catalogue {
        Catalogue::Qq => member_of(member_of(member_of(Some(answer), "data"), "song"), "list"),
        Catalogue::NetEase => member_of(member_of(Some(answer), "result"), "songs"),
    };
    match items_of(list) {
        Some(songs) => {
            let mut hits: Vec<SearchHit> = Vec::new();
            for i in 0..songs.len()
                invariant
                    hits@.len() == i,
                    forall|j: int|
                        0 <= j < i ==> (#[trigger] hits@[j])@ == hit(catalogue, json_of(songs@[j])),
            {
                hits.push(read_hit(catalogue, &songs[i]));
            }
            assert(listed(catalogue, json_of(*answer))->0 =~= hits_view(hits@));
            Some(hits)
        },
        None => None,
    }
}

/// The document in a response's body.
pub open spec fn document_in(catalogue: Catalogue, body: Seq<char>) -> Option<Json> {
    match catalogue {
        Catalogue::Qq => json_in(unwrapped(body)),
        Catalogue::NetEase => json_in(body),
    }
}

fn read_document(catalogue: Catalogue, body: &str) -> (res: Option<Value>)
    ensures
        match res {
            Some(value) => document_in(catalogue, body@) == Some(json_of(value)),
            None => document_in(catalogue, body@) is None,
        },
{
    match catalogue {
        Catalogue::Qq => parse_json(strip_jsonp(body).as_str()),
        Catalogue::NetEase => parse_json(body),
    }
}

/// The songs that a search's response lists; `None` for a response that is no
/// JSON or has no list.
pub fn search_songs(catalogue: Catalogue, body: &str) -> (res: Option<Vec<SearchHit>>)
    ensures
        match document_in(catalogue, body@) {
            Some(answer) => match res {
                Some(hits) => listed(catalogue, answer) == Some(hits_view(hits@)),
                None => listed(catalogue, answer) is None,
            },
            None => res is None,
        },
{
    match read_document(catalogue, body) {
        Some(answer) => songs_in(catalogue, &answer),
        None => None,
    }
}

/// The lyrics that QQ Music's answer holds, if it holds any lines.
pub open spec fn qq_sheet(answer: Json) -> Option<SheetView> {
    let lines = lrc_lines(text_or_empty(member(answer, "lyric"@)));
    if lines.len() == 0 {
        None
    } else {
        Some(
            SheetView {
                provider: Provider::QqLrc,
                lines,
                translations: lrc_lines(text_or_empty(member(answer, "trans"@))),
            },
        )
    }
}

/// The lyrics that NetEase's answer holds, if it holds any lines: the word-timed
/// ones where there are some.
pub open spec fn netease_sheet(answer: Json) -> Option<SheetView> {
    let worded = match text_if_any(member(member(answer, "yrc"@), "lyric"@)) {
        Some(text) => yrc_lines(text),
        None => Seq::empty(),
    };
    let lines = if worded.len() == 0 {
        lrc_lines(text_or_empty(member(member(answer, "lrc"@), "lyric"@)))
    } else {
        worded
    };
    if lines.len() == 0 {
        None
    } else {
        Some(
            SheetView {
                provider: if worded.len() == 0 {
                    Provider::NeteaseLrc
                } else {
                    Provider::NeteaseYrc
                },
                lines,
                translations: lrc_lines(text_or_empty(member(member(answer, "tlyric"@), "lyric"@))),
            },
        )
    }
}

/// The lyrics in QQ Music's answer.
pub fn qq_lyric_in(answer: &Value) -> (res: Option<Sheet>)
    ensures
        sheet_view(res) == qq_sheet(json_of(*answer)),
{
    let lines = parse_lrc(text_or_none(member_of(Some(answer), "lyric")).as_str());
    assert(lines_view(lines@).len() == lines@.len());
    if lines.len() == 0 {
        return None;
    }
    let translations = parse_lrc(text_or_none(member_of(Some(answer), "trans")).as_str());
    Some(Sheet { provider: Provider::QqLrc, lines, translations })
}

/// The lyrics in NetEase's answer.
pub fn netease_lyric_in(answer: &Value) -> (res: Option<Sheet>)
    ensures
        sheet_view(res) == netease_sheet(json_of(*answer)),
{
    let worded = match text_of(member_of(member_of(Some(answer), "yrc"), "lyric")) {
        Some(text) => parse_yrc(text.as_str()),
        None => Vec::new(),
    };
    assert(lines_view(worded@).len() == worded@.len());
    let translations = parse_lrc(
        text_or_none(member_of(member_of(Some(answer), "tlyric"), "lyric")).as_str(),
    );
    if worded.len() > 0 {
        return Some(Sheet { provider: Provider::NeteaseYrc, lines: worded, translations });
    }
    let lines = parse_lrc(
        text_or_none(member_of(member_of(Some(answer), "lrc"), "lyric")).as_str(),
    );
    assert(lines_view(lines@).len() == lines@.len());
    if lines.len() == 0 {
        None
    } else {
        Some(Sheet { provider: Provider::NeteaseLrc, lines, translations })
    }
}

/// The lyrics in the body of QQ Music's response.
pub fn qq_lyric(body: &str) -> (res: Option<Sheet>)
    ensures
        sheet_view(res) == (match document_in(Catalogue::Qq, body@) {
            Some(answer) => qq_sheet(answer),
            None => None,
        }),
{
    match read_document(Catalogue::Qq, body) {
        Some(answer) => qq_lyric_in(&answer),
        None => None,
    }
}

/// The lyrics in the body of NetEase's response.
pub fn netease_lyric(body: &str) -> (res: Option<Sheet>)
    ensures
        sheet_view(res) == (match document_in(Catalogue::NetEase, body@) {
            Some(answer) => netease_sheet(answer),
            None => None,
        }),
{
    match read_document(Catalogue::NetEase, body) {
        Some(answer) => netease_lyric_in(&answer),
        None => None,
    }
}

/// What opens a block of a QRC document.
pub open spec fn block_open() -> Seq<char> {
    seq!['<', '!', '[', 'C', 'D', 'A', 'T', 'A', '[']
}

/// What closes a block of a QRC document.
pub open spec fn block_close() -> Seq<char> {
    seq![']', ']', '>']
}

/// The blocks of a QRC document. One that is not closed goes on to the next.
pub open spec fn blocks(document: Seq<char>) -> Seq<Seq<char>>
    decreases document.len(),
{
    let at = find(document, block_open(), 0);
    if at < 0 || at + block_open().len() > document.len() {
        Seq::empty()
    } else {
        let rest = document.skip((at + block_open().len()) as int);
        let piece = rest.take(find(rest, block_open(), 0));
        seq![trim(piece.take(find(piece, block_close(), 0)))] + blocks(rest)
    }
}

/// The encrypted lyric of a QRC document, and the encrypted translation where
/// there is one.
pub open spec fn sealed(document: Seq<char>) -> Option<(Seq<char>, Option<Seq<char>>)> {
    let all = blocks(document);
    if all.len() == 0 {
        None
    } else {
        Some(
            (
                all[0],
                if all.len() > 1 && all[1].len() > 0 {
                    Some(all[1])
                } else {
                    None
                },
            ),
        )
    }
}

fn read_blocks(document: &[char]) -> (res: Vec<String>)
    ensures
        texts(res@) == blocks(document@),
{
    let open: [char; 9] = ['<', '!', '[', 'C', 'D', 'A', 'T', 'A', '['];
    let close: [char; 3] = [']', ']', '>'];
    assert(open@ =~= block_open());
    assert(close@ =~= block_close());
    let mut res: Vec<String> = Vec::new();
    let mut rest: &[char] = document;
    assert(texts(res@) + blocks(rest@) =~= blocks(document@));
    loop
        invariant_except_break
            blocks(document@) == texts(res@) + blocks(rest@),
        invariant
            open@ == block_open(),
            close@ == block_close(),
        ensures
            blocks(document@) == texts(res@),
        decreases rest@.len(),
    {
        let at = find_of(rest, &open, 0);
        if at >= rest.len() {
            assert(texts(res@) + blocks(rest@) =~= texts(res@));
            break;
        }
        let next = slice_subrange(rest, at + 9, rest.len());
        let piece = slice_subrange(next, 0, find_of(next, &open, 0));
        let block = slice_subrange(piece, 0, find_of(piece, &close, 0));
        let ghost before = res@;
        res.push(string_of(trim_of(block)));
        proof {
            assert(next@ =~= rest@.skip(at + 9));
            assert(piece@ =~= next@.take(find(next@, block_open(), 0)));
            assert(block@ =~= piece@.take(find(piece@, block_close(), 0)));
            assert(texts(res@) =~= texts(before).push(trim(block@)));
            assert(texts(res@) + blocks(next@) =~= texts(before) + (seq![trim(block@)] + blocks(
                next@,
            )));
        }
        rest = next;
    }
    res
}

/// What of a QRC document has to be decrypted: the lyric, and the translation
/// where there is one.
pub fn qrc_sealed(document: &str) -> (res: Option<(String, Option<String>)>)
    ensures
        match res {
            Some((lyric, translation)) => sealed(document@) == Some(
                (lyric@, crate::lyrics::text_view(translation)),
            ),
            None => sealed(document@) is None,
        },
{
    let chars = chars_of(document);
    let all = read_blocks(chars.as_slice());
    assert(texts(all@).len() == all@.len());
    if all.len() == 0 {
        return None;
    }
    assert(texts(all@)[0] == all@[0]@);
    let translation = if all.len() > 1 {
        assert(texts(all@)[1] == all@[1]@);
        let second = chars_of(all[1].as_str());
        if second.len() > 0 {
            Some(all[1].clone())
        } else {
            None
        }
    } else {
        None
    };
    Some((all[0].clone(), translation))
}

/// The lyrics in a decrypted QRC document and its decrypted translation, if
/// there are any lines.
pub open spec fn qrc_sheet(lyric: Seq<char>, translation: Option<Seq<char>>) -> Option<SheetView> {
    if qrc_lines(lyric).len() == 0 {
        None
    } else {
        Some(
            SheetView {
                provider: Provider::QqQrc,
                lines: qrc_lines(lyric),
                translations: match translation {
                    Some(text) => translation_lines(text),
                    None => Seq::empty(),
                },
            },
        )
    }
}

/// The lyrics in a decrypted QRC document and its decrypted translation.
pub fn qrc_lyric(lyric: &str, translation: Option<String>) -> (res: Option<Sheet>)
    ensures
        sheet_view(res) == qrc_sheet(lyric@, crate::lyrics::text_view(translation)),
{
    let lines = parse_qrc(lyric);
    assert(lines_view(lines@).len() == lines@.len());
    if lines.len() == 0 {
        return None;
    }
    let translations = match translation {
        Some(text) => parse_translation(text.as_str()),
        None => Vec::new(),
    };
    assert(translation is None ==> lines_view(translations@) =~= Seq::<LineView>::empty());
    Some(Sheet { provider: Provider::QqQrc, lines, translations })
}

/// The providers whose lyrics a file holds.
pub open spec fn provides(file: LyricFile, provider: Provider) -> bool {
    match file {
        LyricFile::Qrc => provider == Provider::QqQrc,
        LyricFile::QqLyric => provider == Provider::QqLrc,
        LyricFile::NetEaseLyric => provider == Provider::NeteaseYrc || provider
            == Provider::NeteaseLrc,
    }
}

/// The catalogue that hands a file out.
pub open spec fn catalogue_of(file: LyricFile) -> Catalogue {
    match file {
        LyricFile::Qrc => Catalogue::Qq,
        LyricFile::QqLyric => Catalogue::Qq,
        LyricFile::NetEaseLyric => Catalogue::NetEase,
    }
}

/// Whether a catalogue has lyrics of a provider.
pub open spec fn belongs(catalogue: Catalogue, provider: Provider) -> bool {
    match catalogue {
        Catalogue::Qq => provider == Provider::QqQrc || provider == Provider::QqLrc,
        Catalogue::NetEase => provider == Provider::NeteaseYrc || provider
            == Provider::NeteaseLrc,
    }
}

/// The lyrics in a file: in the document of a response, or, where the file is
/// encrypted, in what was decrypted of it.
pub open spec fn sheet_in(
    file: LyricFile,
    answer: Option<Json>,
    opened: Option<(Seq<char>, Option<Seq<char>>)>,
) -> Option<SheetView> {
    match file {
        LyricFile::Qrc => match opened {
            Some((lyric, translation)) => qrc_sheet(lyric, translation),
            None => None,
        },
        LyricFile::QqLyric => match answer {
            Some(answer) => qq_sheet(answer),
            None => None,
        },
        LyricFile::NetEaseLyric => match answer {
            Some(answer) => netease_sheet(answer),
            None => None,
        },
    }
}

pub open spec fn opened_view(opened: Option<(String, Option<String>)>) -> Option<
    (Seq<char>, Option<Seq<char>>),
> {
    match opened {
        Some((lyric, translation)) => Some((lyric@, crate::lyrics::text_view(translation))),
        None => None,
    }
}

/// The lyrics in a file: in the body of the response, or, for QRC, in what was
/// decrypted of it.
pub fn read_sheet(file: LyricFile, body: &str, opened: Option<(String, Option<String>)>) -> (res:
    Option<Sheet>)
    ensures
        sheet_view(res) == sheet_in(
            file,
            document_in(catalogue_of(file), body@),
            opened_view(opened),
        ),
{
    match file {
        LyricFile::Qrc => match opened {
            Some((lyric, translation)) => qrc_lyric(lyric.as_str(), translation),
            None => None,
        },
        LyricFile::QqLyric => qq_lyric(body),
        LyricFile::NetEaseLyric => netease_lyric(body),
    }
}

/// Whatever a file holds, its lyrics have lines, come from a provider of that
/// file, and so belong to the catalogue that hands it out.
pub proof fn law_sheets_keep_their_provider(
    file: LyricFile,
    answer: Option<Json>,
    opened: Option<(Seq<char>, Option<Seq<char>>)>,
)
    requires
        sheet_in(file, answer, opened) is Some,
    ensures
        sheet_in(file, answer, opened)->0.lines.len() > 0,
        provides(file, sheet_in(file, answer, opened)->0.provider),
        belongs(catalogue_of(file), sheet_in(file, answer, opened)->0.provider),
{
}

/// A title and an artist in one query.
pub open spec fn query(title: Seq<char>, artist: Seq<char>) -> Seq<char> {
    title + seq![' '] + artist
}

/// What a catalogue is searched for, one query after the other. QQ Music is
/// asked for the whole title and billing before the plain ones.
pub open spec fn queries(catalogue: Catalogue, title: Seq<char>, artist: Seq<char>) -> Seq<
    Seq<char>,
> {
    let full = query(title, artist);
    let short = query(plain(title), lead(artist));
    match catalogue {
        Catalogue::Qq => if short == full {
            seq![full]
        } else {
            seq![full, short]
        },
        Catalogue::NetEase => seq![short],
    }
}

fn make_query(title: &str, artist: &str) -> (res: Vec<char>)
    ensures
        res@ == query(title@, artist@),
{
    let mut res = chars_of(title);
    res.push(' ');
    append_str(&mut res, artist);
    assert(res@ =~= query(title@, artist@));
    res
}

/// What a catalogue is searched for, one query after the other.
pub fn search_queries(catalogue: Catalogue, title: &str, artist: &str) -> (res: Vec<String>)
    ensures
        texts(res@) == queries(catalogue, title@, artist@),
{
    let plain_name = plain_title(title);
    let plain_artist = first_artist(artist);
    let short = make_query(plain_name.as_str(), plain_artist.as_str());
    let mut res: Vec<String> = Vec::new();
    match catalogue {
        Catalogue::Qq => {
            let full = make_query(title, artist);
            res.push(string_of(full.as_slice()));
            if !same(short.as_slice(), full.as_slice()) {
                res.push(string_of(short.as_slice()));
            }
        },
        Catalogue::NetEase => {
            res.push(string_of(short.as_slice()));
        },
    }
    assert(texts(res@) =~= queries(catalogue, title@, artist@));
    res
}

/// The page that searches a catalogue for `wanted`.
pub open spec fn search_url(catalogue: Catalogue, wanted: Seq<char>) -> PageView {
    match catalogue {
        Catalogue::Qq => PageView {
            url: "https://c.y.qq.com/soso/fcgi-bin/client_search_cp?w="@ + escaped(
                encode_utf8(wanted),
            ) + "&format=json&n=20&p=1"@,
            referer: "https://y.qq.com/portal/player.html"@,
        },
        Catalogue::NetEase => PageView {
            url: "https://music.163.com/api/search/get/web?s="@ + escaped(encode_utf8(wanted))
                + "&type=1&offset=0&total=true&limit=10"@,
            referer: "https://music.163.com/"@,
        },
    }
}

/// The page that holds a song's lyrics, by its number in the catalogue or by
/// its other name.
pub open spec fn lyric_url(file: LyricFile, id: int, mid: Seq<char>) -> PageView {
    match file {
        LyricFile::Qrc => PageView {
            url: "https://c.y.qq.com/qqmusic/fcgi-bin/lyric_download.fcg?version=15&miniversion=82&lrctype=4&musicid="@
                + decimal(id),
            referer: "https://y.qq.com"@,
        },
        LyricFile::QqLyric => PageView {
            url: "https://c.y.qq.com/lyric/fcgi-bin/fcg_query_lyric_new.fcg?songmid="@ + escaped(
                encode_utf8(mid),
            ) + "&format=json&nobase64=1&g_tk=5381"@,
            referer: "https://y.qq.com/portal/player.html"@,
        },
        LyricFile::NetEaseLyric => PageView {
            url: "https://music.163.com/api/song/lyric?id="@ + decimal(id) + "&lv=1&kv=1&tv=-1"@,
            referer: "https://music.163.com/"@,
        },
    }
}

fn make_page(front: &str, middle: &[char], back: &str, referer: &str) -> (res: Page)
    ensures
        res@ == (PageView { url: front@ + middle@ + back@, referer: referer@ }),
{
    let mut url = chars_of(front);
    append(&mut url, middle);
    append_str(&mut url, back);
    Page { url: string_of(url.as_slice()), referer: crate::text::owned(referer) }
}

/// The page that searches a catalogue for `wanted`.
pub fn search_page(catalogue: Catalogue, wanted: &str) -> (res: Page)
    ensures
        res@ == search_url(catalogue, wanted@),
{
    let middle = chars_of(encode(wanted).as_str());
    match catalogue {
        Catalogue::Qq => make_page(
            "https://c.y.qq.com/soso/fcgi-bin/client_search_cp?w=",
            middle.as_slice(),
            "&format=json&n=20&p=1",
            "https://y.qq.com/portal/player.html",
        ),
        Catalogue::NetEase => make_page(
            "https://music.163.com/api/search/get/web?s=",
            middle.as_slice(),
            "&type=1&offset=0&total=true&limit=10",
            "https://music.163.com/",
        ),
    }
}

/// The page that holds a song's lyrics.
pub fn lyric_page(file: LyricFile, id: i64, mid: &str) -> (res: Page)
    ensures
        res@ == lyric_url(file, id as int, mid@),
{
    match file {
        LyricFile::Qrc => {
            let digits = write_decimal(id);
            let page = make_page(
                "https://c.y.qq.com/qqmusic/fcgi-bin/lyric_download.fcg?version=15&miniversion=82&lrctype=4&musicid=",
                digits.as_slice(),
                "",
                "https://y.qq.com",
            );
            proof {
                reveal_strlit("");
                assert(page@.url =~= lyric_url(file, id as int, mid@).url);
            }
            page
        },
        LyricFile::QqLyric => {
            let middle = chars_of(encode(mid).as_str());
            make_page(
                "https://c.y.qq.com/lyric/fcgi-bin/fcg_query_lyric_new.fcg?songmid=",
                middle.as_slice(),
                "&format=json&nobase64=1&g_tk=5381",
                "https://y.qq.com/portal/player.html",
            )
        },
        LyricFile::NetEaseLyric => {
            let digits = write_decimal(id);
            make_page(
                "https://music.163.com/api/song/lyric?id=",
                digits.as_slice(),
                "&lv=1&kv=1&tv=-1",
                "https://music.163.com/",
            )
        },
    }
}

/// A length that a catalogue gives as a whole number of 64 bits is read to the
/// tick: as seconds by QQ Music, as milliseconds by NetEase.
pub proof fn law_whole_lengths_are_read(n: int)
    requires
        i64::MIN <= n <= u64::MAX,
    ensures
        count_if_any(Json::Integer(n), SECOND as int) == Some(clamped(n * 10_000_000) as i64),
        count_if_any(Json::Integer(n), MILLISECOND as int) == Some(clamped(n * 10_000) as i64),
{
    lemma_overflow_is_huge();
    law_integers_are_read_again(n, 7);
    law_integers_are_read_again(n, 4);
    reveal_with_fuel(ten_to, 8);
}

/// The value of a base-sixteen figure in capital letters.
pub open spec fn figure_value(c: char) -> int {
    if '0' <= c <= '9' {
        c as int - '0' as int
    } else {
        c as int - 'A' as int + 10
    }
}

/// The bytes that a query writes.
pub open spec fn unescaped(text: Seq<char>) -> Seq<u8>
    decreases text.len(),
{
    if text.len() == 0 {
        Seq::empty()
    } else if text[0] == '%' && text.len() >= 3 {
        seq![(16 * figure_value(text[1]) + figure_value(text[2])) as u8] + unescaped(text.skip(3))
    } else {
        seq![text[0] as u8] + unescaped(text.drop_first())
    }
}

/// What was encoded can be decoded: a query gives back the bytes it was made
/// of.
pub proof fn law_encoding_can_be_undone(bytes: Seq<u8>)
    ensures
        unescaped(escaped(bytes)) == bytes,
    decreases bytes.len(),
{
    if bytes.len() > 0 {
        let byte = bytes[0];
        let rest = escaped(bytes.drop_first());
        let all = escaped(bytes);
        law_encoding_can_be_undone(bytes.drop_first());
        if unreserved(byte) {
            assert(all.drop_first() =~= rest);
            assert(all[0] == byte as char);
        } else {
            assert(all.skip(3) =~= rest);
            let high = byte as int / 16;
            let low = byte as int % 16;
            assert(all[0] == '%' && all[1] == capital(high) && all[2] == capital(low));
            assert(figure_value(capital(high)) == high);
            assert(figure_value(capital(low)) == low);
        }
        assert(unescaped(all) =~= seq![byte] + bytes.drop_first());
        assert(bytes =~= seq![byte] + bytes.drop_first());
    }
}

/// An encoded text holds nothing but letters, digits, `-`, `_`, `.`, `~` and
/// `%`, so it cannot end the part of the query it stands in.
pub proof fn law_encoding_is_plain(bytes: Seq<u8>)
    ensures
        forall|i: int|
            0 <= i < escaped(bytes).len() ==> {
                let c = #[trigger] escaped(bytes)[i];
                c == '%' || (c as int) < 128 && unreserved(c as u8)
            },
    decreases bytes.len(),
{
    if bytes.len() > 0 {
        let rest = escaped(bytes.drop_first());
        let head = escaped_byte(bytes[0]);
        law_encoding_is_plain(bytes.drop_first());
        assert forall|i: int| 0 <= i < escaped(bytes).len() implies {
            let c = #[trigger] escaped(bytes)[i];
            c == '%' || (c as int) < 128 && unreserved(c as u8)
        } by {
            if i < head.len() {
                assert(escaped(bytes)[i] == head[i]);
            } else {
                assert(escaped(bytes)[i] == rest[i - head.len()]);
            }
        }
    }
}

/// A document that comes wrapped in a callback comes out as it was, and one
/// that comes bare is left alone.
pub proof fn law_callback_is_stripped(front: Seq<char>, document: Seq<char>, back: Seq<char>)
    requires
        !front.contains('{'),
        !back.contains('}'),
        document.len() >= 2,
        document[0] == '{',
        document.last() == '}',
    ensures
        unwrapped(front + document + back) == document,
{
    let raw = front + document + back;
    crate::text::lemma_position(raw, '{', 0);
    let start = position(raw, '{', 0);
    assert(raw[front.len() as int] == '{');
    assert(start == front.len()) by {
        if start < front.len() {
            assert(raw[start] == front[start]);
            assert(front.contains(front[start]));
        }
    }
    let close = front.len() + document.len() - 1;
    assert(raw[close] == '}');
    lemma_last_position(raw, '}', raw.len() as int, close);
    assert(raw.subrange(start, close + 1) =~= document);
}

proof fn lemma_last_position(s: Seq<char>, c: char, end: int, at: int)
    requires
        0 <= at < end <= s.len(),
        s[at] == c,
        forall|i: int| at < i < end ==> s[i] != c,
    ensures
        last_position(s, c, end) == at,
    decreases end,
{
    if at < end - 1 {
        lemma_last_position(s, c, end - 1, at);
    }
}

/// QQ Music is asked for the whole title and billing, and then for the plain
/// title and the lead artist, unless those are the same; NetEase is asked for the
/// plain ones alone.
pub proof fn law_queries_go_from_whole_to_plain(title: Seq<char>, artist: Seq<char>)
    ensures
        ({
            let whole = title + seq![' '] + artist;
            let short = plain(title) + seq![' '] + lead(artist);
            let qq = queries(Catalogue::Qq, title, artist);
            let netease = queries(Catalogue::NetEase, title, artist);
            &&& qq.len() > 0 && qq[0] == whole
            &&& qq.len() == if short == whole {
                1int
            } else {
                2
            }
            &&& short != whole ==> qq[1] == short
            &&& netease.len() == 1 && netease[0] == short
        }),
{
}

/// What stands for itself in a query: letters, digits and four marks.
pub proof fn law_letters_and_digits_stand_for_themselves(byte: u8)
    ensures
        ({
            let c = byte as int;
            let plain = 65 <= c <= 90 || 97 <= c <= 122 || 48 <= c <= 57 || c == 45 || c == 95 || c
                == 46 || c == 126;
            &&& plain ==> escaped(seq![byte]) == seq![byte as char]
            &&& !plain ==> escaped(seq![byte]).len() == 3 && escaped(seq![byte])[0] == '%'
        }),
{
    assert(seq![byte].drop_first() =~= Seq::<u8>::empty());
    assert(escaped(Seq::<u8>::empty()) =~= Seq::<char>::empty());
    assert(escaped(seq![byte]) =~= escaped_byte(byte));
}

/// Encoding goes byte by byte.
pub proof fn law_encoding_goes_byte_by_byte(a: Seq<u8>, b: Seq<u8>)
    ensures
        escaped(a + b) == escaped(a) + escaped(b),
    decreases b.len(),
{
    if b.len() == 0 {
        assert(a + b =~= a);
        assert(escaped(a) + escaped(b) =~= escaped(a));
    } else {
        law_encoding_goes_byte_by_byte(a, b.drop_last());
        assert(a + b =~= (a + b.drop_last()).push(b.last()));
        assert(b =~= b.drop_last().push(b.last()));
        lemma_escaped_push(a + b.drop_last(), b.last());
        lemma_escaped_push(b.drop_last(), b.last());
        assert(escaped(a + b) =~= escaped(a) + escaped(b));
    }
}

proof fn lemma_between(front: Seq<char>, a: Seq<char>, b: Seq<char>, back: Seq<char>)
    requires
        front + a + back == front + b + back,
    ensures
        a == b,
{
    let one = front + a + back;
    let other = front + b + back;
    assert(one.len() == other.len());
    assert(one.skip(front.len() as int).take(a.len() as int) =~= a);
    assert(other.skip(front.len() as int).take(b.len() as int) =~= b);
}

/// Pages that are not the same search are not the same page: what is searched
/// for, and what a file is fetched by, can be told from the address.
pub proof fn law_pages_tell_what_they_ask_for(
    catalogue: Catalogue,
    one: Seq<char>,
    other: Seq<char>,
    a: int,
    b: int,
)
    ensures
        search_url(catalogue, one).url == search_url(catalogue, other).url ==> encode_utf8(one)
            == encode_utf8(other),
        lyric_url(LyricFile::QqLyric, a, one).url == lyric_url(LyricFile::QqLyric, b, other).url
            ==> encode_utf8(one) == encode_utf8(other),
        lyric_url(LyricFile::Qrc, a, one).url == lyric_url(LyricFile::Qrc, b, other).url ==> a == b,
        lyric_url(LyricFile::NetEaseLyric, a, one).url == lyric_url(
            LyricFile::NetEaseLyric,
            b,
            other,
        ).url ==> a == b,
{
    let x = escaped(encode_utf8(one));
    let y = escaped(encode_utf8(other));
    law_encoding_can_be_undone(encode_utf8(one));
    law_encoding_can_be_undone(encode_utf8(other));
    if search_url(catalogue, one).url == search_url(catalogue, other).url {
        match catalogue {
            Catalogue::Qq => {
                lemma_between(
                    "https://c.y.qq.com/soso/fcgi-bin/client_search_cp?w="@,
                    x,
                    y,
                    "&format=json&n=20&p=1"@,
                );
            },
            Catalogue::NetEase => {
                lemma_between(
                    "https://music.163.com/api/search/get/web?s="@,
                    x,
                    y,
                    "&type=1&offset=0&total=true&limit=10"@,
                );
            },
        }
    }
    if lyric_url(LyricFile::QqLyric, a, one).url == lyric_url(LyricFile::QqLyric, b, other).url {
        lemma_between(
            "https://c.y.qq.com/lyric/fcgi-bin/fcg_query_lyric_new.fcg?songmid="@,
            x,
            y,
            "&format=json&nobase64=1&g_tk=5381"@,
        );
    }
    if lyric_url(LyricFile::Qrc, a, one).url == lyric_url(LyricFile::Qrc, b, other).url {
        let front =
            "https://c.y.qq.com/qqmusic/fcgi-bin/lyric_download.fcg?version=15&miniversion=82&lrctype=4&musicid="@;
        let none = Seq::<char>::empty();
        assert(front + decimal(a) + none =~= front + decimal(a));
        assert(front + decimal(b) + none =~= front + decimal(b));
        lemma_between(front, decimal(a), decimal(b), none);
        law_integers_are_written_differently(a, b);
    }
    if lyric_url(LyricFile::NetEaseLyric, a, one).url == lyric_url(
        LyricFile::NetEaseLyric,
        b,
        other,
    ).url {
        lemma_between(
            "https://music.163.com/api/song/lyric?id="@,
            decimal(a),
            decimal(b),
            "&lv=1&kv=1&tv=-1"@,
        );
        law_integers_are_written_differently(a, b);
    }
}

/// A response without an opening or without a closing brace is left alone.
pub proof fn law_bare_responses_are_left_alone(raw: Seq<char>)
    requires
        !raw.contains('{') || !raw.contains('}'),
    ensures
        unwrapped(raw) == raw,
{
    lemma_position(raw, '{', 0);
    law_last_position_is_last(raw, '}', raw.len() as int);
    let start = position(raw, '{', 0);
    let end = last_position(raw, '}', raw.len() as int);
    if start < raw.len() {
        assert(raw.contains(raw[start]));
    }
    if end >= 0 {
        assert(raw.contains(raw[end]));
    }
}

/// Every item that has a name gives it, in the order of the items; one without
/// gives none.
pub proof fn law_no_singer_is_lost(a: Seq<Json>, b: Seq<Json>, one: Json)
    ensures
        names(a + b) == names(a) + names(b),
        member(one, "name"@) matches Json::Text(name) ==> names(seq![one]) == seq![name],
        !(member(one, "name"@) is Text) ==> names(seq![one]).len() == 0,
    decreases b.len(),
{
    assert(seq![one].drop_last() =~= Seq::<Json>::empty());
    assert(names(Seq::<Json>::empty()) =~= Seq::<Seq<char>>::empty());
    if let Json::Text(name) = member(one, "name"@) {
        assert(names(seq![one]) =~= seq![name]);
    }
    if b.len() == 0 {
        assert(a + b =~= a);
        assert(names(a) + names(b) =~= names(a));
    } else {
        law_no_singer_is_lost(a, b.drop_last(), one);
        assert((a + b).drop_last() =~= a + b.drop_last());
        assert(names(a + b) =~= names(a) + names(b));
    }
}

/// A song is described by what its catalogue says of it, each under its own name:
/// the title, the artists, the album, and the length in seconds or milliseconds.
/// It is compared by these very texts, and by the title without its decoration.
pub proof fn law_songs_are_described_by_their_members(
    song: Json,
    title: Seq<char>,
    singers: Seq<Json>,
    album: Seq<char>,
    length: int,
)
    requires
        i64::MIN <= length <= u64::MAX,
    ensures
        member(song, "songname"@) == Json::Text(title) && member(song, "singer"@) == Json::List(
            singers,
        ) && member(song, "albumname"@) == Json::Text(album) && member(song, "interval"@)
            == Json::Integer(length) ==> {
            let meta = hit(Catalogue::Qq, song).meta;
            &&& meta.title == title && meta.folded.title == title
            &&& meta.folded.base == plain(title)
            &&& meta.artists == names(singers) && meta.folded.artists == names(singers)
            &&& meta.album == album && meta.folded.album == album
            &&& 0 <= length <= 900_000_000_000 ==> meta.duration == Some(
                (length * 10_000_000) as i64,
            )
        },
        member(song, "name"@) == Json::Text(title) && member(song, "artists"@) == Json::List(singers)
            && member(member(song, "album"@), "name"@) == Json::Text(album) && member(
            song,
            "duration"@,
        ) == Json::Integer(length) ==> {
            let meta = hit(Catalogue::NetEase, song).meta;
            &&& meta.title == title && meta.folded.title == title
            &&& meta.folded.base == plain(title)
            &&& meta.artists == names(singers) && meta.folded.artists == names(singers)
            &&& meta.album == album && meta.folded.album == album
            &&& 0 <= length <= 900_000_000_000_000 ==> meta.duration == Some(
                (length * 10_000) as i64,
            )
        },
{
    law_whole_lengths_are_read(length);
}

/// A search lists every song of the answer, in its order, with its number and,
/// in QQ Music, its other name.
pub proof fn law_searches_list_every_song(catalogue: Catalogue, answer: Json, songs: Seq<Json>)
    requires
        catalogue == Catalogue::Qq ==> member(member(member(answer, "data"@), "song"@), "list"@)
            == Json::List(songs),
        catalogue == Catalogue::NetEase ==> member(member(answer, "result"@), "songs"@)
            == Json::List(songs),
    ensures
        listed(catalogue, answer) is Some,
        listed(catalogue, answer)->0.len() == songs.len(),
        forall|i: int|
            0 <= i < songs.len() ==> {
                let one = #[trigger] listed(catalogue, answer)->0[i];
                let id = if catalogue == Catalogue::Qq {
                    member(songs[i], "songid"@)
                } else {
                    member(songs[i], "id"@)
                };
                &&& one == hit(catalogue, songs[i])
                &&& id matches Json::Integer(n) ==> (i64::MIN <= n <= i64::MAX ==> one.id == Some(
                    n as i64,
                ))
                &&& !(id is Integer) ==> one.id is None
                &&& catalogue == Catalogue::Qq && member(songs[i], "songmid"@) is Text ==> one.mid
                    == member(songs[i], "songmid"@)->Text_0
                &&& catalogue == Catalogue::NetEase ==> one.mid.len() == 0
            },
{
}

/// QQ Music's answer holds its lyric as LRC, and the translation likewise. One
/// without a line has none.
pub proof fn law_qq_answers_hold_lrc(answer: Json, lyric: Seq<char>, trans: Seq<char>)
    requires
        member(answer, "lyric"@) == Json::Text(lyric),
        member(answer, "trans"@) == Json::Text(trans),
    ensures
        lrc_lines(lyric).len() == 0 ==> qq_sheet(answer) is None,
        lrc_lines(lyric).len() > 0 ==> qq_sheet(answer) == Some(
            SheetView {
                provider: Provider::QqLrc,
                lines: lrc_lines(lyric),
                translations: lrc_lines(trans),
            },
        ),
{
}

/// NetEase's answer may hold a word-timed lyric, which is taken where it has a
/// line, and a plain one; the translation is LRC.
pub proof fn law_netease_answers_prefer_timed_words(
    answer: Json,
    timed: Seq<char>,
    untimed: Seq<char>,
    trans: Seq<char>,
)
    requires
        member(member(answer, "yrc"@), "lyric"@) == Json::Text(timed),
        member(member(answer, "lrc"@), "lyric"@) == Json::Text(untimed),
        member(member(answer, "tlyric"@), "lyric"@) == Json::Text(trans),
    ensures
        yrc_lines(timed).len() > 0 ==> netease_sheet(answer) == Some(
            SheetView {
                provider: Provider::NeteaseYrc,
                lines: yrc_lines(timed),
                translations: lrc_lines(trans),
            },
        ),
        yrc_lines(timed).len() == 0 && lrc_lines(untimed).len() > 0 ==> netease_sheet(answer)
            == Some(
            SheetView {
                provider: Provider::NeteaseLrc,
                lines: lrc_lines(untimed),
                translations: lrc_lines(trans),
            },
        ),
        yrc_lines(timed).len() == 0 && lrc_lines(untimed).len() == 0 ==> netease_sheet(
            answer,
        ) is None,
{
}

/// A decrypted lyric is QRC, and its translation is read as one; without a line
/// there is none.
pub proof fn law_decrypted_lyrics_are_qrc(lyric: Seq<char>, translation: Seq<char>)
    ensures
        qrc_lines(lyric).len() > 0 ==> {
            &&& qrc_sheet(lyric, Some(translation)) == Some(
                SheetView {
                    provider: Provider::QqQrc,
                    lines: qrc_lines(lyric),
                    translations: translation_lines(translation),
                },
            )
            &&& qrc_sheet(lyric, None) is Some
            &&& qrc_sheet(lyric, None)->0.lines == qrc_lines(lyric)
            &&& qrc_sheet(lyric, None)->0.translations.len() == 0
        },
        qrc_lines(lyric).len() == 0 ==> qrc_sheet(lyric, Some(translation)) is None && qrc_sheet(
            lyric,
            None,
        ) is None,
{
}

/// Only QQ Music's responses come wrapped.
pub proof fn law_only_qq_wraps_its_answers(
    front: Seq<char>,
    document: Seq<char>,
    back: Seq<char>,
)
    requires
        !front.contains('{'),
        !back.contains('}'),
        document.len() >= 2,
        document[0] == '{',
        document.last() == '}',
    ensures
        document_in(Catalogue::Qq, front + document + back) == json_in(document),
        document_in(Catalogue::NetEase, document) == json_in(document),
{
    law_callback_is_stripped(front, document, back);
}

proof fn lemma_open()
    ensures
        block_open() == "<![CDATA["@,
        block_close() == "]]>"@,
        "<![CDATA["@.len() == 9,
        "]]>"@.len() == 3,
{
    reveal_strlit("<![CDATA[");
    reveal_strlit("]]>");
    assert(block_open() =~= "<![CDATA["@);
    assert(block_close() =~= "]]>"@);
}

proof fn lemma_found(s: Seq<char>, needle: Seq<char>, at: int)
    requires
        needle.len() > 0,
        stands_at(s, needle, at),
        forall|i: int| 0 <= i < at ==> !#[trigger] stands_at(s, needle, i),
    ensures
        find(s, needle, 0) == at,
{
    law_find_is_first(s, needle, 0);
    let found = find(s, needle, 0);
    if found < at {
        assert(stands_at(s, needle, found));
    }
}

proof fn lemma_stands_in_front(s: Seq<char>, needle: Seq<char>, n: int, i: int)
    requires
        0 <= n <= s.len(),
        stands_at(s.take(n), needle, i),
    ensures
        stands_at(s, needle, i),
{
    assert(s.take(n).subrange(i, i + needle.len()) =~= s.subrange(i, i + needle.len()));
}

proof fn lemma_piece(inner: Seq<char>, back: Seq<char>)
    requires
        ({
            let rest = inner + block_close() + back;
            &&& forall|i: int|
                0 <= i < inner.len() + 3 ==> !#[trigger] stands_at(rest, block_open(), i)
            &&& forall|i: int|
                0 <= i < inner.len() ==> !#[trigger] stands_at(rest, block_close(), i)
        }),
    ensures
        ({
            let rest = inner + block_close() + back;
            let piece = rest.take(find(rest, block_open(), 0));
            piece.take(find(piece, block_close(), 0)) == inner
        }),
{
    let rest = inner + block_close() + back;
    law_find_is_first(rest, block_open(), 0);
    let next = find(rest, block_open(), 0);
    if next < inner.len() + 3 {
        assert(stands_at(rest, block_open(), next));
    }
    let piece = rest.take(next);
    let end = inner.len() as int;
    assert(piece.subrange(end, end + 3) =~= block_close());
    assert forall|i: int| 0 <= i < end implies !#[trigger] stands_at(piece, block_close(), i) by {
        if stands_at(piece, block_close(), i) {
            lemma_stands_in_front(rest, block_close(), next, i);
        }
    }
    lemma_found(piece, block_close(), end);
    assert(piece.take(end) =~= inner);
}

/// A block is what stands, trimmed, between the first opening mark and the next
/// closing one; the others are those of what stands behind the opening mark.
pub proof fn law_blocks_stand_between_their_marks(
    front: Seq<char>,
    inner: Seq<char>,
    back: Seq<char>,
)
    requires
        ({
            let document = front + "<![CDATA["@ + (inner + "]]>"@ + back);
            let rest = inner + "]]>"@ + back;
            &&& forall|i: int|
                0 <= i < front.len() ==> !#[trigger] stands_at(document, "<![CDATA["@, i)
            &&& forall|i: int|
                0 <= i < inner.len() + 3 ==> !#[trigger] stands_at(rest, "<![CDATA["@, i)
            &&& forall|i: int| 0 <= i < inner.len() ==> !#[trigger] stands_at(rest, "]]>"@, i)
        }),
    ensures
        blocks(front + "<![CDATA["@ + (inner + "]]>"@ + back)) == seq![trim(inner)] + blocks(
            inner + "]]>"@ + back,
        ),
{
    lemma_open();
    let rest = inner + block_close() + back;
    let document = front + block_open() + rest;
    let at = front.len() as int;
    assert(document.subrange(at, at + 9) =~= block_open());
    lemma_found(document, block_open(), at);
    assert(document.skip(at + 9) =~= rest);
    lemma_piece(inner, back);
}

/// What is decrypted of a document are its first block and, where there is
/// something in it, its second.
pub proof fn law_first_blocks_are_sealed(document: Seq<char>)
    ensures
        blocks(document).len() == 0 ==> sealed(document) is None,
        blocks(document).len() > 0 ==> sealed(document) is Some && (sealed(document)->0).0
            == blocks(document)[0],
        blocks(document).len() == 1 ==> (sealed(document)->0).1 is None,
        blocks(document).len() > 1 ==> if blocks(document)[1].len() > 0 {
            (sealed(document)->0).1 == Some(blocks(document)[1])
        } else {
            (sealed(document)->0).1 is None
        },
{
}

/// Each file holds the lyrics of its own providers, and belongs to one
/// catalogue.
pub proof fn law_files_have_their_providers(file: LyricFile, provider: Provider)
    ensures
        provides(LyricFile::Qrc, provider) <==> provider == Provider::QqQrc,
        provides(LyricFile::QqLyric, provider) <==> provider == Provider::QqLrc,
        provides(LyricFile::NetEaseLyric, provider) <==> provider == Provider::NeteaseYrc
            || provider == Provider::NeteaseLrc,
        belongs(Catalogue::Qq, provider) <==> provider == Provider::QqQrc || provider
            == Provider::QqLrc,
        belongs(Catalogue::NetEase, provider) <==> !belongs(Catalogue::Qq, provider),
        catalogue_of(file) == Catalogue::NetEase <==> file == LyricFile::NetEaseLyric,
        provides(file, provider) ==> belongs(catalogue_of(file), provider),
{
}

/// A file is read for what it is: QRC by what was decrypted of it, the others by
/// their response, and nothing where that is missing.
pub proof fn law_files_are_read_by_their_kind(
    answer: Json,
    lyric: Seq<char>,
    translation: Option<Seq<char>>,
)
    ensures
        sheet_in(LyricFile::Qrc, Some(answer), Some((lyric, translation))) == qrc_sheet(
            lyric,
            translation,
        ),
        sheet_in(LyricFile::QqLyric, Some(answer), Some((lyric, translation))) == qq_sheet(answer),
        sheet_in(LyricFile::NetEaseLyric, Some(answer), Some((lyric, translation)))
            == netease_sheet(answer),
        sheet_in(LyricFile::Qrc, Some(answer), None) is None,
        sheet_in(LyricFile::QqLyric, None, Some((lyric, translation))) is None,
        sheet_in(LyricFile::NetEaseLyric, None, Some((lyric, translation))) is None,
{
}

} // verus!
