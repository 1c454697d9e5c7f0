//! Lyrics for whatever is playing: what a lookup returns, and what the notch
//! shows of it.

pub mod align;
pub mod cache;
pub mod hub;
pub mod lookup;
pub mod notation;
pub mod parse;
pub mod search;
pub mod select;
pub mod song;

use crate::text::{owned, same_text};
use vstd::prelude::*;

verus! {

/// Times are counted in ticks of 100 nanoseconds.
pub const TICKS_PER_SECOND: i64 = 10_000_000;

/// One timed piece of a line.
#[derive(Debug, PartialEq)]
pub struct LyricWord {
    /// Ticks into the track.
    pub at: i64,
    /// How long it is sung, in ticks.
    pub duration: i64,
    pub text: String,
}

#[derive(Debug, PartialEq)]
pub struct LyricLine {
    /// Ticks into the track.
    pub at: i64,
    pub text: String,
    pub translation: Option<String>,
    /// Per-character timing, when the source has it.
    pub words: Vec<LyricWord>,
}

#[derive(Debug, Clone, Copy, PartialEq, Eq, Structural)]
pub enum LyricStatus {
    Idle,
    Loading,
    Found,
    Uncertain,
    NotFound,
}

#[derive(Debug, Clone, Copy, PartialEq, Eq, Hash, Structural)]
pub enum Provider {
    QqQrc,
    QqLrc,
    NeteaseYrc,
    NeteaseLrc,
}

/// Where the lines of a lyric come from.
#[derive(Debug, Clone, Copy, PartialEq)]
pub struct LyricSource {
    pub original: Provider,
    pub translation: Option<Provider>,
    /// The shift that lays the translation over the lines, in ticks.
    pub translation_offset: Option<i64>,
}

#[derive(Debug, PartialEq)]
pub struct Lyrics {
    /// The track these lines belong to, so that stale ones can be dropped.
    pub track: String,
    /// Whether the accepted lines have real timestamps.
    pub timed: bool,
    pub word_timed: bool,
    pub status: LyricStatus,
    pub source: Option<LyricSource>,
    pub from_cache: bool,
    pub lines: Vec<LyricLine>,
}

/// What a word holds.
#[verifier::ext_equal]
pub struct WordView {
    pub at: i64,
    pub duration: i64,
    pub text: Seq<char>,
}

/// What a line holds.
#[verifier::ext_equal]
pub struct LineView {
    pub at: i64,
    pub text: Seq<char>,
    pub translation: Option<Seq<char>>,
    pub words: Seq<WordView>,
}

/// What a set of lyrics holds.
#[verifier::ext_equal]
pub struct LyricsView {
    pub track: Seq<char>,
    pub timed: bool,
    pub word_timed: bool,
    pub status: LyricStatus,
    pub source: Option<LyricSource>,
    pub from_cache: bool,
    pub lines: Seq<LineView>,
}

pub open spec fn words_view(words: Seq<LyricWord>) -> Seq<WordView> {
    Seq::new(words.len(), |i: int| words[i]@)
}

pub open spec fn lines_view(lines: Seq<LyricLine>) -> Seq<LineView> {
    Seq::new(lines.len(), |i: int| lines[i]@)
}

pub open spec fn text_view(text: Option<String>) -> Option<Seq<char>> {
    match text {
        Some(text) => Some(text@),
        None => None,
    }
}

impl View for LyricWord {
    type V = WordView;

    open spec fn view(&self) -> WordView {
        WordView { at: self.at, duration: self.duration, text: self.text@ }
    }
}

impl View for LyricLine {
    type V = LineView;

    open spec fn view(&self) -> LineView {
        LineView {
            at: self.at,
            text: self.text@,
            translation: text_view(self.translation),
            words: words_view(self.words@),
        }
    }
}

impl View for Lyrics {
    type V = LyricsView;

    open spec fn view(&self) -> LyricsView {
        LyricsView {
            track: self.track@,
            timed: self.timed,
            word_timed: self.word_timed,
            status: self.status,
            source: self.source,
            from_cache: self.from_cache,
            lines: lines_view(self.lines@),
        }
    }
}

/// No lyrics at all: what stands when nothing is playing.
pub open spec fn no_lyrics() -> LyricsView {
    LyricsView {
        track: Seq::empty(),
        timed: false,
        word_timed: false,
        status: LyricStatus::Idle,
        source: None,
        from_cache: false,
        lines: Seq::empty(),
    }
}

impl Default for LyricStatus {
    fn default() -> (res: Self)
        ensures
            res == LyricStatus::Idle,
    {
        LyricStatus::Idle
    }
}

/// The name of a status, as it is written and announced.
pub open spec fn status_name(status: LyricStatus) -> Seq<char> {
    match status {
        LyricStatus::Idle => "idle"@,
        LyricStatus::Loading => "loading"@,
        LyricStatus::Found => "found"@,
        LyricStatus::Uncertain => "uncertain"@,
        LyricStatus::NotFound => "notFound"@,
    }
}

/// The name of a provider, as it is written and announced.
pub open spec fn provider_name(provider: Provider) -> Seq<char> {
    match provider {
        Provider::QqQrc => "qq-qrc"@,
        Provider::QqLrc => "qq-lrc"@,
        Provider::NeteaseYrc => "netease-yrc"@,
        Provider::NeteaseLrc => "netease-lrc"@,
    }
}

impl LyricStatus {
    pub fn name(self) -> (res: String)
        ensures
            res@ == status_name(self),
    {
        match self {
            LyricStatus::Idle => owned("idle"),
            LyricStatus::Loading => owned("loading"),
            LyricStatus::Found => owned("found"),
            LyricStatus::Uncertain => owned("uncertain"),
            LyricStatus::NotFound => owned("notFound"),
        }
    }

    /// The status of that name, if there is one.
    pub fn from_name(name: &str) -> (res: Option<Self>)
        ensures
            match res {
                Some(status) => name@ == status_name(status),
                None => forall|status: LyricStatus| name@ != #[trigger] status_name(status),
            },
    {
        if same_text(name, "idle") {
            Some(LyricStatus::Idle)
        } else if same_text(name, "loading") {
            Some(LyricStatus::Loading)
        } else if same_text(name, "found") {
            Some(LyricStatus::Found)
        } else if same_text(name, "uncertain") {
            Some(LyricStatus::Uncertain)
        } else if same_text(name, "notFound") {
            Some(LyricStatus::NotFound)
        } else {
            None
        }
    }
}

impl Provider {
    pub fn name(self) -> (res: String)
        ensures
            res@ == provider_name(self),
    {
        match self {
            Provider::QqQrc => owned("qq-qrc"),
            Provider::QqLrc => owned("qq-lrc"),
            Provider::NeteaseYrc => owned("netease-yrc"),
            Provider::NeteaseLrc => owned("netease-lrc"),
        }
    }

    /// The provider of that name, if there is one.
    pub fn from_name(name: &str) -> (res: Option<Self>)
        ensures
            match res {
                Some(provider) => name@ == provider_name(provider),
                None => forall|provider: Provider| name@ != #[trigger] provider_name(provider),
            },
    {
        if same_text(name, "qq-qrc") {
            Some(Provider::QqQrc)
        } else if same_text(name, "qq-lrc") {
            Some(Provider::QqLrc)
        } else if same_text(name, "netease-yrc") {
            Some(Provider::NeteaseYrc)
        } else if same_text(name, "netease-lrc") {
            Some(Provider::NeteaseLrc)
        } else {
            None
        }
    }
}

/// No two statuses and no two providers share a name, so that what was written
/// can be read again.
pub proof fn law_names_are_distinct(a: LyricStatus, b: LyricStatus, c: Provider, d: Provider)
    ensures
        status_name(a) == status_name(b) ==> a == b,
        provider_name(c) == provider_name(d) ==> c == d,
{
    reveal_strlit("idle");
    reveal_strlit("loading");
    reveal_strlit("found");
    reveal_strlit("uncertain");
    reveal_strlit("notFound");
    reveal_strlit("qq-qrc");
    reveal_strlit("qq-lrc");
    reveal_strlit("netease-yrc");
    reveal_strlit("netease-lrc");
    assert(status_name(LyricStatus::Idle).len() == 4);
    assert(status_name(LyricStatus::Loading).len() == 7);
    assert(status_name(LyricStatus::Found).len() == 5);
    assert(status_name(LyricStatus::Uncertain).len() == 9);
    assert(status_name(LyricStatus::NotFound).len() == 8);
    assert(provider_name(Provider::QqQrc)[3] == 'q');
    assert(provider_name(Provider::QqLrc)[3] == 'l');
    assert(provider_name(Provider::NeteaseYrc)[8] == 'y');
    assert(provider_name(Provider::NeteaseLrc)[8] == 'l');
}

impl Default for Lyrics {
    fn default() -> (res: Self)
        ensures
            res@ == no_lyrics(),
    {
        Lyrics {
            track: String::new(),
            timed: false,
            word_timed: false,
            status: LyricStatus::Idle,
            source: None,
            from_cache: false,
            lines: Vec::new(),
        }
    }
}

impl Clone for LyricWord {
    fn clone(&self) -> (res: Self)
        ensures
            res@ == self@,
    {
        LyricWord { at: self.at, duration: self.duration, text: self.text.clone() }
    }
}

pub fn copy_words(words: &Vec<LyricWord>) -> (res: Vec<LyricWord>)
    ensures
        words_view(res@) == words_view(words@),
{
    let mut res: Vec<LyricWord> = Vec::new();
    for i in 0..words.len()
        invariant
            words_view(res@) == words_view(words@).take(i as int),
    {
        let ghost before = res@;
        res.push(words[i].clone());
        assert(words_view(res@) =~= words_view(before).push(words@[i as int]@));
    }
    res
}

pub fn copy_text(text: &Option<String>) -> (res: Option<String>)
    ensures
        text_view(res) == text_view(*text),
{
    match text {
        Some(text) => Some(text.clone()),
        None => None,
    }
}

impl Clone for LyricLine {
    fn clone(&self) -> (res: Self)
        ensures
            res@ == self@,
    {
        LyricLine {
            at: self.at,
            text: self.text.clone(),
            translation: copy_text(&self.translation),
            words: copy_words(&self.words),
        }
    }
}

pub fn copy_lines(lines: &Vec<LyricLine>) -> (res: Vec<LyricLine>)
    ensures
        lines_view(res@) == lines_view(lines@),
{
    let mut res: Vec<LyricLine> = Vec::new();
    for i in 0..lines.len()
        invariant
            lines_view(res@) == lines_view(lines@).take(i as int),
    {
        let ghost before = res@;
        res.push(lines[i].clone());
        assert(lines_view(res@) =~= lines_view(before).push(lines@[i as int]@));
    }
    res
}

impl Clone for Lyrics {
    fn clone(&self) -> (res: Self)
        ensures
            res@ == self@,
    {
        Lyrics {
            track: self.track.clone(),
            timed: self.timed,
            word_timed: self.word_timed,
            status: self.status,
            source: self.source,
            from_cache: self.from_cache,
            lines: copy_lines(&self.lines),
        }
    }
}

fn same_optional_text(a: &Option<String>, b: &Option<String>) -> (res: bool)
    ensures
        res == (text_view(*a) == text_view(*b)),
{
    match (a, b) {
        (Some(a), Some(b)) => *a == *b,
        (None, None) => true,
        _ => false,
    }
}

fn same_words(a: &Vec<LyricWord>, b: &Vec<LyricWord>) -> (res: bool)
    ensures
        res == (words_view(a@) == words_view(b@)),
{
    if a.len() != b.len() {
        assert(words_view(a@).len() != words_view(b@).len());
        return false;
    }
    for i in 0..a.len()
        invariant
            a@.len() == b@.len(),
            forall|j: int| 0 <= j < i ==> #[trigger] a@[j]@ == b@[j]@,
    {
        if a[i].at != b[i].at || a[i].duration != b[i].duration || a[i].text != b[i].text {
            assert(words_view(a@)[i as int] != words_view(b@)[i as int]);
            return false;
        }
    }
    assert(words_view(a@) =~= words_view(b@));
    true
}

fn same_line(a: &LyricLine, b: &LyricLine) -> (res: bool)
    ensures
        res == (a@ == b@),
{
    a.at == b.at && a.text == b.text && same_optional_text(&a.translation, &b.translation)
        && same_words(&a.words, &b.words)
}

fn same_lines(a: &Vec<LyricLine>, b: &Vec<LyricLine>) -> (res: bool)
    ensures
        res == (lines_view(a@) == lines_view(b@)),
{
    if a.len() != b.len() {
        assert(lines_view(a@).len() != lines_view(b@).len());
        return false;
    }
    for i in 0..a.len()
        invariant
            a@.len() == b@.len(),
            forall|j: int| 0 <= j < i ==> #[trigger] a@[j]@ == b@[j]@,
    {
        if !same_line(&a[i], &b[i]) {
            assert(lines_view(a@)[i as int] != lines_view(b@)[i as int]);
            return false;
        }
    }
    assert(lines_view(a@) =~= lines_view(b@));
    true
}

fn same_provider(a: Option<Provider>, b: Option<Provider>) -> (res: bool)
    ensures
        res == (a == b),
{
    match (a, b) {
        (Some(a), Some(b)) => a == b,
        (None, None) => true,
        _ => false,
    }
}

fn same_offset(a: Option<i64>, b: Option<i64>) -> (res: bool)
    ensures
        res == (a == b),
{
    match (a, b) {
        (Some(a), Some(b)) => a == b,
        (None, None) => true,
        _ => false,
    }
}

fn same_source(a: &Option<LyricSource>, b: &Option<LyricSource>) -> (res: bool)
    ensures
        res == (*a == *b),
{
    match (a, b) {
        (Some(a), Some(b)) => a.original == b.original && same_provider(
            a.translation,
            b.translation,
        ) && same_offset(a.translation_offset, b.translation_offset),
        (None, None) => true,
        _ => false,
    }
}

/// Whether two sets of lyrics hold the same.
pub fn same_lyrics(a: &Lyrics, b: &Lyrics) -> (res: bool)
    ensures
        res == (a@ == b@),
{
    a.track == b.track && a.timed == b.timed && a.word_timed == b.word_timed && a.status == b.status
        && same_source(&a.source, &b.source) && a.from_cache == b.from_cache && same_lines(
        &a.lines,
        &b.lines,
    )
}

} // verus!
