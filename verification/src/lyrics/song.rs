//! Telling songs apart: the texts by which they are compared, and how well a
//! search result matches what is playing.

use crate::lyrics::TICKS_PER_SECOND;
use crate::media::MediaState;
use crate::number::{finite, ABOVE, BELOW};
use crate::text::{
    alphanumeric, append_str, chars_of, contains, find, find_of, has, has_text, holds,
    law_contained_text_is_a_part, law_find_is_first, law_first_occurrence_is_replaced,
    law_pieces_of_joined_texts, law_replacing_goes_from_the_left, law_scan_is_first,
    lemma_position, lowercase, owned, pieces, position, replace_of, replaced, same, scan, scan_of,
    stands_at, string_of, texts, trim, trim_of,
};
use vstd::prelude::*;
use vstd::slice::slice_subrange;

verus! {

/// The players that favour one of the lyric providers.
#[derive(Debug, Clone, Copy, PartialEq, Eq, Structural)]
pub enum PlayerKind {
    QqMusic,
    NetEase,
    Spotify,
    Other,
}

/// The texts by which a song is compared, with traditional characters folded
/// to simplified ones, so that a title from one catalogue can be compared with
/// that from another.
#[derive(Debug)]
pub struct FoldedSong {
    pub title: String,
    /// The title without its decoration.
    pub base: String,
    pub artists: Vec<String>,
    pub album: String,
}

/// A song as a catalogue describes it.
#[derive(Debug)]
pub struct SongMeta {
    pub title: String,
    pub artists: Vec<String>,
    pub album: String,
    /// Length in ticks.
    pub duration: Option<i64>,
    pub folded: FoldedSong,
}

/// A lookup that is asked for.
#[derive(Debug)]
pub struct Request {
    pub track: String,
    pub title: String,
    pub artist: String,
    pub album: String,
    /// Length in ticks.
    pub duration: Option<i64>,
    pub player: PlayerKind,
    pub generation: u64,
    /// Whether to pass over what is cached.
    pub force: bool,
    pub folded: FoldedSong,
}

/// How far a search result can be trusted.
#[derive(Debug, Clone, Copy, PartialEq, Eq, Structural)]
pub enum Confidence {
    Rejected,
    Uncertain,
    Reliable,
}

#[derive(Debug, Clone, Copy, PartialEq, Eq, Structural)]
pub struct MatchScore {
    /// From 0 to 100.
    pub total: i32,
    pub confidence: Confidence,
}

/// The versions of a song that its title names.
#[derive(Debug, Clone, Copy, PartialEq, Eq, Structural)]
pub struct VersionTags {
    pub live: bool,
    pub remix: bool,
    pub acoustic: bool,
    pub instrumental: bool,
    pub remaster: bool,
    /// "伴奏", a backing track.
    pub backing: bool,
    /// "现场", a live recording.
    pub on_stage: bool,
}

/// What a folded song holds.
#[verifier::ext_equal]
pub struct FoldedView {
    pub title: Seq<char>,
    pub base: Seq<char>,
    pub artists: Seq<Seq<char>>,
    pub album: Seq<char>,
}

/// What a song's description holds.
#[verifier::ext_equal]
pub struct MetaView {
    pub title: Seq<char>,
    pub artists: Seq<Seq<char>>,
    pub album: Seq<char>,
    pub duration: Option<i64>,
    pub folded: FoldedView,
}

/// What a request holds.
#[verifier::ext_equal]
pub struct RequestView {
    pub track: Seq<char>,
    pub title: Seq<char>,
    pub artist: Seq<char>,
    pub album: Seq<char>,
    pub duration: Option<i64>,
    pub player: PlayerKind,
    pub generation: u64,
    pub force: bool,
    pub folded: FoldedView,
}

impl View for Request {
    type V = RequestView;

    open spec fn view(&self) -> RequestView {
        RequestView {
            track: self.track@,
            title: self.title@,
            artist: self.artist@,
            album: self.album@,
            duration: self.duration,
            player: self.player,
            generation: self.generation,
            force: self.force,
            folded: self.folded@,
        }
    }
}

impl View for FoldedSong {
    type V = FoldedView;

    open spec fn view(&self) -> FoldedView {
        FoldedView {
            title: self.title@,
            base: self.base@,
            artists: texts(self.artists@),
            album: self.album@,
        }
    }
}

impl View for SongMeta {
    type V = MetaView;

    open spec fn view(&self) -> MetaView {
        MetaView {
            title: self.title@,
            artists: texts(self.artists@),
            album: self.album@,
            duration: self.duration,
            folded: self.folded@,
        }
    }
}

pub fn copy_texts(list: &Vec<String>) -> (res: Vec<String>)
    ensures
        texts(res@) == texts(list@),
{
    let mut res: Vec<String> = Vec::new();
    for i in 0..list.len()
        invariant
            texts(res@) == texts(list@).take(i as int),
    {
        let ghost before = res@;
        res.push(list[i].clone());
        assert(texts(res@) =~= texts(before).push(list@[i as int]@));
    }
    res
}

impl Clone for FoldedSong {
    fn clone(&self) -> (res: Self)
        ensures
            res@ == self@,
    {
        FoldedSong {
            title: self.title.clone(),
            base: self.base.clone(),
            artists: copy_texts(&self.artists),
            album: self.album.clone(),
        }
    }
}

impl Clone for SongMeta {
    fn clone(&self) -> (res: Self)
        ensures
            res@ == self@,
    {
        SongMeta {
            title: self.title.clone(),
            artists: copy_texts(&self.artists),
            album: self.album.clone(),
            duration: self.duration,
            folded: self.folded.clone(),
        }
    }
}

impl Clone for Request {
    fn clone(&self) -> (res: Self)
        ensures
            res@ == self@,
    {
        Request {
            track: self.track.clone(),
            title: self.title.clone(),
            artist: self.artist.clone(),
            album: self.album.clone(),
            duration: self.duration,
            player: self.player,
            generation: self.generation,
            force: self.force,
            folded: self.folded.clone(),
        }
    }
}

/// What opens the decoration of a title.
pub open spec fn title_stops() -> Seq<char> {
    seq!['(', '（', '[']
}

/// A title without the suffixes that players add: "Song - Live", "Song (feat.
/// X)". A title that is all decoration keeps its own text.
pub open spec fn plain(title: Seq<char>) -> Seq<char> {
    let undashed = title.take(find(title, " - "@, 0));
    let bare = trim(undashed.take(scan(undashed, title_stops(), 0)));
    if bare.len() == 0 {
        trim(title)
    } else {
        bare
    }
}

/// What parts the names in a billing.
pub open spec fn artist_stops() -> Seq<char> {
    seq![',', '，', '&', '/', ';', '；', '、', '×']
}

/// A billing with the words between names turned into slashes.
pub open spec fn slashed(artist: Seq<char>) -> Seq<char> {
    let dotted = replaced(artist, " feat. "@, "/"@);
    let short = replaced(dotted, " feat "@, "/"@);
    let long = replaced(short, " featuring "@, "/"@);
    replaced(long, " x "@, "/"@)
}

/// The parts that are not blank, trimmed.
pub open spec fn kept(parts: Seq<Seq<char>>) -> Seq<Seq<char>>
    decreases parts.len(),
{
    if parts.len() == 0 {
        Seq::empty()
    } else if trim(parts[0]).len() == 0 {
        kept(parts.drop_first())
    } else {
        seq![trim(parts[0])] + kept(parts.drop_first())
    }
}

/// The names in a billing, in small letters.
pub open spec fn billed(artist: Seq<char>) -> Seq<Seq<char>> {
    kept(pieces(slashed(lowercase(artist)), artist_stops()))
}

/// The lead name of a billing; a billing without names gives its own text.
pub open spec fn lead(artist: Seq<char>) -> Seq<char> {
    if billed(artist).len() == 0 {
        trim(artist)
    } else {
        billed(artist)[0]
    }
}

/// A folded text as it is compared: its letters and digits, in small letters.
pub open spec fn normal(folded: Seq<char>) -> Seq<char> {
    lowercase(folded.filter(|c: char| alphanumeric(c)))
}

/// Whether the mark that divides a key cannot be taken for a part of this text.
/// That holds of every text: see `normalize`.
pub open spec fn unmarked(folded: Seq<char>) -> bool {
    !normal(folded).contains('\u{1f}')
}

/// What divides the parts of a track's key.
pub open spec fn key_mark() -> Seq<char> {
    seq!['\u{1f}']
}

/// The identity of a track, from its folded title, artist and album.
pub open spec fn key(title: Seq<char>, artist: Seq<char>, album: Seq<char>) -> Seq<char> {
    normal(title) + key_mark() + normal(artist) + key_mark() + normal(album)
}

/// The player that a session's identifier and application name tell of.
pub open spec fn player_of(source_id: Seq<char>, app_name: Seq<char>) -> PlayerKind {
    let name = lowercase(source_id + seq![' '] + app_name);
    if contains(name, "spotify"@) {
        PlayerKind::Spotify
    } else if contains(name, "qqmusic"@) || contains(name, "qq 音乐"@) || contains(
        name,
        "qq音乐"@,
    ) {
        PlayerKind::QqMusic
    } else if contains(name, "cloudmusic"@) || contains(name, "netease"@) || contains(
        name,
        "网易云"@,
    ) || contains(name, "163music"@) {
        PlayerKind::NetEase
    } else {
        PlayerKind::Other
    }
}

pub open spec fn tags_of(title: Seq<char>) -> VersionTags {
    let lower = lowercase(title);
    VersionTags {
        live: contains(lower, "live"@),
        remix: contains(lower, "remix"@),
        acoustic: contains(lower, "acoustic"@),
        instrumental: contains(lower, "instrumental"@),
        remaster: contains(lower, "remaster"@),
        backing: contains(lower, "伴奏"@),
        on_stage: contains(lower, "现场"@),
    }
}

/// Whether one of two texts stands within the other, and neither is empty.
pub open spec fn overlap(a: Seq<char>, b: Seq<char>) -> bool {
    a.len() > 0 && b.len() > 0 && (contains(a, b) || contains(b, a))
}

pub open spec fn equal(a: Seq<char>, b: Seq<char>) -> bool {
    a.len() > 0 && a == b
}

pub open spec fn title_points(wanted: FoldedView, actual: FoldedView) -> int {
    if equal(normal(wanted.title), normal(actual.title)) {
        50
    } else if equal(normal(wanted.base), normal(actual.base)) {
        42
    } else if overlap(normal(wanted.base), normal(actual.base)) {
        25
    } else {
        0
    }
}

/// Whether one list names someone that the other names.
pub open spec fn share_artist(wanted: Seq<Seq<char>>, actual: Seq<Seq<char>>) -> bool {
    exists|i: int, j: int|
        0 <= i < wanted.len() && 0 <= j < actual.len() && equal(
            normal(#[trigger] wanted[i]),
            normal(#[trigger] actual[j]),
        )
}

/// Whether one list names someone whose name stands within one of the other.
pub open spec fn like_artist(wanted: Seq<Seq<char>>, actual: Seq<Seq<char>>) -> bool {
    exists|i: int, j: int|
        0 <= i < wanted.len() && 0 <= j < actual.len() && overlap(
            normal(#[trigger] wanted[i]),
            normal(#[trigger] actual[j]),
        )
}

pub open spec fn artist_points(wanted: FoldedView, actual: FoldedView) -> int {
    if share_artist(wanted.artists, actual.artists) {
        25
    } else if like_artist(wanted.artists, actual.artists) {
        15
    } else {
        0
    }
}

pub open spec fn album_points(wanted: FoldedView, actual: FoldedView) -> int {
    if equal(normal(wanted.album), normal(actual.album)) {
        10
    } else if overlap(normal(wanted.album), normal(actual.album)) {
        5
    } else {
        0
    }
}

/// Whether two lengths are both known and at most `seconds` apart.
pub open spec fn close(a: Option<i64>, b: Option<i64>, seconds: int) -> bool {
    match (a, b) {
        (Some(a), Some(b)) => {
            &&& finite(a as int) && finite(b as int)
            &&& -(seconds * TICKS_PER_SECOND) <= a - b <= seconds * TICKS_PER_SECOND
        },
        _ => false,
    }
}

pub open spec fn duration_points(wanted: Option<i64>, actual: Option<i64>) -> int {
    if close(wanted, actual, 3) {
        10
    } else if close(wanted, actual, 8) {
        5
    } else {
        0
    }
}

/// A title that names other versions than the one wanted counts against it.
pub open spec fn version_points(wanted: Seq<char>, actual: Seq<char>) -> int {
    if tags_of(wanted) == tags_of(actual) {
        5
    } else {
        -20
    }
}

/// The points of a song against a request that asks for `title`, `duration`
/// and `folded`.
pub open spec fn points(
    title: Seq<char>,
    duration: Option<i64>,
    folded: FoldedView,
    candidate: MetaView,
) -> int {
    let sum = title_points(folded, candidate.folded) + artist_points(folded, candidate.folded)
        + album_points(folded, candidate.folded) + duration_points(duration, candidate.duration)
        + version_points(title, candidate.title);
    if sum < 0 {
        0
    } else if sum > 100 {
        100
    } else {
        sum
    }
}

/// Whether a request names an artist.
pub open spec fn names_artist(artists: Seq<Seq<char>>) -> bool {
    exists|i: int| 0 <= i < artists.len() && normal(#[trigger] artists[i]).len() > 0
}

/// A reliable song matches the title and, beyond it, the artist; when the
/// request names none, album and duration have to stand in.
pub open spec fn reliable(
    title: Seq<char>,
    duration: Option<i64>,
    folded: FoldedView,
    candidate: MetaView,
) -> bool {
    &&& points(title, duration, folded, candidate) >= 75
    &&& title_points(folded, candidate.folded) >= 42
    &&& if names_artist(folded.artists) {
        artist_points(folded, candidate.folded) > 0
    } else {
        album_points(folded, candidate.folded) > 0 && duration_points(
            duration,
            candidate.duration,
        ) > 0
    }
}

pub open spec fn confidence_of(
    title: Seq<char>,
    duration: Option<i64>,
    folded: FoldedView,
    candidate: MetaView,
) -> Confidence {
    if reliable(title, duration, folded, candidate) {
        Confidence::Reliable
    } else if points(title, duration, folded, candidate) >= 50 && title_points(
        folded,
        candidate.folded,
    ) >= 25 {
        Confidence::Uncertain
    } else {
        Confidence::Rejected
    }
}

/// How well a song matches a request.
pub open spec fn score_of(request: RequestView, candidate: MetaView) -> MatchScore {
    MatchScore {
        total: points(request.title, request.duration, request.folded, candidate) as i32,
        confidence: confidence_of(request.title, request.duration, request.folded, candidate),
    }
}

/// Whether two catalogues describe one recording: the same title and either an
/// artist in common or the same album at about the same length.
pub open spec fn one_recording(left: MetaView, right: MetaView) -> bool {
    &&& normal(left.folded.base) == normal(right.folded.base)
    &&& {
        ||| exists|i: int, j: int|
            0 <= i < left.folded.artists.len() && 0 <= j < right.folded.artists.len() && normal(
                #[trigger] left.folded.artists[i],
            ) == normal(#[trigger] right.folded.artists[j])
        ||| equal(normal(left.folded.album), normal(right.folded.album)) && close(
            left.duration,
            right.duration,
            8,
        )
    }
}

/// Drops the suffixes players add to a title: "Song - Live", "Song (feat. X)".
/// A title that is all decoration, "(Don't Fear) The Reaper", keeps its own
/// text, because an empty one matches every song in the results.
pub fn plain_title(title: &str) -> (res: String)
    ensures
        res@ == plain(title@),
{
    let chars = chars_of(title);
    let dash = chars_of(" - ");
    let undashed = slice_subrange(
        chars.as_slice(),
        0,
        find_of(chars.as_slice(), dash.as_slice(), 0),
    );
    assert(undashed@ =~= title@.take(find(title@, " - "@, 0)));
    let stops: [char; 3] = ['(', '（', '['];
    assert(stops@ =~= title_stops());
    let front = slice_subrange(undashed, 0, scan_of(undashed, &stops, 0));
    assert(front@ =~= undashed@.take(scan(undashed@, title_stops(), 0)));
    let bare = trim_of(front);
    if bare.len() == 0 {
        string_of(trim_of(chars.as_slice()))
    } else {
        string_of(bare)
    }
}

fn replace_text(s: &[char], from: &str, to: &str) -> (res: Vec<char>)
    requires
        from@.len() > 0,
    ensures
        res@ == replaced(s@, from@, to@),
{
    let old_part = chars_of(from);
    let new_part = chars_of(to);
    replace_of(s, old_part.as_slice(), new_part.as_slice())
}

/// The names in a billing, in small letters.
pub fn split_artists(artist: &str) -> (res: Vec<String>)
    ensures
        texts(res@) == billed(artist@),
{
    proof {
        reveal_strlit(" feat. ");
        reveal_strlit(" feat ");
        reveal_strlit(" featuring ");
        reveal_strlit(" x ");
    }
    let lower = chars_of(artist.to_lowercase().as_str());
    let dotted = replace_text(lower.as_slice(), " feat. ", "/");
    let short = replace_text(dotted.as_slice(), " feat ", "/");
    let long = replace_text(short.as_slice(), " featuring ", "/");
    let all = replace_text(long.as_slice(), " x ", "/");
    let stops: [char; 8] = [',', '，', '&', '/', ';', '；', '、', '×'];
    assert(stops@ =~= artist_stops());
    let mut res: Vec<String> = Vec::new();
    let mut rest: &[char] = all.as_slice();
    let ghost parts = pieces(all@, artist_stops());
    assert(texts(res@) + kept(pieces(rest@, artist_stops())) =~= kept(parts));
    loop
        invariant_except_break
            kept(parts) == texts(res@) + kept(pieces(rest@, artist_stops())),
        invariant
            stops@ == artist_stops(),
        ensures
            kept(parts) == texts(res@),
        decreases rest@.len(),
    {
        let end = scan_of(rest, &stops, 0);
        let part = slice_subrange(rest, 0, end);
        let name = trim_of(part);
        let ghost before = res@;
        if name.len() > 0 {
            res.push(string_of(name));
            assert(texts(res@) =~= texts(before).push(name@));
        }
        if end >= rest.len() {
            proof {
                assert(part@ =~= rest@);
                assert(seq![rest@].drop_first() =~= Seq::<Seq<char>>::empty());
                assert(kept(Seq::<Seq<char>>::empty()) =~= Seq::<Seq<char>>::empty());
                assert(texts(res@) =~= texts(before) + kept(seq![rest@]));
            }
            break;
        }
        let next = slice_subrange(rest, end + 1, rest.len());
        proof {
            assert(part@ =~= rest@.take(end as int));
            assert(next@ =~= rest@.skip(end + 1));
            let tail = pieces(next@, artist_stops());
            assert((seq![part@] + tail).drop_first() =~= tail);
            assert(texts(res@) + kept(tail) =~= texts(before) + kept(seq![part@] + tail));
        }
        rest = next;
    }
    res
}

/// The lead artist; a search does worse with the whole billing.
pub fn first_artist(artist: &str) -> (res: String)
    ensures
        res@ == lead(artist@),
{
    let names = split_artists(artist);
    assert(texts(names@).len() == names@.len());
    if names.len() == 0 {
        let chars = chars_of(artist);
        string_of(trim_of(chars.as_slice()))
    } else {
        names[0].clone()
    }
}

/// A folded text as it is compared: its letters and digits, in small letters.
pub fn normalize(folded: &str) -> (res: String)
    ensures
        res@ == normal(folded@),
        unmarked(folded@),
{
    let chars = chars_of(folded);
    let mut letters = String::new();
    let ghost pred = |c: char| alphanumeric(c);
    assert(folded@.take(0).filter(pred) =~= Seq::<char>::empty()) by {
        reveal(Seq::filter);
    }
    for i in 0..chars.len()
        invariant
            pred == (|c: char| alphanumeric(c)),
            chars@ == folded@,
            letters@ == folded@.take(i as int).filter(pred),
            !letters@.contains('\u{1f}'),
    {
        proof {
            let front = folded@.take(i as int);
            assert(folded@.take(i + 1) =~= front.push(folded@[i as int]));
            front.lemma_filter_push(folded@[i as int], pred);
        }
        if chars[i].is_alphanumeric() {
            let ghost before = letters@;
            letters.push(chars[i]);
            assert forall|j: int| 0 <= j < letters@.len() implies letters@[j] != '\u{1f}' by {
                if j < before.len() {
                    assert(before.contains(before[j]));
                }
            }
        }
    }
    assert(folded@.take(folded@.len() as int) =~= folded@);
    letters.as_str().to_lowercase()
}

/// Stable song identity, from the folded title, artist and album; the source,
/// the duration and the artwork, which change, do not belong in it.
pub fn track_key(title: &str, artist: &str, album: &str) -> (res: String)
    ensures
        res@ == key(title@, artist@, album@),
        unmarked(title@) && unmarked(artist@) && unmarked(album@),
{
    let mut res: Vec<char> = Vec::new();
    append_str(&mut res, normalize(title).as_str());
    res.push('\u{1f}');
    append_str(&mut res, normalize(artist).as_str());
    res.push('\u{1f}');
    append_str(&mut res, normalize(album).as_str());
    assert(res@ =~= key(title@, artist@, album@));
    string_of(res.as_slice())
}

/// The player behind a media session.
pub fn player_kind(media: &MediaState) -> (res: PlayerKind)
    ensures
        res == player_of(media.source_id@, media.app_name@),
{
    let mut joined: Vec<char> = Vec::new();
    append_str(&mut joined, media.source_id.as_str());
    joined.push(' ');
    append_str(&mut joined, media.app_name.as_str());
    assert(joined@ =~= media.source_id@ + seq![' '] + media.app_name@);
    let lower = string_of(joined.as_slice()).as_str().to_lowercase();
    let name = lower.as_str();
    if has_text(name, "spotify") {
        PlayerKind::Spotify
    } else if has_text(name, "qqmusic") || has_text(name, "qq 音乐") || has_text(name, "qq音乐") {
        PlayerKind::QqMusic
    } else if has_text(name, "cloudmusic") || has_text(name, "netease") || has_text(name, "网易云")
        || has_text(name, "163music") {
        PlayerKind::NetEase
    } else {
        PlayerKind::Other
    }
}

/// The versions of a song that its title names.
pub fn version_tags(title: &str) -> (res: VersionTags)
    ensures
        res == tags_of(title@),
{
    let lower = title.to_lowercase();
    let name = lower.as_str();
    VersionTags {
        live: has_text(name, "live"),
        remix: has_text(name, "remix"),
        acoustic: has_text(name, "acoustic"),
        instrumental: has_text(name, "instrumental"),
        remaster: has_text(name, "remaster"),
        backing: has_text(name, "伴奏"),
        on_stage: has_text(name, "现场"),
    }
}

/// The texts by which a song is compared, where no character needs folding.
pub fn comparable(title: &str, artists: &Vec<String>, album: &str) -> (res: FoldedSong)
    ensures
        res@ == (FoldedView {
            title: title@,
            base: plain(title@),
            artists: texts(artists@),
            album: album@,
        }),
{
    FoldedSong {
        title: owned(title),
        base: plain_title(title),
        artists: copy_texts(artists),
        album: owned(album),
    }
}

/// The texts by which what plays is compared, before they are folded.
pub fn playing_texts(media: &MediaState) -> (res: FoldedSong)
    ensures
        res@ == (FoldedView {
            title: media.title@,
            base: plain(media.title@),
            artists: billed(media.artist@),
            album: media.album@,
        }),
{
    let artists = split_artists(media.artist.as_str());
    comparable(media.title.as_str(), &artists, media.album.as_str())
}

fn normal_chars(folded: &str) -> (res: Vec<char>)
    ensures
        res@ == normal(folded@),
{
    chars_of(normalize(folded).as_str())
}

fn normal_all(list: &Vec<String>) -> (res: Vec<Vec<char>>)
    ensures
        res@.len() == list@.len(),
        forall|i: int| 0 <= i < list@.len() ==> (#[trigger] res@[i])@ == normal(texts(list@)[i]),
{
    let mut res: Vec<Vec<char>> = Vec::new();
    for i in 0..list.len()
        invariant
            res@.len() == i,
            forall|j: int| 0 <= j < i ==> (#[trigger] res@[j])@ == normal(texts(list@)[j]),
    {
        res.push(normal_chars(list[i].as_str()));
    }
    res
}

fn are_equal(a: &Vec<char>, b: &Vec<char>) -> (res: bool)
    ensures
        res == equal(a@, b@),
{
    a.len() > 0 && same(a.as_slice(), b.as_slice())
}

fn do_overlap(a: &Vec<char>, b: &Vec<char>) -> (res: bool)
    ensures
        res == overlap(a@, b@),
{
    a.len() > 0 && b.len() > 0 && (has(a.as_slice(), b.as_slice()) || has(
        b.as_slice(),
        a.as_slice(),
    ))
}

fn count_title(wanted: &FoldedSong, actual: &FoldedSong) -> (res: i32)
    ensures
        res == title_points(wanted@, actual@),
{
    if are_equal(&normal_chars(wanted.title.as_str()), &normal_chars(actual.title.as_str())) {
        return 50;
    }
    let wanted_base = normal_chars(wanted.base.as_str());
    let actual_base = normal_chars(actual.base.as_str());
    if are_equal(&wanted_base, &actual_base) {
        42
    } else if do_overlap(&wanted_base, &actual_base) {
        25
    } else {
        0
    }
}

fn do_share(wanted: &Vec<Vec<char>>, actual: &Vec<Vec<char>>) -> (res: bool)
    ensures
        res == exists|i: int, j: int|
            0 <= i < wanted@.len() && 0 <= j < actual@.len() && equal(
                (#[trigger] wanted@[i])@,
                (#[trigger] actual@[j])@,
            ),
{
    for i in 0..wanted.len()
        invariant
            forall|p: int, q: int|
                0 <= p < i && 0 <= q < actual@.len() ==> !equal(
                    (#[trigger] wanted@[p])@,
                    (#[trigger] actual@[q])@,
                ),
    {
        for j in 0..actual.len()
            invariant
                i < wanted@.len(),
                forall|q: int|
                    0 <= q < j ==> !equal(wanted@[i as int]@, (#[trigger] actual@[q])@),
        {
            if are_equal(&wanted[i], &actual[j]) {
                return true;
            }
        }
    }
    false
}

fn are_alike(wanted: &Vec<Vec<char>>, actual: &Vec<Vec<char>>) -> (res: bool)
    ensures
        res == exists|i: int, j: int|
            0 <= i < wanted@.len() && 0 <= j < actual@.len() && overlap(
                (#[trigger] wanted@[i])@,
                (#[trigger] actual@[j])@,
            ),
{
    for i in 0..wanted.len()
        invariant
            forall|p: int, q: int|
                0 <= p < i && 0 <= q < actual@.len() ==> !overlap(
                    (#[trigger] wanted@[p])@,
                    (#[trigger] actual@[q])@,
                ),
    {
        for j in 0..actual.len()
            invariant
                i < wanted@.len(),
                forall|q: int|
                    0 <= q < j ==> !overlap(wanted@[i as int]@, (#[trigger] actual@[q])@),
        {
            if do_overlap(&wanted[i], &actual[j]) {
                return true;
            }
        }
    }
    false
}

fn count_artists(wanted: &FoldedSong, actual: &FoldedSong) -> (res: i32)
    ensures
        res == artist_points(wanted@, actual@),
{
    let left = normal_all(&wanted.artists);
    let right = normal_all(&actual.artists);
    let ghost l = texts(wanted.artists@);
    let ghost r = texts(actual.artists@);
    if do_share(&left, &right) {
        proof {
            let (i, j) = choose|i: int, j: int|
                0 <= i < left@.len() && 0 <= j < right@.len() && equal(
                    (#[trigger] left@[i])@,
                    (#[trigger] right@[j])@,
                );
            assert(equal(normal(l[i]), normal(r[j])));
        }
        return 25;
    }
    assert forall|i: int, j: int| 0 <= i < l.len() && 0 <= j < r.len() implies !equal(
        normal(#[trigger] l[i]),
        normal(#[trigger] r[j]),
    ) by {
        assert(!equal(left@[i]@, right@[j]@));
    }
    if are_alike(&left, &right) {
        proof {
            let (i, j) = choose|i: int, j: int|
                0 <= i < left@.len() && 0 <= j < right@.len() && overlap(
                    (#[trigger] left@[i])@,
                    (#[trigger] right@[j])@,
                );
            assert(overlap(normal(l[i]), normal(r[j])));
        }
        return 15;
    }
    assert forall|i: int, j: int| 0 <= i < l.len() && 0 <= j < r.len() implies !overlap(
        normal(#[trigger] l[i]),
        normal(#[trigger] r[j]),
    ) by {
        assert(!overlap(left@[i]@, right@[j]@));
    }
    0
}

fn count_album(wanted: &FoldedSong, actual: &FoldedSong) -> (res: i32)
    ensures
        res == album_points(wanted@, actual@),
{
    let left = normal_chars(wanted.album.as_str());
    let right = normal_chars(actual.album.as_str());
    if are_equal(&left, &right) {
        10
    } else if do_overlap(&left, &right) {
        5
    } else {
        0
    }
}

fn are_close(a: Option<i64>, b: Option<i64>, seconds: i64) -> (res: bool)
    requires
        0 <= seconds <= 1000,
    ensures
        res == close(a, b, seconds as int),
{
    match (a, b) {
        (Some(a), Some(b)) => {
            let limit: i128 = seconds as i128 * 10_000_000;
            let gap: i128 = a as i128 - b as i128;
            BELOW < a && a < ABOVE && BELOW < b && b < ABOVE && -limit <= gap && gap <= limit
        },
        _ => false,
    }
}

fn count_duration(wanted: Option<i64>, actual: Option<i64>) -> (res: i32)
    ensures
        res == duration_points(wanted, actual),
{
    if are_close(wanted, actual, 3) {
        10
    } else if are_close(wanted, actual, 8) {
        5
    } else {
        0
    }
}

fn has_artist(artists: &Vec<String>) -> (res: bool)
    ensures
        res == names_artist(texts(artists@)),
{
    for i in 0..artists.len()
        invariant
            forall|j: int| 0 <= j < i ==> normal(#[trigger] texts(artists@)[j]).len() == 0,
    {
        if normal_chars(artists[i].as_str()).len() > 0 {
            assert(normal(texts(artists@)[i as int]).len() > 0);
            return true;
        }
    }
    false
}

/// How well a search result matches what is playing.
pub fn match_score(request: &Request, candidate: &SongMeta) -> (res: MatchScore)
    ensures
        res == score_of(request@, candidate@),
{
    let title = count_title(&request.folded, &candidate.folded);
    let artist = count_artists(&request.folded, &candidate.folded);
    let album = count_album(&request.folded, &candidate.folded);
    let duration = count_duration(request.duration, candidate.duration);
    let version: i32 = if version_tags(request.title.as_str()) == version_tags(
        candidate.title.as_str(),
    ) {
        5
    } else {
        -20
    };
    let sum: i32 = title + artist + album + duration + version;
    let total: i32 = if sum < 0 {
        0
    } else if sum > 100 {
        100
    } else {
        sum
    };
    let reliable = total >= 75 && title >= 42 && if has_artist(&request.folded.artists) {
        artist > 0
    } else {
        album > 0 && duration > 0
    };
    let confidence = if reliable {
        Confidence::Reliable
    } else if total >= 50 && title >= 25 {
        Confidence::Uncertain
    } else {
        Confidence::Rejected
    };
    MatchScore { total, confidence }
}

fn do_meet(left: &Vec<Vec<char>>, right: &Vec<Vec<char>>) -> (res: bool)
    ensures
        res == exists|i: int, j: int|
            0 <= i < left@.len() && 0 <= j < right@.len() && (#[trigger] left@[i])@ == (
            #[trigger] right@[j])@,
{
    for i in 0..left.len()
        invariant
            forall|p: int, q: int|
                0 <= p < i && 0 <= q < right@.len() ==> (#[trigger] left@[p])@ != (
                #[trigger] right@[q])@,
    {
        for j in 0..right.len()
            invariant
                i < left@.len(),
                forall|q: int| 0 <= q < j ==> left@[i as int]@ != (#[trigger] right@[q])@,
        {
            if same(left[i].as_slice(), right[j].as_slice()) {
                return true;
            }
        }
    }
    false
}

/// Whether two catalogues describe one recording.
pub fn same_recording(left: &SongMeta, right: &SongMeta) -> (res: bool)
    ensures
        res == one_recording(left@, right@),
{
    let left_base = normal_chars(left.folded.base.as_str());
    let right_base = normal_chars(right.folded.base.as_str());
    if !same(left_base.as_slice(), right_base.as_slice()) {
        return false;
    }
    let left_artists = normal_all(&left.folded.artists);
    let right_artists = normal_all(&right.folded.artists);
    let ghost l = texts(left.folded.artists@);
    let ghost r = texts(right.folded.artists@);
    if do_meet(&left_artists, &right_artists) {
        proof {
            let (i, j) = choose|i: int, j: int|
                0 <= i < left_artists@.len() && 0 <= j < right_artists@.len() && (
                #[trigger] left_artists@[i])@ == (#[trigger] right_artists@[j])@;
            assert(left@.folded.artists[i] == l[i] && right@.folded.artists[j] == r[j]);
        }
        return true;
    }
    assert forall|i: int, j: int| 0 <= i < l.len() && 0 <= j < r.len() implies normal(
        #[trigger] l[i],
    ) != normal(#[trigger] r[j]) by {
        assert(left_artists@[i]@ != right_artists@[j]@);
    }
    let left_album = normal_chars(left.folded.album.as_str());
    let right_album = normal_chars(right.folded.album.as_str());
    are_equal(&left_album, &right_album) && are_close(left.duration, right.duration, 8)
}

proof fn lemma_first_mark(front: Seq<char>, back: Seq<char>)
    requires
        !front.contains('\u{1f}'),
    ensures
        position(front + key_mark() + back, '\u{1f}', 0) == front.len(),
        (front + key_mark() + back).take(front.len() as int) == front,
        (front + key_mark() + back).skip((front.len() + 1) as int) == back,
{
    let all = front + key_mark() + back;
    lemma_position(all, '\u{1f}', 0);
    assert(all[front.len() as int] == '\u{1f}');
    let at = position(all, '\u{1f}', 0);
    if at < front.len() {
        assert(all[at] == front[at]);
        assert(front.contains(front[at]));
    }
    assert(all.take(front.len() as int) =~= front);
    assert(all.skip((front.len() + 1) as int) =~= back);
}

/// Two tracks have one key exactly when their titles, artists and albums are
/// compared as equal. What the law asks of the texts holds of any that
/// `track_key` or `normalize` was called with.
pub proof fn law_keys_tell_tracks_apart(
    title: Seq<char>,
    artist: Seq<char>,
    album: Seq<char>,
    other_title: Seq<char>,
    other_artist: Seq<char>,
    other_album: Seq<char>,
)
    requires
        unmarked(title) && unmarked(artist) && unmarked(album),
        unmarked(other_title) && unmarked(other_artist) && unmarked(other_album),
    ensures
        key(title, artist, album) == key(other_title, other_artist, other_album) <==> {
            &&& normal(title) == normal(other_title)
            &&& normal(artist) == normal(other_artist)
            &&& normal(album) == normal(other_album)
        },
{
    let rest = normal(artist) + key_mark() + normal(album);
    let other_rest = normal(other_artist) + key_mark() + normal(other_album);
    let one = normal(title) + key_mark() + rest;
    let other = normal(other_title) + key_mark() + other_rest;
    assert(key(title, artist, album) =~= one);
    assert(key(other_title, other_artist, other_album) =~= other);
    lemma_first_mark(normal(title), rest);
    lemma_first_mark(normal(other_title), other_rest);
    lemma_first_mark(normal(artist), normal(album));
    lemma_first_mark(normal(other_artist), normal(other_album));
}

/// A score lies between 0 and 100, and a reliable one is at least 75, an
/// uncertain one at least 50.
pub proof fn law_score_range(request: RequestView, candidate: MetaView)
    ensures
        0 <= score_of(request, candidate).total <= 100,
        score_of(request, candidate).confidence == Confidence::Reliable ==> score_of(
            request,
            candidate,
        ).total >= 75,
        score_of(request, candidate).confidence == Confidence::Uncertain ==> score_of(
            request,
            candidate,
        ).total >= 50,
{
}

/// A song with the very title and an artist of the request, and the versions
/// that its title names, is reliable.
pub proof fn law_exact_metadata_is_reliable(request: RequestView, candidate: MetaView)
    requires
        equal(normal(request.folded.title), normal(candidate.folded.title)),
        share_artist(request.folded.artists, candidate.folded.artists),
        tags_of(request.title) == tags_of(candidate.title),
    ensures
        score_of(request, candidate).confidence == Confidence::Reliable,
        score_of(request, candidate).total >= 80,
{
    let (i, j) = choose|i: int, j: int|
        0 <= i < request.folded.artists.len() && 0 <= j < candidate.folded.artists.len() && equal(
            normal(#[trigger] request.folded.artists[i]),
            normal(#[trigger] candidate.folded.artists[j]),
        );
    assert(normal(request.folded.artists[i]).len() > 0);
}

/// A request that names no artist finds nothing reliable unless album and
/// duration match as well: one album's name stands within the other, and the
/// lengths are at most eight seconds apart.
pub proof fn law_missing_artist_requires_album_and_duration(request: RequestView, candidate: MetaView)
    requires
        forall|i: int|
            0 <= i < request.folded.artists.len() ==> normal(
                #[trigger] request.folded.artists[i],
            ).len() == 0,
        score_of(request, candidate).confidence == Confidence::Reliable,
    ensures
        album_points(request.folded, candidate.folded) > 0,
        duration_points(request.duration, candidate.duration) > 0,
        alike(normal(request.folded.album), normal(candidate.folded.album)),
        apart(request.duration, candidate.duration, 80_000_000),
{
    assert(!names_artist(request.folded.artists));
    lemma_alike(normal(request.folded.album), normal(candidate.folded.album));
}

/// Whether both texts say something and one is a part of the other.
pub open spec fn alike(a: Seq<char>, b: Seq<char>) -> bool {
    a.len() > 0 && b.len() > 0 && (holds(a, b) || holds(b, a))
}

/// Whether two lengths are known and at most so many ticks apart.
pub open spec fn apart(a: Option<i64>, b: Option<i64>, ticks: int) -> bool {
    &&& a is Some && b is Some
    &&& i64::MIN + 1 < a->0 && a->0 < i64::MAX - 1
    &&& i64::MIN + 1 < b->0 && b->0 < i64::MAX - 1
    &&& a->0 - b->0 <= ticks && b->0 - a->0 <= ticks
}

/// Whether some name of one list is that of the other.
pub open spec fn one_name(a: Seq<Seq<char>>, b: Seq<Seq<char>>) -> bool {
    exists|i: int, j: int|
        {
            &&& 0 <= i < a.len() && 0 <= j < b.len()
            &&& normal(#[trigger] a[i]).len() > 0
            &&& normal(a[i]) == normal(#[trigger] b[j])
        }
}

/// Whether some name of one list is a part of one of the other, or has one as
/// its part.
pub open spec fn alike_name(a: Seq<Seq<char>>, b: Seq<Seq<char>>) -> bool {
    exists|i: int, j: int|
        {
            &&& 0 <= i < a.len() && 0 <= j < b.len()
            &&& alike(normal(#[trigger] a[i]), normal(#[trigger] b[j]))
        }
}

/// Whether two titles name the same versions.
pub open spec fn one_version(a: Seq<char>, b: Seq<char>) -> bool {
    &&& holds(lowercase(a), "live"@) == holds(lowercase(b), "live"@)
    &&& holds(lowercase(a), "remix"@) == holds(lowercase(b), "remix"@)
    &&& holds(lowercase(a), "acoustic"@) == holds(lowercase(b), "acoustic"@)
    &&& holds(lowercase(a), "instrumental"@) == holds(lowercase(b), "instrumental"@)
    &&& holds(lowercase(a), "remaster"@) == holds(lowercase(b), "remaster"@)
    &&& holds(lowercase(a), "伴奏"@) == holds(lowercase(b), "伴奏"@)
    &&& holds(lowercase(a), "现场"@) == holds(lowercase(b), "现场"@)
}

proof fn lemma_alike(a: Seq<char>, b: Seq<char>)
    ensures
        overlap(a, b) == alike(a, b),
        a.len() > 0 ==> alike(a, a),
{
    law_contained_text_is_a_part(a, b);
    law_contained_text_is_a_part(b, a);
    assert(a =~= Seq::<char>::empty() + a + Seq::<char>::empty());
}

proof fn lemma_names(a: Seq<Seq<char>>, b: Seq<Seq<char>>)
    ensures
        share_artist(a, b) == one_name(a, b),
        like_artist(a, b) == alike_name(a, b),
        one_name(a, b) ==> alike_name(a, b),
{
    assert forall|i: int, j: int| 0 <= i < a.len() && 0 <= j < b.len() implies overlap(
        normal(#[trigger] a[i]),
        normal(#[trigger] b[j]),
    ) == alike(normal(a[i]), normal(b[j])) by {
        lemma_alike(normal(a[i]), normal(b[j]));
    }
    if one_name(a, b) {
        let (i, j) = choose|i: int, j: int|
            {
                &&& 0 <= i < a.len() && 0 <= j < b.len()
                &&& normal(#[trigger] a[i]).len() > 0
                &&& normal(a[i]) == normal(#[trigger] b[j])
            };
        lemma_alike(normal(a[i]), normal(b[j]));
        assert(equal(normal(a[i]), normal(b[j])));
    }
    if share_artist(a, b) {
        let (i, j) = choose|i: int, j: int|
            0 <= i < a.len() && 0 <= j < b.len() && equal(
                normal(#[trigger] a[i]),
                normal(#[trigger] b[j]),
            );
        assert(normal(a[i]).len() > 0 && normal(a[i]) == normal(b[j]));
    }
}

proof fn lemma_versions(a: Seq<char>, b: Seq<char>)
    ensures
        (tags_of(a) == tags_of(b)) == one_version(a, b),
{
    let words = seq![
        "live"@,
        "remix"@,
        "acoustic"@,
        "instrumental"@,
        "remaster"@,
        "伴奏"@,
        "现场"@,
    ];
    assert forall|k: int| 0 <= k < 7 implies contains(lowercase(a), #[trigger] words[k]) == holds(
        lowercase(a),
        words[k],
    ) && contains(lowercase(b), words[k]) == holds(lowercase(b), words[k]) by {
        law_contained_text_is_a_part(lowercase(a), words[k]);
        law_contained_text_is_a_part(lowercase(b), words[k]);
    }
    assert(words[0] == "live"@ && words[1] == "remix"@ && words[2] == "acoustic"@);
    assert(words[3] == "instrumental"@ && words[4] == "remaster"@);
    assert(words[5] == "伴奏"@ && words[6] == "现场"@);
}

/// A request that names an artist finds nothing reliable unless some artist of
/// the song is named by it, or by a part of the name: the lyrics of somebody
/// else's song of that title are not shown.
pub proof fn law_named_artist_must_match(request: RequestView, candidate: MetaView)
    requires
        exists|i: int|
            0 <= i < request.folded.artists.len() && normal(
                #[trigger] request.folded.artists[i],
            ).len() > 0,
        score_of(request, candidate).confidence == Confidence::Reliable,
    ensures
        exists|i: int, j: int|
            {
                &&& 0 <= i < request.folded.artists.len()
                &&& 0 <= j < candidate.folded.artists.len()
                &&& alike(
                    normal(#[trigger] request.folded.artists[i]),
                    normal(#[trigger] candidate.folded.artists[j]),
                )
            },
{
    lemma_names(request.folded.artists, candidate.folded.artists);
    assert(names_artist(request.folded.artists));
    assert(alike_name(request.folded.artists, candidate.folded.artists));
}

/// A song is reliable exactly when it scores 75, its title or plain title is the
/// one wanted, and an artist that is asked for is alike, or, where none is, the
/// album is and the length within eight seconds. It is uncertain exactly when it
/// is not reliable but scores 50 and its plain title is alike. Otherwise it is
/// rejected.
pub proof fn law_confidence_has_grounds(request: RequestView, candidate: MetaView)
    ensures
        ({
            let score = score_of(request, candidate);
            let wanted = request.folded;
            let actual = candidate.folded;
            let one_title = normal(wanted.title).len() > 0 && normal(wanted.title) == normal(
                actual.title,
            );
            let one_base = normal(wanted.base).len() > 0 && normal(wanted.base) == normal(
                actual.base,
            );
            let asked = exists|i: int|
                0 <= i < wanted.artists.len() && normal(#[trigger] wanted.artists[i]).len() > 0;
            let grounds = if asked {
                alike_name(wanted.artists, actual.artists)
            } else {
                alike(normal(wanted.album), normal(actual.album)) && apart(
                    request.duration,
                    candidate.duration,
                    80_000_000,
                )
            };
            &&& score.confidence == Confidence::Reliable <==> score.total >= 75 && (one_title
                || one_base) && grounds
            &&& score.confidence == Confidence::Uncertain <==> !(score.total >= 75 && (one_title
                || one_base) && grounds) && score.total >= 50 && (one_title || alike(
                normal(wanted.base),
                normal(actual.base),
            ))
        }),
{
    lemma_names(request.folded.artists, candidate.folded.artists);
    lemma_alike(normal(request.folded.album), normal(candidate.folded.album));
    lemma_alike(normal(request.folded.base), normal(candidate.folded.base));
}

/// A song that is the one wanted in everything scores 100.
pub proof fn law_full_match_scores_all(request: RequestView, candidate: MetaView)
    requires
        normal(request.folded.title).len() > 0,
        normal(request.folded.title) == normal(candidate.folded.title),
        one_name(request.folded.artists, candidate.folded.artists),
        normal(request.folded.album).len() > 0,
        normal(request.folded.album) == normal(candidate.folded.album),
        apart(request.duration, candidate.duration, 30_000_000),
        one_version(request.title, candidate.title),
    ensures
        score_of(request, candidate).total == 100,
        score_of(request, candidate).confidence == Confidence::Reliable,
{
    lemma_names(request.folded.artists, candidate.folded.artists);
    lemma_versions(request.title, candidate.title);
    law_confidence_has_grounds(request, candidate);
    law_exact_metadata_is_reliable(request, candidate);
}

/// Of two songs that differ in nothing but the album, the one with the album
/// that is wanted scores 10 more than one with a foreign album, and 5 more than
/// one whose album is only alike.
pub proof fn law_album_weighs(request: RequestView, better: MetaView, worse: MetaView)
    requires
        better.title == worse.title,
        better.duration == worse.duration,
        better.folded == (FoldedView { album: better.folded.album, ..worse.folded }),
        normal(request.folded.album).len() > 0,
        normal(request.folded.album) == normal(better.folded.album),
        normal(request.folded.album) != normal(worse.folded.album),
        score_of(request, worse).total > 0,
    ensures
        score_of(request, better).total == score_of(request, worse).total + if alike(
            normal(request.folded.album),
            normal(worse.folded.album),
        ) {
            5int
        } else {
            10
        },
{
    lemma_alike(normal(request.folded.album), normal(worse.folded.album));
}

/// Of two songs that differ in nothing but the length, one within three seconds
/// of the length that is wanted scores 10 more than one that is more than eight
/// seconds off or of no known length, and 5 more than one in between.
pub proof fn law_length_weighs(request: RequestView, better: MetaView, worse: MetaView)
    requires
        better.title == worse.title,
        better.folded == worse.folded,
        apart(request.duration, better.duration, 30_000_000),
        !apart(request.duration, worse.duration, 30_000_000),
        score_of(request, worse).total > 0,
    ensures
        score_of(request, better).total == score_of(request, worse).total + if apart(
            request.duration,
            worse.duration,
            80_000_000,
        ) {
            5int
        } else {
            10
        },
{
}

/// Of two songs that differ in nothing but the artists, one that has an artist
/// who is wanted scores 25 more than one of somebody else, and 10 more than one
/// whose artist is only alike.
pub proof fn law_artist_weighs(request: RequestView, better: MetaView, worse: MetaView)
    requires
        better.title == worse.title,
        better.duration == worse.duration,
        better.folded == (FoldedView { artists: better.folded.artists, ..worse.folded }),
        one_name(request.folded.artists, better.folded.artists),
        !one_name(request.folded.artists, worse.folded.artists),
        score_of(request, worse).total > 0,
    ensures
        score_of(request, better).total == score_of(request, worse).total + if alike_name(
            request.folded.artists,
            worse.folded.artists,
        ) {
            10int
        } else {
            25
        },
{
    lemma_names(request.folded.artists, better.folded.artists);
    lemma_names(request.folded.artists, worse.folded.artists);
}

/// Of two songs that differ in nothing but how the title is compared, one with
/// the very title scores 50, of which 8 are lost where only the plain title is
/// the one wanted, 25 where that is only alike, and all where it is foreign.
pub proof fn law_title_weighs(request: RequestView, better: MetaView, worse: MetaView)
    requires
        better.title == worse.title,
        better.duration == worse.duration,
        better.folded == (FoldedView {
            title: better.folded.title,
            base: better.folded.base,
            ..worse.folded
        }),
        normal(request.folded.title).len() > 0,
        normal(request.folded.title) == normal(better.folded.title),
        normal(request.folded.title) != normal(worse.folded.title),
        score_of(request, worse).total > 0,
    ensures
        score_of(request, better).total == score_of(request, worse).total + if normal(
            request.folded.base,
        ).len() > 0 && normal(request.folded.base) == normal(worse.folded.base) {
            8int
        } else if alike(normal(request.folded.base), normal(worse.folded.base)) {
            25
        } else {
            50
        },
{
    lemma_alike(normal(request.folded.base), normal(worse.folded.base));
}

/// Of two songs that are compared alike, one whose title names the versions that
/// are wanted scores 25 more than one that names others.
pub proof fn law_version_weighs(request: RequestView, better: MetaView, worse: MetaView)
    requires
        better.duration == worse.duration,
        better.folded == worse.folded,
        one_version(request.title, better.title),
        !one_version(request.title, worse.title),
        score_of(request, worse).total > 0,
    ensures
        score_of(request, better).total == score_of(request, worse).total + 25,
{
    lemma_versions(request.title, better.title);
    lemma_versions(request.title, worse.title);
}

/// Two catalogues describe one recording exactly when the plain titles are one
/// and either an artist is, or the albums are and the lengths are at most eight
/// seconds apart.
pub proof fn law_one_recording_has_grounds(left: MetaView, right: MetaView)
    ensures
        one_recording(left, right) <==> {
            &&& normal(left.folded.base) == normal(right.folded.base)
            &&& {
                ||| exists|i: int, j: int|
                    {
                        &&& 0 <= i < left.folded.artists.len()
                        &&& 0 <= j < right.folded.artists.len()
                        &&& normal(#[trigger] left.folded.artists[i]) == normal(
                            #[trigger] right.folded.artists[j],
                        )
                    }
                ||| {
                    &&& normal(left.folded.album).len() > 0
                    &&& normal(left.folded.album) == normal(right.folded.album)
                    &&& apart(left.duration, right.duration, 80_000_000)
                }
            }
        },
{
}

/// What is neither letter nor digit plays no part in a comparison.
pub proof fn law_marks_are_not_compared(front: Seq<char>, mark: char, back: Seq<char>)
    requires
        !alphanumeric(mark),
    ensures
        normal(front + seq![mark] + back) == normal(front + back),
{
    let pred = |c: char| alphanumeric(c);
    lemma_filter_add(front + seq![mark], back);
    lemma_filter_add(front, back);
    assert(front + seq![mark] =~= front.push(mark));
    front.lemma_filter_push(mark, pred);
}

/// Letters and digits are all compared, in small letters.
pub proof fn law_letters_are_compared(text: Seq<char>)
    requires
        forall|i: int| 0 <= i < text.len() ==> alphanumeric(#[trigger] text[i]),
    ensures
        normal(text) == lowercase(text),
    decreases text.len(),
{
    lemma_filter_all(text);
}

proof fn lemma_filter_all(text: Seq<char>)
    requires
        forall|i: int| 0 <= i < text.len() ==> alphanumeric(#[trigger] text[i]),
    ensures
        text.filter(|c: char| alphanumeric(c)) == text,
    decreases text.len(),
{
    let pred = |c: char| alphanumeric(c);
    if text.len() == 0 {
        reveal(Seq::filter);
        assert(text.filter(pred) =~= text);
    } else {
        let front = text.drop_last();
        assert forall|i: int| 0 <= i < front.len() implies alphanumeric(#[trigger] front[i]) by {
            assert(front[i] == text[i]);
        }
        lemma_filter_all(front);
        front.lemma_filter_push(text.last(), pred);
        assert(front.push(text.last()) =~= text);
    }
}

proof fn lemma_filter_add(a: Seq<char>, b: Seq<char>)
    ensures
        (a + b).filter(|c: char| alphanumeric(c)) == a.filter(|c: char| alphanumeric(c)) + b.filter(
            |c: char| alphanumeric(c),
        ),
    decreases b.len(),
{
    let pred = |c: char| alphanumeric(c);
    if b.len() == 0 {
        reveal(Seq::filter);
        assert(a + b =~= a);
        assert(b.filter(pred) =~= Seq::<char>::empty());
        assert(a.filter(pred) + Seq::<char>::empty() =~= a.filter(pred));
    } else {
        let front = b.drop_last();
        lemma_filter_add(a, front);
        (a + front).lemma_filter_push(b.last(), pred);
        front.lemma_filter_push(b.last(), pred);
        assert((a + front).push(b.last()) =~= a + b);
        assert(front.push(b.last()) =~= b);
        assert((a + b).filter(pred) =~= a.filter(pred) + b.filter(pred));
    }
}

/// Where the decoration of a title may begin.
pub open spec fn decorates(title: Seq<char>, k: int) -> bool {
    ||| title[k] == '('
    ||| title[k] == '（'
    ||| title[k] == '['
    ||| k + 3 <= title.len() && title[k] == ' ' && title[k + 1] == '-' && title[k + 2] == ' '
}

/// A title loses everything from where its decoration begins, and the white
/// space before that; one that would lose everything keeps all of it.
pub proof fn law_title_ends_where_decoration_begins(title: Seq<char>, k: int)
    requires
        0 <= k <= title.len(),
        k < title.len() ==> decorates(title, k),
        forall|i: int| 0 <= i < k ==> !#[trigger] decorates(title, i),
    ensures
        plain(title) == if trim(title.take(k)).len() > 0 {
            trim(title.take(k))
        } else {
            trim(title)
        },
{
    reveal_strlit(" - ");
    let dash = " - "@;
    assert(dash.len() == 3 && dash[0] == ' ' && dash[1] == '-' && dash[2] == ' ');
    assert forall|i: int| 0 <= i < title.len() implies #[trigger] stands_at(title, dash, i) == (i
        + 3 <= title.len() && title[i] == ' ' && title[i + 1] == '-' && title[i + 2] == ' ') by {
        if i + 3 <= title.len() {
            let part = title.subrange(i, i + 3);
            assert(part[0] == title[i] && part[1] == title[i + 1] && part[2] == title[i + 2]);
            if title[i] == ' ' && title[i + 1] == '-' && title[i + 2] == ' ' {
                assert(part =~= dash);
            }
        }
    }
    law_find_is_first(title, dash, 0);
    let cut = find(title, dash, 0);
    if cut < title.len() {
        assert(stands_at(title, dash, cut));
        assert(decorates(title, cut));
        if cut < k {
            assert(!decorates(title, cut));
        }
    }
    assert(k <= cut);
    let undashed = title.take(cut);
    let stops = title_stops();
    assert(stops[0] == '(' && stops[1] == '（' && stops[2] == '[');
    assert forall|c: char| stops.contains(c) == (c == '(' || c == '（' || c == '[') by {
        if stops.contains(c) {
            let i = choose|i: int| 0 <= i < stops.len() && stops[i] == c;
            assert(i == 0 || i == 1 || i == 2);
        }
    }
    law_scan_is_first(undashed, stops, 0);
    let end = scan(undashed, stops, 0);
    if end < k {
        assert(stops.contains(undashed[end]));
        assert(decorates(title, end));
        assert(!decorates(title, end));
    }
    if k < end {
        assert(undashed[k] == title[k]);
        assert(!stops.contains(undashed[k]));
        assert(stands_at(title, dash, k));
    }
    assert(end == k);
    assert(undashed.take(end) =~= title.take(k));
}

/// What parts the names in a billing, and nothing else does.
pub proof fn law_names_are_parted(c: char)
    ensures
        artist_stops().contains(c) <==> (c == ',' || c == '，' || c == '&' || c == '/' || c == ';'
            || c == '；' || c == '、' || c == '×'),
{
    let stops = artist_stops();
    assert(stops[0] == ',' && stops[1] == '，' && stops[2] == '&' && stops[3] == '/');
    assert(stops[4] == ';' && stops[5] == '；' && stops[6] == '、' && stops[7] == '×');
}

/// Of the parts of a billing, each that is not blank is kept, trimmed and in its
/// place, wherever it stands.
pub proof fn law_no_name_is_lost(a: Seq<Seq<char>>, b: Seq<Seq<char>>, name: Seq<char>)
    ensures
        kept(a + b) == kept(a) + kept(b),
        kept(seq![name]) == if trim(name).len() > 0 {
            seq![trim(name)]
        } else {
            Seq::empty()
        },
    decreases a.len(),
{
    assert(seq![name].drop_first() =~= Seq::<Seq<char>>::empty());
    assert(kept(Seq::<Seq<char>>::empty()) =~= Seq::<Seq<char>>::empty());
    assert(seq![trim(name)] + Seq::<Seq<char>>::empty() =~= seq![trim(name)]);
    if a.len() == 0 {
        assert(a + b =~= b);
        assert(kept(a) + kept(b) =~= kept(b));
    } else {
        law_no_name_is_lost(a.drop_first(), b, name);
        assert((a + b).drop_first() =~= a.drop_first() + b);
        assert(kept(a + b) =~= kept(a) + kept(b));
    }
}

/// The player is told by a name that stands anywhere in the session's identifier
/// or the application's name; Spotify is looked for first, then QQ Music, then
/// NetEase.
pub proof fn law_players_are_told_by_name(source_id: Seq<char>, app_name: Seq<char>)
    ensures
        ({
            let name = lowercase(source_id + seq![' '] + app_name);
            let spotify = holds(name, "spotify"@);
            let qq = holds(name, "qqmusic"@) || holds(name, "qq 音乐"@) || holds(name, "qq音乐"@);
            let netease = holds(name, "cloudmusic"@) || holds(name, "netease"@) || holds(
                name,
                "网易云"@,
            ) || holds(name, "163music"@);
            &&& player_of(source_id, app_name) == PlayerKind::Spotify <==> spotify
            &&& player_of(source_id, app_name) == PlayerKind::QqMusic <==> qq && !spotify
            &&& player_of(source_id, app_name) == PlayerKind::NetEase <==> netease && !qq
                && !spotify
        }),
{
    let name = lowercase(source_id + seq![' '] + app_name);
    law_contained_text_is_a_part(name, "spotify"@);
    law_contained_text_is_a_part(name, "qqmusic"@);
    law_contained_text_is_a_part(name, "qq 音乐"@);
    law_contained_text_is_a_part(name, "qq音乐"@);
    law_contained_text_is_a_part(name, "cloudmusic"@);
    law_contained_text_is_a_part(name, "netease"@);
    law_contained_text_is_a_part(name, "网易云"@);
    law_contained_text_is_a_part(name, "163music"@);
}

/// A title that names other versions than the one wanted is not reliable,
/// unless the two titles are the same letter for letter and digit for digit.
pub proof fn law_conflicting_versions_are_not_reliable(request: RequestView, candidate: MetaView)
    requires
        tags_of(request.title) != tags_of(candidate.title),
        !equal(normal(request.folded.title), normal(candidate.folded.title)),
    ensures
        score_of(request, candidate).confidence != Confidence::Reliable,
{
}

/// A song whose title has nothing to do with the one wanted is rejected.
pub proof fn law_foreign_title_is_rejected(request: RequestView, candidate: MetaView)
    requires
        title_points(request.folded, candidate.folded) == 0,
    ensures
        score_of(request, candidate).confidence == Confidence::Rejected,
{
}

/// Being one recording does not depend on the order of the two.
pub proof fn law_same_recording_is_symmetric(left: MetaView, right: MetaView)
    ensures
        one_recording(left, right) == one_recording(right, left),
{
    assert forall|a: MetaView, b: MetaView| one_recording(a, b) implies #[trigger] one_recording(
        b,
        a,
    ) by {
        if exists|i: int, j: int|
            0 <= i < a.folded.artists.len() && 0 <= j < b.folded.artists.len() && normal(
                #[trigger] a.folded.artists[i],
            ) == normal(#[trigger] b.folded.artists[j]) {
            let (i, j) = choose|i: int, j: int|
                0 <= i < a.folded.artists.len() && 0 <= j < b.folded.artists.len() && normal(
                    #[trigger] a.folded.artists[i],
                ) == normal(#[trigger] b.folded.artists[j]);
            assert(normal(b.folded.artists[j]) == normal(a.folded.artists[i]));
        }
    }
}

/// Only a blank title comes out empty: one that is all decoration keeps its
/// own text.
pub proof fn law_plain_title_keeps_something(title: Seq<char>)
    ensures
        plain(title).len() == 0 ==> trim(title).len() == 0,
{
}

/// Every name in a billing has something to it, and the lead is the first of
/// them.
pub proof fn law_billed_names_are_not_blank(artist: Seq<char>)
    ensures
        forall|i: int| 0 <= i < billed(artist).len() ==> (#[trigger] billed(artist)[i]).len() > 0,
        billed(artist).len() > 0 ==> lead(artist) == billed(artist)[0],
{
    lemma_kept(pieces(slashed(lowercase(artist)), artist_stops()));
}

proof fn lemma_kept(parts: Seq<Seq<char>>)
    ensures
        forall|i: int| 0 <= i < kept(parts).len() ==> (#[trigger] kept(parts)[i]).len() > 0,
    decreases parts.len(),
{
    if parts.len() > 0 {
        let rest = kept(parts.drop_first());
        lemma_kept(parts.drop_first());
        if trim(parts[0]).len() > 0 {
            assert forall|i: int| 0 <= i < kept(parts).len() implies (#[trigger] kept(
                parts,
            )[i]).len() > 0 by {
                if i > 0 {
                    assert(kept(parts)[i] == rest[i - 1]);
                }
            }
        }
    }
}

/// Whether one of the words that stand between names stands in a text.
pub open spec fn features(s: Seq<char>) -> bool {
    holds(s, " feat. "@) || holds(s, " feat "@) || holds(s, " featuring "@) || holds(s, " x "@)
}

proof fn lemma_feature_words()
    ensures
        " feat. "@.len() == 7,
        " feat "@.len() == 6,
        " featuring "@.len() == 11,
        " x "@.len() == 3,
        "/"@ == seq!['/'],
{
    reveal_strlit(" feat. ");
    reveal_strlit(" feat ");
    reveal_strlit(" featuring ");
    reveal_strlit(" x ");
    reveal_strlit("/");
    assert("/"@ =~= seq!['/']);
}

/// A billing without such a word is split at its stops: the names before one and
/// those behind it, in small letters.
pub proof fn law_billings_are_split_at_stops(
    artist: Seq<char>,
    a: Seq<char>,
    stop: char,
    b: Seq<char>,
)
    requires
        lowercase(artist) == a + seq![stop] + b,
        !features(lowercase(artist)),
        stop == ',' || stop == '，' || stop == '&' || stop == '/' || stop == ';' || stop == '；'
            || stop == '、' || stop == '×',
        forall|i: int| 0 <= i < a.len() ==> !artist_stops().contains(#[trigger] a[i]),
        forall|i: int| 0 <= i < b.len() ==> !artist_stops().contains(#[trigger] b[i]),
    ensures
        trim(a).len() > 0 && trim(b).len() > 0 ==> billed(artist) == seq![trim(a), trim(b)],
        trim(a).len() > 0 && trim(b).len() == 0 ==> billed(artist) == seq![trim(a)],
        trim(a).len() == 0 && trim(b).len() > 0 ==> billed(artist) == seq![trim(b)],
        trim(a).len() > 0 ==> lead(artist) == trim(a),
{
    let lower = lowercase(artist);
    lemma_feature_words();
    law_replacing_goes_from_the_left(lower, " feat. "@, "/"@);
    law_replacing_goes_from_the_left(lower, " feat "@, "/"@);
    law_replacing_goes_from_the_left(lower, " featuring "@, "/"@);
    law_replacing_goes_from_the_left(lower, " x "@, "/"@);
    assert(slashed(lower) == lower);
    lemma_two_names(a, stop, b);
}

proof fn lemma_two_names(a: Seq<char>, stop: char, b: Seq<char>)
    requires
        stop == ',' || stop == '，' || stop == '&' || stop == '/' || stop == ';' || stop == '；'
            || stop == '、' || stop == '×',
        forall|i: int| 0 <= i < a.len() ==> !artist_stops().contains(#[trigger] a[i]),
        forall|i: int| 0 <= i < b.len() ==> !artist_stops().contains(#[trigger] b[i]),
    ensures
        ({
            let names = kept(pieces(a + seq![stop] + b, artist_stops()));
            &&& trim(a).len() > 0 && trim(b).len() > 0 ==> names == seq![trim(a), trim(b)]
            &&& trim(a).len() > 0 && trim(b).len() == 0 ==> names == seq![trim(a)]
            &&& trim(a).len() == 0 && trim(b).len() > 0 ==> names == seq![trim(b)]
            &&& trim(a).len() > 0 ==> names.len() > 0 && names[0] == trim(a)
        }),
{
    law_names_are_parted(stop);
    law_pieces_of_joined_texts(a, stop, b, artist_stops());
    law_pieces_of_joined_texts(b, stop, a, artist_stops());
    law_no_name_is_lost(seq![a], seq![b], a);
    law_no_name_is_lost(seq![a], seq![b], b);
    let names = kept(pieces(a + seq![stop] + b, artist_stops()));
    assert(names == kept(seq![a]) + kept(seq![b]));
    if trim(a).len() > 0 && trim(b).len() > 0 {
        assert(names =~= seq![trim(a), trim(b)]);
    } else if trim(a).len() > 0 {
        assert(names =~= seq![trim(a)]);
    } else if trim(b).len() > 0 {
        assert(names =~= seq![trim(b)]);
    }
}

/// A guest is named as well: what stands before and what stands behind "feat.",
/// "feat", "featuring" or "x" are two names.
pub proof fn law_guests_are_named(
    artist: Seq<char>,
    a: Seq<char>,
    word: Seq<char>,
    b: Seq<char>,
)
    requires
        word == " feat. "@ || word == " feat "@ || word == " featuring "@ || word == " x "@,
        lowercase(artist) == a + word + b,
        forall|i: int| 0 <= i < a.len() ==> !#[trigger] stands_at(a + word + b, word, i),
        word != " feat. "@ ==> !holds(a + word + b, " feat. "@),
        word != " feat "@ ==> !holds(a + word + b, " feat "@),
        word != " featuring "@ ==> !holds(a + word + b, " featuring "@),
        word != " x "@ ==> !holds(a + word + b, " x "@),
        !features(b),
        !features(a + seq!['/'] + b),
        forall|i: int| 0 <= i < a.len() ==> !artist_stops().contains(#[trigger] a[i]),
        forall|i: int| 0 <= i < b.len() ==> !artist_stops().contains(#[trigger] b[i]),
        trim(a).len() > 0,
        trim(b).len() > 0,
    ensures
        billed(artist) == seq![trim(a), trim(b)],
        lead(artist) == trim(a),
{
    let lower = a + word + b;
    let parted = a + seq!['/'] + b;
    lemma_feature_words();
    law_first_occurrence_is_replaced(a, word, b, "/"@);
    law_replacing_goes_from_the_left(b, word, "/"@);
    assert(replaced(lower, word, "/"@) == parted);
    law_replacing_goes_from_the_left(lower, " feat. "@, "/"@);
    law_replacing_goes_from_the_left(lower, " feat "@, "/"@);
    law_replacing_goes_from_the_left(lower, " featuring "@, "/"@);
    law_replacing_goes_from_the_left(parted, " feat "@, "/"@);
    law_replacing_goes_from_the_left(parted, " featuring "@, "/"@);
    law_replacing_goes_from_the_left(parted, " x "@, "/"@);
    assert(slashed(lower) == parted);
    lemma_two_names(a, '/', b);
}

} // verus!
