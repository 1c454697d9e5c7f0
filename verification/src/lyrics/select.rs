//! Choosing among what the providers returned.

use crate::lyrics::align::{
    align_translation, best_shift, law_accepted_alignment_is_close,
    law_count_is_of_translated_lines, law_lone_row_translates_its_line,
    law_pairing_only_adds_translations, lone, pair_count, paired, said,
};
use crate::lyrics::song::{
    one_recording, same_recording, Confidence, MatchScore, MetaView, PlayerKind, SongMeta,
};
use crate::lyrics::{
    copy_lines, lines_view, no_lyrics, LineView, LyricLine, LyricSource, LyricStatus, Lyrics,
    LyricsView, Provider,
};
use crate::number::{finite, ABOVE};
use crate::text::trim;
use vstd::prelude::*;

verus! {

/// Seconds that a complete result is kept: thirty days.
pub const GOOD_CACHE_TTL: u64 = 2_592_000;

/// Seconds that an incomplete result is kept: seven days.
pub const PARTIAL_CACHE_TTL: u64 = 604_800;

/// Seconds before a lookup that found nothing is made again: six hours.
pub const MISS_CACHE_TTL: u64 = 21_600;

/// Seconds before a lookup that nobody answered is made again: five minutes.
pub const ERROR_CACHE_TTL: u64 = 300;

/// The lyrics of one search result.
#[derive(Debug)]
pub struct FetchedLyrics {
    pub provider: Provider,
    pub meta: SongMeta,
    pub score: MatchScore,
    pub lines: Vec<LyricLine>,
    pub translations: Vec<LyricLine>,
}

/// What one provider returned.
#[derive(Debug)]
pub struct SourceBatch {
    pub candidates: Vec<FetchedLyrics>,
    /// Whether the provider answered at all.
    pub responded: bool,
}

/// What a lookup comes to.
#[derive(Debug)]
pub struct LookupOutcome {
    pub lyrics: Lyrics,
    pub match_score: Option<i32>,
    /// Seconds that it may be kept.
    pub ttl: u64,
}

/// What a search result's lyrics hold.
#[verifier::ext_equal]
pub struct FetchedView {
    pub provider: Provider,
    pub meta: MetaView,
    pub score: MatchScore,
    pub lines: Seq<LineView>,
    pub translations: Seq<LineView>,
}

/// What an outcome holds.
#[verifier::ext_equal]
pub struct OutcomeView {
    pub lyrics: LyricsView,
    pub match_score: Option<i32>,
    pub ttl: u64,
}

impl View for FetchedLyrics {
    type V = FetchedView;

    open spec fn view(&self) -> FetchedView {
        FetchedView {
            provider: self.provider,
            meta: self.meta@,
            score: self.score,
            lines: lines_view(self.lines@),
            translations: lines_view(self.translations@),
        }
    }
}

impl View for LookupOutcome {
    type V = OutcomeView;

    open spec fn view(&self) -> OutcomeView {
        OutcomeView { lyrics: self.lyrics@, match_score: self.match_score, ttl: self.ttl }
    }
}

pub open spec fn fetched_view(candidates: Seq<FetchedLyrics>) -> Seq<FetchedView> {
    Seq::new(candidates.len(), |i: int| candidates[i]@)
}

pub open spec fn qq(provider: Provider) -> bool {
    provider == Provider::QqQrc || provider == Provider::QqLrc
}

/// Whether the player prefers the provider: its own service.
pub open spec fn affinity(player: PlayerKind, provider: Provider) -> int {
    match player {
        PlayerKind::QqMusic => if qq(provider) {
            1
        } else {
            0
        },
        PlayerKind::NetEase => if qq(provider) {
            0
        } else {
            1
        },
        _ => 0,
    }
}

/// Whether every line has a real time, and there is one at least.
pub open spec fn timed(lines: Seq<LineView>) -> bool {
    lines.len() > 0 && forall|i: int|
        0 <= i < lines.len() ==> finite((#[trigger] lines[i]).at as int) && lines[i].at >= 0
}

/// Whether a candidate can be shown.
pub open spec fn usable(candidate: FetchedView) -> bool {
    candidate.score.confidence == Confidence::Reliable && timed(candidate.lines)
}

pub open spec fn uncertain(candidate: FetchedView) -> bool {
    candidate.score.confidence == Confidence::Uncertain
}

/// Whether candidate `i` is the best of the uncertain ones, the last of those
/// that tie.
pub open spec fn is_best_guess(all: Seq<FetchedView>, i: int) -> bool {
    &&& 0 <= i < all.len()
    &&& uncertain(all[i])
    &&& forall|k: int|
        #![trigger all[k]]
        0 <= k < all.len() && uncertain(all[k]) ==> {
            &&& all[k].score.total <= all[i].score.total
            &&& k > i ==> all[k].score.total < all[i].score.total
        }
}

/// Whether the translation of candidate `j` fits the lines of candidate `i`.
pub open spec fn fits(all: Seq<FetchedView>, i: int, j: int) -> bool {
    &&& 0 <= j < all.len()
    &&& usable(all[j])
    &&& all[j].translations.len() > 0
    &&& one_recording(all[i].meta, all[j].meta)
    &&& best_shift(all[i].lines, all[j].translations) is Some
}

/// How many lines of `i` the translation of `j` covers.
pub open spec fn covered(all: Seq<FetchedView>, i: int, j: int) -> int {
    (best_shift(all[i].lines, all[j].translations)->0).1
}

/// Whether the translation of `j` is the one for `i`: it covers most lines,
/// the last of those that tie.
pub open spec fn is_translator(all: Seq<FetchedView>, i: int, j: int) -> bool {
    &&& fits(all, i, j)
    &&& forall|k: int|
        #![trigger fits(all, i, k)]
        fits(all, i, k) ==> {
            &&& covered(all, i, k) <= covered(all, i, j)
            &&& k > j ==> covered(all, i, k) < covered(all, i, j)
        }
}

/// The candidate whose translation is laid over the lines of `i`, if any fits.
pub open spec fn translator(all: Seq<FetchedView>, i: int) -> Option<int> {
    if exists|j: int| is_translator(all, i, j) {
        Some(choose|j: int| is_translator(all, i, j))
    } else {
        None
    }
}

/// How many lines have timed words.
pub open spec fn worded(lines: Seq<LineView>) -> int
    decreases lines.len(),
{
    if lines.len() == 0 {
        0
    } else {
        worded(lines.drop_last()) + if lines.last().words.len() > 0 {
            1int
        } else {
            0
        }
    }
}

pub open spec fn translated(all: Seq<FetchedView>, i: int) -> int {
    match translator(all, i) {
        Some(j) => covered(all, i, j),
        None => 0,
    }
}

/// By what candidates are chosen, the weightiest first: the match, the lines
/// with timed words and those with a translation in thousandths, the player's
/// own service, and the number of lines.
pub struct Rank {
    pub total: int,
    pub words: int,
    pub translation: int,
    pub affinity: int,
    pub lines: int,
}

pub open spec fn rank(all: Seq<FetchedView>, player: PlayerKind, i: int) -> Rank {
    let lines = all[i].lines.len() as int;
    Rank {
        total: all[i].score.total as int,
        words: worded(all[i].lines) * 1000 / lines,
        translation: translated(all, i) * 1000 / lines,
        affinity: affinity(player, all[i].provider),
        lines,
    }
}

/// Whether rank `a` goes before rank `b`.
pub open spec fn outranks(a: Rank, b: Rank) -> bool {
    if a.total != b.total {
        a.total > b.total
    } else if a.words != b.words {
        a.words > b.words
    } else if a.translation != b.translation {
        a.translation > b.translation
    } else if a.affinity != b.affinity {
        a.affinity > b.affinity
    } else {
        a.lines > b.lines
    }
}

/// Whether candidate `i` is the one to show: nothing usable outranks it, and
/// it is the first of those that tie.
pub open spec fn is_choice(all: Seq<FetchedView>, player: PlayerKind, i: int) -> bool {
    &&& 0 <= i < all.len()
    &&& usable(all[i])
    &&& forall|k: int|
        #![trigger all[k]]
        0 <= k < all.len() && usable(all[k]) ==> {
            &&& !outranks(rank(all, player, k), rank(all, player, i))
            &&& k < i ==> outranks(rank(all, player, i), rank(all, player, k))
        }
}

/// The lines of candidate `i`, with the translation that fits best.
pub open spec fn final_lines(all: Seq<FetchedView>, i: int) -> Seq<LineView> {
    match translator(all, i) {
        Some(j) => paired(
            all[i].lines,
            all[j].translations,
            (best_shift(all[i].lines, all[j].translations)->0).0,
        ),
        None => all[i].lines,
    }
}

pub open spec fn final_source(all: Seq<FetchedView>, i: int) -> LyricSource {
    match translator(all, i) {
        Some(j) => LyricSource {
            original: all[i].provider,
            translation: Some(all[j].provider),
            translation_offset: Some(
                (best_shift(all[i].lines, all[j].translations)->0).0 as i64,
            ),
        },
        None => LyricSource {
            original: all[i].provider,
            translation: None,
            translation_offset: None,
        },
    }
}

/// Whether a result is complete: timed words, and seven lines in ten
/// translated.
pub open spec fn complete(lines: Seq<LineView>, translated: int) -> bool {
    worded(lines) > 0 && translated * 10 >= lines.len() * 7
}

/// The outcome that shows candidate `i`.
pub open spec fn found(all: Seq<FetchedView>, i: int) -> OutcomeView {
    let lines = final_lines(all, i);
    OutcomeView {
        lyrics: LyricsView {
            track: Seq::empty(),
            timed: true,
            word_timed: worded(lines) > 0,
            status: LyricStatus::Found,
            source: Some(final_source(all, i)),
            from_cache: false,
            lines,
        },
        match_score: Some(all[i].score.total),
        ttl: if complete(lines, translated(all, i)) {
            GOOD_CACHE_TTL
        } else {
            PARTIAL_CACHE_TTL
        },
    }
}

/// The outcome that knows of candidate `i` but does not show it.
pub open spec fn guessed(all: Seq<FetchedView>, i: int) -> OutcomeView {
    OutcomeView {
        lyrics: LyricsView {
            status: LyricStatus::Uncertain,
            source: Some(
                LyricSource {
                    original: all[i].provider,
                    translation: None,
                    translation_offset: None,
                },
            ),
            ..no_lyrics()
        },
        match_score: Some(all[i].score.total),
        ttl: MISS_CACHE_TTL,
    }
}

/// The outcome without lyrics.
pub open spec fn missing(responded: bool) -> OutcomeView {
    OutcomeView {
        lyrics: LyricsView { status: LyricStatus::NotFound, ..no_lyrics() },
        match_score: None,
        ttl: if responded {
            MISS_CACHE_TTL
        } else {
            ERROR_CACHE_TTL
        },
    }
}

/// What a lookup that returned `all` comes to.
pub open spec fn outcome(all: Seq<FetchedView>, player: PlayerKind, responded: bool) -> OutcomeView {
    if exists|i: int| is_choice(all, player, i) {
        found(all, choose|i: int| is_choice(all, player, i))
    } else if exists|i: int| is_best_guess(all, i) {
        guessed(all, choose|i: int| is_best_guess(all, i))
    } else {
        missing(responded)
    }
}

/// The candidates of all batches, in their order.
pub open spec fn gathered(batches: Seq<SourceBatch>) -> Seq<FetchedView>
    decreases batches.len(),
{
    if batches.len() == 0 {
        Seq::empty()
    } else {
        gathered(batches.drop_last()) + fetched_view(batches.last().candidates@)
    }
}

impl Provider {
    /// Whether the provider is QQ Music.
    pub fn is_qq(self) -> (res: bool)
        ensures
            res == qq(self),
    {
        match self {
            Provider::QqQrc | Provider::QqLrc => true,
            _ => false,
        }
    }
}

/// Whether the player prefers the provider: its own service.
pub fn source_affinity(player: PlayerKind, provider: Provider) -> (res: i32)
    ensures
        res == affinity(player, provider),
{
    match player {
        PlayerKind::QqMusic => if provider.is_qq() {
            1
        } else {
            0
        },
        PlayerKind::NetEase => if provider.is_qq() {
            0
        } else {
            1
        },
        _ => 0,
    }
}

/// Whether every line has a real time, and there is one at least.
pub fn has_timing(lines: &Vec<LyricLine>) -> (res: bool)
    ensures
        res == timed(lines_view(lines@)),
{
    let ghost all = lines_view(lines@);
    for i in 0..lines.len()
        invariant
            all == lines_view(lines@),
            forall|j: int|
                0 <= j < i ==> finite((#[trigger] all[j]).at as int) && all[j].at >= 0,
    {
        if lines[i].at < 0 || lines[i].at >= ABOVE {
            assert(!(finite(all[i as int].at as int) && all[i as int].at >= 0));
            return false;
        }
    }
    lines.len() > 0
}

/// The outcome of a lookup that found nothing.
pub fn missing_outcome(responded: bool) -> (res: LookupOutcome)
    ensures
        res@ == missing(responded),
{
    let mut lyrics = Lyrics::default();
    lyrics.status = LyricStatus::NotFound;
    LookupOutcome {
        lyrics,
        match_score: None,
        ttl: if responded {
            MISS_CACHE_TTL
        } else {
            ERROR_CACHE_TTL
        },
    }
}

fn is_usable(candidate: &FetchedLyrics) -> (res: bool)
    ensures
        res == usable(candidate@),
{
    match candidate.score.confidence {
        Confidence::Reliable => has_timing(&candidate.lines),
        _ => false,
    }
}

fn find_guess(candidates: &Vec<FetchedLyrics>) -> (res: Option<usize>)
    ensures
        match res {
            Some(i) => is_best_guess(fetched_view(candidates@), i as int),
            None => forall|i: int| !is_best_guess(fetched_view(candidates@), i),
        },
{
    let ghost all = fetched_view(candidates@);
    let mut best: Option<usize> = None;
    for k in 0..candidates.len()
        invariant
            all == fetched_view(candidates@),
            match best {
                Some(i) => {
                    &&& i < k
                    &&& uncertain(all[i as int])
                    &&& forall|m: int|
                        #![trigger all[m]]
                        0 <= m < k && uncertain(all[m]) ==> {
                            &&& all[m].score.total <= all[i as int].score.total
                            &&& m > i ==> all[m].score.total < all[i as int].score.total
                        }
                },
                None => forall|m: int| #![trigger all[m]] 0 <= m < k ==> !uncertain(all[m]),
            },
    {
        assert(all[k as int] == candidates@[k as int]@);
        let guess = match candidates[k].score.confidence {
            Confidence::Uncertain => true,
            _ => false,
        };
        if guess {
            let better = match best {
                Some(i) => candidates[k].score.total >= candidates[i].score.total,
                None => true,
            };
            if better {
                best = Some(k);
            }
        }
    }
    best
}

/// A translation that fits a candidate's lines.
struct AlignedTranslation {
    lines: Vec<LyricLine>,
    from: usize,
    provider: Provider,
    offset: i64,
    matched: usize,
}

spec fn aligned_by(all: Seq<FetchedView>, i: int, aligned: AlignedTranslation) -> bool {
    let shift = best_shift(all[i].lines, all[aligned.from as int].translations);
    &&& fits(all, i, aligned.from as int)
    &&& aligned.provider == all[aligned.from as int].provider
    &&& shift == Some((aligned.offset as int, aligned.matched as int))
    &&& lines_view(aligned.lines@) == paired(
        all[i].lines,
        all[aligned.from as int].translations,
        aligned.offset as int,
    )
}

proof fn lemma_translator_unique(all: Seq<FetchedView>, i: int, j: int)
    requires
        is_translator(all, i, j),
    ensures
        translator(all, i) == Some(j),
{
    let other = choose|j: int| is_translator(all, i, j);
    if other != j {
        assert(fits(all, i, j) && fits(all, i, other));
    }
}

fn find_translation(candidates: &Vec<FetchedLyrics>, i: usize) -> (res: Option<AlignedTranslation>)
    requires
        i < candidates@.len(),
    ensures
        match res {
            Some(aligned) => {
                &&& translator(fetched_view(candidates@), i as int) == Some(aligned.from as int)
                &&& aligned_by(fetched_view(candidates@), i as int, aligned)
            },
            None => translator(fetched_view(candidates@), i as int) is None,
        },
{
    let ghost all = fetched_view(candidates@);
    let mut best: Option<AlignedTranslation> = None;
    for j in 0..candidates.len()
        invariant
            i < candidates@.len(),
            all == fetched_view(candidates@),
            match best {
                Some(aligned) => {
                    &&& aligned.from < j
                    &&& aligned_by(all, i as int, aligned)
                    &&& forall|k: int|
                        #![trigger fits(all, i as int, k)]
                        0 <= k < j && fits(all, i as int, k) ==> {
                            &&& covered(all, i as int, k) <= aligned.matched
                            &&& k > aligned.from ==> covered(all, i as int, k) < aligned.matched
                        }
                },
                None => forall|k: int|
                    #![trigger fits(all, i as int, k)]
                    0 <= k < j ==> !fits(all, i as int, k),
            },
    {
        assert(all[j as int] == candidates@[j as int]@);
        assert(all[i as int] == candidates@[i as int]@);
        if is_usable(&candidates[j]) && candidates[j].translations.len() > 0 && same_recording(
            &candidates[i].meta,
            &candidates[j].meta,
        ) {
            match align_translation(&candidates[i].lines, &candidates[j].translations) {
                Some((lines, offset, matched)) => {
                    assert(fits(all, i as int, j as int));
                    let better = match &best {
                        Some(aligned) => matched >= aligned.matched,
                        None => true,
                    };
                    if better {
                        best = Some(
                            AlignedTranslation {
                                lines,
                                from: j,
                                provider: candidates[j].provider,
                                offset,
                                matched,
                            },
                        );
                    }
                },
                None => {},
            }
        }
    }
    match &best {
        Some(aligned) => {
            proof {
                assert(is_translator(all, i as int, aligned.from as int));
                lemma_translator_unique(all, i as int, aligned.from as int);
            }
        },
        None => {
            assert forall|k: int| !is_translator(all, i as int, k) by {
                if is_translator(all, i as int, k) {
                    assert(fits(all, i as int, k));
                }
            }
        },
    }
    best
}

fn count_worded(lines: &Vec<LyricLine>) -> (res: usize)
    ensures
        res == worded(lines_view(lines@)),
        res <= lines@.len(),
{
    let ghost all = lines_view(lines@);
    let mut count: usize = 0;
    for i in 0..lines.len()
        invariant
            all == lines_view(lines@),
            count == worded(all.take(i as int)),
            count <= i,
    {
        if lines[i].words.len() > 0 {
            count = count + 1;
        }
        assert(all.take(i + 1).drop_last() =~= all.take(i as int));
    }
    assert(all.take(all.len() as int) =~= all);
    count
}

struct ExecRank {
    total: i32,
    words: u128,
    translation: u128,
    affinity: i32,
    lines: usize,
}

impl ExecRank {
    spec fn model(self) -> Rank {
        Rank {
            total: self.total as int,
            words: self.words as int,
            translation: self.translation as int,
            affinity: self.affinity as int,
            lines: self.lines as int,
        }
    }

    fn goes_before(&self, other: &ExecRank) -> (res: bool)
        ensures
            res == outranks(self.model(), other.model()),
    {
        if self.total != other.total {
            self.total > other.total
        } else if self.words != other.words {
            self.words > other.words
        } else if self.translation != other.translation {
            self.translation > other.translation
        } else if self.affinity != other.affinity {
            self.affinity > other.affinity
        } else {
            self.lines > other.lines
        }
    }
}

fn rank_of(
    candidate: &FetchedLyrics,
    aligned: &Option<AlignedTranslation>,
    player: PlayerKind,
) -> (res: ExecRank)
    requires
        candidate.lines@.len() > 0,
    ensures
        res.model() == (Rank {
            total: candidate.score.total as int,
            words: worded(lines_view(candidate.lines@)) * 1000 / candidate.lines@.len() as int,
            translation: (match *aligned {
                Some(aligned) => aligned.matched as int,
                None => 0,
            }) * 1000 / candidate.lines@.len() as int,
            affinity: affinity(player, candidate.provider),
            lines: candidate.lines@.len() as int,
        }),
{
    let matched: usize = match aligned {
        Some(aligned) => aligned.matched,
        None => 0,
    };
    let lines: u128 = candidate.lines.len() as u128;
    ExecRank {
        total: candidate.score.total,
        words: (count_worded(&candidate.lines) as u128 * 1000) / lines,
        translation: (matched as u128 * 1000) / lines,
        affinity: source_affinity(player, candidate.provider),
        lines: candidate.lines.len(),
    }
}

/// Chooses among what the providers returned. Only reliable candidates with
/// real times are shown; an uncertain one is reported without its lines.
pub fn choose_result(
    candidates: Vec<FetchedLyrics>,
    player: PlayerKind,
    responded: bool,
) -> (res: LookupOutcome)
    ensures
        res@ == outcome(fetched_view(candidates@), player, responded),
{
    let ghost all = fetched_view(candidates@);
    let mut selected: Option<(usize, Option<AlignedTranslation>, ExecRank)> = None;
    for i in 0..candidates.len()
        invariant
            all == fetched_view(candidates@),
            match selected {
                Some((chosen, aligned, best)) => {
                    &&& chosen < i
                    &&& usable(all[chosen as int])
                    &&& best.model() == rank(all, player, chosen as int)
                    &&& match aligned {
                        Some(aligned) => {
                            &&& translator(all, chosen as int) == Some(aligned.from as int)
                            &&& aligned_by(all, chosen as int, aligned)
                        },
                        None => translator(all, chosen as int) is None,
                    }
                    &&& forall|k: int|
                        #![trigger all[k]]
                        0 <= k < i && usable(all[k]) ==> {
                            &&& !outranks(
                                rank(all, player, k),
                                rank(all, player, chosen as int),
                            )
                            &&& k < chosen ==> outranks(
                                rank(all, player, chosen as int),
                                rank(all, player, k),
                            )
                        }
                },
                None => forall|k: int| #![trigger all[k]] 0 <= k < i ==> !usable(all[k]),
            },
    {
        assert(all[i as int] == candidates@[i as int]@);
        if is_usable(&candidates[i]) {
            let aligned = find_translation(&candidates, i);
            let mine = rank_of(&candidates[i], &aligned, player);
            assert(mine.model() == rank(all, player, i as int));
            let better = match &selected {
                Some((_, _, best)) => mine.goes_before(best),
                None => true,
            };
            if better {
                selected = Some((i, aligned, mine));
            }
        }
    }
    match selected {
        Some((chosen, aligned, _)) => {
            proof {
                assert(is_choice(all, player, chosen as int));
                let other = choose|i: int| is_choice(all, player, i);
                assert(is_choice(all, player, other));
                if other != chosen {
                    assert(usable(all[other]) && usable(all[chosen as int]));
                }
                assert(all[chosen as int] == candidates@[chosen as int]@);
            }
            show(&candidates[chosen], aligned, Ghost(all), Ghost(chosen as int))
        },
        None => {
            assert forall|i: int| !is_choice(all, player, i) by {
                if is_choice(all, player, i) {
                    assert(usable(all[i]));
                }
            }
            match find_guess(&candidates) {
                Some(i) => {
                    proof {
                        let other = choose|i: int| is_best_guess(all, i);
                        assert(is_best_guess(all, other));
                        if other != i {
                            assert(uncertain(all[other]) && uncertain(all[i as int]));
                        }
                    }
                    let mut lyrics = Lyrics::default();
                    lyrics.status = LyricStatus::Uncertain;
                    lyrics.source = Some(
                        LyricSource {
                            original: candidates[i].provider,
                            translation: None,
                            translation_offset: None,
                        },
                    );
                    LookupOutcome {
                        lyrics,
                        match_score: Some(candidates[i].score.total),
                        ttl: MISS_CACHE_TTL,
                    }
                },
                None => missing_outcome(responded),
            }
        },
    }
}

fn show(
    candidate: &FetchedLyrics,
    aligned: Option<AlignedTranslation>,
    Ghost(all): Ghost<Seq<FetchedView>>,
    Ghost(i): Ghost<int>,
) -> (res: LookupOutcome)
    requires
        candidate@ == all[i],
        match aligned {
            Some(aligned) => {
                &&& translator(all, i) == Some(aligned.from as int)
                &&& aligned_by(all, i, aligned)
            },
            None => translator(all, i) is None,
        },
    ensures
        res@ == found(all, i),
{
    let mut source = LyricSource {
        original: candidate.provider,
        translation: None,
        translation_offset: None,
    };
    let mut matched: usize = 0;
    let lines = match aligned {
        Some(aligned) => {
            source.translation = Some(aligned.provider);
            source.translation_offset = Some(aligned.offset);
            matched = aligned.matched;
            aligned.lines
        },
        None => copy_lines(&candidate.lines),
    };
    let word_timed = count_worded(&lines) > 0;
    let covered = matched as u128 * 10 >= lines.len() as u128 * 7;
    let lyrics = Lyrics {
        track: String::new(),
        timed: true,
        word_timed,
        status: LyricStatus::Found,
        source: Some(source),
        from_cache: false,
        lines,
    };
    let res = LookupOutcome {
        lyrics,
        match_score: Some(candidate.score.total),
        ttl: if word_timed && covered {
            GOOD_CACHE_TTL
        } else {
            PARTIAL_CACHE_TTL
        },
    };
    assert(res@.lyrics.track =~= Seq::<char>::empty());
    assert(res@.lyrics =~= found(all, i).lyrics);
    res
}

/// Chooses among what all providers returned.
pub fn choose_from_batches(batches: Vec<SourceBatch>, player: PlayerKind) -> (res: LookupOutcome)
    ensures
        res@ == outcome(
            gathered(batches@),
            player,
            exists|i: int| 0 <= i < batches@.len() && (#[trigger] batches@[i]).responded,
        ),
{
    let ghost whole = batches@;
    let mut candidates: Vec<FetchedLyrics> = Vec::new();
    let mut responded = false;
    assert(fetched_view(candidates@) =~= gathered(whole.take(0)));
    for batch in iter: batches
        invariant
            iter.seq() == whole,
            fetched_view(candidates@) == gathered(whole.take(iter.index() as int)),
            responded == exists|i: int|
                0 <= i < iter.index() && (#[trigger] whole[i]).responded,
    {
        let ghost before = candidates@;
        let ghost n = iter.index() as int;
        assert(whole.take(n + 1).drop_last() =~= whole.take(n));
        assert(batch == whole[n]);
        if batch.responded {
            responded = true;
        }
        let mut more = batch.candidates;
        candidates.append(&mut more);
        assert(fetched_view(candidates@) =~= fetched_view(before) + fetched_view(
            whole[n].candidates@,
        ));
    }
    assert(whole.take(whole.len() as int) =~= whole);
    choose_result(candidates, player, responded)
}

proof fn lemma_choice_exists(all: Seq<FetchedView>, player: PlayerKind, n: int) -> (best: int)
    requires
        0 <= n <= all.len(),
        exists|i: int| 0 <= i < n && usable(#[trigger] all[i]),
    ensures
        0 <= best < n,
        usable(all[best]),
        forall|k: int|
            #![trigger all[k]]
            0 <= k < n && usable(all[k]) ==> {
                &&& !outranks(rank(all, player, k), rank(all, player, best))
                &&& k < best ==> outranks(rank(all, player, best), rank(all, player, k))
            },
    decreases n,
{
    let last = n - 1;
    if exists|i: int| 0 <= i < n - 1 && usable(#[trigger] all[i]) {
        let best = lemma_choice_exists(all, player, n - 1);
        if usable(all[last]) && outranks(rank(all, player, last), rank(all, player, best)) {
            last
        } else {
            best
        }
    } else {
        last
    }
}

proof fn lemma_guess_exists(all: Seq<FetchedView>, n: int) -> (best: int)
    requires
        0 <= n <= all.len(),
        exists|i: int| 0 <= i < n && uncertain(#[trigger] all[i]),
    ensures
        0 <= best < n,
        uncertain(all[best]),
        forall|k: int|
            #![trigger all[k]]
            0 <= k < n && uncertain(all[k]) ==> {
                &&& all[k].score.total <= all[best].score.total
                &&& k > best ==> all[k].score.total < all[best].score.total
            },
    decreases n,
{
    let last = n - 1;
    if exists|i: int| 0 <= i < n - 1 && uncertain(#[trigger] all[i]) {
        let best = lemma_guess_exists(all, n - 1);
        if uncertain(all[last]) && all[last].score.total >= all[best].score.total {
            last
        } else {
            best
        }
    } else {
        last
    }
}

/// A lookup finds lyrics exactly when some candidate is usable; it is uncertain
/// exactly when none is but one is uncertain; and it finds nothing otherwise.
pub proof fn law_status(all: Seq<FetchedView>, player: PlayerKind, responded: bool)
    ensures
        outcome(all, player, responded).lyrics.status == (if exists|i: int|
            0 <= i < all.len() && usable(#[trigger] all[i]) {
            LyricStatus::Found
        } else if exists|i: int| 0 <= i < all.len() && uncertain(#[trigger] all[i]) {
            LyricStatus::Uncertain
        } else {
            LyricStatus::NotFound
        }),
{
    if exists|i: int| 0 <= i < all.len() && usable(#[trigger] all[i]) {
        let best = lemma_choice_exists(all, player, all.len() as int);
        assert(is_choice(all, player, best));
    } else {
        assert forall|i: int| !is_choice(all, player, i) by {
            if is_choice(all, player, i) {
                assert(usable(all[i]));
            }
        }
        if exists|i: int| 0 <= i < all.len() && uncertain(#[trigger] all[i]) {
            let best = lemma_guess_exists(all, all.len() as int);
            assert(is_best_guess(all, best));
        } else {
            assert forall|i: int| !is_best_guess(all, i) by {
                if is_best_guess(all, i) {
                    assert(uncertain(all[i]));
                }
            }
        }
    }
}

/// What is not found is never shown: an uncertain or a missing result exposes
/// no lines.
pub proof fn law_only_found_results_have_lines(
    all: Seq<FetchedView>,
    player: PlayerKind,
    responded: bool,
)
    ensures
        outcome(all, player, responded).lyrics.status != LyricStatus::Found ==> outcome(
            all,
            player,
            responded,
        ).lyrics.lines.len() == 0,
        outcome(all, player, responded).lyrics.status == LyricStatus::Found ==> timed(
            outcome(all, player, responded).lyrics.lines,
        ) && outcome(all, player, responded).lyrics.timed,
{
    if exists|i: int| is_choice(all, player, i) {
        let i = choose|i: int| is_choice(all, player, i);
        assert(timed(all[i].lines));
        let lines = final_lines(all, i);
        assert forall|k: int| 0 <= k < lines.len() implies finite((#[trigger] lines[k]).at as int)
            && lines[k].at >= 0 by {
            assert(lines[k].at == all[i].lines[k].at);
        }
    }
}

/// The match counts most: no usable candidate matches better than the one that
/// is shown.
pub proof fn law_best_match_is_shown(
    all: Seq<FetchedView>,
    player: PlayerKind,
    responded: bool,
    k: int,
)
    requires
        0 <= k < all.len(),
        usable(all[k]),
    ensures
        outcome(all, player, responded).match_score is Some,
        outcome(all, player, responded).match_score->0 >= all[k].score.total,
{
    let best = lemma_choice_exists(all, player, all.len() as int);
    assert(is_choice(all, player, best));
    let i = choose|i: int| is_choice(all, player, i);
    assert(is_choice(all, player, i));
    assert(!outranks(rank(all, player, k), rank(all, player, i)));
}

/// Between equal matches timed words decide, between equals in that the
/// translation, and between equals in that the player's own service.
pub proof fn law_order_of_preference(
    all: Seq<FetchedView>,
    player: PlayerKind,
    better: int,
    worse: int,
)
    requires
        0 <= better < all.len(),
        0 <= worse < all.len(),
        usable(all[better]),
        ({
            let b = rank(all, player, better);
            let w = rank(all, player, worse);
            ||| b.total > w.total
            ||| b.total == w.total && b.words > w.words
            ||| b.total == w.total && b.words == w.words && b.translation > w.translation
            ||| b.total == w.total && b.words == w.words && b.translation == w.translation
                && b.affinity > w.affinity
        }),
    ensures
        !is_choice(all, player, worse),
{
    assert(usable(all[better]));
}

/// Only a result with timed words whose translation covers seven lines in ten
/// is kept for long; a lookup that nobody answered is soon made again.
pub proof fn law_time_to_live(all: Seq<FetchedView>, player: PlayerKind, responded: bool)
    ensures
        ({
            let ttl = outcome(all, player, responded).ttl;
            let lyrics = outcome(all, player, responded).lyrics;
            &&& ERROR_CACHE_TTL < MISS_CACHE_TTL < PARTIAL_CACHE_TTL < GOOD_CACHE_TTL
            &&& ttl == GOOD_CACHE_TTL ==> lyrics.status == LyricStatus::Found && lyrics.word_timed
            &&& ttl == GOOD_CACHE_TTL || ttl == PARTIAL_CACHE_TTL <==> lyrics.status
                == LyricStatus::Found
            &&& ttl == ERROR_CACHE_TTL ==> !responded
        }),
{
}

/// A candidate can be shown exactly when it is reliable and has lines, each at a
/// real time from zero on.
pub proof fn law_usable_candidates_are_timed(candidate: FetchedView)
    ensures
        usable(candidate) <==> {
            &&& candidate.score.confidence == Confidence::Reliable
            &&& candidate.lines.len() > 0
            &&& forall|i: int|
                0 <= i < candidate.lines.len() ==> 0 <= (#[trigger] candidate.lines[i]).at
                    && candidate.lines[i].at < i64::MAX - 1
        },
{
}

/// There is one choice at most.
proof fn lemma_choice_is_one(all: Seq<FetchedView>, player: PlayerKind, i: int)
    requires
        is_choice(all, player, i),
    ensures
        i == (choose|i: int| is_choice(all, player, i)),
{
    let other = choose|i: int| is_choice(all, player, i);
    assert(is_choice(all, player, other));
    if other != i {
        assert(usable(all[other]) && usable(all[i]));
    }
}

/// What is shown is the choice's own: its lines in their order, each with its
/// time, its text and its words, its provider and its score. It counts as word
/// timed exactly when some line has timed words.
pub proof fn law_choice_is_shown(all: Seq<FetchedView>, player: PlayerKind, responded: bool, i: int)
    requires
        is_choice(all, player, i),
    ensures
        ({
            let res = outcome(all, player, responded);
            let lyrics = res.lyrics;
            &&& lyrics.status == LyricStatus::Found
            &&& lyrics.source is Some && lyrics.source->0.original == all[i].provider
            &&& res.match_score == Some(all[i].score.total)
            &&& lyrics.timed && !lyrics.from_cache
            &&& lyrics.word_timed <==> exists|l: int|
                0 <= l < lyrics.lines.len() && (#[trigger] lyrics.lines[l]).words.len() > 0
            &&& lyrics.lines.len() == all[i].lines.len()
            &&& forall|l: int|
                0 <= l < lyrics.lines.len() ==> {
                    &&& (#[trigger] lyrics.lines[l]).at == all[i].lines[l].at
                    &&& lyrics.lines[l].text == all[i].lines[l].text
                    &&& lyrics.lines[l].words == all[i].lines[l].words
                }
        }),
{
    lemma_choice_is_one(all, player, i);
    let lines = final_lines(all, i);
    lemma_worded(lines);
    assert forall|l: int| 0 <= l < lines.len() implies {
        &&& (#[trigger] lines[l]).at == all[i].lines[l].at
        &&& lines[l].text == all[i].lines[l].text
        &&& lines[l].words == all[i].lines[l].words
    } by {
        match translator(all, i) {
            Some(j) => {
                let offset = (best_shift(all[i].lines, all[j].translations)->0).0;
                law_pairing_only_adds_translations(all[i].lines, all[j].translations, offset, l);
            },
            None => {},
        }
    }
}

proof fn lemma_worded(lines: Seq<LineView>)
    ensures
        0 <= worded(lines) <= lines.len(),
        worded(lines) > 0 <==> exists|l: int|
            0 <= l < lines.len() && (#[trigger] lines[l]).words.len() > 0,
        worded(lines) == lines.filter(|l: LineView| l.words.len() > 0).len(),
    decreases lines.len(),
{
    let pred = |l: LineView| l.words.len() > 0;
    if lines.len() > 0 {
        let front = lines.drop_last();
        lemma_worded(front);
        front.lemma_filter_push(lines.last(), pred);
        assert(front.push(lines.last()) =~= lines);
        if exists|l: int| 0 <= l < front.len() && (#[trigger] front[l]).words.len() > 0 {
            let l = choose|l: int| 0 <= l < front.len() && (#[trigger] front[l]).words.len() > 0;
            assert(lines[l].words.len() > 0);
        }
        if exists|l: int| 0 <= l < lines.len() && (#[trigger] lines[l]).words.len() > 0 {
            let l = choose|l: int| 0 <= l < lines.len() && (#[trigger] lines[l]).words.len() > 0;
            if l < front.len() {
                assert(front[l].words.len() > 0);
            }
        }
    } else {
        reveal(Seq::filter);
    }
}

/// Whether lines show what the shifted rows say: each row that meets a line
/// alone, and says something that the line does not, is that line's
/// translation.
pub open spec fn carries(
    shown: Seq<LineView>,
    lines: Seq<LineView>,
    rows: Seq<LineView>,
    offset: int,
) -> bool {
    forall|l: int, r: int|
        #![trigger lines[l], rows[r]]
        lone(lines, rows, offset, l, r) && trim(rows[r].text).len() > 0 && trim(rows[r].text)
            != trim(lines[l].text) ==> shown[l].translation == Some(trim(rows[r].text))
}

/// A translation that is named is shown: it is that of a candidate of the same
/// recording, shifted by what is named, and every line carries what it says
/// there. At least seven in ten of the lines that could have a translation have
/// one, and five or all of them.
pub proof fn law_named_translation_is_shown(
    all: Seq<FetchedView>,
    player: PlayerKind,
    responded: bool,
    i: int,
)
    requires
        is_choice(all, player, i),
        outcome(all, player, responded).lyrics.source->0.translation is Some,
    ensures
        ({
            let lyrics = outcome(all, player, responded).lyrics;
            let source = lyrics.source->0;
            exists|j: int|
                {
                    &&& 0 <= j < all.len()
                    &&& source.translation == Some((#[trigger] all[j]).provider)
                    &&& all[j].score.confidence == Confidence::Reliable
                    &&& one_recording(all[i].meta, all[j].meta)
                    &&& source.translation_offset is Some
                    &&& carries(
                        lyrics.lines,
                        all[i].lines,
                        all[j].translations,
                        source.translation_offset->0 as int,
                    )
                    &&& said(lyrics.lines) * 10 >= lyrics.lines.len() * 7 || said(lyrics.lines) * 10
                        >= all[j].translations.len() * 7
                    &&& said(lyrics.lines) >= 5 || said(lyrics.lines) >= lyrics.lines.len() || said(
                        lyrics.lines,
                    ) >= all[j].translations.len()
                }
        }),
{
    lemma_choice_is_one(all, player, i);
    let lyrics = outcome(all, player, responded).lyrics;
    let j = translator(all, i)->0;
    assert(is_translator(all, i, j));
    assert(fits(all, i, j));
    let lines = all[i].lines;
    let rows = all[j].translations;
    let (offset, matched) = best_shift(lines, rows)->0;
    law_accepted_alignment_is_close(lines, rows);
    law_count_is_of_translated_lines(lines, rows, offset);
    lemma_best_shift_counts(lines, rows);
    assert forall|l: int, r: int|
        #![trigger lines[l], rows[r]]
        lone(lines, rows, offset, l, r) && trim(rows[r].text).len() > 0 && trim(rows[r].text)
            != trim(lines[l].text) implies lyrics.lines[l].translation == Some(
        trim(rows[r].text),
    ) by {
        law_lone_row_translates_its_line(lines, rows, offset, l, r);
    }
    assert(all[j].provider == lyrics.source->0.translation->0);
}

proof fn lemma_best_shift_counts(lines: Seq<LineView>, rows: Seq<LineView>)
    requires
        best_shift(lines, rows) is Some,
    ensures
        ({
            let (offset, matched) = best_shift(lines, rows)->0;
            matched == pair_count(lines, rows, offset)
        }),
{
}

proof fn lemma_translator_exists(all: Seq<FetchedView>, i: int, n: int) -> (best: int)
    requires
        0 <= n <= all.len(),
        exists|j: int| j < n && #[trigger] fits(all, i, j),
    ensures
        best < n,
        fits(all, i, best),
        forall|k: int|
            #![trigger fits(all, i, k)]
            k < n && fits(all, i, k) ==> {
                &&& covered(all, i, k) <= covered(all, i, best)
                &&& k > best ==> covered(all, i, k) < covered(all, i, best)
            },
    decreases n,
{
    let last = n - 1;
    if exists|j: int| j < n - 1 && #[trigger] fits(all, i, j) {
        let best = lemma_translator_exists(all, i, n - 1);
        if fits(all, i, last) && covered(all, i, last) >= covered(all, i, best) {
            last
        } else {
            best
        }
    } else {
        assert(fits(all, i, last));
        last
    }
}

proof fn lemma_translator_covers_most(all: Seq<FetchedView>, i: int, j: int)
    requires
        fits(all, i, j),
    ensures
        translator(all, i) is Some,
        fits(all, i, translator(all, i)->0),
        covered(all, i, translator(all, i)->0) >= covered(all, i, j),
{
    let best = lemma_translator_exists(all, i, all.len() as int);
    assert(is_translator(all, i, best));
    lemma_translator_unique(all, i, best);
}

/// A translation that fits is not left out: where a candidate that can be shown
/// describes the choice's recording and its translation can be laid over the
/// choice's lines, some translation is named, and at least as many lines have
/// one as that would translate.
pub proof fn law_fitting_translation_is_used(
    all: Seq<FetchedView>,
    player: PlayerKind,
    responded: bool,
    i: int,
    j: int,
)
    requires
        is_choice(all, player, i),
        0 <= j < all.len(),
        all[j].score.confidence == Confidence::Reliable,
        all[j].lines.len() > 0,
        forall|l: int|
            0 <= l < all[j].lines.len() ==> 0 <= (#[trigger] all[j].lines[l]).at
                && all[j].lines[l].at < i64::MAX - 1,
        one_recording(all[i].meta, all[j].meta),
        best_shift(all[i].lines, all[j].translations) is Some,
    ensures
        ({
            let lyrics = outcome(all, player, responded).lyrics;
            &&& lyrics.source->0.translation is Some
            &&& said(lyrics.lines) >= (best_shift(all[i].lines, all[j].translations)->0).1
        }),
{
    lemma_choice_is_one(all, player, i);
    law_accepted_alignment_is_close(all[i].lines, all[j].translations);
    assert(timed(all[j].lines));
    assert(fits(all, i, j));
    lemma_translator_covers_most(all, i, j);
    let k = translator(all, i)->0;
    let (offset, matched) = best_shift(all[i].lines, all[k].translations)->0;
    lemma_best_shift_counts(all[i].lines, all[k].translations);
    law_count_is_of_translated_lines(all[i].lines, all[k].translations, offset);
}

/// Where no translation is named, the lines are the choice's own, with whatever
/// they say.
pub proof fn law_untranslated_lines_are_left_alone(
    all: Seq<FetchedView>,
    player: PlayerKind,
    responded: bool,
    i: int,
)
    requires
        is_choice(all, player, i),
        outcome(all, player, responded).lyrics.source->0.translation is None,
    ensures
        outcome(all, player, responded).lyrics.lines == all[i].lines,
        outcome(all, player, responded).lyrics.source->0.translation_offset is None,
{
    lemma_choice_is_one(all, player, i);
}

/// What has lyrics is kept for thirty days where it has timed words and seven
/// lines in ten have a translation, and for seven days otherwise, as long as no
/// candidate had translated lines to begin with; what has none is looked up
/// again after six hours, or after five minutes where nobody answered.
pub proof fn law_kept_as_long_as_it_is_complete(
    all: Seq<FetchedView>,
    player: PlayerKind,
    responded: bool,
)
    requires
        forall|i: int, l: int|
            #![trigger all[i].lines[l]]
            0 <= i < all.len() && 0 <= l < all[i].lines.len() ==> all[i].lines[l].translation is None,
    ensures
        ({
            let res = outcome(all, player, responded);
            let worded = exists|l: int|
                0 <= l < res.lyrics.lines.len() && (#[trigger] res.lyrics.lines[l]).words.len() > 0;
            res.ttl == if res.lyrics.status == LyricStatus::Found {
                if worded && said(res.lyrics.lines) * 10 >= res.lyrics.lines.len() * 7 {
                    2_592_000u64
                } else {
                    604_800
                }
            } else if res.lyrics.status == LyricStatus::Uncertain || responded {
                21_600
            } else {
                300
            }
        }),
{
    if exists|i: int| is_choice(all, player, i) {
        let i = choose|i: int| is_choice(all, player, i);
        assert(is_choice(all, player, i));
        let lines = all[i].lines;
        lemma_worded(final_lines(all, i));
        assert forall|l: int| 0 <= l < lines.len() implies (
        #[trigger] lines[l]).translation is None by {
            assert(all[i].lines[l].translation is None);
        }
        match translator(all, i) {
            Some(j) => {
                assert(is_translator(all, i, j));
                let (offset, matched) = best_shift(lines, all[j].translations)->0;
                lemma_best_shift_counts(lines, all[j].translations);
                law_count_is_of_translated_lines(lines, all[j].translations, offset);
            },
            None => {
                lemma_unsaid(lines);
            },
        }
    }
}

proof fn lemma_unsaid(lines: Seq<LineView>)
    requires
        forall|l: int| 0 <= l < lines.len() ==> (#[trigger] lines[l]).translation is None,
    ensures
        said(lines) == 0,
    decreases lines.len(),
{
    if lines.len() > 0 {
        let front = lines.drop_last();
        assert forall|l: int| 0 <= l < front.len() implies (
        #[trigger] front[l]).translation is None by {
            assert(lines[l].translation is None);
        }
        lemma_unsaid(front);
        assert(lines[lines.len() - 1].translation is None);
    }
}

/// How many lines have timed words, in thousandths of all.
pub open spec fn word_share(lines: Seq<LineView>) -> int {
    (lines.filter(|l: LineView| l.words.len() > 0).len() as int) * 1000 / (lines.len() as int)
}

/// Whether the player's own service is the provider.
pub open spec fn own_service(player: PlayerKind, provider: Provider) -> bool {
    ||| player == PlayerKind::QqMusic && (provider == Provider::QqQrc || provider
        == Provider::QqLrc)
    ||| player == PlayerKind::NetEase && (provider == Provider::NeteaseYrc || provider
        == Provider::NeteaseLrc)
}

/// Nothing that can be shown goes before the choice: none has a better match;
/// none with that match has a larger share of lines with timed words; none with
/// that as well has a larger share translated; none with all that is of the
/// player's own service where the choice is not; and none with all that too has
/// more lines. Of those that tie in everything the first is the choice.
pub proof fn law_choice_goes_before_all_others(
    all: Seq<FetchedView>,
    player: PlayerKind,
    i: int,
    k: int,
)
    requires
        is_choice(all, player, i),
        0 <= k < all.len(),
        usable(all[k]),
    ensures
        ({
            let ours = all[i];
            let other = all[k];
            let share = translated(all, i) * 1000 / (ours.lines.len() as int);
            let other_share = translated(all, k) * 1000 / (other.lines.len() as int);
            &&& ours.score.total >= other.score.total
            &&& ours.score.total == other.score.total ==> {
                &&& word_share(ours.lines) >= word_share(other.lines)
                &&& word_share(ours.lines) == word_share(other.lines) ==> {
                    &&& share >= other_share
                    &&& share == other_share ==> {
                        &&& own_service(player, other.provider) ==> own_service(
                            player,
                            ours.provider,
                        )
                        &&& own_service(player, other.provider) == own_service(
                            player,
                            ours.provider,
                        ) ==> {
                            &&& ours.lines.len() >= other.lines.len()
                            &&& ours.lines.len() == other.lines.len() ==> i <= k
                        }
                    }
                }
            }
        }),
{
    lemma_worded(all[i].lines);
    lemma_worded(all[k].lines);
    assert(usable(all[i]) && usable(all[k]));
}

/// What counts as translated is the most that the translation of any candidate
/// that can be shown and describes the same recording would cover, and nothing
/// where none can be laid over the lines.
pub proof fn law_translated_is_the_most(all: Seq<FetchedView>, i: int, j: int)
    requires
        0 <= j < all.len(),
        usable(all[j]),
        one_recording(all[i].meta, all[j].meta),
    ensures
        best_shift(all[i].lines, all[j].translations) matches Some((_, matched)) ==> translated(
            all,
            i,
        ) >= matched,
        translated(all, i) == 0 || exists|k: int|
            {
                &&& 0 <= k < all.len()
                &&& usable(#[trigger] all[k])
                &&& one_recording(all[i].meta, all[k].meta)
                &&& best_shift(all[i].lines, all[k].translations) matches Some((_, matched))
                    && translated(all, i) == matched
            },
{
    if best_shift(all[i].lines, all[j].translations) is Some {
        law_accepted_alignment_is_close(all[i].lines, all[j].translations);
        assert(fits(all, i, j));
        lemma_translator_covers_most(all, i, j);
    }
    match translator(all, i) {
        Some(k) => {
            assert(is_translator(all, i, k));
            assert(usable(all[k]));
        },
        None => {},
    }
}

/// Where nothing can be shown, the best of the uncertain candidates is named,
/// with its score and nothing of its lines.
pub proof fn law_best_guess_is_named(
    all: Seq<FetchedView>,
    player: PlayerKind,
    responded: bool,
    k: int,
)
    requires
        forall|i: int| 0 <= i < all.len() ==> !usable(#[trigger] all[i]),
        0 <= k < all.len(),
        all[k].score.confidence == Confidence::Uncertain,
    ensures
        ({
            let res = outcome(all, player, responded);
            &&& res.lyrics.status == LyricStatus::Uncertain
            &&& res.lyrics.lines.len() == 0
            &&& res.match_score is Some && res.match_score->0 >= all[k].score.total
            &&& exists|i: int|
                {
                    &&& 0 <= i < all.len()
                    &&& (#[trigger] all[i]).score.confidence == Confidence::Uncertain
                    &&& res.match_score == Some(all[i].score.total)
                    &&& res.lyrics.source is Some
                    &&& res.lyrics.source->0.original == all[i].provider
                    &&& res.lyrics.source->0.translation is None
                }
        }),
{
    law_status(all, player, responded);
    assert forall|i: int| !is_choice(all, player, i) by {
        if is_choice(all, player, i) {
            assert(usable(all[i]));
        }
    }
    assert(uncertain(all[k]));
    let best = lemma_guess_exists(all, all.len() as int);
    assert(is_best_guess(all, best));
    let i = choose|i: int| is_best_guess(all, i);
    assert(is_best_guess(all, i));
    assert(uncertain(all[i]));
}

/// All candidates of all batches are chosen from, in the order of the batches.
pub proof fn law_no_candidate_is_left_out(a: Seq<SourceBatch>, b: Seq<SourceBatch>, one: SourceBatch)
    ensures
        gathered(a + b) == gathered(a) + gathered(b),
        gathered(seq![one]).len() == one.candidates@.len(),
        forall|i: int|
            0 <= i < one.candidates@.len() ==> #[trigger] gathered(seq![one])[i]
                == one.candidates@[i]@,
    decreases b.len(),
{
    assert(seq![one].drop_last() =~= Seq::<SourceBatch>::empty());
    assert(gathered(Seq::<SourceBatch>::empty()) =~= Seq::<FetchedView>::empty());
    assert(gathered(seq![one]) =~= fetched_view(one.candidates@));
    if b.len() == 0 {
        assert(a + b =~= a);
        assert(gathered(a) + gathered(b) =~= gathered(a));
    } else {
        law_no_candidate_is_left_out(a, b.drop_last(), one);
        assert((a + b).drop_last() =~= a + b.drop_last());
        assert(gathered(a + b) =~= gathered(a) + gathered(b));
    }
}

} // verus!
