//! Searching one catalogue: which pages are fetched, in which order, and what
//! becomes of their answers.

use crate::lyrics::search::{
    belongs, catalogue_of, hits_view, lyric_page, lyric_url, provides, queries, search_page,
    search_queries, search_url, sheet_view, Catalogue, HitView, LyricFile, Page, SearchHit, Sheet,
    SheetView,
};
use crate::lyrics::select::{fetched_view, FetchedLyrics, FetchedView, SourceBatch};
use crate::lyrics::song::{
    match_score, score_of, Confidence, MatchScore, MetaView, Request, RequestView, SongMeta,
};
use crate::lyrics::Provider;
use crate::text::texts;
use vstd::prelude::*;

verus! {

/// A hit that may be the song.
#[derive(Debug)]
pub struct Ranked {
    pub hit: SearchHit,
    pub score: MatchScore,
}

/// What a ranked hit holds.
#[verifier::ext_equal]
pub struct RankedView {
    pub hit: HitView,
    pub score: MatchScore,
}

impl View for Ranked {
    type V = RankedView;

    open spec fn view(&self) -> RankedView {
        RankedView { hit: self.hit@, score: self.score }
    }
}

pub open spec fn ranked_view(ranked: Seq<Ranked>) -> Seq<RankedView> {
    Seq::new(ranked.len(), |i: int| ranked[i]@)
}

/// The hits that are not rejected, with their scores.
pub open spec fn admitted(request: RequestView, hits: Seq<HitView>) -> Seq<RankedView>
    decreases hits.len(),
{
    if hits.len() == 0 {
        Seq::empty()
    } else {
        let score = score_of(request, hits.last().meta);
        if score.confidence == Confidence::Rejected {
            admitted(request, hits.drop_last())
        } else {
            admitted(request, hits.drop_last()).push(RankedView { hit: hits.last(), score })
        }
    }
}

/// `list`, best first, with `one` placed behind every one that is as good.
pub open spec fn placed(list: Seq<RankedView>, one: RankedView) -> Seq<RankedView>
    decreases list.len(),
{
    if list.len() == 0 || list.last().score.total >= one.score.total {
        list.push(one)
    } else {
        placed(list.drop_last(), one).push(list.last())
    }
}

/// The hits by their scores, best first; hits of one score keep their order.
pub open spec fn by_score(list: Seq<RankedView>) -> Seq<RankedView>
    decreases list.len(),
{
    if list.len() == 0 {
        list
    } else {
        placed(by_score(list.drop_last()), list.last())
    }
}

/// The three best hits, or all where there are fewer.
pub open spec fn best(request: RequestView, hits: Seq<HitView>) -> Seq<RankedView> {
    let list = by_score(admitted(request, hits));
    if list.len() > 3 {
        list.take(3)
    } else {
        list
    }
}

proof fn lemma_placed(list: Seq<RankedView>, one: RankedView, k: int)
    requires
        0 <= k <= list.len(),
        k > 0 ==> list[k - 1].score.total >= one.score.total,
        forall|j: int| k <= j < list.len() ==> #[trigger] list[j].score.total < one.score.total,
    ensures
        placed(list, one) == list.insert(k, one),
    decreases list.len(),
{
    if list.len() == k {
        assert(placed(list, one) =~= list.insert(k, one));
    } else {
        assert(list[list.len() - 1].score.total < one.score.total);
        lemma_placed(list.drop_last(), one, k);
        assert(placed(list, one) =~= list.insert(k, one));
    }
}

/// Puts `one` where it belongs among hits that come best first.
fn place(list: &mut Vec<Ranked>, one: Ranked)
    ensures
        ranked_view(final(list)@) == placed(ranked_view(old(list)@), one@),
{
    let mut k: usize = list.len();
    while k > 0 && list[k - 1].score.total < one.score.total
        invariant
            k <= list@.len(),
            list@ == old(list)@,
            forall|j: int| k <= j < list@.len() ==> #[trigger] list@[j].score.total
                < one.score.total,
        decreases k,
    {
        k = k - 1;
    }
    let ghost before = ranked_view(list@);
    proof {
        assert forall|j: int| k <= j < before.len() implies #[trigger] before[j].score.total
            < one.score.total by {
            assert(list@[j].score.total < one.score.total);
        }
        lemma_placed(before, one@, k as int);
    }
    let ghost view = one@;
    list.insert(k, one);
    assert(ranked_view(list@) =~= before.insert(k as int, view));
}

/// The three best hits, best first.
pub fn rank(request: &Request, hits: Vec<SearchHit>) -> (res: Vec<Ranked>)
    ensures
        ranked_view(res@) == best(request@, hits_view(hits@)),
{
    let ghost all = hits_view(hits@);
    let ghost whole = hits@;
    let mut list: Vec<Ranked> = Vec::new();
    assert(ranked_view(list@) =~= by_score(admitted(request@, all.take(0))));
    for hit in iter: hits
        invariant
            iter.seq() == whole,
            all == hits_view(whole),
            ranked_view(list@) == by_score(admitted(request@, all.take(iter.index() as int))),
    {
        let ghost n = iter.index() as int;
        let score = match_score(request, &hit.meta);
        proof {
            assert(hit == whole[n]);
            assert(all.take(n + 1).drop_last() =~= all.take(n));
            assert(all.take(n + 1).last() == hit@);
            let front = admitted(request@, all.take(n));
            assert(front.push(RankedView { hit: hit@, score }).drop_last() =~= front);
        }
        if score.confidence != Confidence::Rejected {
            place(&mut list, Ranked { hit, score });
        }
    }
    assert(all.take(all.len() as int) =~= all);
    if list.len() > 3 {
        let ghost before = list@;
        list.truncate(3);
        assert(ranked_view(list@) =~= ranked_view(before).take(3));
    }
    list
}

/// A song's lyrics to fetch.
#[derive(Debug)]
pub struct Task {
    pub file: LyricFile,
    pub meta: SongMeta,
    pub score: MatchScore,
    pub id: i64,
    pub mid: String,
    /// Whether this is the second try.
    pub again: bool,
}

/// What a task holds.
#[verifier::ext_equal]
pub struct TaskView {
    pub file: LyricFile,
    pub meta: MetaView,
    pub score: MatchScore,
    pub id: i64,
    pub mid: Seq<char>,
    pub again: bool,
}

impl View for Task {
    type V = TaskView;

    open spec fn view(&self) -> TaskView {
        TaskView {
            file: self.file,
            meta: self.meta@,
            score: self.score,
            id: self.id,
            mid: self.mid@,
            again: self.again,
        }
    }
}

pub open spec fn tasks_view(tasks: Seq<Task>) -> Seq<TaskView> {
    Seq::new(tasks.len(), |i: int| tasks[i]@)
}

pub open spec fn numbered(file: LyricFile, one: RankedView) -> Seq<TaskView> {
    match one.hit.id {
        Some(id) => seq![
            TaskView {
                file,
                meta: one.hit.meta,
                score: one.score,
                id,
                mid: Seq::empty(),
                again: false,
            },
        ],
        None => Seq::empty(),
    }
}

pub open spec fn named(file: LyricFile, one: RankedView) -> Seq<TaskView> {
    if one.hit.mid.len() == 0 {
        Seq::empty()
    } else {
        seq![
            TaskView {
                file,
                meta: one.hit.meta,
                score: one.score,
                id: 0,
                mid: one.hit.mid,
                again: false,
            },
        ]
    }
}

/// The files to fetch for one hit: those that the catalogue has a name for.
pub open spec fn tasks_for(catalogue: Catalogue, one: RankedView) -> Seq<TaskView> {
    match catalogue {
        Catalogue::Qq => numbered(LyricFile::Qrc, one) + named(LyricFile::QqLyric, one),
        Catalogue::NetEase => numbered(LyricFile::NetEaseLyric, one),
    }
}

/// The files to fetch for hits, one after the other.
pub open spec fn plan(catalogue: Catalogue, list: Seq<RankedView>) -> Seq<TaskView>
    decreases list.len(),
{
    if list.len() == 0 {
        Seq::empty()
    } else {
        plan(catalogue, list.drop_last()) + tasks_for(catalogue, list.last())
    }
}

/// The search of one catalogue for one request.
#[derive(Debug)]
pub struct Lookup {
    catalogue: Catalogue,
    request: Request,
    progress: Progress,
}

/// How far a search has come.
#[derive(Debug)]
struct Progress {
    queries: Vec<String>,
    tasks: Vec<Task>,
    batch: SourceBatch,
}

/// What a lookup holds.
#[verifier::ext_equal]
pub struct LookupView {
    pub catalogue: Catalogue,
    pub request: RequestView,
    /// The queries that are left.
    pub queries: Seq<Seq<char>>,
    /// The files of lyrics that are left, of the last search.
    pub tasks: Seq<TaskView>,
    /// What was found so far.
    pub candidates: Seq<FetchedView>,
    /// Whether the catalogue answered a search.
    pub responded: bool,
}

/// What a lookup waits for.
#[derive(Debug)]
pub enum Ask {
    /// The response to a search.
    Search(Page),
    /// A file of lyrics; a second try wants a pause before it.
    Lyric { file: LyricFile, page: Page, again: bool },
    /// Nothing more.
    Done,
}

impl View for Lookup {
    type V = LookupView;

    closed spec fn view(&self) -> LookupView {
        LookupView {
            catalogue: self.catalogue,
            request: self.request@,
            queries: texts(self.progress.queries@),
            tasks: tasks_view(self.progress.tasks@),
            candidates: fetched_view(self.progress.batch.candidates@),
            responded: self.progress.batch.responded,
        }
    }
}

/// A lookup before its first search.
pub open spec fn begun(catalogue: Catalogue, request: RequestView) -> LookupView {
    LookupView {
        catalogue,
        request,
        queries: queries(catalogue, request.title, request.artist),
        tasks: Seq::empty(),
        candidates: Seq::empty(),
        responded: false,
    }
}

/// Whether a lookup waits for a file of lyrics.
pub open spec fn awaits_lyric(lookup: LookupView) -> bool {
    lookup.tasks.len() > 0
}

/// Whether a lookup waits for the response to a search.
pub open spec fn awaits_search(lookup: LookupView) -> bool {
    lookup.tasks.len() == 0 && lookup.queries.len() > 0
}

/// The lookup after a search: `reply` is `None` where no response came, and
/// holds `None` where the response lists no songs.
pub open spec fn after_search(lookup: LookupView, reply: Option<Option<Seq<HitView>>>) -> LookupView {
    if !awaits_search(lookup) {
        lookup
    } else {
        LookupView {
            queries: lookup.queries.drop_first(),
            tasks: match reply {
                Some(Some(hits)) => plan(lookup.catalogue, best(lookup.request, hits)),
                _ => Seq::empty(),
            },
            responded: lookup.responded || reply is Some,
            ..lookup
        }
    }
}

/// What a sheet makes of a task.
pub open spec fn candidate(task: TaskView, sheet: SheetView) -> FetchedView {
    FetchedView {
        provider: sheet.provider,
        meta: task.meta,
        score: task.score,
        lines: sheet.lines,
        translations: sheet.translations,
    }
}

/// Whether there is a sheet of the file that was asked for, and something on
/// it.
pub open spec fn filled(file: LyricFile, sheet: Option<SheetView>) -> bool {
    sheet is Some && sheet->0.lines.len() > 0 && provides(file, sheet->0.provider)
}

/// Whether a file that did not come is tried once more: QQ Music's plain lyrics
/// are tried twice.
pub open spec fn tried_again(task: TaskView) -> bool {
    task.file == LyricFile::QqLyric && !task.again
}

/// The lookup after a file of lyrics was fetched: `sheet` is `None` where it
/// did not come, and one without lines, or of another file, counts as none. Once
/// a search has led to lyrics, no further search is made.
pub open spec fn after_lyric(lookup: LookupView, sheet: Option<SheetView>) -> LookupView {
    if !awaits_lyric(lookup) {
        lookup
    } else {
        let task = lookup.tasks[0];
        let candidates = if filled(task.file, sheet) {
            lookup.candidates.push(candidate(task, sheet->0))
        } else {
            lookup.candidates
        };
        let tasks = if !filled(task.file, sheet) && tried_again(task) {
            lookup.tasks.update(0, TaskView { again: true, ..task })
        } else {
            lookup.tasks.drop_first()
        };
        LookupView {
            candidates,
            tasks,
            queries: if tasks.len() == 0 && candidates.len() > 0 {
                Seq::empty()
            } else {
                lookup.queries
            },
            ..lookup
        }
    }
}

pub open spec fn reply_view(reply: Option<Option<Vec<SearchHit>>>) -> Option<
    Option<Seq<HitView>>,
> {
    match reply {
        Some(Some(hits)) => Some(Some(hits_view(hits@))),
        Some(None) => Some(None),
        None => None,
    }
}

fn make_plan(catalogue: Catalogue, list: Vec<Ranked>) -> (res: Vec<Task>)
    ensures
        tasks_view(res@) == plan(catalogue, ranked_view(list@)),
{
    let ghost whole = list@;
    let ghost all = ranked_view(list@);
    let mut res: Vec<Task> = Vec::new();
    assert(tasks_view(res@) =~= plan(catalogue, all.take(0)));
    for one in iter: list
        invariant
            iter.seq() == whole,
            all == ranked_view(whole),
            tasks_view(res@) == plan(catalogue, all.take(iter.index() as int)),
    {
        let ghost n = iter.index() as int;
        let ghost before = tasks_view(res@);
        assert(one == whole[n]);
        assert(all.take(n + 1).drop_last() =~= all.take(n));
        assert(all.take(n + 1).last() == one@);
        let file = match catalogue {
            Catalogue::Qq => LyricFile::Qrc,
            Catalogue::NetEase => LyricFile::NetEaseLyric,
        };
        match one.hit.id {
            Some(id) => {
                res.push(
                    Task {
                        file,
                        meta: one.hit.meta.clone(),
                        score: one.score,
                        id,
                        mid: String::new(),
                        again: false,
                    },
                );
            },
            None => {},
        }
        assert(tasks_view(res@) =~= before + numbered(file, one@));
        let ghost middle = tasks_view(res@);
        if catalogue == Catalogue::Qq && !one.hit.mid.as_str().is_empty() {
            res.push(
                Task {
                    file: LyricFile::QqLyric,
                    meta: one.hit.meta,
                    score: one.score,
                    id: 0,
                    mid: one.hit.mid,
                    again: false,
                },
            );
            assert(tasks_view(res@) =~= middle + named(LyricFile::QqLyric, whole[n]@));
        }
        assert(tasks_view(res@) =~= before + tasks_for(catalogue, whole[n]@));
    }
    assert(all.take(all.len() as int) =~= all);
    res
}

fn is_provided(file: LyricFile, provider: Provider) -> (res: bool)
    ensures
        res == provides(file, provider),
{
    match file {
        LyricFile::Qrc => provider == Provider::QqQrc,
        LyricFile::QqLyric => provider == Provider::QqLrc,
        LyricFile::NetEaseLyric => provider == Provider::NeteaseYrc || provider
            == Provider::NeteaseLrc,
    }
}

fn no_progress() -> (res: Progress)
    ensures
        texts(res.queries@).len() == 0,
        tasks_view(res.tasks@).len() == 0,
        fetched_view(res.batch.candidates@).len() == 0,
        !res.batch.responded,
{
    Progress {
        queries: Vec::new(),
        tasks: Vec::new(),
        batch: SourceBatch { candidates: Vec::new(), responded: false },
    }
}

impl Lookup {
    /// Begins the search of a catalogue.
    pub fn new(catalogue: Catalogue, request: &Request) -> (res: Self)
        ensures
            res@ == begun(catalogue, request@),
    {
        let mut progress = no_progress();
        progress.queries = search_queries(
            catalogue,
            request.title.as_str(),
            request.artist.as_str(),
        );
        let res = Lookup { catalogue, request: request.clone(), progress };
        assert(res@ =~= begun(catalogue, request@));
        res
    }

    /// What the lookup waits for.
    pub fn ask(&self) -> (res: Ask)
        ensures
            awaits_lyric(self@) ==> {
                let task = self@.tasks[0];
                &&& res matches Ask::Lyric { file, page, again }
                &&& file == task.file
                &&& page@ == lyric_url(task.file, task.id as int, task.mid)
                &&& again == task.again
            },
            awaits_search(self@) ==> {
                &&& res matches Ask::Search(page)
                &&& page@ == search_url(self@.catalogue, self@.queries[0])
            },
            !awaits_lyric(self@) && !awaits_search(self@) ==> res is Done,
    {
        if self.progress.tasks.len() > 0 {
            let task = &self.progress.tasks[0];
            Ask::Lyric {
                file: task.file,
                page: lyric_page(task.file, task.id, task.mid.as_str()),
                again: task.again,
            }
        } else if self.progress.queries.len() > 0 {
            Ask::Search(search_page(self.catalogue, self.progress.queries[0].as_str()))
        } else {
            Ask::Done
        }
    }

    #[verifier::type_invariant]
    spec fn stays_sound(self) -> bool {
        sound(self@)
    }

    /// Takes what came of a search: `None` where no response came, `Some(None)`
    /// where the response lists no songs.
    pub fn hear_search(&mut self, reply: Option<Option<Vec<SearchHit>>>)
        ensures
            final(self)@ == after_search(old(self)@, reply_view(reply)),
    {
        proof {
            use_type_invariant(&*self);
            law_search_keeps_lookup_sound(self@, reply_view(reply));
        }
        if self.progress.tasks.len() > 0 || self.progress.queries.len() == 0 {
            return;
        }
        let mut progress = no_progress();
        core::mem::swap(&mut self.progress, &mut progress);
        let ghost before = progress;
        let _ = progress.queries.remove(0);
        assert(texts(progress.queries@) =~= texts(before.queries@).drop_first());
        match reply {
            Some(songs) => {
                progress.batch.responded = true;
                match songs {
                    Some(hits) => {
                        progress.tasks = make_plan(self.catalogue, rank(&self.request, hits));
                    },
                    None => {},
                }
            },
            None => {},
        }
        self.progress = progress;
        assert(self@ =~= after_search(old(self)@, reply_view(reply)));
    }

    /// Takes what came of a file of lyrics: `None` where it did not come; a
    /// sheet without lines, or of another file, counts as none.
    pub fn hear_lyric(&mut self, sheet: Option<Sheet>)
        ensures
            final(self)@ == after_lyric(old(self)@, sheet_view(sheet)),
    {
        proof {
            use_type_invariant(&*self);
            law_lyric_keeps_lookup_sound(self@, sheet_view(sheet));
        }
        if self.progress.tasks.len() == 0 {
            return;
        }
        let mut progress = no_progress();
        core::mem::swap(&mut self.progress, &mut progress);
        let ghost tasks = tasks_view(progress.tasks@);
        let task = progress.tasks.remove(0);
        let ghost one = task@;
        assert(tasks_view(progress.tasks@) =~= tasks.drop_first());
        let counts = match &sheet {
            Some(sheet) => sheet.lines.len() > 0 && is_provided(task.file, sheet.provider),
            None => false,
        };
        assert(counts == filled(one.file, sheet_view(sheet)));
        match sheet {
            Some(sheet) if counts => {
                let ghost before = progress.batch.candidates@;
                progress.batch.candidates.push(
                    FetchedLyrics {
                        provider: sheet.provider,
                        meta: task.meta,
                        score: task.score,
                        lines: sheet.lines,
                        translations: sheet.translations,
                    },
                );
                assert(fetched_view(progress.batch.candidates@) =~= fetched_view(before).push(
                    candidate(one, sheet@),
                ));
            },
            _ => {
                if task.file == LyricFile::QqLyric && !task.again {
                    progress.tasks.insert(
                        0,
                        Task {
                            file: task.file,
                            meta: task.meta,
                            score: task.score,
                            id: task.id,
                            mid: task.mid,
                            again: true,
                        },
                    );
                    assert(tasks_view(progress.tasks@) =~= tasks.update(
                        0,
                        TaskView { again: true, ..one },
                    ));
                }
            },
        }
        if progress.tasks.len() == 0 && progress.batch.candidates.len() > 0 {
            progress.queries = Vec::new();
        }
        self.progress = progress;
        assert(self@ =~= after_lyric(old(self)@, sheet_view(sheet)));
    }

    /// What the catalogue returned: candidates with lines, of its own providers,
    /// best first, none of them rejected, and no more than it is asked for. A catalogue that did
    /// not respond returned none.
    pub fn finish(self) -> (res: SourceBatch)
        ensures
            fetched_view(res.candidates@) == self@.candidates,
            res.responded == self@.responded,
            is_fair(self@.catalogue, self@.request, fetched_view(res.candidates@), res.responded),
    {
        proof {
            use_type_invariant(&self);
        }
        self.progress.batch
    }
}

/// Whether no hit scores higher than the one ahead of it.
pub open spec fn best_first(list: Seq<RankedView>) -> bool {
    forall|i: int, j: int|
        0 <= i <= j < list.len() ==> list[i].score.total >= list[j].score.total
}

proof fn lemma_placed_first(list: Seq<RankedView>, one: RankedView)
    requires
        best_first(list),
    ensures
        best_first(placed(list, one)),
        placed(list, one).len() == list.len() + 1,
        placed(list, one).last() == one || (list.len() > 0 && placed(list, one).last()
            == list.last()),
        forall|i: int|
            #![trigger placed(list, one)[i]]
            0 <= i < placed(list, one).len() ==> {
                ||| placed(list, one)[i] == one
                ||| list.contains(placed(list, one)[i])
            },
        placed(list, one).contains(one),
        forall|r: RankedView| list.contains(r) ==> #[trigger] placed(list, one).contains(r),
    decreases list.len(),
{
    let all = placed(list, one);
    if list.len() == 0 || list.last().score.total >= one.score.total {
        assert(all[list.len() as int] == one);
        assert forall|i: int| 0 <= i < all.len() implies {
            ||| #[trigger] all[i] == one
            ||| list.contains(all[i])
        } by {
            if i < list.len() {
                assert(all[i] == list[i]);
            }
        }
        assert forall|r: RankedView| list.contains(r) implies #[trigger] all.contains(r) by {
            let i = choose|i: int| 0 <= i < list.len() && list[i] == r;
            assert(all[i] == r);
        }
    } else {
        let front = list.drop_last();
        let inner = placed(front, one);
        lemma_placed_first(front, one);
        assert(all == inner.push(list.last()));
        assert forall|r: RankedView| inner.contains(r) implies all.contains(r) by {
            let i = choose|i: int| 0 <= i < inner.len() && inner[i] == r;
            assert(all[i] == r);
        }
        assert(all[inner.len() as int] == list.last());
        assert forall|r: RankedView| list.contains(r) implies #[trigger] all.contains(r) by {
            let i = choose|i: int| 0 <= i < list.len() && list[i] == r;
            if i < front.len() {
                assert(front[i] == r);
                assert(inner.contains(r));
            }
        }
        assert forall|i: int| 0 <= i < all.len() implies {
            ||| #[trigger] all[i] == one
            ||| list.contains(all[i])
        } by {
            if i < inner.len() {
                assert(all[i] == inner[i]);
                if inner[i] != one {
                    let k = choose|k: int| 0 <= k < front.len() && front[k] == inner[i];
                    assert(list[k] == inner[i]);
                }
            } else {
                assert(list[list.len() - 1] == all[i]);
            }
        }
        assert forall|i: int| 0 <= i < inner.len() implies (#[trigger] inner[i]).score.total
            >= list.last().score.total by {
            if inner[i] != one {
                let k = choose|k: int| 0 <= k < front.len() && front[k] == inner[i];
                assert(list[k].score.total >= list[list.len() - 1].score.total);
            }
        }
        assert forall|i: int, j: int| 0 <= i <= j < all.len() implies all[i].score.total
            >= all[j].score.total by {
            if j < inner.len() {
                assert(all[i] == inner[i] && all[j] == inner[j]);
            } else if i < inner.len() {
                assert(all[i] == inner[i]);
            }
        }
    }
}

proof fn lemma_by_score(list: Seq<RankedView>)
    ensures
        best_first(by_score(list)),
        by_score(list).len() == list.len(),
        forall|r: RankedView| list.contains(r) ==> #[trigger] by_score(list).contains(r),
        forall|i: int|
            #![trigger by_score(list)[i]]
            0 <= i < by_score(list).len() ==> list.contains(by_score(list)[i]),
    decreases list.len(),
{
    if list.len() > 0 {
        let front = list.drop_last();
        let inner = by_score(front);
        let one = list.last();
        lemma_by_score(front);
        lemma_placed_first(inner, one);
        assert forall|r: RankedView| list.contains(r) implies #[trigger] by_score(list).contains(
            r,
        ) by {
            let i = choose|i: int| 0 <= i < list.len() && list[i] == r;
            if i < front.len() {
                assert(front[i] == r);
                assert(inner.contains(r));
            }
        }
        assert forall|i: int| 0 <= i < by_score(list).len() implies list.contains(
            #[trigger] by_score(list)[i],
        ) by {
            let r = by_score(list)[i];
            if r == one {
                assert(list[list.len() - 1] == r);
            } else {
                let k = choose|k: int| 0 <= k < inner.len() && inner[k] == r;
                assert(front.contains(inner[k]));
                let m = choose|m: int| 0 <= m < front.len() && front[m] == r;
                assert(list[m] == r);
            }
        }
    }
}

proof fn lemma_admitted(request: RequestView, hits: Seq<HitView>)
    ensures
        forall|i: int|
            0 <= i < admitted(request, hits).len() ==> {
                let one = #[trigger] admitted(request, hits)[i];
                &&& one.score == score_of(request, one.hit.meta)
                &&& one.score.confidence != Confidence::Rejected
                &&& hits.contains(one.hit)
            },
    decreases hits.len(),
{
    if hits.len() > 0 {
        let front = hits.drop_last();
        lemma_admitted(request, front);
        assert(hits[hits.len() - 1] == hits.last());
        assert forall|i: int| 0 <= i < admitted(request, hits).len() implies {
            let one = #[trigger] admitted(request, hits)[i];
            &&& one.score == score_of(request, one.hit.meta)
            &&& one.score.confidence != Confidence::Rejected
            &&& hits.contains(one.hit)
        } by {
            let one = admitted(request, hits)[i];
            if i < admitted(request, front).len() {
                assert(one == admitted(request, front)[i]);
                let k = choose|k: int| 0 <= k < front.len() && front[k] == one.hit;
                assert(hits[k] == one.hit);
            }
        }
    }
}

/// Of what a search found, at most three songs are pursued, best first; none of
/// them is rejected, and no song that is passed over scores higher than one
/// that is pursued.
pub proof fn law_best_hits_are_pursued(request: RequestView, hits: Seq<HitView>)
    ensures
        best(request, hits).len() <= 3,
        best_first(best(request, hits)),
        forall|i: int|
            0 <= i < best(request, hits).len() ==> {
                let one = #[trigger] best(request, hits)[i];
                &&& one.score == score_of(request, one.hit.meta)
                &&& one.score.confidence != Confidence::Rejected
                &&& hits.contains(one.hit)
            },
        forall|r: RankedView, i: int|
            #![trigger admitted(request, hits).contains(r), best(request, hits)[i]]
            admitted(request, hits).contains(r) && !best(request, hits).contains(r) && 0 <= i
                < best(request, hits).len() ==> best(request, hits)[i].score.total
                >= r.score.total,
{
    let list = admitted(request, hits);
    let sorted = by_score(list);
    lemma_admitted(request, hits);
    lemma_by_score(list);
    assert forall|i: int| 0 <= i < best(request, hits).len() implies {
        let one = #[trigger] best(request, hits)[i];
        &&& one.score == score_of(request, one.hit.meta)
        &&& one.score.confidence != Confidence::Rejected
        &&& hits.contains(one.hit)
    } by {
        let one = best(request, hits)[i];
        assert(one == sorted[i]);
        let k = choose|k: int| 0 <= k < list.len() && list[k] == one;
        assert(list[k] == one);
    }
    assert forall|r: RankedView, i: int|
        #![trigger list.contains(r), best(request, hits)[i]]
        list.contains(r) && !best(request, hits).contains(r) && 0 <= i < best(
            request,
            hits,
        ).len() implies best(request, hits)[i].score.total >= r.score.total by {
        assert(sorted.contains(r));
        let k = choose|k: int| 0 <= k < sorted.len() && sorted[k] == r;
        if k < best(request, hits).len() {
            assert(best(request, hits)[k] == r);
        }
        assert(sorted[i] == best(request, hits)[i]);
        assert(sorted[i].score.total >= sorted[k].score.total);
    }
}

/// The most candidates that a catalogue returns: two files of each of three
/// songs from QQ Music, one of each from NetEase.
pub open spec fn most(catalogue: Catalogue) -> int {
    match catalogue {
        Catalogue::Qq => 6,
        Catalogue::NetEase => 3,
    }
}

/// Whether a score is the one that a song has for a request, and does not
/// reject it.
pub open spec fn is_score(request: RequestView, meta: MetaView, score: MatchScore) -> bool {
    score == score_of(request, meta) && score.confidence != Confidence::Rejected
}

/// What a catalogue may return: no more candidates than it is asked for, each
/// with lines, of a provider of its own and with the score that its song has,
/// best first, and none without a response.
pub open spec fn is_fair(
    catalogue: Catalogue,
    request: RequestView,
    candidates: Seq<FetchedView>,
    responded: bool,
) -> bool {
    &&& candidates.len() <= most(catalogue)
    &&& forall|i: int|
        0 <= i < candidates.len() ==> {
            let one = #[trigger] candidates[i];
            &&& is_score(request, one.meta, one.score)
            &&& one.lines.len() > 0
            &&& belongs(catalogue, one.provider)
        }
    &&& forall|i: int, j: int|
        0 <= i <= j < candidates.len() ==> candidates[i].score.total >= candidates[j].score.total
    &&& candidates.len() > 0 ==> responded
}

/// What every lookup keeps: what it found is fair; what it fetches belongs to
/// songs that are not rejected, bears their scores, comes best first behind what
/// was found, and leaves room for it; and it does not search again once it has
/// found something.
pub open spec fn sound(lookup: LookupView) -> bool {
    &&& is_fair(lookup.catalogue, lookup.request, lookup.candidates, lookup.responded)
    &&& lookup.candidates.len() + lookup.tasks.len() <= most(lookup.catalogue)
    &&& forall|i: int|
        0 <= i < lookup.tasks.len() ==> {
            let task = #[trigger] lookup.tasks[i];
            &&& is_score(lookup.request, task.meta, task.score)
            &&& catalogue_of(task.file) == lookup.catalogue
        }
    &&& forall|i: int, j: int|
        0 <= i <= j < lookup.tasks.len() ==> lookup.tasks[i].score.total
            >= lookup.tasks[j].score.total
    &&& forall|i: int, j: int|
        0 <= i < lookup.candidates.len() && 0 <= j < lookup.tasks.len()
            ==> (#[trigger] lookup.candidates[i]).score.total >= (
        #[trigger] lookup.tasks[j]).score.total
    &&& lookup.tasks.len() > 0 ==> lookup.responded
    &&& awaits_search(lookup) ==> lookup.candidates.len() == 0
}

proof fn lemma_plan(catalogue: Catalogue, request: RequestView, list: Seq<RankedView>)
    requires
        forall|i: int|
            0 <= i < list.len() ==> {
                let one = #[trigger] list[i];
                &&& one.score == score_of(request, one.hit.meta)
                &&& one.score.confidence != Confidence::Rejected
            },
    ensures
        forall|i: int|
            0 <= i < plan(catalogue, list).len() ==> {
                let task = #[trigger] plan(catalogue, list)[i];
                &&& task.score == score_of(request, task.meta)
                &&& task.score.confidence != Confidence::Rejected
                &&& !task.again
                &&& catalogue_of(task.file) == catalogue
            },
        plan(catalogue, list).len() <= 2 * list.len(),
        catalogue == Catalogue::NetEase ==> plan(catalogue, list).len() <= list.len(),
        effort(plan(catalogue, list)) <= 3 * list.len(),
    decreases list.len(),
{
    if list.len() > 0 {
        let front = list.drop_last();
        let one = list[list.len() - 1];
        let ahead = plan(catalogue, front);
        let more = tasks_for(catalogue, one);
        lemma_plan(catalogue, request, front);
        assert forall|i: int| 0 <= i < plan(catalogue, list).len() implies {
            let task = #[trigger] plan(catalogue, list)[i];
            &&& task.score == score_of(request, task.meta)
            &&& task.score.confidence != Confidence::Rejected
            &&& !task.again
            &&& catalogue_of(task.file) == catalogue
        } by {
            if i < ahead.len() {
                assert(plan(catalogue, list)[i] == ahead[i]);
            } else {
                assert(plan(catalogue, list)[i] == more[i - ahead.len()]);
            }
        }
        lemma_effort_sum(ahead, more);
        reveal_with_fuel(effort, 3);
    }
}

/// Every task bears the score of a song of the list.
proof fn lemma_plan_scores(catalogue: Catalogue, list: Seq<RankedView>, i: int) -> (k: int)
    requires
        0 <= i < plan(catalogue, list).len(),
    ensures
        0 <= k < list.len(),
        list[k].score == plan(catalogue, list)[i].score,
    decreases list.len(),
{
    let front = list.drop_last();
    let ahead = plan(catalogue, front);
    if i < ahead.len() {
        assert(plan(catalogue, list)[i] == ahead[i]);
        lemma_plan_scores(catalogue, front, i)
    } else {
        assert(plan(catalogue, list)[i] == tasks_for(catalogue, list.last())[i - ahead.len()]);
        list.len() - 1
    }
}

proof fn lemma_plan_order(catalogue: Catalogue, list: Seq<RankedView>)
    requires
        best_first(list),
    ensures
        forall|i: int, j: int|
            0 <= i <= j < plan(catalogue, list).len() ==> plan(catalogue, list)[i].score.total
                >= plan(catalogue, list)[j].score.total,
    decreases list.len(),
{
    if list.len() > 0 {
        let front = list.drop_last();
        let ahead = plan(catalogue, front);
        let more = tasks_for(catalogue, list.last());
        let all = plan(catalogue, list);
        assert forall|i: int, j: int| 0 <= i <= j < front.len() implies front[i].score.total
            >= front[j].score.total by {
            assert(list[i].score.total >= list[j].score.total);
        }
        lemma_plan_order(catalogue, front);
        assert forall|i: int, j: int| 0 <= i <= j < all.len() implies all[i].score.total
            >= all[j].score.total by {
            if j < ahead.len() {
                assert(all[i] == ahead[i] && all[j] == ahead[j]);
            } else {
                assert(all[j] == more[j - ahead.len()]);
                assert(all[j].score == list[list.len() - 1].score);
                let k = lemma_plan_scores(catalogue, list, i);
                assert(list[k].score.total >= list[list.len() - 1].score.total);
            }
        }
    }
}

/// The most fetches that tasks may still take.
pub open spec fn effort(tasks: Seq<TaskView>) -> int
    decreases tasks.len(),
{
    if tasks.len() == 0 {
        0
    } else {
        effort(tasks.drop_first()) + if tasks[0].file == LyricFile::QqLyric && !tasks[0].again {
            2int
        } else {
            1int
        }
    }
}

proof fn lemma_effort_sum(a: Seq<TaskView>, b: Seq<TaskView>)
    ensures
        effort(a + b) == effort(a) + effort(b),
    decreases a.len(),
{
    if a.len() == 0 {
        assert(a + b =~= b);
    } else {
        assert((a + b).drop_first() =~= a.drop_first() + b);
        lemma_effort_sum(a.drop_first(), b);
    }
}

proof fn lemma_effort_is_natural(tasks: Seq<TaskView>)
    ensures
        effort(tasks) >= 0,
    decreases tasks.len(),
{
    if tasks.len() > 0 {
        lemma_effort_is_natural(tasks.drop_first());
    }
}

/// The most fetches that a lookup may still take.
pub open spec fn fetches_left(lookup: LookupView) -> int {
    10 * lookup.queries.len() + effort(lookup.tasks)
}

/// A lookup is sound from its beginning, and at most twenty fetches long.
pub proof fn law_lookup_begins_sound(catalogue: Catalogue, request: RequestView)
    ensures
        sound(begun(catalogue, request)),
        fetches_left(begun(catalogue, request)) <= 20,
{
}

/// Only the title and the artist are sent in a search: whatever else is known of
/// what plays, the queries are the same.
pub proof fn law_only_title_and_artist_are_sent(
    catalogue: Catalogue,
    one: RequestView,
    other: RequestView,
)
    requires
        one.title == other.title,
        one.artist == other.artist,
    ensures
        begun(catalogue, one).queries == begun(catalogue, other).queries,
{
}

/// A search keeps a lookup sound, and brings it nearer to its end.
pub proof fn law_search_keeps_lookup_sound(
    lookup: LookupView,
    reply: Option<Option<Seq<HitView>>>,
)
    requires
        sound(lookup),
    ensures
        sound(after_search(lookup, reply)),
        awaits_search(lookup) ==> fetches_left(after_search(lookup, reply)) < fetches_left(lookup),
{
    if awaits_search(lookup) {
        match reply {
            Some(Some(hits)) => {
                let list = best(lookup.request, hits);
                law_best_hits_are_pursued(lookup.request, hits);
                lemma_plan(lookup.catalogue, lookup.request, list);
                lemma_plan_order(lookup.catalogue, list);
            },
            _ => {},
        }
    }
}

/// A file of lyrics keeps a lookup sound, and brings it nearer to its end.
pub proof fn law_lyric_keeps_lookup_sound(lookup: LookupView, sheet: Option<SheetView>)
    requires
        sound(lookup),
    ensures
        sound(after_lyric(lookup, sheet)),
        awaits_lyric(lookup) ==> fetches_left(after_lyric(lookup, sheet)) < fetches_left(lookup),
{
    if awaits_lyric(lookup) {
        let next = after_lyric(lookup, sheet);
        let task = lookup.tasks[0];
        lemma_effort_is_natural(lookup.tasks.drop_first());
        if !filled(task.file, sheet) && tried_again(task) {
            let retry = lookup.tasks.update(0, TaskView { again: true, ..task });
            assert(retry.drop_first() =~= lookup.tasks.drop_first());
        } else {
            assert forall|i: int| 0 <= i < next.tasks.len() implies #[trigger] next.tasks[i]
                == lookup.tasks[i + 1] by {}
        }
        assert forall|i: int| 0 <= i < next.candidates.len() implies {
            ||| i < lookup.candidates.len() && #[trigger] next.candidates[i]
                == lookup.candidates[i]
            ||| i == lookup.candidates.len() && next.candidates[i] == candidate(task, sheet->0)
        } by {}
    }
}

/// A lookup that ends is fair, however it went: a sound one never holds more
/// candidates than the catalogue is asked for, nor any without lines, out of
/// order or without a response.
pub proof fn law_sound_lookup_is_fair(lookup: LookupView)
    requires
        sound(lookup),
    ensures
        is_fair(lookup.catalogue, lookup.request, lookup.candidates, lookup.responded),
        lookup.catalogue == Catalogue::Qq ==> lookup.candidates.len() <= 6,
        lookup.catalogue == Catalogue::NetEase ==> lookup.candidates.len() <= 3,
        !lookup.responded ==> lookup.candidates.len() == 0,
{
}

proof fn lemma_admits(request: RequestView, hits: Seq<HitView>, k: int)
    requires
        0 <= k < hits.len(),
        score_of(request, hits[k].meta).confidence != Confidence::Rejected,
    ensures
        admitted(request, hits).contains(
            RankedView { hit: hits[k], score: score_of(request, hits[k].meta) },
        ),
    decreases hits.len(),
{
    let one = RankedView { hit: hits[k], score: score_of(request, hits[k].meta) };
    let all = admitted(request, hits);
    if k == hits.len() - 1 {
        assert(all[all.len() - 1] == one);
    } else {
        lemma_admits(request, hits.drop_last(), k);
        let front = admitted(request, hits.drop_last());
        let i = choose|i: int| 0 <= i < front.len() && front[i] == one;
        assert(all[i] == one);
    }
}

/// No song that is not rejected is passed over but for three that score as much:
/// an uncertain one is pursued where there are not that many better.
pub proof fn law_no_fair_hit_is_passed_over(request: RequestView, hits: Seq<HitView>, k: int)
    requires
        0 <= k < hits.len(),
        score_of(request, hits[k].meta).confidence != Confidence::Rejected,
    ensures
        ({
            let one = RankedView { hit: hits[k], score: score_of(request, hits[k].meta) };
            ||| best(request, hits).contains(one)
            ||| best(request, hits).len() == 3 && forall|i: int|
                0 <= i < 3 ==> (#[trigger] best(request, hits)[i]).score.total >= one.score.total
        }),
{
    let one = RankedView { hit: hits[k], score: score_of(request, hits[k].meta) };
    let list = by_score(admitted(request, hits));
    lemma_admits(request, hits, k);
    lemma_by_score(admitted(request, hits));
    assert(list.contains(one));
    let at = choose|i: int| 0 <= i < list.len() && list[i] == one;
    if at < best(request, hits).len() {
        assert(best(request, hits)[at] == one);
    } else {
        assert forall|i: int| 0 <= i < 3 implies (#[trigger] best(request, hits)[i]).score.total
            >= one.score.total by {
            assert(best(request, hits)[i] == list[i]);
            assert(list[i].score.total >= list[at].score.total);
        }
    }
}

proof fn lemma_placed_total(list: Seq<RankedView>, one: RankedView, total: i32)
    requires
        best_first(list),
    ensures
        placed(list, one).filter(|r: RankedView| r.score.total == total) == list.push(one).filter(
            |r: RankedView| r.score.total == total,
        ),
    decreases list.len(),
{
    let same = |r: RankedView| r.score.total == total;
    if list.len() > 0 && list.last().score.total < one.score.total {
        let front = list.drop_last();
        lemma_placed_total(front, one, total);
        assert(placed(list, one) == placed(front, one).push(list.last()));
        placed(front, one).lemma_filter_push(list.last(), same);
        front.lemma_filter_push(one, same);
        assert(list =~= front.push(list.last()));
        front.lemma_filter_push(list.last(), same);
        list.lemma_filter_push(one, same);
        assert(list.push(one).filter(same) =~= placed(list, one).filter(same));
    }
}

/// Ranking keeps every hit, and hits of one score stay in the order in which the
/// catalogue gave them.
pub proof fn law_ranking_is_stable(list: Seq<RankedView>, total: i32)
    ensures
        by_score(list).filter(|r: RankedView| r.score.total == total) == list.filter(
            |r: RankedView| r.score.total == total,
        ),
        by_score(list).len() == list.len(),
        best_first(by_score(list)),
    decreases list.len(),
{
    let same = |r: RankedView| r.score.total == total;
    lemma_by_score(list);
    if list.len() > 0 {
        let front = list.drop_last();
        law_ranking_is_stable(front, total);
        lemma_placed_total(by_score(front), list.last(), total);
        by_score(front).lemma_filter_push(list.last(), same);
        assert(list =~= front.push(list.last()));
        front.lemma_filter_push(list.last(), same);
    }
}

/// Each hit is scored by itself: those of two lists are those of the one and then
/// those of the other, and one alone is kept, with its score, unless it is
/// rejected.
pub proof fn law_hits_are_scored_one_by_one(
    request: RequestView,
    a: Seq<HitView>,
    b: Seq<HitView>,
    one: HitView,
)
    ensures
        admitted(request, a + b) == admitted(request, a) + admitted(request, b),
        score_of(request, one.meta).confidence == Confidence::Rejected ==> admitted(
            request,
            seq![one],
        ).len() == 0,
        score_of(request, one.meta).confidence != Confidence::Rejected ==> admitted(
            request,
            seq![one],
        ) == seq![RankedView { hit: one, score: score_of(request, one.meta) }],
    decreases b.len(),
{
    assert(seq![one].drop_last() =~= Seq::<HitView>::empty());
    assert(admitted(request, Seq::<HitView>::empty()) =~= Seq::<RankedView>::empty());
    if score_of(request, one.meta).confidence != Confidence::Rejected {
        assert(admitted(request, seq![one]) =~= seq![
            RankedView { hit: one, score: score_of(request, one.meta) },
        ]);
    }
    if b.len() == 0 {
        assert(a + b =~= a);
        assert(admitted(request, a) + admitted(request, b) =~= admitted(request, a));
    } else {
        law_hits_are_scored_one_by_one(request, a, b.drop_last(), one);
        assert((a + b).drop_last() =~= a + b.drop_last());
        assert(admitted(request, a + b) =~= admitted(request, a) + admitted(request, b));
    }
}

/// The front of the ranked hits is pursued: three, or all where there are fewer.
pub proof fn law_front_is_pursued(request: RequestView, hits: Seq<HitView>)
    ensures
        ({
            let list = by_score(admitted(request, hits));
            &&& best(request, hits).len() == if list.len() < 3 {
                list.len() as int
            } else {
                3
            }
            &&& forall|i: int|
                0 <= i < best(request, hits).len() ==> #[trigger] best(request, hits)[i] == list[i]
        }),
{
}

/// Every song that is pursued has its files fetched, one song after the other.
pub proof fn law_songs_are_fetched_in_turn(
    catalogue: Catalogue,
    a: Seq<RankedView>,
    b: Seq<RankedView>,
)
    ensures
        plan(catalogue, a + b) == plan(catalogue, a) + plan(catalogue, b),
    decreases b.len(),
{
    if b.len() == 0 {
        assert(a + b =~= a);
        assert(plan(catalogue, a) + plan(catalogue, b) =~= plan(catalogue, a));
    } else {
        law_songs_are_fetched_in_turn(catalogue, a, b.drop_last());
        assert((a + b).drop_last() =~= a + b.drop_last());
        assert(plan(catalogue, a + b) =~= plan(catalogue, a) + plan(catalogue, b));
    }
}

/// Of a song in QQ Music the word-timed file is fetched by its number, where it
/// has one, and then the plain one by its other name, where it has one; of a song
/// in NetEase the one file by its number. Each bears the song and its score.
pub proof fn law_songs_are_fetched_by_what_names_them(one: RankedView)
    ensures
        ({
            let qq = plan(Catalogue::Qq, seq![one]);
            let netease = plan(Catalogue::NetEase, seq![one]);
            let numbered = one.hit.id is Some;
            let named = one.hit.mid.len() > 0;
            let last = qq.len() - 1;
            &&& qq.len() == (if numbered {
                1int
            } else {
                0
            }) + (if named {
                1int
            } else {
                0
            })
            &&& numbered ==> qq[0].file == LyricFile::Qrc && qq[0].id == one.hit.id->0 && qq[0].meta
                == one.hit.meta && qq[0].score == one.score && !qq[0].again
            &&& named ==> qq[last].file == LyricFile::QqLyric && qq[last].mid == one.hit.mid
                && qq[last].meta == one.hit.meta && qq[last].score == one.score && !qq[last].again
            &&& netease.len() == if numbered {
                1int
            } else {
                0
            }
            &&& numbered ==> netease[0].file == LyricFile::NetEaseLyric && netease[0].id
                == one.hit.id->0 && netease[0].meta == one.hit.meta && netease[0].score == one.score
                && !netease[0].again
        }),
{
    assert(seq![one].drop_last() =~= Seq::<RankedView>::empty());
    assert(plan(Catalogue::Qq, Seq::empty()) =~= Seq::<TaskView>::empty());
    assert(plan(Catalogue::NetEase, Seq::empty()) =~= Seq::<TaskView>::empty());
    assert(plan(Catalogue::Qq, seq![one]) =~= tasks_for(Catalogue::Qq, one));
    assert(plan(Catalogue::NetEase, seq![one]) =~= tasks_for(Catalogue::NetEase, one));
}

/// A search takes up one query and leaves what was found alone. One that was
/// answered counts as a response, songs or not; the files of the songs that are
/// pursued are fetched next. One that was not asked for changes nothing.
pub proof fn law_search_takes_up_one_query(lookup: LookupView, reply: Option<Option<Seq<HitView>>>)
    ensures
        ({
            let after = after_search(lookup, reply);
            &&& after.catalogue == lookup.catalogue && after.request == lookup.request
            &&& after.candidates == lookup.candidates
            &&& lookup.tasks.len() > 0 || lookup.queries.len() == 0 ==> after == lookup
            &&& lookup.tasks.len() == 0 && lookup.queries.len() > 0 ==> {
                &&& after.queries == lookup.queries.skip(1)
                &&& after.responded == (lookup.responded || reply is Some)
                &&& reply is None || reply->0 is None ==> after.tasks.len() == 0
                &&& reply is Some && reply->0 is Some ==> after.tasks == plan(
                    lookup.catalogue,
                    best(lookup.request, reply->0->0),
                )
            }
        }),
{
    if lookup.queries.len() > 0 {
        assert(lookup.queries.drop_first() =~= lookup.queries.skip(1));
    }
}

/// A sheet with lines, of the file that was asked for, becomes a candidate: with
/// its provider, its lines and its translations, and with the song and the score
/// that it was asked for by. What was found before stays ahead of it, and the
/// next file is fetched.
pub proof fn law_sheets_become_candidates(lookup: LookupView, sheet: SheetView)
    requires
        lookup.tasks.len() > 0,
        sheet.lines.len() > 0,
        match lookup.tasks[0].file {
            LyricFile::Qrc => sheet.provider == Provider::QqQrc,
            LyricFile::QqLyric => sheet.provider == Provider::QqLrc,
            LyricFile::NetEaseLyric => sheet.provider == Provider::NeteaseYrc || sheet.provider
                == Provider::NeteaseLrc,
        },
    ensures
        ({
            let after = after_lyric(lookup, Some(sheet));
            let found = after.candidates.last();
            &&& after.candidates.len() == lookup.candidates.len() + 1
            &&& after.candidates.drop_last() == lookup.candidates
            &&& found.provider == sheet.provider
            &&& found.lines == sheet.lines
            &&& found.translations == sheet.translations
            &&& found.meta == lookup.tasks[0].meta
            &&& found.score == lookup.tasks[0].score
            &&& after.tasks == lookup.tasks.skip(1)
            &&& after.responded == lookup.responded
        }),
{
    let after = after_lyric(lookup, Some(sheet));
    assert(after.candidates.drop_last() =~= lookup.candidates);
    assert(lookup.tasks.drop_first() =~= lookup.tasks.skip(1));
}

/// A file that did not come, or without lines, adds nothing. Only QQ Music's
/// plain lyrics are then tried again, and only once; after any other the next
/// file is fetched.
pub proof fn law_missing_sheets_add_nothing(lookup: LookupView, sheet: Option<SheetView>)
    requires
        lookup.tasks.len() > 0,
        sheet is Some ==> sheet->0.lines.len() == 0,
    ensures
        ({
            let after = after_lyric(lookup, sheet);
            let task = lookup.tasks[0];
            &&& after.candidates == lookup.candidates
            &&& task.file == LyricFile::QqLyric && !task.again ==> {
                &&& after.tasks.len() == lookup.tasks.len()
                &&& after.tasks[0].again
                &&& after.tasks[0].file == task.file && after.tasks[0].mid == task.mid
                &&& after.tasks[0].meta == task.meta && after.tasks[0].score == task.score
                &&& after.tasks.skip(1) == lookup.tasks.skip(1)
            }
            &&& task.file != LyricFile::QqLyric || task.again ==> after.tasks == lookup.tasks.skip(
                1,
            )
        }),
{
    let after = after_lyric(lookup, sheet);
    let task = lookup.tasks[0];
    if task.file == LyricFile::QqLyric && !task.again {
        assert(after.tasks.skip(1) =~= lookup.tasks.skip(1));
    } else {
        assert(lookup.tasks.drop_first() =~= lookup.tasks.skip(1));
    }
}

/// A search that led to lyrics is the last; one that led to none is followed by
/// the next; and while files are left to fetch, nothing is decided.
pub proof fn law_search_goes_on_until_lyrics_are_found(
    lookup: LookupView,
    sheet: Option<SheetView>,
)
    requires
        lookup.tasks.len() > 0,
    ensures
        ({
            let after = after_lyric(lookup, sheet);
            &&& after.tasks.len() > 0 ==> after.queries == lookup.queries
            &&& after.tasks.len() == 0 && after.candidates.len() == 0 ==> after.queries
                == lookup.queries
            &&& after.tasks.len() == 0 && after.candidates.len() > 0 ==> after.queries.len() == 0
        }),
{
}

/// A lookup begins with nothing found and nothing asked but its queries.
pub proof fn law_lookup_begins_with_its_queries(catalogue: Catalogue, request: RequestView)
    ensures
        ({
            let lookup = begun(catalogue, request);
            &&& lookup.catalogue == catalogue && lookup.request == request
            &&& lookup.queries == queries(catalogue, request.title, request.artist)
            &&& lookup.tasks.len() == 0 && lookup.candidates.len() == 0 && !lookup.responded
        }),
{
}

} // verus!
