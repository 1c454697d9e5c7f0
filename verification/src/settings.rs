//! What the user has chosen, and what is kept of it.

use crate::lyrics::song::copy_texts;
use crate::lyrics::{copy_text, text_view};
use crate::text::{same_text, texts};
use vstd::prelude::*;
use vstd::utf8::encode_utf8;

verus! {

/// Most ids a tab order keeps; far above the tabs there are, and it stops a
/// confused caller from growing the file without end.
pub const MAX_TABS: usize = 32;

/// The longest id of a tab, in bytes.
pub const MAX_TAB_ID: usize = 32;

#[derive(Debug, PartialEq)]
pub struct Settings {
    /// Whether the notch window is shown at all.
    pub visible: bool,
    pub expand_on_hover: bool,
    /// On screens without a hardware notch, shrink to a thin bar when idle.
    pub idle_handle: bool,
    /// Pop the notch open when an agent session stops working.
    pub notify_claude_idle: bool,
    /// Look up lyrics for the current track (sends title and artist to QQ Music).
    pub lyrics_enabled: bool,
    /// Show matched lyric translations when the provider returns them.
    pub lyrics_translation_enabled: bool,
    /// Windows only: record the clipboard into the panel's history.
    pub clipboard_history: bool,
    /// The label of the monitor to attach to; `None` follows the primary
    /// monitor.
    pub display: Option<String>,
    /// "zh" or "en"; `None` follows the system language.
    pub language: Option<String>,
    /// The panel's tabs in the order the user dragged them into. Ids the
    /// webview does not know are ignored, and tabs missing here keep their
    /// default place after the ones that are listed.
    pub tab_order: Vec<String>,
}

/// Settings as an earlier version may have written them, with some missing.
#[derive(Debug)]
pub struct StoredSettings {
    pub visible: Option<bool>,
    pub expand_on_hover: Option<bool>,
    pub idle_handle: Option<bool>,
    pub notify_claude_idle: Option<bool>,
    pub lyrics_enabled: Option<bool>,
    pub lyrics_translation_enabled: Option<bool>,
    pub clipboard_history: Option<bool>,
    pub display: Option<String>,
    pub language: Option<String>,
    pub tab_order: Option<Vec<String>>,
}

/// The settings that stand.
#[derive(Debug)]
pub struct SettingsState {
    settings: Settings,
}

/// What settings hold.
#[verifier::ext_equal]
pub struct SettingsView {
    pub visible: bool,
    pub expand_on_hover: bool,
    pub idle_handle: bool,
    pub notify_claude_idle: bool,
    pub lyrics_enabled: bool,
    pub lyrics_translation_enabled: bool,
    pub clipboard_history: bool,
    pub display: Option<Seq<char>>,
    pub language: Option<Seq<char>>,
    pub tab_order: Seq<Seq<char>>,
}

impl View for Settings {
    type V = SettingsView;

    open spec fn view(&self) -> SettingsView {
        SettingsView {
            visible: self.visible,
            expand_on_hover: self.expand_on_hover,
            idle_handle: self.idle_handle,
            notify_claude_idle: self.notify_claude_idle,
            lyrics_enabled: self.lyrics_enabled,
            lyrics_translation_enabled: self.lyrics_translation_enabled,
            clipboard_history: self.clipboard_history,
            display: text_view(self.display),
            language: text_view(self.language),
            tab_order: texts(self.tab_order@),
        }
    }
}

impl View for SettingsState {
    type V = SettingsView;

    closed spec fn view(&self) -> SettingsView {
        self.settings@
    }
}

/// The settings of a user who has chosen nothing: everything is on, and the
/// notch follows the system.
pub open spec fn defaults() -> SettingsView {
    SettingsView {
        visible: true,
        expand_on_hover: true,
        idle_handle: true,
        notify_claude_idle: true,
        lyrics_enabled: true,
        lyrics_translation_enabled: true,
        clipboard_history: true,
        display: None,
        language: None,
        tab_order: Seq::empty(),
    }
}

/// `value`, or else what stands by default.
pub open spec fn chosen(value: Option<bool>, default: bool) -> bool {
    match value {
        Some(value) => value,
        None => default,
    }
}

/// What was stored, with defaults for what is missing.
pub open spec fn restored(stored: StoredSettings) -> SettingsView {
    SettingsView {
        visible: chosen(stored.visible, defaults().visible),
        expand_on_hover: chosen(stored.expand_on_hover, defaults().expand_on_hover),
        idle_handle: chosen(stored.idle_handle, defaults().idle_handle),
        notify_claude_idle: chosen(stored.notify_claude_idle, defaults().notify_claude_idle),
        lyrics_enabled: chosen(stored.lyrics_enabled, defaults().lyrics_enabled),
        lyrics_translation_enabled: chosen(
            stored.lyrics_translation_enabled,
            defaults().lyrics_translation_enabled,
        ),
        clipboard_history: chosen(stored.clipboard_history, defaults().clipboard_history),
        display: text_view(stored.display),
        language: text_view(stored.language),
        tab_order: match stored.tab_order {
            Some(order) => texts(order@),
            None => defaults().tab_order,
        },
    }
}

/// Whether a tab may have this id.
pub open spec fn is_tab_id(id: Seq<char>) -> bool {
    id.len() > 0 && encode_utf8(id).len() <= MAX_TAB_ID
}

/// The ids that tabs may have, each where it comes first.
pub open spec fn distinct_tabs(order: Seq<Seq<char>>) -> Seq<Seq<char>>
    decreases order.len(),
{
    if order.len() == 0 {
        Seq::empty()
    } else {
        let front = distinct_tabs(order.drop_last());
        if is_tab_id(order.last()) && !front.contains(order.last()) {
            front.push(order.last())
        } else {
            front
        }
    }
}

/// What is kept of an order of tabs.
pub open spec fn kept_tabs(order: Seq<Seq<char>>) -> Seq<Seq<char>> {
    let all = distinct_tabs(order);
    if all.len() > MAX_TABS {
        all.take(MAX_TABS as int)
    } else {
        all
    }
}

impl Default for Settings {
    fn default() -> (res: Self)
        ensures
            res@ == defaults(),
    {
        let res = Settings {
            visible: true,
            expand_on_hover: true,
            // A resting black pill is intrusive wherever it is drawn rather
            // than hiding in a cutout, which is every screen without a notch;
            // the layout ignores this on the screens that have one.
            idle_handle: true,
            notify_claude_idle: true,
            lyrics_enabled: true,
            lyrics_translation_enabled: true,
            clipboard_history: true,
            display: None,
            language: None,
            tab_order: Vec::new(),
        };
        assert(res@ =~= defaults());
        res
    }
}

impl Clone for Settings {
    fn clone(&self) -> (res: Self)
        ensures
            res@ == self@,
    {
        Settings {
            visible: self.visible,
            expand_on_hover: self.expand_on_hover,
            idle_handle: self.idle_handle,
            notify_claude_idle: self.notify_claude_idle,
            lyrics_enabled: self.lyrics_enabled,
            lyrics_translation_enabled: self.lyrics_translation_enabled,
            clipboard_history: self.clipboard_history,
            display: copy_text(&self.display),
            language: copy_text(&self.language),
            tab_order: copy_texts(&self.tab_order),
        }
    }
}

fn choose_bool(value: Option<bool>, default: bool) -> (res: bool)
    ensures
        res == chosen(value, default),
{
    match value {
        Some(value) => value,
        None => default,
    }
}

impl StoredSettings {
    /// What was stored, with defaults for what is missing.
    pub fn restore(self) -> (res: Settings)
        ensures
            res@ == restored(self),
    {
        let base = Settings::default();
        Settings {
            visible: choose_bool(self.visible, base.visible),
            expand_on_hover: choose_bool(self.expand_on_hover, base.expand_on_hover),
            idle_handle: choose_bool(self.idle_handle, base.idle_handle),
            notify_claude_idle: choose_bool(self.notify_claude_idle, base.notify_claude_idle),
            lyrics_enabled: choose_bool(self.lyrics_enabled, base.lyrics_enabled),
            lyrics_translation_enabled: choose_bool(
                self.lyrics_translation_enabled,
                base.lyrics_translation_enabled,
            ),
            clipboard_history: choose_bool(self.clipboard_history, base.clipboard_history),
            display: self.display,
            language: self.language,
            tab_order: match self.tab_order {
                Some(order) => order,
                None => base.tab_order,
            },
        }
    }
}

fn has_id(order: &Vec<String>, id: &str) -> (res: bool)
    ensures
        res == texts(order@).contains(id@),
{
    for i in 0..order.len()
        invariant
            forall|j: int| 0 <= j < i ==> #[trigger] texts(order@)[j] != id@,
    {
        if same_text(order[i].as_str(), id) {
            assert(texts(order@)[i as int] == id@);
            return true;
        }
    }
    false
}

fn same_order(a: &Vec<String>, b: &Vec<String>) -> (res: bool)
    ensures
        res == (texts(a@) == texts(b@)),
{
    assert(texts(a@).len() == a@.len() && texts(b@).len() == b@.len());
    if a.len() != b.len() {
        return false;
    }
    for i in 0..a.len()
        invariant
            a@.len() == b@.len(),
            forall|j: int| 0 <= j < i ==> #[trigger] texts(a@)[j] == texts(b@)[j],
    {
        if !same_text(a[i].as_str(), b[i].as_str()) {
            assert(texts(a@)[i as int] != texts(b@)[i as int]);
            return false;
        }
    }
    assert(texts(a@) =~= texts(b@));
    true
}

/// What is kept of an order of tabs: the ids that tabs may have, each once,
/// and no more than there can be.
pub fn clean_tab_order(order: &Vec<String>) -> (res: Vec<String>)
    ensures
        texts(res@) == kept_tabs(texts(order@)),
{
    let ghost all = texts(order@);
    let mut res: Vec<String> = Vec::new();
    assert(texts(res@) =~= distinct_tabs(all.take(0)));
    for i in 0..order.len()
        invariant
            all == texts(order@),
            texts(res@) == distinct_tabs(all.take(i as int)),
    {
        let ghost before = res@;
        assert(all.take(i + 1).drop_last() =~= all.take(i as int));
        assert(all.take(i + 1).last() == order@[i as int]@);
        let id = order[i].as_str();
        if !id.is_empty() && id.as_bytes().len() <= MAX_TAB_ID && !has_id(&res, id) {
            res.push(order[i].clone());
            assert(texts(res@) =~= texts(before).push(order@[i as int]@));
        }
    }
    assert(all.take(all.len() as int) =~= all);
    if res.len() > MAX_TABS {
        let ghost before = res@;
        res.truncate(MAX_TABS);
        assert(texts(res@) =~= texts(before).take(MAX_TABS as int));
    }
    assert(texts(res@).len() == res@.len());
    res
}

impl SettingsState {
    /// The settings that were read; a file that could not be read gives none,
    /// and the defaults stand.
    pub fn new(stored: Option<StoredSettings>) -> (res: Self)
        ensures
            res@ == (match stored {
                Some(stored) => restored(stored),
                None => defaults(),
            }),
    {
        match stored {
            Some(stored) => SettingsState { settings: stored.restore() },
            None => SettingsState { settings: Settings::default() },
        }
    }

    pub fn get(&self) -> (res: Settings)
        ensures
            res@ == self@,
    {
        self.settings.clone()
    }

    /// Puts `next` in place of the settings that stand. Returns the previous
    /// and the new settings.
    pub fn update(&mut self, next: Settings) -> (res: (Settings, Settings))
        ensures
            final(self)@ == next@,
            res.0@ == old(self)@,
            res.1@ == next@,
    {
        let previous = self.settings.clone();
        self.settings = next;
        (previous, self.settings.clone())
    }

    /// Remembers the order the tabs were dragged into. Returns the previous and
    /// the new settings when that is a change.
    pub fn set_tab_order(&mut self, order: &Vec<String>) -> (res: Option<(Settings, Settings)>)
        ensures
            final(self)@ == (SettingsView {
                tab_order: kept_tabs(texts(order@)),
                ..old(self)@
            }),
            match res {
                Some((previous, next)) => {
                    &&& old(self)@.tab_order != kept_tabs(texts(order@))
                    &&& previous@ == old(self)@
                    &&& next@ == final(self)@
                },
                None => old(self)@.tab_order == kept_tabs(texts(order@)),
            },
    {
        let kept = clean_tab_order(order);
        if same_order(&self.settings.tab_order, &kept) {
            return None;
        }
        let mut next = self.settings.clone();
        next.tab_order = kept;
        Some(self.update(next))
    }
}

proof fn lemma_distinct_tabs(order: Seq<Seq<char>>)
    ensures
        distinct_tabs(order).no_duplicates(),
        forall|i: int|
            0 <= i < distinct_tabs(order).len() ==> {
                let id = #[trigger] distinct_tabs(order)[i];
                is_tab_id(id) && order.contains(id)
            },
        forall|id: Seq<char>|
            order.contains(id) && is_tab_id(id) ==> #[trigger] distinct_tabs(order).contains(id),
        forall|i: int, j: int, p: int|
            #![trigger distinct_tabs(order)[i], distinct_tabs(order)[j], order[p]]
            0 <= i < j < distinct_tabs(order).len() && 0 <= p < order.len() && order[p]
                == distinct_tabs(order)[j] ==> order.take(p).contains(distinct_tabs(order)[i]),
    decreases order.len(),
{
    if order.len() > 0 {
        let front = order.drop_last();
        let last = order.last();
        let before = distinct_tabs(front);
        let all = distinct_tabs(order);
        lemma_distinct_tabs(front);
        assert(order[order.len() - 1] == last);
        assert forall|i: int| 0 <= i < all.len() implies {
            let id = #[trigger] all[i];
            is_tab_id(id) && order.contains(id)
        } by {
            if i < before.len() {
                assert(all[i] == before[i]);
                let k = choose|k: int| 0 <= k < front.len() && front[k] == before[i];
                assert(order[k] == before[i]);
            }
        }
        assert forall|id: Seq<char>| order.contains(id) && is_tab_id(id) implies #[trigger] all.contains(
            id,
        ) by {
            let k = choose|k: int| 0 <= k < order.len() && order[k] == id;
            if k < front.len() {
                assert(front[k] == id);
                assert(before.contains(id));
                let m = choose|m: int| 0 <= m < before.len() && before[m] == id;
                assert(all[m] == id);
            } else if before.contains(id) {
                let m = choose|m: int| 0 <= m < before.len() && before[m] == id;
                assert(all[m] == id);
            } else {
                assert(all[before.len() as int] == id);
            }
        }
        assert forall|i: int, j: int, p: int|
            #![trigger all[i], all[j], order[p]]
            0 <= i < j < all.len() && 0 <= p < order.len() && order[p]
                == all[j] implies order.take(p).contains(all[i]) by {
            assert(all[i] == before[i]);
            if j < before.len() {
                assert(all[j] == before[j]);
                if p < front.len() {
                    assert(front[p] == before[j]);
                    assert(front.take(p) =~= order.take(p));
                } else {
                    let k = choose|k: int| 0 <= k < front.len() && front[k] == before[i];
                    assert(order.take(p)[k] == before[i]);
                }
            } else {
                if p < front.len() {
                    assert(front[p] == last);
                    assert(front.contains(last));
                    assert(before.contains(last));
                } else {
                    let k = choose|k: int| 0 <= k < front.len() && front[k] == before[i];
                    assert(order.take(p)[k] == before[i]);
                }
            }
        }
    }
}

/// A kept order holds at most as many ids as there may be, each once, and none
/// but ids of the order it came from that tabs may have.
pub proof fn law_kept_tabs_are_valid(order: Seq<Seq<char>>)
    ensures
        kept_tabs(order).len() <= MAX_TABS,
        kept_tabs(order).no_duplicates(),
        forall|i: int|
            0 <= i < kept_tabs(order).len() ==> {
                let id = #[trigger] kept_tabs(order)[i];
                is_tab_id(id) && order.contains(id)
            },
{
    lemma_distinct_tabs(order);
    assert forall|i: int| 0 <= i < kept_tabs(order).len() implies {
        let id = #[trigger] kept_tabs(order)[i];
        is_tab_id(id) && order.contains(id)
    } by {
        assert(kept_tabs(order)[i] == distinct_tabs(order)[i]);
    }
}

/// No id that a tab may have is lost while there is room.
pub proof fn law_tabs_are_kept_while_there_is_room(order: Seq<Seq<char>>, id: Seq<char>)
    requires
        order.contains(id),
        is_tab_id(id),
        kept_tabs(order).len() < MAX_TABS,
    ensures
        kept_tabs(order).contains(id),
{
    lemma_distinct_tabs(order);
    assert(distinct_tabs(order).contains(id));
}

/// Kept ids come in the order in which they first came: ahead of every place
/// of one, those that come before it have been seen.
pub proof fn law_kept_tabs_keep_their_order(order: Seq<Seq<char>>, i: int, j: int, p: int)
    requires
        0 <= i < j < kept_tabs(order).len(),
        0 <= p < order.len(),
        order[p] == kept_tabs(order)[j],
    ensures
        order.take(p).contains(kept_tabs(order)[i]),
{
    lemma_distinct_tabs(order);
    assert(kept_tabs(order)[i] == distinct_tabs(order)[i]);
    assert(kept_tabs(order)[j] == distinct_tabs(order)[j]);
}

proof fn lemma_distinct_tabs_fixed(order: Seq<Seq<char>>)
    requires
        order.no_duplicates(),
        forall|i: int| 0 <= i < order.len() ==> is_tab_id(#[trigger] order[i]),
    ensures
        distinct_tabs(order) == order,
    decreases order.len(),
{
    if order.len() > 0 {
        let front = order.drop_last();
        assert forall|i: int| 0 <= i < front.len() implies is_tab_id(#[trigger] front[i]) by {
            assert(front[i] == order[i]);
        }
        lemma_distinct_tabs_fixed(front);
        assert(order[order.len() - 1] == order.last());
        assert(!front.contains(order.last())) by {
            if front.contains(order.last()) {
                let k = choose|k: int| 0 <= k < front.len() && front[k] == order.last();
                assert(order[k] == order[order.len() - 1]);
            }
        }
        assert(distinct_tabs(order) =~= order);
    } else {
        assert(distinct_tabs(order) =~= order);
    }
}

/// An order that was kept is kept as it is.
pub proof fn law_kept_tabs_are_kept(order: Seq<Seq<char>>)
    ensures
        kept_tabs(kept_tabs(order)) == kept_tabs(order),
{
    law_kept_tabs_are_valid(order);
    lemma_distinct_tabs_fixed(kept_tabs(order));
}

/// A setting that an earlier version did not write takes its default, and one
/// that it wrote stays.
pub proof fn law_missing_settings_take_defaults(stored: StoredSettings)
    ensures
        restored(stored).visible == chosen(stored.visible, true),
        restored(stored).expand_on_hover == chosen(stored.expand_on_hover, true),
        restored(stored).idle_handle == chosen(stored.idle_handle, true),
        restored(stored).notify_claude_idle == chosen(stored.notify_claude_idle, true),
        restored(stored).lyrics_enabled == chosen(stored.lyrics_enabled, true),
        restored(stored).lyrics_translation_enabled == chosen(
            stored.lyrics_translation_enabled,
            true,
        ),
        restored(stored).clipboard_history == chosen(stored.clipboard_history, true),
        stored.display is None ==> restored(stored).display is None,
        stored.language is None ==> restored(stored).language is None,
        stored.tab_order is None ==> restored(stored).tab_order.len() == 0,
        stored.tab_order matches Some(order) ==> restored(stored).tab_order == texts(order@),
{
}

/// Each setting that was written stays, and goes to no other; one that is missing
/// is on, follows the system, or has no order.
pub proof fn law_written_settings_stay(stored: StoredSettings)
    ensures
        restored(stored).visible == (stored.visible is None || stored.visible->0),
        restored(stored).expand_on_hover == (stored.expand_on_hover is None
            || stored.expand_on_hover->0),
        restored(stored).idle_handle == (stored.idle_handle is None || stored.idle_handle->0),
        restored(stored).notify_claude_idle == (stored.notify_claude_idle is None
            || stored.notify_claude_idle->0),
        restored(stored).lyrics_enabled == (stored.lyrics_enabled is None
            || stored.lyrics_enabled->0),
        restored(stored).lyrics_translation_enabled == (stored.lyrics_translation_enabled is None
            || stored.lyrics_translation_enabled->0),
        restored(stored).clipboard_history == (stored.clipboard_history is None
            || stored.clipboard_history->0),
        stored.display matches Some(display) ==> restored(stored).display == Some(display@),
        stored.display is None ==> restored(stored).display is None,
        stored.language matches Some(language) ==> restored(stored).language == Some(language@),
        stored.language is None ==> restored(stored).language is None,
        stored.tab_order matches Some(order) ==> restored(stored).tab_order.len() == order@.len()
            && forall|i: int|
            0 <= i < order@.len() ==> #[trigger] restored(stored).tab_order[i] == order@[i]@,
        stored.tab_order is None ==> restored(stored).tab_order.len() == 0,
{
}

/// An id is kept at most once and has from one to thirty-two bytes, and no more
/// than thirty-two are kept; while fewer are, every such id is among them.
pub proof fn law_tabs_are_kept_by_their_bytes(order: Seq<Seq<char>>, id: Seq<char>)
    ensures
        kept_tabs(order).len() <= 32,
        kept_tabs(order).contains(id) ==> {
            &&& order.contains(id)
            &&& 1 <= id.len()
            &&& encode_utf8(id).len() <= 32
        },
        order.contains(id) && id.len() > 0 && encode_utf8(id).len() <= 32 && kept_tabs(order).len()
            < 32 ==> kept_tabs(order).contains(id),
{
    law_kept_tabs_are_valid(order);
    if kept_tabs(order).contains(id) {
        let i = choose|i: int| 0 <= i < kept_tabs(order).len() && kept_tabs(order)[i] == id;
        assert(is_tab_id(kept_tabs(order)[i]));
    }
    if order.contains(id) && id.len() > 0 && encode_utf8(id).len() <= 32 && kept_tabs(order).len()
        < 32 {
        law_tabs_are_kept_while_there_is_room(order, id);
    }
}

/// The ids that are kept are the first: one that a tab may have is kept if it
/// stands anywhere before the first place of one that is.
pub proof fn law_first_tabs_are_kept(order: Seq<Seq<char>>, j: int, p: int, q: int)
    requires
        0 <= j < kept_tabs(order).len(),
        0 <= q < p < order.len(),
        order[p] == kept_tabs(order)[j],
        !order.take(p).contains(order[p]),
        order[q].len() > 0,
        encode_utf8(order[q]).len() <= 32,
    ensures
        kept_tabs(order).contains(order[q]),
{
    lemma_distinct_tabs(order);
    let all = distinct_tabs(order);
    let id = order[q];
    assert(order.contains(id));
    assert(all.contains(id));
    let a = choose|a: int| 0 <= a < all.len() && all[a] == id;
    let before = order.take(p);
    assert(before[q] == id);
    assert(before.contains(id));
    if a == j {
        assert(id == order[p]);
    } else if a > j {
        assert(all[j] == order[p]);
        assert(order[q] == all[a]);
        assert(order.take(q).contains(all[j]));
        let k = choose|k: int| 0 <= k < order.take(q).len() && order.take(q)[k] == all[j];
        assert(before[k] == all[j]);
    }
    assert(kept_tabs(order)[a] == id);
}

} // verus!
