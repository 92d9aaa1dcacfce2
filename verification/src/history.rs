//! Focus histories: one per workspace for tabs, one per tab for panes.

use vstd::prelude::*;
use crate::context::{missing_context_message, required_context_value};
use crate::event::FocusEvent;
use crate::mru::{
    holds_only, law_closed_ids_are_not_selected_again, law_pruned_history_holds_only_live_ids,
    differs_from, is_among, latest_other, law_observe_keeps_ids_unique, law_pruning_is_idempotent,
    observed, pruned, views, Id,
};

verus! {

/// The characters of an optional string.
pub open spec fn option_view(o: Option<String>) -> Option<Id> {
    match o {
        Some(s) => Some(s@),
        None => None,
    }
}

/// Whether `ids` holds a string equal to `id`.
pub fn contains_id(ids: &Vec<String>, id: &String) -> (found: bool)
    ensures
        found == views(ids@).contains(id@),
{
    let mut i: usize = 0;
    while i < ids.len()
        invariant
            i <= ids.len(),
            forall|j: int| 0 <= j < i ==> ids@[j]@ != id@,
        decreases ids.len() - i,
    {
        if ids[i] == *id {
            assert(views(ids@)[i as int] == id@);
            return true;
        }
        i += 1;
    }
    assert forall|j: int| 0 <= j < views(ids@).len() implies views(ids@)[j] != id@ by {
        assert(views(ids@)[j] == ids@[j]@);
    }
    false
}

/// One most-recently-used history, oldest entry first.
#[derive(Debug)]
pub struct History {
    entries: Vec<String>,
}

impl View for History {
    type V = Seq<Id>;

    closed spec fn view(&self) -> Seq<Id> {
        views(self.entries@)
    }
}

impl History {
    /// An empty history.
    pub fn new() -> (h: History)
        ensures
            h@ == Seq::<Id>::empty(),
    {
        let h = History { entries: Vec::new() };
        assert(h@ =~= Seq::<Id>::empty());
        h
    }

    /// A history holding `entries`, oldest first.
    pub fn from_entries(entries: Vec<String>) -> (h: History)
        ensures
            h@ == views(entries@),
    {
        History { entries }
    }

    /// A copy of the entries, oldest first.
    pub fn entries(&self) -> (entries: Vec<String>)
        ensures
            views(entries@) == self@,
    {
        let mut copy: Vec<String> = Vec::new();
        let mut i: usize = 0;
        while i < self.entries.len()
            invariant
                i <= self.entries.len(),
                copy.len() == i,
                forall|j: int| 0 <= j < i ==> #[trigger] copy@[j]@ == self.entries@[j]@,
            decreases self.entries.len() - i,
        {
            copy.push(self.entries[i].clone());
            i += 1;
        }
        assert(views(copy@) =~= self@);
        copy
    }

    /// Records a focus of `id`: earlier occurrences are dropped and `id`
    /// becomes the most recent entry.
    pub fn observe(&mut self, id: &str)
        ensures
            final(self)@ == observed(old(self)@, id@),
    {
        let id_owned = id.to_owned();
        let mut kept: Vec<String> = Vec::new();
        let mut i: usize = 0;
        while i < self.entries.len()
            invariant
                i <= self.entries.len(),
                id_owned@ == id@,
                views(kept@) == views(self.entries@.take(i as int)).filter(differs_from(id@)),
            decreases self.entries.len() - i,
        {
            let ghost before = self.entries@.take(i as int);
            assert(self.entries@.take(i + 1) =~= before.push(self.entries@[i as int]));
            assert(views(before.push(self.entries@[i as int])) =~= views(before).push(
                self.entries@[i as int]@,
            ));
            proof {
                views(before).lemma_filter_push(self.entries@[i as int]@, differs_from(id@));
            }
            if !(self.entries[i] == id_owned) {
                let e = self.entries[i].clone();
                let ghost old_kept = kept@;
                kept.push(e);
                assert(views(kept@) =~= views(old_kept).push(e@));
            }
            i += 1;
        }
        assert(self.entries@.take(self.entries.len() as int) =~= self.entries@);
        let ghost old_kept = kept@;
        kept.push(id_owned);
        assert(views(kept@) =~= views(old_kept).push(id@));
        self.entries = kept;
    }

    /// Drops every entry that is not among `live_ids`, then returns the most
    /// recent remaining entry that differs from `current`.
    pub fn previous(&mut self, current: &str, live_ids: &Vec<String>) -> (target: Option<String>)
        ensures
            final(self)@ == pruned(old(self)@, views(live_ids@)),
            option_view(target) == latest_other(final(self)@, current@),
    {
        let ghost live = views(live_ids@);
        let mut kept: Vec<String> = Vec::new();
        let mut i: usize = 0;
        while i < self.entries.len()
            invariant
                i <= self.entries.len(),
                live == views(live_ids@),
                views(kept@) == views(self.entries@.take(i as int)).filter(is_among(live)),
            decreases self.entries.len() - i,
        {
            let ghost before = self.entries@.take(i as int);
            assert(self.entries@.take(i + 1) =~= before.push(self.entries@[i as int]));
            assert(views(before.push(self.entries@[i as int])) =~= views(before).push(
                self.entries@[i as int]@,
            ));
            proof {
                views(before).lemma_filter_push(self.entries@[i as int]@, is_among(live));
            }
            if contains_id(live_ids, &self.entries[i]) {
                let e = self.entries[i].clone();
                let ghost old_kept = kept@;
                kept.push(e);
                assert(views(kept@) =~= views(old_kept).push(e@));
            }
            i += 1;
        }
        assert(self.entries@.take(self.entries.len() as int) =~= self.entries@);
        self.entries = kept;

        let current_owned = current.to_owned();
        let mut j: usize = self.entries.len();
        assert(self.entries@.take(j as int) =~= self.entries@);
        while j > 0
            invariant
                j <= self.entries.len(),
                self@ == pruned(old(self)@, views(live_ids@)),
                current_owned@ == current@,
                views(self.entries@).filter(differs_from(current@)) == views(
                    self.entries@.take(j as int),
                ).filter(differs_from(current@)),
            decreases j,
        {
            let ghost before = self.entries@.take(j - 1);
            let ghost x = self.entries@[j - 1];
            assert(self.entries@.take(j as int) =~= before.push(x));
            assert(views(before.push(x)) =~= views(before).push(x@));
            proof {
                views(before).lemma_filter_push(x@, differs_from(current@));
            }
            if !(self.entries[j - 1] == current_owned) {
                return Some(self.entries[j - 1].clone());
            }
            j -= 1;
        }
        assert(views(self.entries@.take(0)) =~= Seq::<Id>::empty());
        proof {
            reveal_with_fuel(Seq::filter, 1);
        }
        None
    }
}

/// The history stored under `key`, or the empty history where none is.
pub open spec fn history_of(histories: Map<Id, Seq<Id>>, key: Id) -> Seq<Id> {
    if histories.dom().contains(key) {
        histories[key]
    } else {
        Seq::empty()
    }
}

/// Every history of `histories` holds each id at most once.
pub open spec fn histories_unique(histories: Map<Id, Seq<Id>>) -> bool {
    forall|k: Id| #[trigger] histories.dom().contains(k) ==> histories[k].no_duplicates()
}

/// Law: focus observations and toggle requests keep every history of a
/// store free of duplicate ids (only a history set from outside can hold one).
pub proof fn law_updates_keep_histories_unique(
    histories: Map<Id, Seq<Id>>,
    key: Id,
    id: Id,
    live: Seq<Id>,
)
    requires
        histories_unique(histories),
    ensures
        histories_unique(histories.insert(key, observed(history_of(histories, key), id))),
        histories_unique(histories.insert(key, pruned(history_of(histories, key), live))),
{
    let h = history_of(histories, key);
    assert(h.no_duplicates());
    law_observe_keeps_ids_unique(h, id);
    law_pruning_is_idempotent(h, live);
}

/// Law: after a toggle request for `key` with the live ids `live`, the
/// history of `key` holds only ids of `live`; an update of another key
/// leaves it as it is; and a later toggle request for `key` keeps it within
/// `live` and selects only an id of `live` and of its own live ids that
/// differs from its current id.
pub proof fn law_toggled_history_stays_within_live_ids(
    histories: Map<Id, Seq<Id>>,
    key: Id,
    live: Seq<Id>,
    other_key: Id,
    other_history: Seq<Id>,
    later_live: Seq<Id>,
    current: Id,
)
    requires
        other_key != key,
    ensures
        ({
            let after = histories.insert(key, pruned(history_of(histories, key), live));
            let h = history_of(after, key);
            &&& holds_only(h, live)
            &&& history_of(after.insert(other_key, other_history), key) == h
            &&& holds_only(pruned(h, later_live), live)
            &&& latest_other(pruned(h, later_live), current) matches Some(x) ==> {
                &&& live.contains(x)
                &&& later_live.contains(x)
                &&& x != current
            }
        }),
{
    let after = histories.insert(key, pruned(history_of(histories, key), live));
    let h = history_of(after, key);
    assert(h == pruned(history_of(histories, key), live));
    law_pruned_history_holds_only_live_ids(history_of(histories, key), live);
    assert(after.insert(other_key, other_history)[key] == after[key]);
    law_closed_ids_are_not_selected_again(h, live, later_live, current);
}

/// `pairs` lists the histories of `histories`: each key once, with its
/// history.
pub open spec fn lists_map(pairs: Seq<(String, Vec<String>)>, histories: Map<Id, Seq<Id>>) -> bool {
    &&& forall|j: int| 0 <= j < pairs.len() ==> #[trigger] histories.dom().contains(pairs[j].0@)
        && histories[pairs[j].0@] == views(pairs[j].1@)
    &&& forall|k: Id| #[trigger] histories.dom().contains(k) ==> exists|j: int|
        0 <= j < pairs.len() && #[trigger] pairs[j].0@ == k
    &&& forall|a: int, b: int| 0 <= a < pairs.len() && 0 <= b < pairs.len() && a != b
        ==> #[trigger] pairs[a].0@ != #[trigger] pairs[b].0@
}

/// Histories keyed by a string (a workspace id or a tab id).
#[derive(Debug)]
struct HistoryMap {
    keys: Vec<String>,
    histories: Vec<History>,
}

impl HistoryMap {
    /// Every key has one history, and no key occurs twice.
    closed spec fn wf(&self) -> bool {
        &&& self.keys.len() == self.histories.len()
        &&& forall|i: int, j: int|
            0 <= i < self.keys.len() && 0 <= j < self.keys.len() && i != j
                ==> #[trigger] self.keys@[i]@ != #[trigger] self.keys@[j]@
    }

    /// Whether some stored key has the characters `key`.
    closed spec fn has_key(&self, key: Id) -> bool {
        exists|i: int| 0 <= i < self.keys.len() && #[trigger] self.keys@[i]@ == key
    }

    /// The index at which `key` is stored, where it is.
    closed spec fn index_of_key(&self, key: Id) -> int {
        choose|i: int| 0 <= i < self.keys.len() && #[trigger] self.keys@[i]@ == key
    }

    /// Each stored key with its history.
    closed spec fn view(&self) -> Map<Id, Seq<Id>> {
        Map::new(|k: Id| self.has_key(k), |k: Id| self.histories@[self.index_of_key(k)]@)
    }

    /// The key stored at `i` maps to the history stored at `i`.
    proof fn lemma_view_at(&self, i: int)
        requires
            self.wf(),
            0 <= i < self.keys.len(),
        ensures
            self.view().dom().contains(self.keys@[i]@),
            self.view()[self.keys@[i]@] == self.histories@[i]@,
    {
        assert(self.has_key(self.keys@[i]@));
        let j = self.index_of_key(self.keys@[i]@);
        assert(self.keys@[j]@ == self.keys@[i]@);
    }

    /// Replacing the history at one index replaces the history of its key.
    proof fn lemma_view_update(old_map: &HistoryMap, new_map: &HistoryMap, i: int)
        requires
            old_map.wf(),
            0 <= i < old_map.keys.len(),
            new_map.keys@ == old_map.keys@,
            new_map.histories@ == old_map.histories@.update(i, new_map.histories@[i]),
        ensures
            new_map.wf(),
            new_map.view() == old_map.view().insert(old_map.keys@[i]@, new_map.histories@[i]@),
    {
        let target = old_map.view().insert(old_map.keys@[i]@, new_map.histories@[i]@);
        assert forall|k: Id| #[trigger] new_map.view().dom().contains(k) <==> target.dom().contains(k) by {
            if new_map.has_key(k) {
                let j = new_map.index_of_key(k);
                assert(old_map.keys@[j]@ == k);
            }
            if old_map.has_key(k) {
                let j = old_map.index_of_key(k);
                assert(new_map.keys@[j]@ == k);
            }
        }
        assert forall|k: Id| #[trigger] new_map.view().dom().contains(k) implies new_map.view()[k]
            == target[k] by {
            let j = new_map.index_of_key(k);
            if j == i {
                old_map.lemma_view_at(i);
            } else {
                assert(old_map.has_key(k));
                let jo = old_map.index_of_key(k);
                assert(old_map.keys@[jo]@ == old_map.keys@[j]@);
            }
        }
        assert(new_map.view() =~= target);
    }

    /// A map without keys.
    fn new() -> (m: HistoryMap)
        ensures
            m.wf(),
            m.view() == Map::<Id, Seq<Id>>::empty(),
    {
        let m = HistoryMap { keys: Vec::new(), histories: Vec::new() };
        assert(m.view() =~= Map::<Id, Seq<Id>>::empty());
        m
    }

    /// The index of `key`, which is added with an empty history when absent.
    fn entry_index(&mut self, key: &str) -> (i: usize)
        requires
            old(self).wf(),
        ensures
            final(self).wf(),
            i < final(self).keys.len(),
            final(self).keys@[i as int]@ == key@,
            final(self).histories@[i as int]@ == history_of(old(self).view(), key@),
            final(self).view() == old(self).view().insert(key@, history_of(old(self).view(), key@)),
    {
        let key_owned = key.to_owned();
        let mut i: usize = 0;
        while i < self.keys.len()
            invariant
                i <= self.keys.len(),
                key_owned@ == key@,
                self.wf(),
                forall|j: int| 0 <= j < i ==> self.keys@[j]@ != key@,
            decreases self.keys.len() - i,
        {
            if self.keys[i] == key_owned {
                proof {
                    self.lemma_view_at(i as int);
                    assert(self.view().insert(key@, self.view()[key@]) =~= self.view());
                }
                return i;
            }
            i += 1;
        }
        let ghost old_map = *self;
        assert(!old_map.view().dom().contains(key@)) by {
            if old_map.has_key(key@) {
                let j = old_map.index_of_key(key@);
                assert(old_map.keys@[j]@ == key@);
            }
        }
        self.keys.push(key_owned);
        self.histories.push(History::new());
        let ghost target = old_map.view().insert(key@, Seq::<Id>::empty());
        assert forall|a: int, b: int|
            0 <= a < self.keys.len() && 0 <= b < self.keys.len() && a != b
                implies #[trigger] self.keys@[a]@ != #[trigger] self.keys@[b]@ by {
            if a < old_map.keys.len() && b < old_map.keys.len() {
                assert(old_map.keys@[a] == self.keys@[a] && old_map.keys@[b] == self.keys@[b]);
            }
        }
        assert forall|k: Id| #[trigger] self.view().dom().contains(k) <==> target.dom().contains(k) by {
            if self.has_key(k) {
                let j = self.index_of_key(k);
                if j < old_map.keys.len() {
                    assert(old_map.keys@[j] == self.keys@[j]);
                }
            }
            if old_map.has_key(k) {
                let j = old_map.index_of_key(k);
                assert(old_map.keys@[j] == self.keys@[j]);
            }
            if k == key@ {
                assert(self.keys@[i as int]@ == key@);
            }
        }
        assert forall|k: Id| #[trigger] self.view().dom().contains(k) implies self.view()[k]
            == target[k] by {
            let j = self.index_of_key(k);
            if j < old_map.keys.len() {
                assert(old_map.keys@[j] == self.keys@[j]);
                old_map.lemma_view_at(j);
            }
        }
        assert(self.view() =~= target);
        i
    }

    /// Replaces the history of `key`.
    fn set(&mut self, key: &str, history: History)
        requires
            old(self).wf(),
        ensures
            final(self).wf(),
            final(self).view() == old(self).view().insert(key@, history@),
    {
        let i = self.entry_index(key);
        let ghost mid = *self;
        self.histories.set(i, history);
        proof {
            HistoryMap::lemma_view_update(&mid, self, i as int);
            assert(mid.view().insert(key@, history_of(old(self).view(), key@)).insert(
                key@,
                self.histories@[i as int]@,
            ) =~= old(self).view().insert(key@, self.histories@[i as int]@));
        }
    }

    /// Every key with a copy of its history, each key once.
    fn snapshot(&self) -> (pairs: Vec<(String, Vec<String>)>)
        requires
            self.wf(),
        ensures
            lists_map(pairs@, self.view()),
    {
        let mut pairs: Vec<(String, Vec<String>)> = Vec::new();
        let mut i: usize = 0;
        while i < self.keys.len()
            invariant
                self.wf(),
                i <= self.keys.len(),
                pairs.len() == i,
                forall|j: int| 0 <= j < i ==> #[trigger] pairs@[j].0@ == self.keys@[j]@,
                forall|j: int| 0 <= j < i ==> views(#[trigger] pairs@[j].1@) == self.histories@[j]@,
            decreases self.keys.len() - i,
        {
            pairs.push((self.keys[i].clone(), self.histories[i].entries()));
            i += 1;
        }
        assert forall|j: int| 0 <= j < pairs.len() implies #[trigger] self.view().dom().contains(pairs@[j].0@)
            && self.view()[pairs@[j].0@] == views(pairs@[j].1@) by {
            self.lemma_view_at(j);
        }
        assert forall|k: Id| #[trigger] self.view().dom().contains(k) implies exists|j: int|
            0 <= j < pairs.len() && #[trigger] pairs@[j].0@ == k by {
            let j = self.index_of_key(k);
            assert(pairs@[j].0@ == k);
        }
        assert forall|a: int, b: int| 0 <= a < pairs.len() && 0 <= b < pairs.len() && a != b
            implies #[trigger] pairs@[a].0@ != #[trigger] pairs@[b].0@ by {
            assert(self.keys@[a]@ != self.keys@[b]@);
        }
        pairs
    }

    /// Records a focus of `id` in the history of `key`.
    fn observe(&mut self, key: &str, id: &str)
        requires
            old(self).wf(),
        ensures
            final(self).wf(),
            final(self).view() == old(self).view().insert(
                key@,
                observed(history_of(old(self).view(), key@), id@),
            ),
    {
        let i = self.entry_index(key);
        let ghost mid = *self;
        self.histories[i].observe(id);
        proof {
            HistoryMap::lemma_view_update(&mid, self, i as int);
            assert(mid.view().insert(key@, history_of(old(self).view(), key@)).insert(
                key@,
                self.histories@[i as int]@,
            ) =~= old(self).view().insert(key@, self.histories@[i as int]@));
        }
    }

    /// Prunes the history of `key` to `live_ids` and picks the most recent
    /// entry other than `current`.
    fn previous(&mut self, key: &str, current: &str, live_ids: &Vec<String>) -> (target: Option<String>)
        requires
            old(self).wf(),
        ensures
            final(self).wf(),
            final(self).view() == old(self).view().insert(
                key@,
                pruned(history_of(old(self).view(), key@), views(live_ids@)),
            ),
            option_view(target) == latest_other(
                pruned(history_of(old(self).view(), key@), views(live_ids@)),
                current@,
            ),
    {
        let i = self.entry_index(key);
        let ghost mid = *self;
        let target = self.histories[i].previous(current, live_ids);
        proof {
            HistoryMap::lemma_view_update(&mid, self, i as int);
            assert(mid.view().insert(key@, history_of(old(self).view(), key@)).insert(
                key@,
                self.histories@[i as int]@,
            ) =~= old(self).view().insert(key@, self.histories@[i as int]@));
        }
        target
    }
}

/// The focus histories of one Herdr session: tab histories keyed by
/// workspace id, pane histories keyed by tab id.
#[derive(Debug)]
pub struct HistoryStore {
    tabs: HistoryMap,
    panes: HistoryMap,
}

impl HistoryStore {
    /// Both maps hold each key once, with one history per key.
    #[verifier::type_invariant]
    closed spec fn wf(&self) -> bool {
        self.tabs.wf() && self.panes.wf()
    }

    /// Tab histories, keyed by workspace id.
    pub closed spec fn tab_histories(&self) -> Map<Id, Seq<Id>> {
        self.tabs.view()
    }

    /// Pane histories, keyed by tab id.
    pub closed spec fn pane_histories(&self) -> Map<Id, Seq<Id>> {
        self.panes.view()
    }

    /// Records a tab focus observation in workspace-scoped MRU order.
    pub fn observe_tab(&mut self, workspace_id: &str, tab_id: &str)
        ensures
            final(self).tab_histories() == old(self).tab_histories().insert(
                workspace_id@,
                observed(history_of(old(self).tab_histories(), workspace_id@), tab_id@),
            ),
            final(self).pane_histories() == old(self).pane_histories(),
    {
        proof {
            use_type_invariant(&*self);
        }
        let mut tabs = HistoryMap::new();
        std::mem::swap(&mut tabs, &mut self.tabs);
        tabs.observe(workspace_id, tab_id);
        self.tabs = tabs;
    }

    /// Records a pane focus observation in tab-scoped MRU order.
    pub fn observe_pane(&mut self, tab_id: &str, pane_id: &str)
        ensures
            final(self).pane_histories() == old(self).pane_histories().insert(
                tab_id@,
                observed(history_of(old(self).pane_histories(), tab_id@), pane_id@),
            ),
            final(self).tab_histories() == old(self).tab_histories(),
    {
        proof {
            use_type_invariant(&*self);
        }
        let mut panes = HistoryMap::new();
        std::mem::swap(&mut panes, &mut self.panes);
        panes.observe(tab_id, pane_id);
        self.panes = panes;
    }

    /// Returns the most recently observed live tab other than `current`.
    ///
    /// Closed tabs (those not among `live_tab_ids`) are pruned from the
    /// workspace's history first; a workspace without history gets an empty one.
    pub fn previous_tab(&mut self, workspace_id: &str, current: &str, live_tab_ids: Vec<String>) -> (target: Option<String>)
        ensures
            final(self).tab_histories() == old(self).tab_histories().insert(
                workspace_id@,
                pruned(history_of(old(self).tab_histories(), workspace_id@), views(live_tab_ids@)),
            ),
            final(self).pane_histories() == old(self).pane_histories(),
            option_view(target) == latest_other(
                pruned(history_of(old(self).tab_histories(), workspace_id@), views(live_tab_ids@)),
                current@,
            ),
    {
        proof {
            use_type_invariant(&*self);
        }
        let mut tabs = HistoryMap::new();
        std::mem::swap(&mut tabs, &mut self.tabs);
        let target = tabs.previous(workspace_id, current, &live_tab_ids);
        self.tabs = tabs;
        target
    }

    /// Returns the most recently observed live pane in `tab_id` other than `current`.
    ///
    /// Closed panes (those not among `live_pane_ids`) are pruned from the
    /// tab's history first; a tab without history gets an empty one.
    pub fn previous_pane(&mut self, tab_id: &str, current: &str, live_pane_ids: Vec<String>) -> (target: Option<String>)
        ensures
            final(self).pane_histories() == old(self).pane_histories().insert(
                tab_id@,
                pruned(history_of(old(self).pane_histories(), tab_id@), views(live_pane_ids@)),
            ),
            final(self).tab_histories() == old(self).tab_histories(),
            option_view(target) == latest_other(
                pruned(history_of(old(self).pane_histories(), tab_id@), views(live_pane_ids@)),
                current@,
            ),
    {
        proof {
            use_type_invariant(&*self);
        }
        let mut panes = HistoryMap::new();
        std::mem::swap(&mut panes, &mut self.panes);
        let target = panes.previous(tab_id, current, &live_pane_ids);
        self.panes = panes;
        target
    }
}

impl HistoryStore {
    /// Every workspace with a copy of its tab history, each workspace once.
    pub fn tab_history_list(&self) -> (pairs: Vec<(String, Vec<String>)>)
        ensures
            lists_map(pairs@, self.tab_histories()),
    {
        proof {
            use_type_invariant(self);
        }
        self.tabs.snapshot()
    }

    /// Every tab with a copy of its pane history, each tab once.
    pub fn pane_history_list(&self) -> (pairs: Vec<(String, Vec<String>)>)
        ensures
            lists_map(pairs@, self.pane_histories()),
    {
        proof {
            use_type_invariant(self);
        }
        self.panes.snapshot()
    }

    /// Replaces the tab history of `workspace_id` with `entries`, oldest first.
    pub fn set_tab_history(&mut self, workspace_id: &str, entries: Vec<String>)
        ensures
            final(self).tab_histories() == old(self).tab_histories().insert(workspace_id@, views(entries@)),
            final(self).pane_histories() == old(self).pane_histories(),
    {
        proof {
            use_type_invariant(&*self);
        }
        let mut tabs = HistoryMap::new();
        std::mem::swap(&mut tabs, &mut self.tabs);
        tabs.set(workspace_id, History::from_entries(entries));
        self.tabs = tabs;
    }

    /// Replaces the pane history of `tab_id` with `entries`, oldest first.
    pub fn set_pane_history(&mut self, tab_id: &str, entries: Vec<String>)
        ensures
            final(self).pane_histories() == old(self).pane_histories().insert(tab_id@, views(entries@)),
            final(self).tab_histories() == old(self).tab_histories(),
    {
        proof {
            use_type_invariant(&*self);
        }
        let mut panes = HistoryMap::new();
        std::mem::swap(&mut panes, &mut self.panes);
        panes.set(tab_id, History::from_entries(entries));
        self.panes = panes;
    }
}

/// Records a decoded focus event. A tab focus goes to the history of its
/// workspace; a pane focus goes to the history of the invocation's tab,
/// `context_tab_id`, which must be present and non-empty.
pub fn record_focus_event(history: &mut HistoryStore, event: FocusEvent, context_tab_id: Option<String>) -> (result: Result<(), String>)
    ensures
        match event {
            FocusEvent::Tab { workspace_id, tab_id } => {
                &&& result is Ok
                &&& final(history).tab_histories() == old(history).tab_histories().insert(
                    workspace_id@,
                    observed(history_of(old(history).tab_histories(), workspace_id@), tab_id@),
                )
                &&& final(history).pane_histories() == old(history).pane_histories()
            },
            FocusEvent::Pane { pane_id } => match context_tab_id {
                Some(tab_id) if tab_id@.len() > 0 => {
                    &&& result is Ok
                    &&& final(history).pane_histories() == old(history).pane_histories().insert(
                        tab_id@,
                        observed(history_of(old(history).pane_histories(), tab_id@), pane_id@),
                    )
                    &&& final(history).tab_histories() == old(history).tab_histories()
                },
                _ => {
                    &&& result matches Err(message) && message@ == missing_context_message("tab"@)
                    &&& final(history).pane_histories() == old(history).pane_histories()
                    &&& final(history).tab_histories() == old(history).tab_histories()
                },
            },
        },
{
    match event {
        FocusEvent::Tab { workspace_id, tab_id } => {
            history.observe_tab(workspace_id.as_str(), tab_id.as_str());
            Ok(())
        },
        FocusEvent::Pane { pane_id } => {
            let tab_id = required_context_value("tab", context_tab_id)?;
            history.observe_pane(tab_id.as_str(), pane_id.as_str());
            Ok(())
        },
    }
}

impl Default for HistoryStore {
    /// A store with no histories.
    fn default() -> (store: HistoryStore)
        ensures
            store.tab_histories() == Map::<Id, Seq<Id>>::empty(),
            store.pane_histories() == Map::<Id, Seq<Id>>::empty(),
    {
        HistoryStore { tabs: HistoryMap::new(), panes: HistoryMap::new() }
    }
}

} // verus!
