//! The mathematical model of one most-recently-used history: a sequence of
//! ids, oldest first, each id being the characters of its string.

use vstd::prelude::*;

verus! {

/// An id, as the characters of its string.
pub type Id = Seq<char>;

/// The characters of each string, in order.
pub open spec fn views(strings: Seq<String>) -> Seq<Id> {
    strings.map_values(|s: String| s@)
}

/// The predicate "differs from `id`".
pub open spec fn differs_from(id: Id) -> spec_fn(Id) -> bool {
    |e: Id| e != id
}

/// The predicate "is one of `live`".
pub open spec fn is_among(live: Seq<Id>) -> spec_fn(Id) -> bool {
    |e: Id| live.contains(e)
}

/// The history after `id` was focused: every earlier occurrence of `id` is
/// removed and `id` becomes the most recent entry.
pub open spec fn observed(history: Seq<Id>, id: Id) -> Seq<Id> {
    history.filter(differs_from(id)).push(id)
}

/// The history with every id that is not live removed, order kept.
pub open spec fn pruned(history: Seq<Id>, live: Seq<Id>) -> Seq<Id> {
    history.filter(is_among(live))
}

/// The most recent entry of `history` that differs from `current`, if any.
pub open spec fn latest_other(history: Seq<Id>, current: Id) -> Option<Id> {
    let others = history.filter(differs_from(current));
    if others.len() == 0 {
        None
    } else {
        Some(others.last())
    }
}

/// An element is kept by a filter exactly when it occurs in the sequence and
/// satisfies the predicate.
pub proof fn lemma_filter_contains_iff<A>(s: Seq<A>, p: spec_fn(A) -> bool, x: A)
    ensures
        s.filter(p).contains(x) <==> (s.contains(x) && p(x)),
    decreases s.len(),
{
    if s.len() == 0 {
        reveal_with_fuel(Seq::filter, 1);
    } else {
        let t = s.drop_last();
        let y = s.last();
        assert(t.push(y) =~= s);
        t.lemma_filter_push(y, p);
        lemma_filter_contains_iff(t, p, x);
        if s.contains(x) && x != y {
            let i = choose|i: int| 0 <= i < s.len() && s[i] == x;
            assert(t[i] == x);
        }
        if t.contains(x) {
            let i = choose|i: int| 0 <= i < t.len() && t[i] == x;
            assert(s[i] == x);
        }
        if t.filter(p).contains(x) {
            let i = choose|i: int| 0 <= i < t.filter(p).len() && t.filter(p)[i] == x;
            assert(t.filter(p).push(y)[i] == x);
        }
        if p(y) {
            assert(t.filter(p).push(y)[t.filter(p).len() as int] == y);
            assert(s[s.len() - 1] == y);
        }
    }
}

/// A filter whose predicate holds of every element keeps the sequence whole.
pub proof fn lemma_filter_all(s: Seq<Id>, p: spec_fn(Id) -> bool)
    requires
        forall|i: int| 0 <= i < s.len() ==> #[trigger] p(s[i]),
    ensures
        s.filter(p) == s,
    decreases s.len(),
{
    if s.len() == 0 {
        reveal_with_fuel(Seq::filter, 1);
    } else {
        let t = s.drop_last();
        assert(t.push(s.last()) =~= s);
        assert forall|i: int| 0 <= i < t.len() implies #[trigger] p(t[i]) by {
            assert(t[i] == s[i]);
        }
        lemma_filter_all(t, p);
        t.lemma_filter_push(s.last(), p);
    }
}

/// Filtering never introduces a duplicate.
pub proof fn lemma_filter_no_duplicates(s: Seq<Id>, p: spec_fn(Id) -> bool)
    requires
        s.no_duplicates(),
    ensures
        s.filter(p).no_duplicates(),
    decreases s.len(),
{
    if s.len() == 0 {
        reveal_with_fuel(Seq::filter, 1);
    } else {
        let t = s.drop_last();
        let y = s.last();
        assert(t.push(y) =~= s);
        assert(t.no_duplicates());
        lemma_filter_no_duplicates(t, p);
        t.lemma_filter_push(y, p);
        if p(y) {
            lemma_filter_contains_iff(t, p, y);
            assert(!t.contains(y));
            let f = t.filter(p);
            assert forall|i: int, j: int|
                0 <= i < f.push(y).len() && 0 <= j < f.push(y).len() && i != j
                    implies f.push(y)[i] != f.push(y)[j] by {
                if i < f.len() && j == f.len() {
                    assert(f.contains(f[i]));
                }
                if j < f.len() && i == f.len() {
                    assert(f.contains(f[j]));
                }
            }
        }
    }
}

/// Law: after a focus of `id`, `id` is the most recent entry, it occurs
/// nowhere else, and every other id is present exactly when it was before.
pub proof fn law_observed_moves_id_to_end(history: Seq<Id>, id: Id)
    ensures
        observed(history, id).len() >= 1,
        observed(history, id).last() == id,
        forall|i: int| 0 <= i < observed(history, id).len() - 1 ==> observed(history, id)[i] != id,
        forall|x: Id| x != id ==> (observed(history, id).contains(x) <==> history.contains(x)),
{
    let kept = history.filter(differs_from(id));
    assert forall|i: int| 0 <= i < observed(history, id).len() - 1 implies observed(history, id)[i]
        != id by {
        assert(observed(history, id)[i] == kept[i]);
        lemma_filter_contains_iff(history, differs_from(id), id);
        assert(kept.contains(kept[i]));
    }
    assert forall|x: Id| x != id implies (observed(history, id).contains(x) <==> history.contains(x)) by {
        lemma_filter_contains_iff(history, differs_from(id), x);
        if observed(history, id).contains(x) {
            let i = choose|i: int| 0 <= i < observed(history, id).len() && observed(history, id)[i] == x;
            assert(kept[i] == x);
        }
        if kept.contains(x) {
            let i = choose|i: int| 0 <= i < kept.len() && kept[i] == x;
            assert(observed(history, id)[i] == x);
        }
    }
}

/// Law: replaying a focus event changes nothing: observing `id` twice in a
/// row gives the history that observing it once gives.
pub proof fn law_observe_is_idempotent(history: Seq<Id>, id: Id)
    ensures
        observed(observed(history, id), id) == observed(history, id),
{
    let kept = history.filter(differs_from(id));
    kept.lemma_filter_push(id, differs_from(id));
    assert forall|i: int| 0 <= i < kept.len() implies #[trigger] differs_from(id)(kept[i]) by {
        lemma_filter_contains_iff(history, differs_from(id), kept[i]);
        assert(kept.contains(kept[i]));
    }
    lemma_filter_all(kept, differs_from(id));
}

/// Law: a history without duplicates keeps none after a focus.
pub proof fn law_observe_keeps_ids_unique(history: Seq<Id>, id: Id)
    requires
        history.no_duplicates(),
    ensures
        observed(history, id).no_duplicates(),
{
    law_observed_moves_id_to_end(history, id);
    lemma_filter_no_duplicates(history, differs_from(id));
    let o = observed(history, id);
    assert forall|i: int, j: int| 0 <= i < o.len() && 0 <= j < o.len() && i != j implies o[i]
        != o[j] by {
        if i < o.len() - 1 && j < o.len() - 1 {
            assert(o[i] == history.filter(differs_from(id))[i]);
            assert(o[j] == history.filter(differs_from(id))[j]);
        }
    }
}

/// Law: pruning keeps exactly the live entries, in their order, and a
/// second pruning against the same live ids changes nothing.
pub proof fn law_pruning_is_idempotent(history: Seq<Id>, live: Seq<Id>)
    ensures
        forall|x: Id| pruned(history, live).contains(x) <==> (history.contains(x) && live.contains(x)),
        pruned(pruned(history, live), live) == pruned(history, live),
        history.no_duplicates() ==> pruned(history, live).no_duplicates(),
{
    let p = pruned(history, live);
    assert forall|x: Id| p.contains(x) <==> (history.contains(x) && live.contains(x)) by {
        lemma_filter_contains_iff(history, is_among(live), x);
    }
    assert forall|i: int| 0 <= i < p.len() implies #[trigger] is_among(live)(p[i]) by {
        lemma_filter_contains_iff(history, is_among(live), p[i]);
        assert(p.contains(p[i]));
    }
    lemma_filter_all(p, is_among(live));
    if history.no_duplicates() {
        lemma_filter_no_duplicates(history, is_among(live));
    }
}

/// Law: the answer of `latest_other` is the most recent entry that differs
/// from `current`; there is none exactly when every entry equals `current`.
pub proof fn law_latest_other_is_most_recent(history: Seq<Id>, current: Id)
    ensures
        latest_other(history, current) is None <==> (forall|i: int|
            0 <= i < history.len() ==> history[i] == current),
        latest_other(history, current) matches Some(x) ==> {
            &&& x != current
            &&& exists|i: int|
                0 <= i < history.len() && history[i] == x && forall|j: int|
                    i < j < history.len() ==> history[j] == current
        },
    decreases history.len(),
{
    if history.len() == 0 {
        reveal_with_fuel(Seq::filter, 1);
    } else {
        let t = history.drop_last();
        let y = history.last();
        assert(t.push(y) =~= history);
        t.lemma_filter_push(y, differs_from(current));
        law_latest_other_is_most_recent(t, current);
        if y != current {
            assert(history[history.len() - 1] == y);
        } else {
            if latest_other(t, current) is None {
                assert forall|i: int| 0 <= i < history.len() implies history[i] == current by {
                    if i < t.len() {
                        assert(history[i] == t[i]);
                    }
                }
            } else {
                let x = latest_other(t, current)->0;
                let i = choose|i: int|
                    0 <= i < t.len() && t[i] == x && forall|j: int| i < j < t.len() ==> t[j] == current;
                assert(history[i] == x);
                assert forall|j: int| i < j < history.len() implies history[j] == current by {
                    if j < t.len() {
                        assert(history[j] == t[j]);
                    }
                }
                if forall|k: int| 0 <= k < history.len() ==> history[k] == current {
                    assert(history[i] == current);
                }
            }
        }
        if forall|k: int| 0 <= k < history.len() ==> history[k] == current {
            assert forall|k: int| 0 <= k < t.len() implies t[k] == current by {
                assert(t[k] == history[k]);
            }
        }
    }
}

/// Law: a toggle target is live, differs from the current id and was in the
/// history; there is none exactly when no live entry differs from `current`.
pub proof fn law_toggle_target_is_live(history: Seq<Id>, live: Seq<Id>, current: Id)
    ensures
        latest_other(pruned(history, live), current) matches Some(x) ==> {
            &&& live.contains(x)
            &&& history.contains(x)
            &&& x != current
        },
        latest_other(pruned(history, live), current) is None <==> (forall|i: int|
            0 <= i < history.len() && live.contains(history[i]) ==> history[i] == current),
{
    let p = pruned(history, live);
    law_latest_other_is_most_recent(p, current);
    law_pruning_is_idempotent(history, live);
    if let Some(x) = latest_other(p, current) {
        let i = choose|i: int|
            0 <= i < p.len() && p[i] == x && forall|j: int| i < j < p.len() ==> p[j] == current;
        assert(p.contains(x));
        assert(p.contains(p[i]));
    }
    if forall|i: int| 0 <= i < p.len() ==> p[i] == current {
        assert forall|i: int| 0 <= i < history.len() && live.contains(history[i]) implies history[i]
            == current by {
            assert(history.contains(history[i]));
            assert(p.contains(history[i]));
        }
    }
    if forall|i: int| 0 <= i < history.len() && live.contains(history[i]) ==> history[i] == current {
        assert forall|i: int| 0 <= i < p.len() implies p[i] == current by {
            assert(p.contains(p[i]));
        }
    }
}

/// Law: toggling goes back. After `a` and then `b` were focused, with both
/// still live, the toggle target from `b` is `a`.
pub proof fn law_toggle_returns_to_previous_focus(history: Seq<Id>, a: Id, b: Id, live: Seq<Id>)
    requires
        a != b,
        live.contains(a),
        live.contains(b),
    ensures
        latest_other(pruned(observed(observed(history, a), b), live), b) == Some(a),
{
    let y = history.filter(differs_from(a)).filter(differs_from(b));
    history.filter(differs_from(a)).lemma_filter_push(a, differs_from(b));
    assert(observed(observed(history, a), b) == y.push(a).push(b));
    y.lemma_filter_push(a, is_among(live));
    y.push(a).lemma_filter_push(b, is_among(live));
    let z = y.filter(is_among(live));
    assert(pruned(observed(observed(history, a), b), live) == z.push(a).push(b));
    z.lemma_filter_push(a, differs_from(b));
    z.push(a).lemma_filter_push(b, differs_from(b));
}

/// Every entry of `history` is one of `ids`.
pub open spec fn holds_only(history: Seq<Id>, ids: Seq<Id>) -> bool {
    forall|i: int| 0 <= i < history.len() ==> ids.contains(#[trigger] history[i])
}

/// Law: a toggle request leaves in the history only ids that it was told
/// are live.
pub proof fn law_pruned_history_holds_only_live_ids(history: Seq<Id>, live: Seq<Id>)
    ensures
        holds_only(pruned(history, live), live),
{
    law_pruning_is_idempotent(history, live);
    let p = pruned(history, live);
    assert forall|i: int| 0 <= i < p.len() implies live.contains(#[trigger] p[i]) by {
        assert(p.contains(p[i]));
    }
}

/// Law: an id pruned as closed is not selected again until it is observed
/// again. Once a history holds only ids of `earlier_live`, a later toggle
/// request keeps it so, and its target is one of `earlier_live`, one of its
/// own live ids, and differs from the current id.
pub proof fn law_closed_ids_are_not_selected_again(
    history: Seq<Id>,
    earlier_live: Seq<Id>,
    live: Seq<Id>,
    current: Id,
)
    requires
        holds_only(history, earlier_live),
    ensures
        holds_only(pruned(history, live), earlier_live),
        latest_other(pruned(history, live), current) matches Some(x) ==> {
            &&& earlier_live.contains(x)
            &&& live.contains(x)
            &&& x != current
        },
{
    law_pruning_is_idempotent(history, live);
    law_toggle_target_is_live(history, live, current);
    let p = pruned(history, live);
    assert forall|i: int| 0 <= i < p.len() implies earlier_live.contains(#[trigger] p[i]) by {
        assert(p.contains(p[i]));
        let j = choose|j: int| 0 <= j < history.len() && history[j] == p[i];
        assert(earlier_live.contains(history[j]));
    }
    if let Some(x) = latest_other(p, current) {
        let j = choose|j: int| 0 <= j < history.len() && history[j] == x;
        assert(earlier_live.contains(history[j]));
    }
}

/// Law: focusing an id that the history does not hold appends it and
/// changes nothing else.
pub proof fn law_observing_a_new_id_appends_it(history: Seq<Id>, id: Id)
    requires
        !history.contains(id),
    ensures
        observed(history, id) == history.push(id),
{
    assert forall|i: int| 0 <= i < history.len() implies #[trigger] differs_from(id)(history[i]) by {
        if history[i] == id {
            assert(history.contains(id));
        }
    }
    lemma_filter_all(history, differs_from(id));
}

/// Law: in a history without duplicates, focusing the id at index `k`
/// takes it out of its place and appends it; every other entry keeps its
/// place relative to the others.
pub proof fn law_observing_a_held_id_moves_only_it(history: Seq<Id>, id: Id, k: int)
    requires
        history.no_duplicates(),
        0 <= k < history.len(),
        history[k] == id,
    ensures
        observed(history, id) == history.remove(k).push(id),
{
    let before = history.subrange(0, k);
    let after = history.subrange(k + 1, history.len() as int);
    assert(history =~= before + seq![id] + after);
    Seq::filter_distributes_over_add(before + seq![id], after, differs_from(id));
    Seq::filter_distributes_over_add(before, seq![id], differs_from(id));
    assert forall|i: int| 0 <= i < before.len() implies #[trigger] differs_from(id)(before[i]) by {
        assert(before[i] == history[i]);
    }
    assert forall|i: int| 0 <= i < after.len() implies #[trigger] differs_from(id)(after[i]) by {
        assert(after[i] == history[k + 1 + i]);
    }
    lemma_filter_all(before, differs_from(id));
    lemma_filter_all(after, differs_from(id));
    Seq::<Id>::empty().lemma_filter_push(id, differs_from(id));
    reveal_with_fuel(Seq::filter, 1);
    assert(seq![id] =~= Seq::<Id>::empty().push(id));
    assert(history.remove(k) =~= before + after);
}

/// Law: focusing an id on an empty history gives just that id, and a focus
/// on a history extended by one entry `x` is the focus on the shorter
/// history with `x` placed just before the focused id (or dropped, where
/// `x` is that id): no other entry moves.
pub proof fn law_observing_extends_entry_by_entry(history: Seq<Id>, x: Id, id: Id)
    ensures
        observed(Seq::empty(), id) == seq![id],
        observed(history.push(x), id) == (if x == id {
            observed(history, id)
        } else {
            observed(history, id).drop_last().push(x).push(id)
        }),
{
    reveal_with_fuel(Seq::filter, 1);
    assert(Seq::<Id>::empty().filter(differs_from(id)).push(id) =~= seq![id]);
    history.lemma_filter_push(x, differs_from(id));
    assert(observed(history, id).drop_last() =~= history.filter(differs_from(id)));
}

/// Law: a toggle request against live ids that include every entry leaves
/// the history exactly as it was.
pub proof fn law_pruning_all_live_changes_nothing(history: Seq<Id>, live: Seq<Id>)
    requires
        forall|i: int| 0 <= i < history.len() ==> live.contains(#[trigger] history[i]),
    ensures
        pruned(history, live) == history,
{
    assert forall|i: int| 0 <= i < history.len() implies #[trigger] is_among(live)(history[i]) by {
        assert(live.contains(history[i]));
    }
    lemma_filter_all(history, is_among(live));
}

/// Law: pruning keeps the surviving entries in their order: it works entry
/// by entry, keeping a live entry at the end and dropping a closed one, and
/// pruning two histories one after the other is pruning each in turn.
pub proof fn law_pruning_keeps_order(history: Seq<Id>, x: Id, later: Seq<Id>, live: Seq<Id>)
    ensures
        pruned(Seq::empty(), live) == Seq::<Id>::empty(),
        pruned(history.push(x), live) == (if live.contains(x) {
            pruned(history, live).push(x)
        } else {
            pruned(history, live)
        }),
        pruned(history + later, live) == pruned(history, live) + pruned(later, live),
{
    reveal_with_fuel(Seq::filter, 1);
    history.lemma_filter_push(x, is_among(live));
    Seq::filter_distributes_over_add(history, later, is_among(live));
}

} // verus!
