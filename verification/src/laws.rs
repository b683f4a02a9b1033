//! Laws that relate the operations of the list to one another.
//!
//! Each law is a proof over the model. The operations of `ResultList` are
//! specified as the model's transitions, so every law holds of the stored
//! list as well.

use crate::entries::Entry;
use crate::grouping::{
    count_headers, count_matches, group_end, group_start, is_group, lemma_count_add,
    lemma_count_empty, lemma_count_group, lemma_count_push, lemma_group_bounds, lemma_group_end,
    lemma_group_end_unique, lemma_group_start, lemma_group_start_unique,
    lemma_well_grouped_before_header, well_grouped,
};
use crate::model::{
    is_sole_match, next_file_index, next_match_index, previous_file_index, previous_match_index,
    ListModel,
};
use vstd::prelude::*;

verus! {

/// The list reached from `m` by appending the groups one after another.
pub open spec fn add_all(m: ListModel, groups: Seq<Seq<Entry>>) -> ListModel
    decreases groups.len(),
{
    if groups.len() == 0 {
        m
    } else {
        add_all(m, groups.drop_last()).add_entry(groups.last())
    }
}

/// The groups that a well-grouped sequence is made of, in order.
pub open spec fn groups_of(s: Seq<Entry>) -> Seq<Seq<Entry>>
    decreases s.len(),
{
    let h = group_start(s, s.len() - 1);
    if 0 <= h < s.len() {
        groups_of(s.subrange(0, h)).push(s.subrange(h, s.len() as int))
    } else {
        Seq::empty()
    }
}

/// The list reached from `m` by `k` steps to the next match.
pub open spec fn next_match_steps(m: ListModel, k: nat) -> ListModel
    decreases k,
{
    if k == 0 {
        m
    } else {
        next_match_steps(m, (k - 1) as nat).next_match()
    }
}

/// The list reached from `m` by removing the selected match `k` times.
pub open spec fn remove_current_entry_steps(m: ListModel, k: nat) -> ListModel
    decreases k,
{
    if k == 0 {
        m
    } else {
        remove_current_entry_steps(m.remove_current_entry(), (k - 1) as nat)
    }
}

/// Appending groups to a well-formed list stores exactly those groups, one
/// after another, behind what was there; the list stays well formed, and a
/// list that had no selection selects its first match.
pub proof fn lemma_appended_groups_are_stored(m: ListModel, groups: Seq<Seq<Entry>>)
    requires
        m.wf(),
        forall|k: int| 0 <= k < groups.len() ==> is_group(#[trigger] groups[k]),
        m.entries.len() + groups.flatten().len() <= usize::MAX,
    ensures
        add_all(m, groups).wf(),
        add_all(m, groups).entries == m.entries + groups.flatten(),
        add_all(m, groups).selected == if m.selected is Some || groups.len() == 0 {
            m.selected
        } else {
            Some(1usize)
        },
    decreases groups.len(),
{
    if groups.len() > 0 {
        let init = groups.drop_last();
        let last = groups.last();
        assert(init.push(last) =~= groups);
        init.lemma_flatten_push(last);
        lemma_appended_groups_are_stored(m, init);
        add_all(m, init).lemma_add_entry_wf(last);
    }
}

/// A well-grouped sequence is its groups laid end to end: each of them one
/// header followed by at least one match, and as many of them as there are
/// headers.
pub proof fn lemma_entries_decompose(s: Seq<Entry>)
    requires
        well_grouped(s),
    ensures
        groups_of(s).flatten() == s,
        forall|k: int| 0 <= k < groups_of(s).len() ==> is_group(#[trigger] groups_of(s)[k]),
        groups_of(s).len() == count_headers(s),
    decreases s.len(),
{
    if s.len() == 0 {
        lemma_count_empty();
    } else {
        let n = s.len() as int;
        let h = group_start(s, n - 1);
        let before = s.subrange(0, h);
        let group = s.subrange(h, n);
        lemma_group_bounds(s, n - 1);
        lemma_group_start(s, n - 1);
        lemma_well_grouped_before_header(s, h);
        lemma_entries_decompose(before);
        groups_of(before).lemma_flatten_push(group);
        lemma_count_add(before, group);
        lemma_count_group(group);
    }
}

/// Every navigation step on a list with entries leaves the selection on a
/// match, never on a header.
pub proof fn lemma_navigation_selects_match(m: ListModel)
    requires
        m.wf(),
        m.entries.len() > 0,
    ensures
        m.next_match().selects_match(),
        m.previous_match().selects_match(),
        m.next_file().selects_match(),
        m.previous_file().selects_match(),
        m.top().selects_match(),
        m.bottom().selects_match(),
{
    m.lemma_navigation_wf();
}

/// A step to the next match followed by a step to the previous match comes
/// back to where it started, except from the last match of a list that has
/// more than one: there the first step stays and the second one moves.
pub proof fn lemma_next_then_previous(m: ListModel)
    requires
        m.wf(),
        m.entries.len() > 0,
    ensures
        m.next_match().previous_match() == m <==> (m.selected->0 + 1 < m.entries.len()
            || m.selected->0 == 1),
{
}

/// A step to the previous match followed by a step to the next match comes
/// back to where it started, except from the first match of a list that has
/// more than one: there the first step stays and the second one moves.
pub proof fn lemma_previous_then_next(m: ListModel)
    requires
        m.wf(),
        m.entries.len() > 0,
    ensures
        m.previous_match().next_match() == m <==> (m.selected->0 > 1 || m.entries.len() == 2),
{
}

/// The step to the next match lands on the nearest match after the selected
/// one; it stays only on the last entry.
pub proof fn lemma_next_match_is_nearest(m: ListModel)
    requires
        m.wf(),
        m.entries.len() > 0,
    ensures
        ({
            let i = m.selected->0 as int;
            let j = next_match_index(m.entries, i);
            &&& i <= j < m.entries.len()
            &&& m.entries[j] is Match
            &&& j == i <==> i == m.entries.len() - 1
            &&& forall|k: int| i < k < j ==> (#[trigger] m.entries[k]) is Header
        }),
{
}

/// The step to the previous match lands on the nearest match before the
/// selected one; it stays only on the first match.
pub proof fn lemma_previous_match_is_nearest(m: ListModel)
    requires
        m.wf(),
        m.entries.len() > 0,
    ensures
        ({
            let i = m.selected->0 as int;
            let j = previous_match_index(m.entries, i);
            &&& 1 <= j <= i
            &&& m.entries[j] is Match
            &&& j == i <==> i == 1
            &&& forall|k: int| j < k < i ==> (#[trigger] m.entries[k]) is Header
        }),
{
}

/// The step to the next file lands on the first match of the group that
/// follows the group of the selected match; in the last group it stays.
pub proof fn lemma_next_file_is_next_group(m: ListModel)
    requires
        m.wf(),
        m.entries.len() > 0,
    ensures
        ({
            let i = m.selected->0 as int;
            let e = group_end(m.entries, i);
            let j = next_file_index(m.entries, i);
            if e == m.entries.len() {
                j == i
            } else {
                &&& j == e + 1 < m.entries.len()
                &&& m.entries[j] is Match
                &&& group_start(m.entries, j) == e
            }
        }),
{
    let i = m.selected->0 as int;
    let e = group_end(m.entries, i);
    lemma_group_end(m.entries, i);
    if e < m.entries.len() {
        lemma_group_start_unique(m.entries, e + 1, e);
    }
}

/// The step to the previous file lands on the first match of the group that
/// precedes the group of the selected match; in the first group it lands on
/// the first match of the list.
pub proof fn lemma_previous_file_is_previous_group(m: ListModel)
    requires
        m.wf(),
        m.entries.len() > 0,
    ensures
        ({
            let i = m.selected->0 as int;
            let h = group_start(m.entries, i);
            let j = previous_file_index(m.entries, i);
            if h == 0 {
                j == 1
            } else {
                &&& 1 <= j < h
                &&& m.entries[j] is Match
                &&& m.entries[j - 1] is Header
                &&& group_end(m.entries, j) == h
            }
        }),
{
    let i = m.selected->0 as int;
    let h = group_start(m.entries, i);
    lemma_group_start(m.entries, i);
    if h > 0 {
        lemma_group_start(m.entries, h - 1);
        lemma_group_end_unique(m.entries, group_start(m.entries, h - 1) + 1, h);
    }
}

/// The number of matches before a position does not shrink as the position
/// moves on.
pub proof fn lemma_count_matches_monotonic(s: Seq<Entry>, a: int, b: int)
    requires
        0 <= a <= b <= s.len(),
    ensures
        count_matches(s.subrange(0, a)) <= count_matches(s.subrange(0, b)),
{
    lemma_count_add(s.subrange(0, a), s.subrange(a, b));
    assert(s.subrange(0, a) + s.subrange(a, b) =~= s.subrange(0, b));
}

/// The rank of the selected match lies between one and the number of
/// matches. The first match has rank one and the last match has the number
/// of matches as its rank.
pub proof fn lemma_rank_bounds(m: ListModel)
    requires
        m.wf(),
        m.entries.len() > 0,
    ensures
        1 <= m.current_match_index() <= m.number_of_matches(),
        m.top().current_match_index() == 1,
        m.bottom().current_match_index() == m.number_of_matches(),
        m.selected->0 + 1 < m.entries.len() ==> m.current_match_index() < m.number_of_matches(),
{
    let s = m.entries;
    let n = s.len() as int;
    let i = m.selected->0 as int;
    // the first match follows one header
    lemma_count_empty();
    lemma_count_push(Seq::<Entry>::empty(), s[0]);
    assert(Seq::<Entry>::empty().push(s[0]) =~= s.subrange(0, 1));
    // the last match has all the others before it
    lemma_count_push(s.subrange(0, n - 1), s[n - 1]);
    assert(s.subrange(0, n - 1).push(s[n - 1]) =~= s);
    // the selected match has at most the others before it
    lemma_count_push(s.subrange(0, i), s[i]);
    assert(s.subrange(0, i).push(s[i]) =~= s.subrange(0, i + 1));
    if i + 1 < n {
        lemma_count_matches_monotonic(s, i + 1, n - 1);
    }
}

/// A step to the next match raises the rank of the selected match by one,
/// except on the last match, where the step stays and the rank with it.
pub proof fn lemma_next_match_rank(m: ListModel)
    requires
        m.wf(),
        m.entries.len() > 0,
    ensures
        m.next_match().current_match_index() == if m.selected->0 + 1 < m.entries.len() {
            m.current_match_index() + 1
        } else {
            m.current_match_index()
        },
{
    let s = m.entries;
    let i = m.selected->0 as int;
    if i + 1 < s.len() {
        lemma_count_push(s.subrange(0, i), s[i]);
        assert(s.subrange(0, i).push(s[i]) =~= s.subrange(0, i + 1));
        if s[i + 1] is Header {
            lemma_count_push(s.subrange(0, i + 1), s[i + 1]);
            assert(s.subrange(0, i + 1).push(s[i + 1]) =~= s.subrange(0, i + 2));
        }
    }
}

/// Stepping to the next match from the first match visits the matches in
/// order of rank: after `k` steps the selected match has rank `k + 1`, until
/// the last match is reached, where the rank stays at the number of matches.
pub proof fn lemma_next_match_enumerates(m: ListModel, k: nat)
    requires
        m.wf(),
        m.entries.len() > 0,
    ensures
        next_match_steps(m.top(), k).wf(),
        next_match_steps(m.top(), k).entries == m.entries,
        next_match_steps(m.top(), k).current_match_index() == if k + 1 <= m.number_of_matches() {
            k + 1
        } else {
            m.number_of_matches()
        },
    decreases k,
{
    m.lemma_navigation_wf();
    if k == 0 {
        lemma_rank_bounds(m);
    } else {
        lemma_next_match_enumerates(m, (k - 1) as nat);
        let before = next_match_steps(m.top(), (k - 1) as nat);
        before.lemma_navigation_wf();
        lemma_next_match_rank(before);
        lemma_rank_bounds(before);
    }
}

/// Removing the file of the selected match removes one whole group and
/// nothing else: what stood before the group and what stood behind it stay,
/// the number of files drops by one, and the number of matches drops by the
/// number of matches of the group.
pub proof fn lemma_remove_current_file_span(m: ListModel)
    requires
        m.wf(),
        m.entries.len() > 0,
    ensures
        ({
            let h = group_start(m.entries, m.selected->0 as int);
            let e = group_end(m.entries, m.selected->0 as int);
            let after = m.remove_current_file();
            &&& 0 <= h < m.selected->0 < e <= m.entries.len()
            &&& is_group(m.entries.subrange(h, e))
            &&& after.entries == m.entries.subrange(0, h) + m.entries.subrange(
                e,
                m.entries.len() as int,
            )
            &&& after.number_of_file_entries() == m.number_of_file_entries() - 1
            &&& after.number_of_matches() == m.number_of_matches() - (e - h - 1)
        }),
{
    let s = m.entries;
    let i = m.selected->0 as int;
    let h = group_start(s, i);
    let e = group_end(s, i);
    lemma_group_bounds(s, i);
    lemma_group_start(s, i);
    let before = s.subrange(0, h);
    let group = s.subrange(h, e);
    let behind = s.subrange(e, s.len() as int);
    assert(before + group + behind =~= s);
    lemma_count_add(before + group, behind);
    lemma_count_add(before, group);
    lemma_count_add(before, behind);
    lemma_count_group(group);
}

/// Removing a match that is not the only one of its file keeps the
/// selection in that file, which has one match less; removing the file
/// afterwards leaves what removing it at once would have left.
pub proof fn lemma_remove_current_entry_stays_in_file(m: ListModel)
    requires
        m.wf(),
        m.entries.len() > 0,
        !is_sole_match(m.entries, m.selected->0 as int),
    ensures
        ({
            let h = group_start(m.entries, m.selected->0 as int);
            let e = group_end(m.entries, m.selected->0 as int);
            let next = m.remove_current_entry();
            &&& next.wf()
            &&& next.entries == m.entries.remove(m.selected->0 as int)
            &&& next.entries.len() > 0
            &&& group_start(next.entries, next.selected->0 as int) == h
            &&& group_end(next.entries, next.selected->0 as int) == e - 1
            &&& next.remove_current_file() == m.remove_current_file()
        }),
{
    let s = m.entries;
    let i = m.selected->0 as int;
    let h = group_start(s, i);
    let e = group_end(s, i);
    let next = m.remove_current_entry();
    let rest = next.entries;
    lemma_group_bounds(s, i);
    lemma_group_start(s, i);
    lemma_group_end(s, i);
    m.lemma_remove_current_entry_wf();
    s.remove_ensures(i);
    lemma_group_start_unique(rest, next.selected->0 as int, h);
    lemma_group_end_unique(rest, next.selected->0 as int, e - 1);
    assert(rest.subrange(0, h) + rest.subrange(e - 1, rest.len() as int) =~= s.subrange(0, h)
        + s.subrange(e, s.len() as int));
}

/// Removing the matches of a file one at a time removes the file: after as
/// many removals as the file of the selected match has matches, the list is
/// the one that removing the file at once would have left.
pub proof fn lemma_remove_entries_one_by_one(m: ListModel, k: nat)
    requires
        m.wf(),
        m.entries.len() > 0,
        k == group_end(m.entries, m.selected->0 as int) - group_start(
            m.entries,
            m.selected->0 as int,
        ) - 1,
    ensures
        remove_current_entry_steps(m, k) == m.remove_current_file(),
        remove_current_entry_steps(m, k).number_of_file_entries() == m.number_of_file_entries()
            - 1,
    decreases k,
{
    let next = m.remove_current_entry();
    lemma_remove_current_file_span(m);
    assert(remove_current_entry_steps(m, k) == remove_current_entry_steps(next, (k - 1) as nat));
    if !is_sole_match(m.entries, m.selected->0 as int) {
        lemma_remove_current_entry_stays_in_file(m);
        lemma_remove_entries_one_by_one(next, (k - 1) as nat);
    }
}

/// A cleared list is the list that was never filled, so whatever is appended
/// to it gives the list that the same groups give when appended to a new one.
pub proof fn lemma_cleared_is_fresh(m: ListModel, groups: Seq<Seq<Entry>>)
    ensures
        m.clear() == ListModel::empty(),
        add_all(m.clear(), groups) == add_all(ListModel::empty(), groups),
{
}

} // verus!
