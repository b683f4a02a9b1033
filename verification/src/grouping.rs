//! The shape of a flat sequence of entries: groups, their bounds and counts.
//!
//! Everything here is specification and proof over `Seq<Entry>`; the list
//! contracts are written in these terms.

use crate::entries::Entry;
use vstd::prelude::*;

verus! {

/// A group is one header followed by one or more matches.
pub open spec fn is_group(g: Seq<Entry>) -> bool {
    &&& g.len() >= 2
    &&& g[0] is Header
    &&& forall|j: int| 1 <= j < g.len() ==> (#[trigger] g[j]) is Match
}

/// A sequence is well grouped when it starts with a header, ends with a
/// match, and every header is directly followed by a match. The empty
/// sequence is well grouped.
pub open spec fn well_grouped(s: Seq<Entry>) -> bool {
    s.len() > 0 ==> {
        &&& s[0] is Header
        &&& s.last() is Match
        &&& forall|i: int, j: int|
            0 <= i && j == i + 1 && j < s.len() && (#[trigger] s[i]) is Header ==> (
            #[trigger] s[j]) is Match
    }
}

/// The index of the nearest header at or before position `i`: the start of
/// the group that holds `i`.
pub open spec fn group_start(s: Seq<Entry>, i: int) -> int
    decreases i,
{
    if i <= 0 {
        0
    } else if s[i] is Header {
        i
    } else {
        group_start(s, i - 1)
    }
}

/// The index of the first header after position `i`, or the length of the
/// sequence when none follows: the end (exclusive) of the group that holds `i`.
pub open spec fn group_end(s: Seq<Entry>, i: int) -> int
    decreases s.len() - i,
{
    if i + 1 >= s.len() {
        s.len() as int
    } else if s[i + 1] is Header {
        i + 1
    } else {
        group_end(s, i + 1)
    }
}

/// The number of matches in `s`.
pub open spec fn count_matches(s: Seq<Entry>) -> nat {
    s.filter(|e: Entry| e is Match).len()
}

/// The number of headers in `s`.
pub open spec fn count_headers(s: Seq<Entry>) -> nat {
    s.filter(|e: Entry| e is Header).len()
}

/// `group_start` finds a header at or before `i`, with only matches between
/// it and `i`.
pub proof fn lemma_group_start(s: Seq<Entry>, i: int)
    requires
        0 <= i < s.len(),
        s[0] is Header,
    ensures
        0 <= group_start(s, i) <= i,
        s[group_start(s, i)] is Header,
        forall|k: int| group_start(s, i) < k <= i ==> (#[trigger] s[k]) is Match,
    decreases i,
{
    if i > 0 && s[i] is Match {
        lemma_group_start(s, i - 1);
    }
}

/// `group_end` finds the first header after `i`, or the end of the sequence,
/// with only matches between `i` and it.
pub proof fn lemma_group_end(s: Seq<Entry>, i: int)
    requires
        0 <= i < s.len(),
    ensures
        i < group_end(s, i) <= s.len(),
        group_end(s, i) < s.len() ==> s[group_end(s, i)] is Header,
        forall|k: int| i < k < group_end(s, i) ==> (#[trigger] s[k]) is Match,
    decreases s.len() - i,
{
    if i + 1 < s.len() && s[i + 1] is Match {
        lemma_group_end(s, i + 1);
    }
}

/// Any header at or before `i` that has only matches after it up to `i` is
/// the start of the group of `i`.
pub proof fn lemma_group_start_unique(s: Seq<Entry>, i: int, h: int)
    requires
        0 <= h <= i < s.len(),
        s[h] is Header,
        forall|k: int| h < k <= i ==> (#[trigger] s[k]) is Match,
    ensures
        group_start(s, i) == h,
    decreases i - h,
{
    if h < i {
        lemma_group_start_unique(s, i - 1, h);
    }
}

/// Any position after `i` that is a header or the end of the sequence, with
/// only matches between `i` and it, is the end of the group of `i`.
pub proof fn lemma_group_end_unique(s: Seq<Entry>, i: int, e: int)
    requires
        0 <= i < e <= s.len(),
        e < s.len() ==> s[e] is Header,
        forall|k: int| i < k < e ==> (#[trigger] s[k]) is Match,
    ensures
        group_end(s, i) == e,
    decreases e - i,
{
    if i + 1 < e {
        lemma_group_end_unique(s, i + 1, e);
    }
}

/// In a well-grouped sequence the group of a position is a group: it has a
/// header, at least one match, and nothing else.
pub proof fn lemma_group_bounds(s: Seq<Entry>, i: int)
    requires
        well_grouped(s),
        0 <= i < s.len(),
    ensures
        0 <= group_start(s, i) <= i < group_end(s, i) <= s.len(),
        group_start(s, i) + 2 <= group_end(s, i),
        is_group(s.subrange(group_start(s, i), group_end(s, i))),
{
    lemma_group_start(s, i);
    lemma_group_end(s, i);
}

/// A well-grouped sequence followed by a group is well grouped.
pub proof fn lemma_well_grouped_add_group(s: Seq<Entry>, g: Seq<Entry>)
    requires
        well_grouped(s),
        is_group(g),
    ensures
        well_grouped(s + g),
{
}

/// The part of a well-grouped sequence before one of its headers is well
/// grouped.
pub proof fn lemma_well_grouped_before_header(s: Seq<Entry>, h: int)
    requires
        well_grouped(s),
        0 <= h < s.len(),
        s[h] is Header,
    ensures
        well_grouped(s.subrange(0, h)),
{
}

/// Counting distributes over concatenation.
pub proof fn lemma_count_add(a: Seq<Entry>, b: Seq<Entry>)
    ensures
        count_matches(a + b) == count_matches(a) + count_matches(b),
        count_headers(a + b) == count_headers(a) + count_headers(b),
{
    Seq::filter_distributes_over_add(a, b, |e: Entry| e is Match);
    Seq::filter_distributes_over_add(a, b, |e: Entry| e is Header);
}

/// One more entry adds one to the count of matches if it is a match, and
/// one to the count of headers if it is a header.
pub proof fn lemma_count_push(s: Seq<Entry>, e: Entry)
    ensures
        count_matches(s.push(e)) == count_matches(s) + if e is Match { 1int } else { 0int },
        count_headers(s.push(e)) == count_headers(s) + if e is Header { 1int } else { 0int },
{
    s.lemma_filter_len_push(|e: Entry| e is Match, e);
    s.lemma_filter_len_push(|e: Entry| e is Header, e);
}

/// The empty sequence holds neither matches nor headers.
pub proof fn lemma_count_empty()
    ensures
        count_matches(Seq::<Entry>::empty()) == 0,
        count_headers(Seq::<Entry>::empty()) == 0,
{
    Seq::<Entry>::empty().lemma_filter_len(|e: Entry| e is Match);
    Seq::<Entry>::empty().lemma_filter_len(|e: Entry| e is Header);
}

/// A run of matches counts as many matches as it is long, and no header.
pub proof fn lemma_count_all_matches(s: Seq<Entry>)
    requires
        forall|k: int| 0 <= k < s.len() ==> (#[trigger] s[k]) is Match,
    ensures
        count_matches(s) == s.len(),
        count_headers(s) == 0,
    decreases s.len(),
{
    if s.len() == 0 {
        lemma_count_empty();
    } else {
        lemma_count_all_matches(s.drop_last());
        lemma_count_push(s.drop_last(), s.last());
        assert(s.drop_last().push(s.last()) =~= s);
    }
}

/// A group counts one header and all its other entries as matches.
pub proof fn lemma_count_group(g: Seq<Entry>)
    requires
        is_group(g),
    ensures
        count_headers(g) == 1,
        count_matches(g) == g.len() - 1,
{
    let head = g.subrange(0, 1);
    let tail = g.subrange(1, g.len() as int);
    assert(head + tail =~= g);
    lemma_count_add(head, tail);
    lemma_count_all_matches(tail);
    lemma_count_empty();
    lemma_count_push(Seq::<Entry>::empty(), g[0]);
    assert(Seq::<Entry>::empty().push(g[0]) =~= head);
}

} // verus!
