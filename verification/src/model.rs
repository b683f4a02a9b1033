//! The mathematical model of a result list: a sequence of entries and a
//! selection, with one transition for each operation of the list.

use crate::entries::Entry;
use crate::grouping::{
    count_headers, count_matches, group_end, group_start, is_group, lemma_group_bounds,
    lemma_group_end, lemma_group_start, lemma_well_grouped_add_group, well_grouped,
};
use vstd::prelude::*;

verus! {

/// The match after position `i`: one step ahead, or two when the next entry
/// is a header. At the last entry there is no further match and `i` stays.
pub open spec fn next_match_index(s: Seq<Entry>, i: int) -> int {
    if i + 1 >= s.len() {
        i
    } else if s[i + 1] is Header {
        i + 2
    } else {
        i + 1
    }
}

/// The match before position `i`: one step back, or two when the previous
/// entry is a header. At the first match there is no earlier one and the
/// result is the first match.
pub open spec fn previous_match_index(s: Seq<Entry>, i: int) -> int {
    if i <= 1 {
        1
    } else if s[i - 1] is Header {
        i - 2
    } else {
        i - 1
    }
}

/// The first match of the group after the group of `i`, or `i` itself when
/// its group is the last one.
pub open spec fn next_file_index(s: Seq<Entry>, i: int) -> int {
    let e = group_end(s, i);
    if e >= s.len() {
        i
    } else {
        e + 1
    }
}

/// The first match of the group before the group of `i`, or the first match
/// of the sequence when the group of `i` is the first one.
pub open spec fn previous_file_index(s: Seq<Entry>, i: int) -> int {
    let h = group_start(s, i);
    if h <= 0 {
        1
    } else {
        group_start(s, h - 1) + 1
    }
}

/// Whether the match at `i` is the only match of its group.
pub open spec fn is_sole_match(s: Seq<Entry>, i: int) -> bool {
    group_end(s, i) - group_start(s, i) == 2
}

/// The value of a result list.
pub ghost struct ListModel {
    /// The flat sequence: groups one after another.
    pub entries: Seq<Entry>,
    /// The index of the selected entry, if any.
    pub selected: Option<usize>,
}

impl ListModel {
    /// The list without entries and without a selection.
    pub open spec fn empty() -> ListModel {
        ListModel { entries: Seq::empty(), selected: None }
    }

    /// The selection rests on a match.
    pub open spec fn selects_match(self) -> bool {
        &&& self.selected matches Some(i)
        &&& i < self.entries.len()
        &&& self.entries[i as int] is Match
    }

    /// The entries are well grouped and fit in memory, and the selection is
    /// absent exactly when there are no entries and otherwise rests on a match.
    pub open spec fn wf(self) -> bool {
        &&& well_grouped(self.entries)
        &&& self.entries.len() <= usize::MAX
        &&& if self.entries.len() == 0 {
            self.selected is None
        } else {
            self.selects_match()
        }
    }

    /// The same entries with position `index` selected.
    pub open spec fn select(self, index: int) -> ListModel {
        ListModel { entries: self.entries, selected: Some(index as usize) }
    }

    /// Appends a group. A list without a selection selects its first match.
    pub open spec fn add_entry(self, group: Seq<Entry>) -> ListModel {
        ListModel {
            entries: self.entries + group,
            selected: match self.selected {
                Some(i) => Some(i),
                None => Some(1),
            },
        }
    }

    /// Drops every entry and the selection.
    pub open spec fn clear(self) -> ListModel {
        ListModel::empty()
    }

    /// Selects the match after the selected one; the first match when
    /// nothing is selected. Nothing changes in a list without entries.
    pub open spec fn next_match(self) -> ListModel {
        if self.entries.len() == 0 {
            self
        } else {
            match self.selected {
                None => self.select(1),
                Some(i) => self.select(next_match_index(self.entries, i as int)),
            }
        }
    }

    /// Selects the match before the selected one; the first match when
    /// nothing is selected. Nothing changes in a list without entries.
    pub open spec fn previous_match(self) -> ListModel {
        if self.entries.len() == 0 {
            self
        } else {
            match self.selected {
                None => self.select(1),
                Some(i) => self.select(previous_match_index(self.entries, i as int)),
            }
        }
    }

    /// Selects the first match of the file after the selected one; the first
    /// match when nothing is selected. Nothing changes in a list without
    /// entries.
    pub open spec fn next_file(self) -> ListModel {
        if self.entries.len() == 0 {
            self
        } else {
            match self.selected {
                None => self.select(1),
                Some(i) => self.select(next_file_index(self.entries, i as int)),
            }
        }
    }

    /// Selects the first match of the file before the selected one; the
    /// first match when nothing is selected. Nothing changes in a list
    /// without entries.
    pub open spec fn previous_file(self) -> ListModel {
        if self.entries.len() == 0 {
            self
        } else {
            match self.selected {
                None => self.select(1),
                Some(i) => self.select(previous_file_index(self.entries, i as int)),
            }
        }
    }

    /// Selects the first match, which follows the first header.
    pub open spec fn top(self) -> ListModel {
        if self.entries.len() == 0 {
            self
        } else {
            self.select(1)
        }
    }

    /// Selects the last entry, which is a match.
    pub open spec fn bottom(self) -> ListModel {
        if self.entries.len() == 0 {
            self
        } else {
            self.select(self.entries.len() - 1)
        }
    }

    /// Removes the whole group of the selected match. The selection moves to
    /// the last match of the group before it, or, when the first group was
    /// removed, to the first match of what is left.
    pub open spec fn remove_current_file(self) -> ListModel {
        match self.selected {
            None => self,
            Some(i) => {
                let h = group_start(self.entries, i as int);
                let e = group_end(self.entries, i as int);
                let rest = self.entries.subrange(0, h) + self.entries.subrange(
                    e,
                    self.entries.len() as int,
                );
                ListModel {
                    entries: rest,
                    selected: if rest.len() == 0 {
                        None
                    } else if h == 0 {
                        Some(1)
                    } else {
                        Some((h - 1) as usize)
                    },
                }
            },
        }
    }

    /// Removes the selected match, and its whole group when it is the only
    /// match there. Otherwise the selection stays in the group: on the match
    /// that followed, or on the one before when none followed.
    pub open spec fn remove_current_entry(self) -> ListModel {
        match self.selected {
            None => self,
            Some(i) => {
                if is_sole_match(self.entries, i as int) {
                    self.remove_current_file()
                } else {
                    let rest = self.entries.remove(i as int);
                    ListModel {
                        entries: rest,
                        selected: if i >= rest.len() || rest[i as int] is Header {
                            Some((i - 1) as usize)
                        } else {
                            Some(i)
                        },
                    }
                }
            },
        }
    }

    /// The name of the selected match's file and the match's line number.
    pub open spec fn selected_entry(self) -> Option<(Seq<char>, u64)> {
        match self.selected {
            None => None,
            Some(i) => Some(
                (
                    self.entries[group_start(self.entries, i as int)]->Header_0,
                    self.entries[i as int]->Match_0,
                ),
            ),
        }
    }

    /// The rank of the selected match among all matches, counted from one;
    /// zero without a selection.
    pub open spec fn current_match_index(self) -> nat {
        match self.selected {
            None => 0,
            Some(i) => count_matches(self.entries.subrange(0, i as int)) + 1,
        }
    }

    /// The number of matches in all files.
    pub open spec fn number_of_matches(self) -> nat {
        count_matches(self.entries)
    }

    /// The number of files, one header each.
    pub open spec fn number_of_file_entries(self) -> nat {
        count_headers(self.entries)
    }

    /// The list stays well formed when a group is appended.
    pub proof fn lemma_add_entry_wf(self, group: Seq<Entry>)
        requires
            self.wf(),
            is_group(group),
            self.entries.len() + group.len() <= usize::MAX,
        ensures
            self.add_entry(group).wf(),
    {
        lemma_well_grouped_add_group(self.entries, group);
    }

    /// Every navigation step keeps the entries and leaves the list well
    /// formed: the selection rests on a match.
    pub proof fn lemma_navigation_wf(self)
        requires
            self.wf(),
        ensures
            self.next_match().wf(),
            self.previous_match().wf(),
            self.next_file().wf(),
            self.previous_file().wf(),
            self.top().wf(),
            self.bottom().wf(),
            self.next_match().entries == self.entries,
            self.previous_match().entries == self.entries,
            self.next_file().entries == self.entries,
            self.previous_file().entries == self.entries,
            self.top().entries == self.entries,
            self.bottom().entries == self.entries,
    {
        if let Some(i) = self.selected {
            let s = self.entries;
            let h = group_start(s, i as int);
            lemma_group_end(s, i as int);
            lemma_group_start(s, i as int);
            if h > 0 {
                lemma_group_start(s, h - 1);
            }
        }
    }

    /// Removing the group of the selected match leaves a well-formed list.
    pub proof fn lemma_remove_current_file_wf(self)
        requires
            self.wf(),
        ensures
            self.remove_current_file().wf(),
    {
        if let Some(i) = self.selected {
            lemma_group_bounds(self.entries, i as int);
            lemma_group_start(self.entries, i as int);
            lemma_group_end(self.entries, i as int);
        }
    }

    /// Removing the selected match leaves a well-formed list.
    pub proof fn lemma_remove_current_entry_wf(self)
        requires
            self.wf(),
        ensures
            self.remove_current_entry().wf(),
    {
        if let Some(i) = self.selected {
            if is_sole_match(self.entries, i as int) {
                self.lemma_remove_current_file_wf();
            } else {
                lemma_group_bounds(self.entries, i as int);
                lemma_group_start(self.entries, i as int);
                lemma_group_end(self.entries, i as int);
            }
        }
    }
}

} // verus!
