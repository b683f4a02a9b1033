//! The result list: the stored entries, the selection, and the operations
//! that move the selection and remove entries.

use crate::entries::{entries_view, EntryType, FileEntry};
use crate::grouping::{
    count_headers, count_matches, group_end, group_start, is_group, lemma_count_empty,
    lemma_count_push, lemma_group_bounds, lemma_group_end, lemma_group_start,
};
use crate::model::{is_sole_match, next_file_index, previous_file_index, ListModel};
use vstd::prelude::*;
use vstd::std_specs::iter::IteratorSpec;

verus! {

/// The selection of a list: the index of the selected entry, or none.
#[derive(Copy, Clone)]
pub struct ListState(Option<usize>);

impl View for ListState {
    type V = Option<usize>;

    closed spec fn view(&self) -> Option<usize> {
        self.0
    }
}

impl Default for ListState {
    /// Nothing selected.
    fn default() -> (state: ListState)
        ensures
            state@ is None,
    {
        ListState(None)
    }
}

impl ListState {
    /// Replaces the selection.
    pub fn select(&mut self, index: Option<usize>)
        ensures
            final(self)@ == index,
    {
        self.0 = index;
    }

    /// The selected index, if any.
    pub fn selected(&self) -> (index: Option<usize>)
        ensures
            index == self@,
    {
        self.0
    }
}

/// A flat list of grouped search results with a selected match.
pub struct ResultList {
    entries: Vec<EntryType>,
    state: ListState,
}

impl View for ResultList {
    type V = ListModel;

    closed spec fn view(&self) -> ListModel {
        ListModel { entries: entries_view(self.entries@), selected: self.state@ }
    }
}

impl Default for ResultList {
    /// The list without entries and without a selection.
    fn default() -> (list: ResultList)
        ensures
            list.wf(),
            list@ == ListModel::empty(),
    {
        let list = ResultList { entries: Vec::new(), state: ListState::default() };
        assert(list@.entries =~= Seq::empty());
        list
    }
}

impl ResultList {
    /// The invariant of the list, which every operation keeps.
    pub open spec fn wf(&self) -> bool {
        self@.wf()
    }

    /// Appends the group of one file. A list without a selection selects its
    /// first match.
    pub fn add_entry(&mut self, mut entry: FileEntry)
        requires
            old(self).wf(),
            is_group(entry@),
        ensures
            final(self).wf(),
            final(self)@ == old(self)@.add_entry(entry@),
    {
        let ghost group = entry@;
        self.entries.append(&mut entry.0);
        proof {
            assert(entries_view(self.entries@) =~= old(self)@.entries + group);
            assert(self.entries.len() <= usize::MAX);
            old(self)@.lemma_add_entry_wf(group);
        }
        if self.state.selected().is_none() {
            self.state.select(Some(1));
        }
    }

    /// The entries in order, headers and matches interleaved. The last two
    /// clauses let a `for` loop run over the result.
    pub fn iter(&self) -> (entries: std::slice::Iter<'_, EntryType>)
        ensures
            entries.remaining().len() == self@.entries.len(),
            forall|i: int|
                0 <= i < self@.entries.len() ==> (#[trigger] entries.remaining()[i])@
                    == self@.entries[i],
            entries.decrease() is Some,
            entries.initial_value_relation(&entries),
    {
        self.entries.iter()
    }

    /// Removes every entry and the selection.
    pub fn clear(&mut self)
        ensures
            final(self).wf(),
            final(self)@ == old(self)@.clear(),
    {
        self.entries.clear();
        self.state.select(None);
        assert(self@.entries =~= Seq::empty());
    }

    /// Whether the list holds no entry.
    pub fn is_empty(&self) -> (empty: bool)
        ensures
            empty == (self@.entries.len() == 0),
    {
        self.entries.is_empty()
    }

    /// Moves the selection to the next match, across a header if need be.
    pub fn next_match(&mut self)
        requires
            old(self).wf(),
        ensures
            final(self).wf(),
            final(self)@ == old(self)@.next_match(),
    {
        if self.is_empty() {
            return ;
        }
        proof {
            self@.lemma_navigation_wf();
        }
        let index = match self.state.selected() {
            Some(i) => {
                if i == self.entries.len() - 1 {
                    i
                } else {
                    match self.entries[i + 1] {
                        EntryType::Header(_) => i + 2,
                        EntryType::Match(_, _) => i + 1,
                    }
                }
            },
            None => 1,
        };
        self.state.select(Some(index));
    }

    /// Moves the selection to the previous match, across a header if need be.
    pub fn previous_match(&mut self)
        requires
            old(self).wf(),
        ensures
            final(self).wf(),
            final(self)@ == old(self)@.previous_match(),
    {
        if self.is_empty() {
            return ;
        }
        proof {
            self@.lemma_navigation_wf();
        }
        let index = match self.state.selected() {
            Some(i) => {
                if i == 1 {
                    1
                } else {
                    match self.entries[i - 1] {
                        EntryType::Header(_) => i - 2,
                        EntryType::Match(_, _) => i - 1,
                    }
                }
            },
            None => 1,
        };
        self.state.select(Some(index));
    }

    /// Moves the selection to the first match of the next file, if there is
    /// a next file.
    pub fn next_file(&mut self)
        requires
            old(self).wf(),
        ensures
            final(self).wf(),
            final(self)@ == old(self)@.next_file(),
    {
        if self.is_empty() {
            return ;
        }
        proof {
            self@.lemma_navigation_wf();
        }
        let index = match self.state.selected() {
            Some(i) => {
                let ghost s = self@.entries;
                let mut next_index = i;
                loop
                    invariant_except_break
                        i <= next_index < self.entries.len(),
                        group_end(s, next_index as int) == group_end(s, i as int),
                    invariant
                        s == self@.entries,
                        self.wf(),
                        self.entries.len() == s.len(),
                    ensures
                        next_index == next_file_index(s, i as int),
                    decreases self.entries.len() - next_index,
                {
                    if next_index == self.entries.len() - 1 {
                        next_index = i;
                        break ;
                    }
                    next_index += 1;
                    match self.entries[next_index] {
                        EntryType::Header(_) => {
                            next_index += 1;
                            break ;
                        },
                        EntryType::Match(_, _) => continue ,
                    }
                }
                next_index
            },
            None => 1,
        };
        self.state.select(Some(index));
    }

    /// Moves the selection to the first match of the previous file, or to the
    /// first match of the list when the selection is in the first file.
    pub fn previous_file(&mut self)
        requires
            old(self).wf(),
        ensures
            final(self).wf(),
            final(self)@ == old(self)@.previous_file(),
    {
        if self.is_empty() {
            return ;
        }
        proof {
            self@.lemma_navigation_wf();
        }
        let index = match self.state.selected() {
            Some(i) => {
                let ghost s = self@.entries;
                let ghost h = group_start(s, i as int);
                proof {
                    lemma_group_start(s, i as int);
                }
                let mut next_index = i;
                let mut first_header_visited = false;
                loop
                    invariant_except_break
                        1 <= next_index < self.entries.len(),
                        s[next_index as int] is Match,
                        !first_header_visited ==> group_start(s, next_index as int) == h,
                        first_header_visited ==> h > 0 && group_start(s, next_index as int)
                            == group_start(s, h - 1),
                    invariant
                        s == self@.entries,
                        self.wf(),
                        self.entries.len() == s.len(),
                        h == group_start(s, i as int),
                    ensures
                        next_index == previous_file_index(s, i as int),
                    decreases next_index,
                {
                    if next_index == 1 {
                        assert(group_start(s, 0) == 0);
                        break ;
                    }
                    next_index -= 1;
                    assert(group_start(s, next_index as int + 1) == group_start(
                        s,
                        next_index as int,
                    ));
                    match self.entries[next_index] {
                        EntryType::Header(_) => {
                            if !first_header_visited {
                                first_header_visited = true;
                                assert(s[next_index as int - 1] is Match);
                                next_index -= 1;
                            } else {
                                next_index += 1;
                                break ;
                            }
                        },
                        EntryType::Match(_, _) => continue ,
                    }
                }
                next_index
            },
            None => 1,
        };
        self.state.select(Some(index));
    }

    /// Selects the first match.
    pub fn top(&mut self)
        requires
            old(self).wf(),
        ensures
            final(self).wf(),
            final(self)@ == old(self)@.top(),
    {
        if self.is_empty() {
            return ;
        }
        proof {
            self@.lemma_navigation_wf();
        }
        self.state.select(Some(1));
    }

    /// Selects the last match.
    pub fn bottom(&mut self)
        requires
            old(self).wf(),
        ensures
            final(self).wf(),
            final(self)@ == old(self)@.bottom(),
    {
        if self.is_empty() {
            return ;
        }
        proof {
            self@.lemma_navigation_wf();
        }
        self.state.select(Some(self.entries.len() - 1));
    }

    /// Removes the selected match; with it goes its file, when the file has
    /// no other match.
    pub fn remove_current_entry(&mut self)
        requires
            old(self).wf(),
        ensures
            final(self).wf(),
            final(self)@ == old(self)@.remove_current_entry(),
    {
        if self.is_empty() {
            return ;
        }
        if self.is_last_match_in_file() {
            self.remove_current_file();
        } else {
            self.remove_current_entry_and_select_previous();
        }
    }

    /// Removes the file of the selected match: its header and all its matches.
    pub fn remove_current_file(&mut self)
        requires
            old(self).wf(),
        ensures
            final(self).wf(),
            final(self)@ == old(self)@.remove_current_file(),
    {
        if self.is_empty() {
            return ;
        }
        let selected_index = self.state.selected().unwrap();
        let ghost s = self@.entries;
        let ghost stored = self.entries@;
        proof {
            lemma_group_bounds(s, selected_index as int);
            self@.lemma_remove_current_file_wf();
        }

        let mut current_file_header_index: usize = 0;
        let mut index = selected_index;
        while index > 0
            invariant_except_break
                index <= selected_index,
                group_start(s, index as int) == group_start(s, selected_index as int),
                s[index as int] is Match,
                current_file_header_index == 0,
            invariant
                s == self@.entries,
                selected_index < s.len(),
            ensures
                current_file_header_index == group_start(s, selected_index as int),
            decreases index,
        {
            index -= 1;
            assert(group_start(s, index as int + 1) == group_start(s, index as int));
            if self.is_header(index) {
                current_file_header_index = index;
                break ;
            }
        }

        let mut next_file_header_index = self.entries.len();
        let mut index = selected_index;
        while index < self.entries.len()
            invariant_except_break
                selected_index <= index <= s.len(),
                index == selected_index || group_end(s, index - 1) == group_end(
                    s,
                    selected_index as int,
                ),
                index > selected_index ==> s[index - 1] is Match,
                next_file_header_index == s.len(),
            invariant
                s == self@.entries,
                s.len() == self.entries.len(),
                selected_index < s.len(),
                s[selected_index as int] is Match,
            ensures
                next_file_header_index == group_end(s, selected_index as int),
            decreases self.entries.len() - index,
        {
            if self.is_header(index) {
                next_file_header_index = index;
                break ;
            }
            index += 1;
        }

        let span = next_file_header_index - current_file_header_index;
        for removed in 0..span
            invariant
                self.state == old(self).state,
                stored.len() == s.len(),
                current_file_header_index + span == next_file_header_index <= stored.len(),
                self.entries@ == stored.subrange(0, current_file_header_index as int)
                    + stored.subrange(current_file_header_index + removed, stored.len() as int),
        {
            self.entries.remove(current_file_header_index);
        }
        assert(self@.entries =~= s.subrange(0, current_file_header_index as int) + s.subrange(
            next_file_header_index as int,
            s.len() as int,
        ));

        if self.entries.is_empty() {
            self.state.select(None);
        } else {
            if selected_index != 1 {
                let previous = current_file_header_index.saturating_sub(1);
                self.state.select(Some(if previous > 1 { previous } else { 1 }));
            }
        }
    }

    /// Whether the entry at `index` is a header.
    fn is_header(&self, index: usize) -> (header: bool)
        requires
            index < self@.entries.len(),
        ensures
            header == (self@.entries[index as int] is Header),
    {
        match self.entries[index] {
            EntryType::Header(_) => true,
            EntryType::Match(_, _) => false,
        }
    }

    /// Whether the selected match is the only match left in its file.
    fn is_last_match_in_file(&self) -> (last: bool)
        requires
            self.wf(),
            self@.entries.len() > 0,
        ensures
            last == is_sole_match(self@.entries, self@.selected->0 as int),
    {
        let current_index = self.state.selected().unwrap();
        proof {
            lemma_group_bounds(self@.entries, current_index as int);
            lemma_group_start(self@.entries, current_index as int);
            lemma_group_end(self@.entries, current_index as int);
        }
        if self.is_header(current_index - 1) {
            if current_index == self.entries.len() - 1 || self.is_header(current_index + 1) {
                true
            } else {
                false
            }
        } else {
            false
        }
    }

    /// Removes the selected match, which is not the only one of its file. The
    /// selection stays where it is when a match of the file slides into its
    /// place, and moves one back otherwise.
    fn remove_current_entry_and_select_previous(&mut self)
        requires
            old(self).wf(),
            old(self)@.entries.len() > 0,
            !is_sole_match(old(self)@.entries, old(self)@.selected->0 as int),
        ensures
            final(self).wf(),
            final(self)@ == old(self)@.remove_current_entry(),
    {
        let selected_index = self.state.selected().unwrap();
        proof {
            self@.lemma_remove_current_entry_wf();
        }
        self.entries.remove(selected_index);
        assert(self@.entries =~= old(self)@.entries.remove(selected_index as int));
        if selected_index >= self.entries.len() || self.is_header(selected_index) {
            self.state.select(Some(selected_index - 1));
        }
    }

    /// The file name and the line number of the selected match.
    pub fn get_selected_entry(&self) -> (selected: Option<(&str, u64)>)
        requires
            self.wf(),
        ensures
            match selected {
                Some((name, line_number)) => self@.selected_entry() == Some((name@, line_number)),
                None => self@.selected_entry() is None,
            },
    {
        match self.state.selected() {
            Some(i) => {
                let ghost s = self@.entries;
                let mut line_number: Option<u64> = None;
                let mut index = i;
                loop
                    invariant
                        s == self@.entries,
                        self.wf(),
                        self@.selected == Some(i),
                        index <= i < s.len(),
                        group_start(s, index as int) == group_start(s, i as int),
                        line_number == if index == i {
                            None
                        } else {
                            Some(s[i as int]->Match_0)
                        },
                    decreases index,
                {
                    match &self.entries[index] {
                        EntryType::Header(name) => {
                            return Some((name.as_str(), line_number.unwrap()));
                        },
                        EntryType::Match(number, _) => {
                            if line_number.is_none() {
                                line_number = Some(*number);
                            }
                        },
                    }
                    index -= 1;
                }
            },
            None => None,
        }
    }

    /// A copy of the selection.
    pub fn get_state(&self) -> (state: ListState)
        ensures
            state@ == self@.selected,
    {
        self.state
    }

    /// The rank of the selected match among all matches, counted from one;
    /// zero when nothing is selected.
    pub fn get_current_match_index(&self) -> (rank: usize)
        requires
            self.wf(),
        ensures
            rank == self@.current_match_index(),
    {
        match self.state.selected() {
            Some(selected) => {
                let mut count: usize = 0;
                let mut index: usize = 0;
                proof {
                    lemma_count_empty();
                }
                while index < selected
                    invariant
                        index <= selected < self@.entries.len(),
                        count <= index,
                        count == count_matches(self@.entries.subrange(0, index as int)),
                    decreases selected - index,
                {
                    proof {
                        let s = self@.entries;
                        lemma_count_push(s.subrange(0, index as int), s[index as int]);
                        assert(s.subrange(0, index as int).push(s[index as int]) =~= s.subrange(
                            0,
                            index + 1,
                        ));
                    }
                    if !self.is_header(index) {
                        count += 1;
                    }
                    index += 1;
                }
                count + 1
            },
            None => 0,
        }
    }

    /// The number of matches in the list.
    pub fn get_number_of_matches(&self) -> (count: usize)
        ensures
            count == self@.number_of_matches(),
    {
        let mut count: usize = 0;
        let mut index: usize = 0;
        proof {
            lemma_count_empty();
        }
        while index < self.entries.len()
            invariant
                index <= self.entries.len() == self@.entries.len(),
                count <= index,
                count == count_matches(self@.entries.subrange(0, index as int)),
            decreases self.entries.len() - index,
        {
            proof {
                let s = self@.entries;
                lemma_count_push(s.subrange(0, index as int), s[index as int]);
                assert(s.subrange(0, index as int).push(s[index as int]) =~= s.subrange(
                    0,
                    index + 1,
                ));
            }
            if !self.is_header(index) {
                count += 1;
            }
            index += 1;
        }
        assert(self@.entries.subrange(0, index as int) =~= self@.entries);
        count
    }

    /// The number of files in the list.
    pub fn get_number_of_file_entries(&self) -> (count: usize)
        ensures
            count == self@.number_of_file_entries(),
    {
        let mut count: usize = 0;
        let mut index: usize = 0;
        proof {
            lemma_count_empty();
        }
        while index < self.entries.len()
            invariant
                index <= self.entries.len() == self@.entries.len(),
                count <= index,
                count == count_headers(self@.entries.subrange(0, index as int)),
            decreases self.entries.len() - index,
        {
            proof {
                let s = self@.entries;
                lemma_count_push(s.subrange(0, index as int), s[index as int]);
                assert(s.subrange(0, index as int).push(s[index as int]) =~= s.subrange(
                    0,
                    index + 1,
                ));
            }
            if self.is_header(index) {
                count += 1;
            }
            index += 1;
        }
        assert(self@.entries.subrange(0, index as int) =~= self@.entries);
        count
    }
}

} // verus!
