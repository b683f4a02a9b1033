use result_list::{EntryType, FileEntry, ListState, Match, ResultList};

fn header(name: &str) -> EntryType {
    EntryType::Header(name.to_string())
}

fn line(number: u64, text: &str) -> EntryType {
    EntryType::Match(number, text.to_string())
}

fn entries(list: &ResultList) -> Vec<&EntryType> {
    list.iter().collect()
}

fn assert_entries(list: &ResultList, expected: Vec<EntryType>) {
    assert_eq!(entries(list), expected.iter().collect::<Vec<&EntryType>>());
}

fn selected(list: &ResultList) -> Option<usize> {
    list.get_state().selected()
}

/// a.txt with two matches, then b.txt with one.
fn two_files() -> ResultList {
    let mut list = ResultList::default();
    list.add_entry(FileEntry::new(
        "a.txt",
        vec![Match::new(10, "foo"), Match::new(20, "bar")],
    ));
    list.add_entry(FileEntry::new("b.txt", vec![Match::new(5, "baz")]));
    list
}

/// Three files with 2, 1 and 3 matches: indices 0..=8, headers at 0, 3, 5.
fn three_files() -> ResultList {
    let mut list = ResultList::default();
    list.add_entry(FileEntry::new(
        "one",
        vec![Match::new(1, "a"), Match::new(2, "b")],
    ));
    list.add_entry(FileEntry::new("two", vec![Match::new(3, "c")]));
    list.add_entry(FileEntry::new(
        "three",
        vec![Match::new(4, "d"), Match::new(5, "e"), Match::new(6, "f")],
    ));
    list
}

fn select(list: &mut ResultList, index: usize) {
    list.top();
    while selected(list) != Some(index) {
        let before = selected(list);
        list.next_match();
        assert_ne!(selected(list), before, "index {} is not a match", index);
    }
}

#[test]
fn test_empty_list() {
    let mut list = ResultList::default();
    assert_eq!(list.get_state().selected(), None);
    list.next_match();
    assert_eq!(list.get_state().selected(), None);
    list.previous_match();
    assert_eq!(list.get_state().selected(), None);
}

#[test]
fn test_add_entry() {
    let mut list = ResultList::default();
    list.add_entry(FileEntry::new("entry1", vec![Match::new(0, "e1m1")]));
    assert_eq!(list.iter().count(), 2);
    assert_eq!(list.get_state().selected(), Some(1));

    list.add_entry(FileEntry::new(
        "entry2",
        vec![Match::new(0, "e1m2"), Match::new(0, "e2m2")],
    ));
    assert_eq!(list.iter().count(), 5);
    assert_eq!(list.get_state().selected(), Some(1));
}

#[test]
fn list_state_holds_what_was_selected() {
    let mut state = ListState::default();
    assert_eq!(state.selected(), None);
    state.select(Some(7));
    assert_eq!(state.selected(), Some(7));
    let copy = state;
    state.select(None);
    assert_eq!(state.selected(), None);
    assert_eq!(copy.selected(), Some(7));
}

#[test]
fn file_entry_is_header_then_matches_in_order() {
    let entry = FileEntry::new(
        "src/main.rs",
        vec![Match::new(30, "third"), Match::new(7, "first"), Match::new(7, "again")],
    );
    assert_eq!(
        entry.0,
        vec![
            header("src/main.rs"),
            line(30, "third"),
            line(7, "first"),
            line(7, "again"),
        ]
    );
}

#[test]
fn iter_yields_entries_in_order() {
    let list = two_files();
    assert_entries(&list, vec![
            header("a.txt"),
            line(10, "foo"),
            line(20, "bar"),
            header("b.txt"),
            line(5, "baz"),
        ]);
    // a second traversal starts over
    assert_eq!(list.iter().count(), 5);
    assert_eq!(list.iter().next(), Some(&header("a.txt")));
}

#[test]
fn scenario_two_files() {
    let mut list = two_files();
    assert_eq!(selected(&list), Some(1));
    assert_eq!(list.get_selected_entry(), Some(("a.txt", 10)));

    list.next_match();
    assert_eq!(selected(&list), Some(2));
    assert_eq!(list.get_selected_entry(), Some(("a.txt", 20)));

    list.next_file();
    assert_eq!(selected(&list), Some(4));
    assert_eq!(list.get_selected_entry(), Some(("b.txt", 5)));

    list.remove_current_file();
    assert_entries(&list, vec![header("a.txt"), line(10, "foo"), line(20, "bar")]);
    // the last match of the file before the removed one
    assert_eq!(selected(&list), Some(2));
    assert_eq!(list.get_selected_entry(), Some(("a.txt", 20)));
}

#[test]
fn every_operation_is_a_no_op_on_an_empty_list() {
    let mut list = ResultList::default();
    assert!(list.is_empty());
    list.next_match();
    list.previous_match();
    list.next_file();
    list.previous_file();
    list.top();
    list.bottom();
    list.remove_current_entry();
    list.remove_current_file();
    assert!(list.is_empty());
    assert_eq!(selected(&list), None);
    assert_eq!(list.get_selected_entry(), None);
    assert_eq!(list.get_current_match_index(), 0);
    assert_eq!(list.get_number_of_matches(), 0);
    assert_eq!(list.get_number_of_file_entries(), 0);
    assert_eq!(list.iter().count(), 0);
}

#[test]
fn stored_entries_are_groups_of_a_header_and_matches() {
    let list = three_files();
    let all = entries(&list);
    assert!(matches!(all[0], EntryType::Header(_)));
    assert!(matches!(all[all.len() - 1], EntryType::Match(_, _)));
    for i in 0..all.len() - 1 {
        if matches!(all[i], EntryType::Header(_)) {
            assert!(matches!(all[i + 1], EntryType::Match(_, _)));
        }
    }
    let headers: Vec<usize> = (0..all.len())
        .filter(|&i| matches!(all[i], EntryType::Header(_)))
        .collect();
    assert_eq!(headers, vec![0, 3, 5]);
}

#[test]
fn navigation_never_selects_a_header() {
    let mut list = three_files();
    let same = three_files();
    let all = entries(&same);
    let on_match = |list: &ResultList| {
        let index = list.get_state().selected().unwrap();
        matches!(all[index], EntryType::Match(_, _))
    };
    for start in [1usize, 2, 4, 6, 7, 8] {
        select(&mut list, start);
        list.next_match();
        assert!(on_match(&list));
        select(&mut list, start);
        list.previous_match();
        assert!(on_match(&list));
        select(&mut list, start);
        list.next_file();
        assert!(on_match(&list));
        select(&mut list, start);
        list.previous_file();
        assert!(on_match(&list));
        list.top();
        assert!(on_match(&list));
        list.bottom();
        assert!(on_match(&list));
    }
}

#[test]
fn next_match_steps_over_headers() {
    let mut list = three_files();
    let mut visited = vec![selected(&list).unwrap()];
    for _ in 0..7 {
        list.next_match();
        visited.push(selected(&list).unwrap());
    }
    assert_eq!(visited, vec![1, 2, 4, 6, 7, 8, 8, 8]);
}

#[test]
fn previous_match_steps_over_headers() {
    let mut list = three_files();
    list.bottom();
    let mut visited = vec![selected(&list).unwrap()];
    for _ in 0..7 {
        list.previous_match();
        visited.push(selected(&list).unwrap());
    }
    assert_eq!(visited, vec![8, 7, 6, 4, 2, 1, 1, 1]);
}

#[test]
fn next_then_previous_returns_except_at_the_last_match() {
    let mut list = three_files();
    for start in [1usize, 2, 4, 6, 7] {
        select(&mut list, start);
        list.next_match();
        list.previous_match();
        assert_eq!(selected(&list), Some(start));
    }
    select(&mut list, 8);
    list.next_match();
    assert_eq!(selected(&list), Some(8));
    list.previous_match();
    assert_eq!(selected(&list), Some(7));
}

#[test]
fn previous_then_next_returns_except_at_the_first_match() {
    let mut list = three_files();
    for start in [2usize, 4, 6, 7, 8] {
        select(&mut list, start);
        list.previous_match();
        list.next_match();
        assert_eq!(selected(&list), Some(start));
    }
    select(&mut list, 1);
    list.previous_match();
    assert_eq!(selected(&list), Some(1));
    list.next_match();
    assert_eq!(selected(&list), Some(2));
}

#[test]
fn single_match_list_stays_on_its_match() {
    let mut list = ResultList::default();
    list.add_entry(FileEntry::new("only", vec![Match::new(3, "x")]));
    list.next_match();
    assert_eq!(selected(&list), Some(1));
    list.previous_match();
    assert_eq!(selected(&list), Some(1));
    list.next_file();
    assert_eq!(selected(&list), Some(1));
    list.previous_file();
    assert_eq!(selected(&list), Some(1));
    list.bottom();
    assert_eq!(selected(&list), Some(1));
    list.top();
    assert_eq!(selected(&list), Some(1));
    assert_eq!(list.get_current_match_index(), 1);
}

#[test]
fn next_file_selects_the_first_match_of_the_next_file() {
    let mut list = three_files();
    list.next_file();
    assert_eq!(selected(&list), Some(4));
    list.next_file();
    assert_eq!(selected(&list), Some(6));
    // already in the last file
    list.next_file();
    assert_eq!(selected(&list), Some(6));
    select(&mut list, 8);
    list.next_file();
    assert_eq!(selected(&list), Some(8));
    select(&mut list, 2);
    list.next_file();
    assert_eq!(selected(&list), Some(4));
}

#[test]
fn previous_file_selects_the_first_match_of_the_previous_file() {
    let mut list = three_files();
    select(&mut list, 8);
    list.previous_file();
    assert_eq!(selected(&list), Some(4));
    list.previous_file();
    assert_eq!(selected(&list), Some(1));
    list.previous_file();
    assert_eq!(selected(&list), Some(1));
    // from inside the first file
    select(&mut list, 2);
    list.previous_file();
    assert_eq!(selected(&list), Some(1));
    // from the first match of a later file
    select(&mut list, 6);
    list.previous_file();
    assert_eq!(selected(&list), Some(4));
}

#[test]
fn top_and_bottom() {
    let mut list = three_files();
    list.bottom();
    assert_eq!(selected(&list), Some(8));
    assert_eq!(list.get_selected_entry(), Some(("three", 6)));
    list.top();
    assert_eq!(selected(&list), Some(1));
    assert_eq!(list.get_selected_entry(), Some(("one", 1)));
}

#[test]
fn match_index_counts_from_one_to_the_number_of_matches() {
    let mut list = three_files();
    assert_eq!(list.get_number_of_matches(), 6);
    assert_eq!(list.get_number_of_file_entries(), 3);
    let mut ranks = vec![list.get_current_match_index()];
    for _ in 0..6 {
        list.next_match();
        ranks.push(list.get_current_match_index());
    }
    assert_eq!(ranks, vec![1, 2, 3, 4, 5, 6, 6]);
}

#[test]
fn selected_entry_names_the_file_and_the_line() {
    let mut list = three_files();
    select(&mut list, 7);
    assert_eq!(list.get_selected_entry(), Some(("three", 5)));
    select(&mut list, 4);
    assert_eq!(list.get_selected_entry(), Some(("two", 3)));
    select(&mut list, 2);
    assert_eq!(list.get_selected_entry(), Some(("one", 2)));
}

#[test]
fn remove_current_entry_in_the_middle_selects_the_following_match() {
    let mut list = three_files();
    select(&mut list, 7);
    list.remove_current_entry();
    assert_entries(&list, vec![
            header("one"),
            line(1, "a"),
            line(2, "b"),
            header("two"),
            line(3, "c"),
            header("three"),
            line(4, "d"),
            line(6, "f"),
        ]);
    assert_eq!(selected(&list), Some(7));
    assert_eq!(list.get_selected_entry(), Some(("three", 6)));
}

#[test]
fn remove_current_entry_at_the_end_of_the_list_selects_the_match_before() {
    let mut list = three_files();
    select(&mut list, 8);
    list.remove_current_entry();
    assert_eq!(list.iter().count(), 8);
    assert_eq!(selected(&list), Some(7));
    assert_eq!(list.get_selected_entry(), Some(("three", 5)));
}

#[test]
fn remove_current_entry_before_a_header_selects_the_match_before() {
    let mut list = three_files();
    select(&mut list, 2);
    list.remove_current_entry();
    assert_entries(&list, vec![
            header("one"),
            line(1, "a"),
            header("two"),
            line(3, "c"),
            header("three"),
            line(4, "d"),
            line(5, "e"),
            line(6, "f"),
        ]);
    assert_eq!(selected(&list), Some(1));
}

#[test]
fn remove_current_entry_of_a_single_match_file_removes_the_file() {
    let mut list = three_files();
    select(&mut list, 4);
    list.remove_current_entry();
    assert_entries(&list, vec![
            header("one"),
            line(1, "a"),
            line(2, "b"),
            header("three"),
            line(4, "d"),
            line(5, "e"),
            line(6, "f"),
        ]);
    assert_eq!(selected(&list), Some(2));
    assert_eq!(list.get_number_of_file_entries(), 2);
}

#[test]
fn removing_every_match_of_a_file_removes_the_file() {
    for start in [6usize, 7, 8] {
        let mut one_by_one = three_files();
        select(&mut one_by_one, start);
        one_by_one.remove_current_entry();
        assert_eq!(one_by_one.get_number_of_file_entries(), 3);
        one_by_one.remove_current_entry();
        assert_eq!(one_by_one.get_number_of_file_entries(), 3);
        one_by_one.remove_current_entry();
        assert_eq!(one_by_one.get_number_of_file_entries(), 2);

        let mut at_once = three_files();
        select(&mut at_once, start);
        at_once.remove_current_file();

        assert_eq!(entries(&one_by_one), entries(&at_once));
        assert_eq!(selected(&one_by_one), selected(&at_once));
        assert_eq!(selected(&one_by_one), Some(4));
    }
}

#[test]
fn remove_current_file_removes_one_header_and_its_matches() {
    let mut list = three_files();
    select(&mut list, 7);
    list.remove_current_file();
    assert_entries(&list, vec![
            header("one"),
            line(1, "a"),
            line(2, "b"),
            header("two"),
            line(3, "c"),
        ]);
    assert_eq!(list.get_number_of_matches(), 3);
    assert_eq!(list.get_number_of_file_entries(), 2);
    assert_eq!(selected(&list), Some(4));
    assert_eq!(list.get_selected_entry(), Some(("two", 3)));
}

#[test]
fn remove_current_file_in_the_middle_selects_the_last_match_before() {
    let mut list = three_files();
    select(&mut list, 4);
    list.remove_current_file();
    assert_eq!(list.get_number_of_matches(), 5);
    assert_eq!(list.get_number_of_file_entries(), 2);
    assert_eq!(selected(&list), Some(2));
    assert_eq!(list.get_selected_entry(), Some(("one", 2)));
}

#[test]
fn remove_current_file_of_the_first_file_selects_the_new_first_match() {
    let mut list = three_files();
    list.remove_current_file();
    assert_entries(&list, vec![
            header("two"),
            line(3, "c"),
            header("three"),
            line(4, "d"),
            line(5, "e"),
            line(6, "f"),
        ]);
    assert_eq!(selected(&list), Some(1));
    assert_eq!(list.get_selected_entry(), Some(("two", 3)));

    let mut list = three_files();
    select(&mut list, 2);
    list.remove_current_file();
    assert_eq!(selected(&list), Some(1));
    assert_eq!(list.get_selected_entry(), Some(("two", 3)));
}

#[test]
fn removing_the_only_file_empties_the_list() {
    let mut list = ResultList::default();
    list.add_entry(FileEntry::new(
        "only",
        vec![Match::new(1, "x"), Match::new(2, "y")],
    ));
    list.next_match();
    list.remove_current_file();
    assert!(list.is_empty());
    assert_eq!(selected(&list), None);

    let mut list = ResultList::default();
    list.add_entry(FileEntry::new("only", vec![Match::new(1, "x")]));
    list.remove_current_entry();
    assert!(list.is_empty());
    assert_eq!(selected(&list), None);
    assert_eq!(list.get_current_match_index(), 0);
}

#[test]
fn add_entry_keeps_an_existing_selection() {
    let mut list = two_files();
    list.bottom();
    list.add_entry(FileEntry::new("c.txt", vec![Match::new(1, "qux")]));
    assert_eq!(selected(&list), Some(4));
    assert_eq!(list.iter().count(), 7);
    assert_eq!(list.get_number_of_file_entries(), 3);
}

#[test]
fn cleared_list_is_like_a_new_one() {
    let mut list = three_files();
    list.bottom();
    list.clear();
    assert!(list.is_empty());
    assert_eq!(selected(&list), None);
    assert_eq!(list.get_selected_entry(), None);
    assert_eq!(list.get_current_match_index(), 0);
    assert_eq!(list.get_number_of_matches(), 0);
    assert_eq!(list.get_number_of_file_entries(), 0);

    list.add_entry(FileEntry::new(
        "a.txt",
        vec![Match::new(10, "foo"), Match::new(20, "bar")],
    ));
    list.add_entry(FileEntry::new("b.txt", vec![Match::new(5, "baz")]));
    let fresh = two_files();
    assert_eq!(entries(&list), entries(&fresh));
    assert_eq!(selected(&list), selected(&fresh));
    assert_eq!(list.get_selected_entry(), fresh.get_selected_entry());
    assert_eq!(list.get_current_match_index(), fresh.get_current_match_index());
    assert_eq!(list.get_number_of_matches(), fresh.get_number_of_matches());
    assert_eq!(
        list.get_number_of_file_entries(),
        fresh.get_number_of_file_entries()
    );
}

#[test]
fn get_state_is_a_snapshot() {
    let mut list = two_files();
    let before = list.get_state();
    list.next_file();
    assert_eq!(before.selected(), Some(1));
    assert_eq!(list.get_state().selected(), Some(4));
}

#[test]
fn file_entry_without_matches_is_a_lone_header() {
    let entry = FileEntry::new("empty.txt", Vec::new());
    assert_eq!(entry.0, vec![header("empty.txt")]);
}

#[test]
fn counts_follow_every_removal() {
    let mut list = three_files();
    assert_eq!(list.get_number_of_matches(), 6);
    assert_eq!(list.get_number_of_file_entries(), 3);
    list.remove_current_entry();
    assert_eq!(list.get_number_of_matches(), 5);
    assert_eq!(list.get_number_of_file_entries(), 3);
    list.remove_current_entry();
    assert_eq!(list.get_number_of_matches(), 4);
    assert_eq!(list.get_number_of_file_entries(), 2);
    list.remove_current_file();
    assert_eq!(list.get_number_of_matches(), 3);
    assert_eq!(list.get_number_of_file_entries(), 1);
    assert_eq!(list.get_selected_entry(), Some(("three", 4)));
    assert_eq!(list.get_current_match_index(), 1);
    list.remove_current_file();
    assert_eq!(list.get_number_of_matches(), 0);
    assert_eq!(list.get_number_of_file_entries(), 0);
    assert!(list.is_empty());
}
