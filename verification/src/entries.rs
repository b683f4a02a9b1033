//! The entries of a result list and the groups they arrive in.

use crate::grouping::is_group;
use vstd::prelude::*;

verus! {

/// The mathematical value of one entry of the flat sequence.
pub ghost enum Entry {
    /// Starts the group of one file and carries the file's name.
    Header(Seq<char>),
    /// One matching line: its line number and its text.
    Match(u64, Seq<char>),
}

/// One element of the flat sequence, as it is stored.
#[derive(Debug, PartialEq, Eq)]
pub enum EntryType {
    Header(String),
    Match(u64, String),
}

impl View for EntryType {
    type V = Entry;

    open spec fn view(&self) -> Entry {
        match self {
            EntryType::Header(name) => Entry::Header(name@),
            EntryType::Match(line_number, text) => Entry::Match(*line_number, text@),
        }
    }
}

/// The values of a stored sequence of entries, in order.
pub open spec fn entries_view(stored: Seq<EntryType>) -> Seq<Entry> {
    stored.map_values(|e: EntryType| e@)
}

/// One matching line of a file, before it is placed in a group.
pub struct Match {
    line_number: u64,
    text: String,
}

impl View for Match {
    type V = (u64, Seq<char>);

    closed spec fn view(&self) -> (u64, Seq<char>) {
        (self.line_number, self.text@)
    }
}

impl Match {
    pub fn new(line_number: u64, text: &str) -> (m: Match)
        ensures
            m@ == (line_number, text@),
    {
        Match { line_number, text: text.to_owned() }
    }
}

/// The entries of the group with the given file name and matches: the header
/// first, then one entry for each match, in the order given.
pub open spec fn group_of(name: Seq<char>, matches: Seq<(u64, Seq<char>)>) -> Seq<Entry> {
    seq![Entry::Header(name)] + matches.map_values(|m: (u64, Seq<char>)| Entry::Match(m.0, m.1))
}

/// The results found in one file: the file's header followed by its matches.
pub struct FileEntry(pub Vec<EntryType>);

impl View for FileEntry {
    type V = Seq<Entry>;

    open spec fn view(&self) -> Seq<Entry> {
        entries_view(self.0@)
    }
}

impl FileEntry {
    /// Builds the group of the file `name` from its matches.
    pub fn new(name: &str, matches: Vec<Match>) -> (entry: FileEntry)
        ensures
            entry@ == group_of(name@, matches@.map_values(|m: Match| m@)),
            is_group(entry@) <==> matches@.len() > 0,
    {
        let ghost values = matches@.map_values(|m: Match| m@);
        let mut entries: Vec<EntryType> = Vec::new();
        entries.push(EntryType::Header(name.to_owned()));
        for m in it: matches
            invariant
                it.seq() == matches@,
                values == matches@.map_values(|m: Match| m@),
                entries_view(entries@) == group_of(name@, values.take(it.index() as int)),
        {
            let ghost before = entries_view(entries@);
            entries.push(EntryType::Match(m.line_number, m.text));
            assert(entries_view(entries@) =~= before.push(
                Entry::Match(values[it.index() as int].0, values[it.index() as int].1),
            ));
        }
        FileEntry(entries)
    }
}

} // verus!
