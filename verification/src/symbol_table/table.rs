//! The symbol table: the entries that a listing holds, in the order of its
//! lines until a sort is asked for.

use super::entry::{
    entry_views, parse_symbol_table_entry, symbol_table_entry, EntryView, SymbolTableEntry,
};
use super::flags::SymbolType;
use super::order::is_sort_by_size;
use super::sort::sort_by_size;
use vstd::prelude::*;

verus! {

/// An ordered collection of symbols. Two entries may share an address or a
/// name.
#[derive(Debug, PartialEq, Eq)]
pub struct SymbolTable(Vec<SymbolTableEntry>);

impl View for SymbolTable {
    type V = Seq<EntryView>;

    closed spec fn view(&self) -> Seq<EntryView> {
        entry_views(self.0@)
    }
}

/// The lines of a listing, each as a sequence of characters.
pub open spec fn line_views(lines: Seq<String>) -> Seq<Seq<char>> {
    lines.map_values(|line: String| line@)
}

/// The entry that a line decodes to, if it matches the grammar.
pub open spec fn entry_of_line(line: Seq<char>) -> Option<EntryView> {
    match symbol_table_entry(line) {
        Ok(entry) => Some(entry),
        Err(_) => None,
    }
}

/// The entries of a listing: one for each line that matches the grammar, in
/// the order of the lines. Lines that do not match leave no trace.
pub open spec fn entries_of_lines(lines: Seq<Seq<char>>) -> Seq<EntryView> {
    lines.filter_map(|line: Seq<char>| entry_of_line(line))
}

/// The lines of a listing that match the grammar.
pub open spec fn matching_lines(lines: Seq<Seq<char>>) -> Seq<Seq<char>> {
    lines.filter(|line: Seq<char>| symbol_table_entry(line) is Ok)
}

/// The entries of `t` of one type, in their order.
pub open spec fn of_type(t: Seq<EntryView>, symbol_type: SymbolType) -> Seq<EntryView> {
    t.filter(|e: EntryView| e.flags.symbol_type == symbol_type)
}

/// The entries of `t` that lie in one section, in their order.
pub open spec fn in_section(t: Seq<EntryView>, section: Seq<char>) -> Seq<EntryView> {
    t.filter(|e: EntryView| e.section == section)
}

/// A table loaded from a listing has as many entries as the listing has lines
/// that match the grammar.
pub proof fn lemma_one_entry_for_each_matching_line(lines: Seq<Seq<char>>)
    ensures
        entries_of_lines(lines).len() == matching_lines(lines).len(),
    decreases lines.len(),
{
    reveal(Seq::filter);
    if lines.len() > 0 {
        lemma_one_entry_for_each_matching_line(lines.drop_last());
    }
}

/// A line that does not match the grammar leaves no trace in the table: the
/// lines before it and behind it give the entries that they would give
/// without it.
pub proof fn lemma_unmatched_line_leaves_no_trace(
    before: Seq<Seq<char>>,
    line: Seq<char>,
    after: Seq<Seq<char>>,
)
    requires
        symbol_table_entry(line) is Err,
    ensures
        entries_of_lines(before + seq![line] + after) == entries_of_lines(before + after),
    decreases after.len(),
{
    if after.len() == 0 {
        assert(before + seq![line] + after =~= before.push(line));
        assert(before.push(line).drop_last() =~= before);
        assert(before + after =~= before);
    } else {
        let shorter = after.drop_last();
        lemma_unmatched_line_leaves_no_trace(before, line, shorter);
        assert((before + seq![line] + after).drop_last() =~= before + seq![line] + shorter);
        assert((before + after).drop_last() =~= before + shorter);
    }
}

/// What a listing gives depends on the text of its lines alone: reading the
/// same text again gives the same table.
pub proof fn lemma_same_lines_same_table(first: Seq<String>, second: Seq<String>)
    requires
        line_views(first) == line_views(second),
    ensures
        entries_of_lines(line_views(first)) == entries_of_lines(line_views(second)),
{
}

/// Filtering for a type that no entry has gives the empty table.
pub proof fn lemma_no_entry_of_type(t: Seq<EntryView>, symbol_type: SymbolType)
    requires
        forall|i: int| 0 <= i < t.len() ==> (#[trigger] t[i]).flags.symbol_type != symbol_type,
    ensures
        of_type(t, symbol_type).len() == 0,
{
    t.lemma_all_neg_filter_empty(|e: EntryView| e.flags.symbol_type == symbol_type);
}

/// Filtering for a section in which no entry lies gives the empty table.
pub proof fn lemma_no_entry_in_section(t: Seq<EntryView>, section: Seq<char>)
    requires
        forall|i: int| 0 <= i < t.len() ==> (#[trigger] t[i]).section != section,
    ensures
        in_section(t, section).len() == 0,
{
    t.lemma_all_neg_filter_empty(|e: EntryView| e.section == section);
}

impl SymbolTable {
    /// The empty table.
    pub fn new() -> (table: Self)
        ensures
            table@.len() == 0,
    {
        SymbolTable(Vec::new())
    }

    /// The table that holds `entries`, in their order.
    pub fn from_entries(entries: Vec<SymbolTableEntry>) -> (table: Self)
        ensures
            table@ == entry_views(entries@),
    {
        SymbolTable(entries)
    }

    /// Reads a listing. Each line that matches the grammar gives one entry;
    /// the entries stand in the order of their lines. A line that does not
    /// match is passed over, and the lines behind it are read all the same.
    pub fn from_lines(lines: &Vec<String>) -> (table: Self)
        ensures
            table@ == entries_of_lines(line_views(lines@)),
    {
        let ghost texts = line_views(lines@);
        let mut entries: Vec<SymbolTableEntry> = Vec::new();
        let mut i: usize = 0;
        while i < lines.len()
            invariant
                i <= lines.len(),
                texts == line_views(lines@),
                entry_views(entries@) == entries_of_lines(texts.take(i as int)),
            decreases lines.len() - i,
        {
            let ghost before = entry_views(entries@);
            match parse_symbol_table_entry(lines[i].as_str()) {
                Ok((_, entry)) => {
                    entries.push(entry);
                    assert(entry_views(entries@) =~= before + seq![entry@]);
                },
                Err(_) => {
                    assert(entry_views(entries@) =~= before + Seq::<EntryView>::empty());
                },
            }
            proof {
                assert(texts[i as int] == lines@[i as int]@);
                texts.lemma_filter_map_take_succ(|line: Seq<char>| entry_of_line(line), i as int);
            }
            i += 1;
        }
        assert(texts.take(lines@.len() as int) =~= texts);
        SymbolTable(entries)
    }

    /// How many entries the table holds.
    pub fn len(&self) -> (n: usize)
        ensures
            n == self@.len(),
    {
        self.0.len()
    }

    /// Whether the table holds no entry.
    pub fn is_empty(&self) -> (b: bool)
        ensures
            b == (self@.len() == 0),
    {
        self.0.len() == 0
    }

    /// The entry at position `i`, where the table has one there.
    pub fn get(&self, i: usize) -> (entry: Option<&SymbolTableEntry>)
        ensures
            (match entry {
                Some(e) => i < self@.len() && e@ == self@[i as int],
                None => i >= self@.len(),
            }),
    {
        if i < self.0.len() {
            Some(&self.0[i])
        } else {
            None
        }
    }

    /// The entries, in their order.
    pub fn entries(&self) -> (entries: &Vec<SymbolTableEntry>)
        ensures
            entry_views(entries@) == self@,
    {
        &self.0
    }

    /// Gives up the table for its entries, in their order.
    pub fn into_entries(self) -> (entries: Vec<SymbolTableEntry>)
        ensures
            entry_views(entries@) == self@,
    {
        self.0
    }

    /// Adds an entry behind the others.
    pub fn push(&mut self, entry: SymbolTableEntry)
        ensures
            final(self)@ == old(self)@.push(entry@),
    {
        self.0.push(entry);
        assert(entry_views(self.0@) =~= entry_views(old(self).0@).push(entry@));
    }

    /// Sorts the table by size, smallest first. Entries of equal size keep
    /// their order.
    pub fn sort_by_size_ascending(&mut self)
        ensures
            is_sort_by_size(final(self)@, old(self)@, false),
    {
        let mut entries: Vec<SymbolTableEntry> = Vec::new();
        std::mem::swap(&mut self.0, &mut entries);
        self.0 = sort_by_size(entries, false);
    }

    /// Sorts the table by size, largest first. Entries of equal size keep
    /// their order.
    pub fn sort_by_size_descending(&mut self)
        ensures
            is_sort_by_size(final(self)@, old(self)@, true),
    {
        let mut entries: Vec<SymbolTableEntry> = Vec::new();
        std::mem::swap(&mut self.0, &mut entries);
        self.0 = sort_by_size(entries, true);
    }

    /// The table of the entries of one type, in their order. Where no entry
    /// has the type, it is empty.
    pub fn filter_by_type(self, symbol_type: SymbolType) -> (filtered: Self)
        ensures
            filtered@ == of_type(self@, symbol_type),
    {
        let ghost all = self@;
        let mut kept: Vec<SymbolTableEntry> = Vec::new();
        assert(all.take(0) =~= Seq::<EntryView>::empty());
        assert(of_type(Seq::<EntryView>::empty(), symbol_type) =~= Seq::<EntryView>::empty()) by {
            reveal(Seq::filter);
        }
        for entry in it: self.0.into_iter()
            invariant
                entry_views(it.seq()) == all,
                entry_views(kept@) == of_type(all.take(it.index() as int), symbol_type),
        {
            proof {
                let i = it.index() as int;
                reveal(Seq::filter);
                assert(all.take(i + 1).drop_last() =~= all.take(i));
                assert(all.take(i + 1).last() == entry@);
            }
            let ghost before = entry_views(kept@);
            if entry.flags.symbol_type == symbol_type {
                kept.push(entry);
                assert(entry_views(kept@) =~= before.push(entry@));
            }
        }
        assert(all.take(all.len() as int) =~= all);
        SymbolTable(kept)
    }

    /// The table of the entries that lie in one section, in their order.
    /// Where no entry lies in it, it is empty.
    pub fn filter_by_section(self, section: &str) -> (filtered: Self)
        ensures
            filtered@ == in_section(self@, section@),
    {
        let ghost all = self@;
        let wanted: String = section.to_owned();
        let mut kept: Vec<SymbolTableEntry> = Vec::new();
        assert(all.take(0) =~= Seq::<EntryView>::empty());
        assert(in_section(Seq::<EntryView>::empty(), section@) =~= Seq::<EntryView>::empty()) by {
            reveal(Seq::filter);
        }
        for entry in it: self.0.into_iter()
            invariant
                wanted@ == section@,
                entry_views(it.seq()) == all,
                entry_views(kept@) == in_section(all.take(it.index() as int), section@),
        {
            proof {
                let i = it.index() as int;
                reveal(Seq::filter);
                assert(all.take(i + 1).drop_last() =~= all.take(i));
                assert(all.take(i + 1).last() == entry@);
            }
            let ghost before = entry_views(kept@);
            if entry.section == wanted {
                kept.push(entry);
                assert(entry_views(kept@) =~= before.push(entry@));
            }
        }
        assert(all.take(all.len() as int) =~= all);
        SymbolTable(kept)
    }
}

} // verus!
