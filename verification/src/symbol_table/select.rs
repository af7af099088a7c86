//! Which entries of a table a caller asks for: those of one type, named by a
//! word, or those of one section.

use super::entry::EntryView;
use super::flags::SymbolType;
use super::table::{in_section, of_type, SymbolTable};
use vstd::prelude::*;

verus! {

/// The symbol type that a word selects: `objects`, `functions` or `files`.
/// Any other word selects none.
pub open spec fn symbol_type_named(word: Seq<char>) -> Option<SymbolType> {
    if word == "objects"@ {
        Some(SymbolType::Object)
    } else if word == "functions"@ {
        Some(SymbolType::Function)
    } else if word == "files"@ {
        Some(SymbolType::File)
    } else {
        None
    }
}

/// The entries of `t` that a caller asks for. A word that names a symbol type
/// selects the entries of that type, whatever the section asked for. Without
/// such a word, a section selects the entries that lie in it. Without either,
/// all entries are selected.
pub open spec fn selected(t: Seq<EntryView>, word: Option<&str>, section: Option<&str>) -> Seq<
    EntryView,
> {
    if word is Some && symbol_type_named(word->0@) is Some {
        of_type(t, symbol_type_named(word->0@)->0)
    } else if section is Some {
        in_section(t, section->0@)
    } else {
        t
    }
}

/// Whether two texts are the same.
pub(crate) fn same_text(a: &str, b: &str) -> (same: bool)
    ensures
        same == (a@ == b@),
{
    let a = a.to_owned();
    let b = b.to_owned();
    a == b
}

/// The symbol type that `word` selects, if it selects one.
pub fn symbol_type_of_selector(word: &str) -> (symbol_type: Option<SymbolType>)
    ensures
        symbol_type == symbol_type_named(word@),
{
    if same_text(word, "objects") {
        Some(SymbolType::Object)
    } else if same_text(word, "functions") {
        Some(SymbolType::Function)
    } else if same_text(word, "files") {
        Some(SymbolType::File)
    } else {
        None
    }
}

impl SymbolTable {
    /// The table of the entries that a caller asks for, in their order. See
    /// [`selected`] for which these are.
    pub fn select(self, word: Option<&str>, section: Option<&str>) -> (table: Self)
        ensures
            table@ == selected(self@, word, section),
    {
        let symbol_type = match word {
            Some(w) => symbol_type_of_selector(w),
            None => None,
        };
        match symbol_type {
            Some(t) => self.filter_by_type(t),
            None => match section {
                Some(s) => self.filter_by_section(s),
                None => self,
            },
        }
    }
}

} // verus!
