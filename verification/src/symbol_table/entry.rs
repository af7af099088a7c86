//! One line of the listing, and the grammar that reads it:
//!
//! ```text
//! address SP flags WS* section TAB WS* size WS* name
//! ```
//!
//! The address and the size are runs of hexadecimal digits, the flags are
//! seven columns of one character each, the section is all that stands before
//! the next tab, and the name is the rest of the line.

use super::error::{located, reported, steps, yields, ErrorKind, Failure, ParseError, Stop};
use super::flags::{read_flags, symbol_flags, SymbolTableFlags};
use crate::chars::{
    chars_of, find_tab, hex_alphabet, hex_digit, hex_run_end, hex_value, is_hex_digit,
    is_whitespace, lemma_hex_value_grows, lemma_run_end, scan_hex_digits, skip_whitespace,
    tab_position, whitespace_end,
};
use vstd::prelude::*;

verus! {

/// One symbol, as one line of the listing describes it.
#[derive(Debug, PartialEq, Eq)]
pub struct SymbolTableEntry {
    /// Where the symbol lies.
    pub address: u32,
    /// The seven flags.
    pub flags: SymbolTableFlags,
    /// The section that holds the symbol.
    pub section: String,
    /// The symbol's alignment or its size in bytes; which of the two, the
    /// listing does not say.
    pub alignment_or_size: u32,
    /// The symbol's name. It may hold spaces.
    pub name: String,
}

/// A symbol, with its texts as sequences of characters.
pub struct EntryView {
    pub address: u32,
    pub flags: SymbolTableFlags,
    pub section: Seq<char>,
    pub alignment_or_size: u32,
    pub name: Seq<char>,
}

impl View for SymbolTableEntry {
    type V = EntryView;

    open spec fn view(&self) -> EntryView {
        EntryView {
            address: self.address,
            flags: self.flags,
            section: self.section@,
            alignment_or_size: self.alignment_or_size,
            name: self.name@,
        }
    }
}

/// The views of a sequence of entries.
pub open spec fn entry_views(entries: Seq<SymbolTableEntry>) -> Seq<EntryView> {
    entries.map_values(|e: SymbolTableEntry| e@)
}

/// A hexadecimal number at position `at`: the longest run of hexadecimal
/// digits there, read in base sixteen. It fails where no digit stands at
/// `at`, and where the digits write a number that 32 bits cannot hold.
pub open spec fn hex_number(line: Seq<char>, at: int) -> Result<(int, u32), Failure> {
    let end = hex_run_end(line, at);
    let value = hex_value(line.subrange(at, end));
    if end == at {
        Err(Failure { at, code: ErrorKind::OneOf, expected: hex_alphabet() })
    } else if value > u32::MAX {
        Err(Failure { at, code: ErrorKind::TooLarge, expected: hex_alphabet() })
    } else {
        Ok((end, value as u32))
    }
}

/// The one space that parts the address from the flags.
pub open spec fn separator(line: Seq<char>, at: int) -> Result<(int, char), Failure> {
    if 0 <= at < line.len() && line[at] == ' ' {
        Ok((at + 1, ' '))
    } else {
        Err(Failure { at, code: ErrorKind::OneOf, expected: seq![' '] })
    }
}

/// The section name at position `at`: all characters up to the next tab, which
/// is left in place. It fails where no tab follows.
pub open spec fn section_name(line: Seq<char>, at: int) -> Result<(int, Seq<char>), Failure> {
    let end = tab_position(line, at);
    if end < line.len() {
        Ok((end, line.subrange(at, end)))
    } else {
        Err(Failure { at, code: ErrorKind::TakeUntil, expected: seq!['\t'] })
    }
}

/// The symbol's name at position `at`: the rest of the line. It fails where
/// nothing is left.
pub open spec fn symbol_name(line: Seq<char>, at: int) -> Result<(int, Seq<char>), Failure> {
    if at < line.len() {
        Ok((line.len() as int, line.skip(at)))
    } else {
        Err(Failure { at, code: ErrorKind::Eof, expected: Seq::empty() })
    }
}

/// What a line of the listing decodes to: the fields in their order, with
/// padding skipped before the section, the size and the name, or the failure
/// of the first field that does not match.
pub open spec fn symbol_table_entry(line: Seq<char>) -> Result<EntryView, Failure> {
    match hex_number(line, 0) {
        Err(f) => Err(f),
        Ok((at, address)) => match separator(line, at) {
            Err(f) => Err(f),
            Ok((at, _)) => match symbol_flags(line, at) {
                Err(f) => Err(f),
                Ok((at, flags)) => match section_name(line, whitespace_end(line, at)) {
                    Err(f) => Err(f),
                    Ok((at, section)) => match hex_number(line, whitespace_end(line, at)) {
                        Err(f) => Err(f),
                        Ok((at, alignment_or_size)) => match symbol_name(
                            line,
                            whitespace_end(line, at),
                        ) {
                            Err(f) => Err(f),
                            Ok((_, name)) => Ok(
                                EntryView { address, flags, section, alignment_or_size, name },
                            ),
                        },
                    },
                },
            },
        },
    }
}

/// Whether the result `r` of reading the line `line` is what the grammar
/// prescribes: the entry with nothing left behind it, or an error that
/// reports the grammar's failure.
pub open spec fn yields_entry<'a>(
    r: Result<(&'a str, SymbolTableEntry), ParseError<'a>>,
    line: Seq<char>,
) -> bool {
    match symbol_table_entry(line) {
        Ok(entry) => r matches Ok((rest, e)) && rest@.len() == 0 && e@ == entry,
        Err(f) => r matches Err(e) && e.reports(line, f),
    }
}

/// Every entry has all its fields: a section name without a tab and a name,
/// neither of them empty, neither starting with padding.
pub proof fn lemma_entry_is_fully_populated(line: Seq<char>)
    requires
        symbol_table_entry(line) is Ok,
    ensures
        ({
            let e = symbol_table_entry(line)->Ok_0;
            &&& e.section.len() > 0
            &&& !e.section.contains('\t')
            &&& !is_whitespace(e.section[0])
            &&& e.name.len() > 0
            &&& !is_whitespace(e.name[0])
        }),
{
    let p1 = hex_number(line, 0)->Ok_0.0;
    lemma_run_end(line, 0, |c: char| is_hex_digit(c));
    let p3 = p1 + 8;
    lemma_run_end(line, p3, |c: char| is_whitespace(c));
    let p4 = whitespace_end(line, p3);
    lemma_run_end(line, p4, |c: char| crate::chars::is_not_tab(c));
    let p5 = tab_position(line, p4);
    lemma_run_end(line, p5, |c: char| is_whitespace(c));
    let p6 = whitespace_end(line, p5);
    lemma_run_end(line, p6, |c: char| is_hex_digit(c));
    let p7 = hex_run_end(line, p6);
    lemma_run_end(line, p7, |c: char| is_whitespace(c));
    let p8 = whitespace_end(line, p7);
    let e = symbol_table_entry(line)->Ok_0;
    assert(e.section == line.subrange(p4, p5));
    assert(e.name == line.skip(p8));
    assert(line[p5] == '\t');
    assert(p4 < p5);
    assert(e.section[0] == line[p4]);
    assert(e.name[0] == line[p8]);
    assert forall|i: int| 0 <= i < e.section.len() implies e.section[i] != '\t' by {
        assert(e.section[i] == line[p4 + i]);
    }
}

/// The hexadecimal alphabet, as text.
pub(crate) fn hex_alphabet_text() -> (text: &'static str)
    ensures
        text@ == hex_alphabet(),
{
    proof {
        reveal_strlit("0123456789abcdefABCDEF");
    }
    assert("0123456789abcdefABCDEF"@ =~= hex_alphabet());
    "0123456789abcdefABCDEF"
}

/// Reads the hexadecimal number at position `from`.
pub(crate) fn read_hex(chars: &Vec<char>, from: usize) -> (r: Result<(usize, u32), Stop>)
    requires
        from <= chars.len(),
    ensures
        steps(r, hex_number(chars@, from as int)),
        r matches Ok((next, _)) ==> from < next <= chars.len(),
        r matches Err(e) ==> e.at == from,
{
    let end = scan_hex_digits(chars, from);
    if end == from {
        return Err(Stop { at: from, code: ErrorKind::OneOf, expected: hex_alphabet_text() });
    }
    let ghost digits = chars@.subrange(from as int, end as int);
    proof {
        lemma_run_end(chars@, from as int, |c: char| is_hex_digit(c));
    }
    let mut value: u32 = 0;
    let mut i: usize = from;
    while i < end
        invariant
            from <= i <= end <= chars.len(),
            digits == chars@.subrange(from as int, end as int),
            forall|j: int| from <= j < end ==> is_hex_digit(#[trigger] chars@[j]),
            value == hex_value(digits.take(i - from)),
            end == hex_run_end(chars@, from as int),
            from < end,
        decreases end - i,
    {
        let digit = match hex_digit(chars[i]) {
            Some(d) => d,
            None => 0,
        };
        proof {
            let longer = digits.take(i + 1 - from);
            assert(longer.drop_last() =~= digits.take(i - from));
            assert(longer.last() == chars@[i as int]);
            assert(hex_value(longer) == 16 * value + digit);
            lemma_hex_value_grows(digits, i + 1 - from);
        }
        if value > (u32::MAX - digit) / 16 {
            return Err(
                Stop { at: from, code: ErrorKind::TooLarge, expected: hex_alphabet_text() },
            );
        }
        value = value * 16 + digit;
        i += 1;
    }
    assert(digits.take(end - from) =~= digits);
    Ok((end, value))
}

/// Reads the hexadecimal number at the start of `input`: its longest run of
/// hexadecimal digits, in base sixteen.
pub fn parse_u32<'a>(input: &'a str) -> (r: Result<(&'a str, u32), ParseError<'a>>)
    ensures
        yields(r, input@, hex_number(input@, 0)),
{
    let chars = chars_of(input);
    located(input, &chars, read_hex(&chars, 0))
}

/// Reads the space that parts the address from the flags.
pub(crate) fn read_separator(chars: &Vec<char>, at: usize) -> (r: Result<(usize, char), Stop>)
    requires
        at <= chars.len(),
    ensures
        steps(r, separator(chars@, at as int)),
        r matches Ok((next, _)) ==> next == at + 1 && next <= chars.len(),
        r matches Err(e) ==> e.at == at,
{
    if at < chars.len() && chars[at] == ' ' {
        Ok((at + 1, ' '))
    } else {
        proof {
            reveal_strlit(" ");
        }
        assert(" "@ =~= seq![' ']);
        Err(Stop { at, code: ErrorKind::OneOf, expected: " " })
    }
}

/// Finds the section name that starts at position `from`: the result is the
/// position of the tab that ends it.
pub(crate) fn read_section(chars: &Vec<char>, from: usize) -> (r: Result<usize, Stop>)
    requires
        from <= chars.len(),
    ensures
        (match section_name(chars@, from as int) {
            Ok((next, _)) => r matches Ok(n) && n == next,
            Err(f) => r matches Err(e) && e.failure() == f,
        }),
        r matches Ok(next) ==> from <= next < chars.len(),
        r matches Err(e) ==> e.at == from,
{
    let end = find_tab(chars, from);
    if end < chars.len() {
        Ok(end)
    } else {
        proof {
            reveal_strlit("\t");
        }
        assert("\t"@ =~= seq!['\t']);
        Err(Stop { at: from, code: ErrorKind::TakeUntil, expected: "\t" })
    }
}

/// What reading a line by positions finds: the numbers and the flags, and
/// where the section and the name stand.
struct Fields {
    address: u32,
    flags: SymbolTableFlags,
    section_from: usize,
    section_to: usize,
    alignment_or_size: u32,
    name_from: usize,
}

impl Fields {
    /// The entry that these fields of `line` make up.
    spec fn entry(self, line: Seq<char>) -> EntryView {
        EntryView {
            address: self.address,
            flags: self.flags,
            section: line.subrange(self.section_from as int, self.section_to as int),
            alignment_or_size: self.alignment_or_size,
            name: line.skip(self.name_from as int),
        }
    }
}

/// Reads one line of the listing, by positions.
fn read_entry(chars: &Vec<char>) -> (r: Result<Fields, Stop>)
    ensures
        (match symbol_table_entry(chars@) {
            Ok(entry) => r matches Ok(fields) && fields.entry(chars@) == entry
                && fields.section_from <= fields.section_to <= chars.len() && fields.name_from
                <= chars.len(),
            Err(f) => r matches Err(e) && e.failure() == f && e.at <= chars.len(),
        }),
{
    let (at, address) = read_hex(chars, 0)?;
    let (at, _) = read_separator(chars, at)?;
    let (at, flags) = read_flags(chars, at)?;
    let section_from = skip_whitespace(chars, at);
    let section_to = read_section(chars, section_from)?;
    let at = skip_whitespace(chars, section_to);
    let (at, alignment_or_size) = read_hex(chars, at)?;
    let name_from = skip_whitespace(chars, at);
    if name_from >= chars.len() {
        proof {
            reveal_strlit("");
        }
        assert(""@ =~= Seq::<char>::empty());
        return Err(Stop { at: name_from, code: ErrorKind::Eof, expected: "" });
    }
    Ok(Fields { address, flags, section_from, section_to, alignment_or_size, name_from })
}

/// Reads one line of the listing. A line either matches the grammar in full
/// and gives an entry with every field, or gives no entry at all; what is
/// left of the line behind an entry is empty.
pub fn parse_symbol_table_entry<'a>(input: &'a str) -> (r: Result<
    (&'a str, SymbolTableEntry),
    ParseError<'a>,
>)
    ensures
        yields_entry(r, input@),
{
    let chars = chars_of(input);
    match read_entry(&chars) {
        Ok(fields) => {
            let section = input.substring_char(fields.section_from, fields.section_to).to_owned();
            let name = input.substring_char(fields.name_from, chars.len()).to_owned();
            assert(input@.subrange(fields.name_from as int, chars.len() as int) =~= input@.skip(
                fields.name_from as int,
            ));
            proof {
                reveal_strlit("");
            }
            Ok(
                (
                    "",
                    SymbolTableEntry {
                        address: fields.address,
                        flags: fields.flags,
                        section,
                        alignment_or_size: fields.alignment_or_size,
                        name,
                    },
                ),
            )
        },
        Err(stop) => Err(reported(input, &chars, stop)),
    }
}

} // verus!
