//! The table as text and as HTML. Both are for display: they leave out the
//! flags and pad the names, so a table cannot be read back from them.

use super::entry::{entry_views, EntryView, SymbolTableEntry};
use super::table::SymbolTable;
use crate::html_utils::{end_tag_of, start_tag_of, HtmlElement, H1};
use vstd::prelude::*;

verus! {

/// How many bytes `text` takes in UTF-8.
pub open spec fn utf8_len(text: Seq<char>) -> nat {
    vstd::utf8::encode_utf8(text).len()
}

/// The width of the name column: the length in bytes of the longest name.
pub open spec fn name_width(t: Seq<EntryView>) -> nat
    decreases t.len(),
{
    if t.len() == 0 {
        0
    } else if name_width(t.drop_last()) >= utf8_len(t.last().name) {
        name_width(t.drop_last())
    } else {
        utf8_len(t.last().name)
    }
}

/// The width of the section column: the length in bytes of the longest
/// section name, and at least that of the column's heading.
pub open spec fn section_width(t: Seq<EntryView>) -> nat
    decreases t.len(),
{
    if t.len() == 0 {
        7
    } else if section_width(t.drop_last()) >= utf8_len(t.last().section) {
        section_width(t.drop_last())
    } else {
        utf8_len(t.last().section)
    }
}

/// `count` times the character `c`.
pub open spec fn repeated(c: char, count: nat) -> Seq<char> {
    Seq::new(count, |i: int| c)
}

/// `text`, with spaces behind it where it has fewer than `width` characters.
pub open spec fn padded(text: Seq<char>, width: nat) -> Seq<char> {
    if text.len() >= width {
        text
    } else {
        text + repeated(' ', (width - text.len()) as nat)
    }
}

/// Sixteen to the power of `n`.
pub open spec fn pow16(n: nat) -> nat
    decreases n,
{
    if n == 0 {
        1
    } else {
        16 * pow16((n - 1) as nat)
    }
}

/// The hexadecimal digits, in lower case.
pub open spec fn lower_hex_digits() -> Seq<char> {
    seq!['0', '1', '2', '3', '4', '5', '6', '7', '8', '9', 'a', 'b', 'c', 'd', 'e', 'f']
}

/// `value` as eight hexadecimal digits in lower case, most significant first,
/// with leading zeros.
pub open spec fn hex8(value: u32) -> Seq<char> {
    Seq::new(8, |i: int| lower_hex_digits()[(value as nat / pow16((7 - i) as nat)) as int % 16])
}

/// The end of a line of the rendered table.
pub open spec fn line_end() -> Seq<char> {
    seq!['\r', '\n']
}

/// One row of the table: name, section, address and size, one space between
/// the columns.
pub open spec fn row(e: EntryView, name_width: nat, section_width: nat) -> Seq<char> {
    padded(e.name, name_width) + seq![' '] + padded(e.section, section_width) + seq![' '] + hex8(
        e.address,
    ) + seq![' '] + hex8(e.alignment_or_size) + line_end()
}

/// The rows of a table, one behind the other.
pub open spec fn rows(t: Seq<EntryView>, name_width: nat, section_width: nat) -> Seq<char>
    decreases t.len(),
{
    if t.len() == 0 {
        Seq::empty()
    } else {
        rows(t.drop_last(), name_width, section_width) + row(t.last(), name_width, section_width)
    }
}

/// The line that names the columns.
pub open spec fn heading(name_width: nat, section_width: nat) -> Seq<char> {
    padded("Name"@, name_width) + seq![' '] + padded("Section"@, section_width) + seq![' ']
        + padded("Address"@, 8) + seq![' '] + padded("Size"@, 8) + line_end()
}

/// The line of dashes above and below the heading. It is as wide as a row.
pub open spec fn banner(name_width: nat, section_width: nat) -> Seq<char> {
    repeated('-', name_width + section_width + 19) + line_end()
}

/// The table as text: the heading between two lines of dashes, then the
/// rows. Every line ends with a carriage return and a line feed.
pub open spec fn table_text(t: Seq<EntryView>) -> Seq<char> {
    let n = name_width(t);
    let s = section_width(t);
    banner(n, s) + heading(n, s) + banner(n, s) + rows(t, n, s)
}

/// The rows of a table as HTML, each row a heading of the first level.
pub open spec fn html_rows(t: Seq<EntryView>, name_width: nat, section_width: nat) -> Seq<char>
    decreases t.len(),
{
    if t.len() == 0 {
        Seq::empty()
    } else {
        html_rows(t.drop_last(), name_width, section_width) + start_tag_of(H1::element_name())
            + row(t.last(), name_width, section_width) + end_tag_of(H1::element_name())
    }
}

/// The table as HTML: its rows, each wrapped in the tags of a heading.
pub open spec fn table_html(t: Seq<EntryView>) -> Seq<char> {
    html_rows(t, name_width(t), section_width(t))
}

/// The name column is as wide as the longest name: no name is longer, and in
/// a table that has entries one name is exactly that long.
pub proof fn lemma_name_width_is_greatest(t: Seq<EntryView>)
    ensures
        forall|i: int| 0 <= i < t.len() ==> utf8_len((#[trigger] t[i]).name) <= name_width(t),
        t.len() > 0 ==> exists|i: int|
            0 <= i < t.len() && utf8_len((#[trigger] t[i]).name) == name_width(t),
    decreases t.len(),
{
    if t.len() > 0 {
        let front = t.drop_last();
        lemma_name_width_is_greatest(front);
        assert(forall|i: int| 0 <= i < front.len() ==> front[i] == t[i]);
        if name_width(front) >= utf8_len(t.last().name) && front.len() > 0 {
            let i = choose|i: int|
                0 <= i < front.len() && utf8_len((#[trigger] front[i]).name) == name_width(front);
            assert(utf8_len(t[i].name) == name_width(t));
        } else {
            assert(utf8_len(t[t.len() - 1].name) == name_width(t));
        }
    }
}

/// The section column is as wide as the longest section name or as its
/// heading, whichever is wider.
pub proof fn lemma_section_width_is_greatest(t: Seq<EntryView>)
    ensures
        section_width(t) >= 7,
        forall|i: int| 0 <= i < t.len() ==> utf8_len((#[trigger] t[i]).section) <= section_width(t),
        section_width(t) == 7 || exists|i: int|
            0 <= i < t.len() && utf8_len((#[trigger] t[i]).section) == section_width(t),
    decreases t.len(),
{
    if t.len() > 0 {
        let front = t.drop_last();
        lemma_section_width_is_greatest(front);
        assert(forall|i: int| 0 <= i < front.len() ==> front[i] == t[i]);
        if section_width(front) >= utf8_len(t.last().section) {
            if section_width(front) != 7 {
                let i = choose|i: int|
                    0 <= i < front.len() && utf8_len((#[trigger] front[i]).section)
                        == section_width(front);
                assert(utf8_len(t[i].section) == section_width(t));
            }
        } else {
            assert(utf8_len(t[t.len() - 1].section) == section_width(t));
        }
    }
}

/// A row shows the name, the section, the address and the size of an entry,
/// and nothing of its flags: entries that differ in their flags alone have
/// the same row. The rendered table is therefore no way to store a table.
pub proof fn lemma_row_leaves_out_flags(
    a: EntryView,
    b: EntryView,
    name_width: nat,
    section_width: nat,
)
    requires
        a.name == b.name,
        a.section == b.section,
        a.address == b.address,
        a.alignment_or_size == b.alignment_or_size,
    ensures
        row(a, name_width, section_width) == row(b, name_width, section_width),
{
}

/// How many bytes `text` takes.
fn byte_length(text: &str) -> (n: usize)
    ensures
        n == utf8_len(text@),
{
    text.as_bytes().len()
}

/// Appends `count` times the one character of `c` to `out`.
fn push_repeated(out: &mut String, c: &str, count: usize)
    requires
        c@.len() == 1,
    ensures
        final(out)@ == old(out)@ + repeated(c@[0], count as nat),
{
    let mut k: usize = 0;
    assert(out@ =~= old(out)@ + repeated(c@[0], 0));
    while k < count
        invariant
            k <= count,
            c@.len() == 1,
            out@ == old(out)@ + repeated(c@[0], k as nat),
        decreases count - k,
    {
        out.append(c);
        assert(out@ =~= old(out)@ + repeated(c@[0], (k + 1) as nat));
        k += 1;
    }
}

/// Appends `text` to `out`, and spaces up to `width` characters.
fn push_padded(out: &mut String, text: &str, width: usize)
    ensures
        final(out)@ == old(out)@ + padded(text@, width as nat),
{
    let n = text.unicode_len();
    out.append(text);
    if n < width {
        proof {
            reveal_strlit(" ");
        }
        push_repeated(out, " ", width - n);
        assert(out@ =~= old(out)@ + padded(text@, width as nat));
    }
}

/// Appends the eight hexadecimal digits of `value` to `out`.
fn push_hex8(out: &mut String, value: u32)
    ensures
        final(out)@ == old(out)@ + hex8(value),
{
    let digits = "0123456789abcdef";
    proof {
        reveal_strlit("0123456789abcdef");
        reveal_with_fuel(pow16, 9);
    }
    assert(digits@ =~= lower_hex_digits());
    let mut place: u32 = 0x1000_0000;
    let mut i: usize = 0;
    assert(out@ =~= old(out)@ + hex8(value).take(0));
    while i < 8
        invariant
            i <= 8,
            digits@ == lower_hex_digits(),
            i < 8 ==> place == pow16((7 - i) as nat),
            out@ == old(out)@ + hex8(value).take(i as int),
        decreases 8 - i,
    {
        proof {
            reveal_with_fuel(pow16, 9);
        }
        let d = ((value / place) % 16) as usize;
        let digit = digits.substring_char(d, d + 1);
        out.append(digit);
        proof {
            assert(digit@ =~= seq![lower_hex_digits()[d as int]]);
            assert(hex8(value)[i as int] == lower_hex_digits()[d as int]);
            assert(hex8(value).take(i + 1) =~= hex8(value).take(i as int) + digit@);
            assert(out@ =~= old(out)@ + hex8(value).take(i + 1));
        }
        place = place / 16;
        i += 1;
    }
    assert(hex8(value).take(8) =~= hex8(value));
}

/// Appends the end of a line to `out`.
fn push_line_end(out: &mut String)
    ensures
        final(out)@ == old(out)@ + line_end(),
{
    proof {
        reveal_strlit("\r\n");
    }
    out.append("\r\n");
    assert(out@ =~= old(out)@ + line_end());
}

/// Appends one space to `out`.
fn push_space(out: &mut String)
    ensures
        final(out)@ == old(out)@ + seq![' '],
{
    proof {
        reveal_strlit(" ");
    }
    out.append(" ");
    assert(out@ =~= old(out)@ + seq![' ']);
}

/// Appends the row of `entry` to `out`.
fn push_row(out: &mut String, entry: &SymbolTableEntry, name_width: usize, section_width: usize)
    ensures
        final(out)@ == old(out)@ + row(entry@, name_width as nat, section_width as nat),
{
    push_padded(out, entry.name.as_str(), name_width);
    push_space(out);
    push_padded(out, entry.section.as_str(), section_width);
    push_space(out);
    push_hex8(out, entry.address);
    push_space(out);
    push_hex8(out, entry.alignment_or_size);
    push_line_end(out);
    assert(out@ =~= old(out)@ + row(entry@, name_width as nat, section_width as nat));
}

/// Appends the line of dashes to `out`.
fn push_banner(out: &mut String, name_width: usize, section_width: usize)
    ensures
        final(out)@ == old(out)@ + banner(name_width as nat, section_width as nat),
{
    proof {
        reveal_strlit("-");
    }
    // in three parts, so that no width is computed that may not fit
    push_repeated(out, "-", name_width);
    push_repeated(out, "-", section_width);
    push_repeated(out, "-", 19);
    push_line_end(out);
    assert(out@ =~= old(out)@ + banner(name_width as nat, section_width as nat));
}

/// Appends the line that names the columns to `out`.
fn push_heading(out: &mut String, name_width: usize, section_width: usize)
    ensures
        final(out)@ == old(out)@ + heading(name_width as nat, section_width as nat),
{
    push_padded(out, "Name", name_width);
    push_space(out);
    push_padded(out, "Section", section_width);
    push_space(out);
    push_padded(out, "Address", 8);
    push_space(out);
    push_padded(out, "Size", 8);
    push_line_end(out);
    assert(out@ =~= old(out)@ + heading(name_width as nat, section_width as nat));
}

impl SymbolTableEntry {
    /// The entry as one row of the rendered table: the name and the section,
    /// each padded with spaces to the width of its column, then the address
    /// and the size as eight hexadecimal digits each.
    pub fn to_string(&self, name_width: usize, section_width: usize) -> (s: String)
        ensures
            s@ == row(self@, name_width as nat, section_width as nat),
    {
        let mut s = String::new();
        push_row(&mut s, self, name_width, section_width);
        assert(s@ =~= row(self@, name_width as nat, section_width as nat));
        s
    }
}

impl SymbolTable {
    /// The length in bytes of the longest name in the table.
    pub fn get_max_name_length(&self) -> (n: usize)
        ensures
            n == name_width(self@),
    {
        let entries = self.entries();
        let mut n: usize = 0;
        let mut i: usize = 0;
        while i < entries.len()
            invariant
                entry_views(entries@) == self@,
                i <= self@.len(),
                n == name_width(self@.take(i as int)),
            decreases self@.len() - i,
        {
            let len = byte_length(entries[i].name.as_str());
            assert(self@.take(i + 1).drop_last() =~= self@.take(i as int));
            assert(self@.take(i + 1).last() == self@[i as int]);
            if len > n {
                n = len;
            }
            i += 1;
        }
        assert(self@.take(self@.len() as int) =~= self@);
        n
    }

    /// The length in bytes of the longest section name in the table, or the
    /// length of the column's heading where that is longer.
    pub fn get_max_section_name_length(&self) -> (n: usize)
        ensures
            n == section_width(self@),
    {
        proof {
            reveal_strlit("Section");
        }
        let entries = self.entries();
        let mut n: usize = "Section".unicode_len();
        let mut i: usize = 0;
        while i < entries.len()
            invariant
                entry_views(entries@) == self@,
                i <= self@.len(),
                n == section_width(self@.take(i as int)),
            decreases self@.len() - i,
        {
            let len = byte_length(entries[i].section.as_str());
            assert(self@.take(i + 1).drop_last() =~= self@.take(i as int));
            assert(self@.take(i + 1).last() == self@[i as int]);
            if len > n {
                n = len;
            }
            i += 1;
        }
        assert(self@.take(self@.len() as int) =~= self@);
        n
    }

    /// The table as text, for display: a heading between two lines of
    /// dashes, then one row for each entry.
    pub fn to_text(&self) -> (s: String)
        ensures
            s@ == table_text(self@),
    {
        let entries = self.entries();
        let name_width = self.get_max_name_length();
        let section_width = self.get_max_section_name_length();
        let mut s = String::new();
        push_banner(&mut s, name_width, section_width);
        push_heading(&mut s, name_width, section_width);
        push_banner(&mut s, name_width, section_width);
        let ghost head = s@;
        let mut i: usize = 0;
        assert(s@ =~= head + rows(self@.take(0), name_width as nat, section_width as nat));
        while i < entries.len()
            invariant
                entry_views(entries@) == self@,
                i <= self@.len(),
                s@ == head + rows(self@.take(i as int), name_width as nat, section_width as nat),
            decreases self@.len() - i,
        {
            push_row(&mut s, &entries[i], name_width, section_width);
            proof {
                assert(self@.take(i + 1).drop_last() =~= self@.take(i as int));
                assert(s@ =~= head + rows(
                    self@.take(i + 1),
                    name_width as nat,
                    section_width as nat,
                ));
            }
            i += 1;
        }
        assert(self@.take(self@.len() as int) =~= self@);
        assert(s@ =~= table_text(self@));
        s
    }

    /// The table as HTML, for display: each row as a heading of the first
    /// level. A table without entries gives the empty text.
    pub fn to_html(&self) -> (s: String)
        ensures
            s@ == table_html(self@),
    {
        let entries = self.entries();
        let name_width = self.get_max_name_length();
        let section_width = self.get_max_section_name_length();
        let mut s = String::new();
        let mut i: usize = 0;
        assert(s@ =~= html_rows(self@.take(0), name_width as nat, section_width as nat));
        while i < entries.len()
            invariant
                entry_views(entries@) == self@,
                i <= self@.len(),
                s@ == html_rows(self@.take(i as int), name_width as nat, section_width as nat),
            decreases self@.len() - i,
        {
            let text = entries[i].to_string(name_width, section_width);
            let element = H1::new(text.as_str()).to_html();
            s.append(element.as_str());
            proof {
                assert(self@.take(i + 1).drop_last() =~= self@.take(i as int));
                assert(s@ =~= html_rows(
                    self@.take(i + 1),
                    name_width as nat,
                    section_width as nat,
                ));
            }
            i += 1;
        }
        assert(self@.take(self@.len() as int) =~= self@);
        s
    }
}

} // verus!
