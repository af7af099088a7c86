//! Character classes of the listing format, runs of one class, and hexadecimal
//! numbers.

use vstd::prelude::*;

verus! {

/// Whether `c` is one of the hexadecimal digits, in either case.
pub open spec fn is_hex_digit(c: char) -> bool {
    ('0' <= c && c <= '9') || ('a' <= c && c <= 'f') || ('A' <= c && c <= 'F')
}

/// Whether `c` is padding between two fields: a space, a tab, a carriage return
/// or a line feed.
pub open spec fn is_whitespace(c: char) -> bool {
    c == ' ' || c == '\t' || c == '\r' || c == '\n'
}

/// Whether `c` may stand inside a section name: anything but a tab.
pub open spec fn is_not_tab(c: char) -> bool {
    c != '\t'
}

/// The value of one hexadecimal digit, and zero for any other character.
pub open spec fn hex_digit_value(c: char) -> nat {
    if '0' <= c && c <= '9' {
        (c as u32 - '0' as u32) as nat
    } else if 'a' <= c && c <= 'f' {
        (c as u32 - 'a' as u32 + 10) as nat
    } else if 'A' <= c && c <= 'F' {
        (c as u32 - 'A' as u32 + 10) as nat
    } else {
        0
    }
}

/// The number that a string of hexadecimal digits writes, most significant
/// digit first.
pub open spec fn hex_value(digits: Seq<char>) -> nat
    decreases digits.len(),
{
    if digits.len() == 0 {
        0
    } else {
        16 * hex_value(digits.drop_last()) + hex_digit_value(digits.last())
    }
}

/// The characters that a hexadecimal number is written with.
pub open spec fn hex_alphabet() -> Seq<char> {
    seq![
        '0', '1', '2', '3', '4', '5', '6', '7', '8', '9', 'a', 'b', 'c', 'd', 'e', 'f', 'A', 'B',
        'C', 'D', 'E', 'F',
    ]
}

/// Where the longest run of characters of one class that starts at `from`
/// ends: the index of the first character at or after `from` that is not in
/// the class, or the length of `s` where there is none.
pub open spec fn run_end(s: Seq<char>, from: int, class: spec_fn(char) -> bool) -> int
    decreases s.len() - from,
{
    if 0 <= from < s.len() && class(s[from]) {
        run_end(s, from + 1, class)
    } else {
        from
    }
}

/// Where the run of hexadecimal digits that starts at `from` ends.
pub open spec fn hex_run_end(s: Seq<char>, from: int) -> int {
    run_end(s, from, |c: char| is_hex_digit(c))
}

/// Where the run of padding that starts at `from` ends.
pub open spec fn whitespace_end(s: Seq<char>, from: int) -> int {
    run_end(s, from, |c: char| is_whitespace(c))
}

/// The index of the first tab at or after `from`, or the length of `s` where
/// no tab follows.
pub open spec fn tab_position(s: Seq<char>, from: int) -> int {
    run_end(s, from, |c: char| is_not_tab(c))
}

/// A run ends inside the text, covers only characters of its class, and stops
/// at a character outside the class or at the end of the text.
pub proof fn lemma_run_end(s: Seq<char>, from: int, class: spec_fn(char) -> bool)
    requires
        0 <= from <= s.len(),
    ensures
        from <= run_end(s, from, class) <= s.len(),
        forall|i: int| from <= i < run_end(s, from, class) ==> class(#[trigger] s[i]),
        run_end(s, from, class) < s.len() ==> !class(s[run_end(s, from, class)]),
    decreases s.len() - from,
{
    if from < s.len() && class(s[from]) {
        lemma_run_end(s, from + 1, class);
    }
}

/// A run that is entered in the middle ends where the whole run ends.
pub proof fn lemma_run_end_from_inside(
    s: Seq<char>,
    from: int,
    mid: int,
    class: spec_fn(char) -> bool,
)
    requires
        0 <= from <= mid <= s.len(),
        forall|i: int| from <= i < mid ==> class(#[trigger] s[i]),
    ensures
        run_end(s, from, class) == run_end(s, mid, class),
    decreases mid - from,
{
    if from < mid {
        lemma_run_end_from_inside(s, from + 1, mid, class);
    }
}

/// Writing more digits behind a number does not make it smaller.
pub proof fn lemma_hex_value_grows(digits: Seq<char>, shorter: int)
    requires
        0 <= shorter <= digits.len(),
    ensures
        hex_value(digits.take(shorter)) <= hex_value(digits),
    decreases digits.len() - shorter,
{
    if shorter == digits.len() {
        assert(digits.take(shorter) =~= digits);
    } else {
        lemma_hex_value_grows(digits.drop_last(), shorter);
        assert(digits.drop_last().take(shorter) =~= digits.take(shorter));
    }
}

/// The value of `c` as a hexadecimal digit, where it is one.
pub(crate) fn hex_digit(c: char) -> (d: Option<u32>)
    ensures
        d is Some <==> is_hex_digit(c),
        d matches Some(v) ==> v == hex_digit_value(c) && v < 16,
{
    if '0' <= c && c <= '9' {
        Some(c as u32 - '0' as u32)
    } else if 'a' <= c && c <= 'f' {
        Some(c as u32 - 'a' as u32 + 10)
    } else if 'A' <= c && c <= 'F' {
        Some(c as u32 - 'A' as u32 + 10)
    } else {
        None
    }
}

/// Whether `c` is padding.
pub(crate) fn whitespace(c: char) -> (b: bool)
    ensures
        b == is_whitespace(c),
{
    c == ' ' || c == '\t' || c == '\r' || c == '\n'
}

/// The characters of `s`, in order.
pub(crate) fn chars_of(s: &str) -> (v: Vec<char>)
    ensures
        v@ == s@,
{
    let mut v: Vec<char> = Vec::new();
    for c in it: s.chars()
        invariant
            v@ == it.seq().take(it.index() as int),
    {
        v.push(c);
    }
    v
}

/// Finds the end of the run of hexadecimal digits that starts at `from`.
pub(crate) fn scan_hex_digits(chars: &Vec<char>, from: usize) -> (end: usize)
    requires
        from <= chars.len(),
    ensures
        end == hex_run_end(chars@, from as int),
        from <= end <= chars.len(),
{
    let mut end: usize = from;
    while end < chars.len() && hex_digit(chars[end]).is_some()
        invariant
            from <= end <= chars.len(),
            forall|i: int| from <= i < end ==> is_hex_digit(#[trigger] chars@[i]),
        decreases chars.len() - end,
    {
        end += 1;
    }
    proof {
        lemma_run_end_from_inside(chars@, from as int, end as int, |c: char| is_hex_digit(c));
    }
    end
}

/// Finds the end of the run of padding that starts at `from`.
pub(crate) fn skip_whitespace(chars: &Vec<char>, from: usize) -> (end: usize)
    requires
        from <= chars.len(),
    ensures
        end == whitespace_end(chars@, from as int),
        from <= end <= chars.len(),
{
    let mut end: usize = from;
    while end < chars.len() && whitespace(chars[end])
        invariant
            from <= end <= chars.len(),
            forall|i: int| from <= i < end ==> is_whitespace(#[trigger] chars@[i]),
        decreases chars.len() - end,
    {
        end += 1;
    }
    proof {
        lemma_run_end_from_inside(chars@, from as int, end as int, |c: char| is_whitespace(c));
    }
    end
}

/// Finds the first tab at or after `from`; the length of the text where there
/// is none.
pub(crate) fn find_tab(chars: &Vec<char>, from: usize) -> (end: usize)
    requires
        from <= chars.len(),
    ensures
        end == tab_position(chars@, from as int),
        from <= end <= chars.len(),
        end < chars.len() ==> chars@[end as int] == '\t',
        forall|i: int| from <= i < end ==> chars@[i] != '\t',
{
    let mut end: usize = from;
    while end < chars.len() && chars[end] != '\t'
        invariant
            from <= end <= chars.len(),
            forall|i: int| from <= i < end ==> is_not_tab(#[trigger] chars@[i]),
        decreases chars.len() - end,
    {
        end += 1;
    }
    proof {
        lemma_run_end_from_inside(chars@, from as int, end as int, |c: char| is_not_tab(c));
    }
    end
}

} // verus!
