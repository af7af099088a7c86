//! How a line fails to match the grammar.

use vstd::prelude::*;

verus! {

/// Why the grammar stopped matching.
#[derive(Debug, Clone, Copy, PartialEq, Eq, Structural)]
pub enum ErrorKind {
    /// The next character is not one of those that the field admits, or the
    /// line ends where one of them is due.
    OneOf,
    /// No tab ends the section name.
    TakeUntil,
    /// The line ends where the symbol's name is due.
    Eof,
    /// A hexadecimal number does not fit in 32 bits.
    TooLarge,
}

/// A failure to match, as a position in the line.
pub struct Failure {
    /// How many characters of the line precede the point of failure.
    pub at: int,
    /// Why the grammar stopped matching there.
    pub code: ErrorKind,
    /// The characters that the field at that point admits.
    pub expected: Seq<char>,
}

/// A failure to match one line. It concerns that line only.
#[derive(Debug, Clone, Copy, PartialEq, Eq)]
pub struct ParseError<'a> {
    /// What was left of the line where the grammar stopped matching. Its first
    /// character, if it has one, is the offending one.
    pub input: &'a str,
    /// Why the grammar stopped matching.
    pub code: ErrorKind,
    /// The characters that the field at that point admits.
    pub expected: &'a str,
}

/// A failure to match, as found while reading the characters of a line.
pub(crate) struct Stop {
    /// How many characters of the line precede the point of failure.
    pub at: usize,
    /// Why the grammar stopped matching there.
    pub code: ErrorKind,
    /// The characters that the field at that point admits.
    pub expected: &'static str,
}

impl Stop {
    /// The failure that was found.
    pub(crate) open spec fn failure(self) -> Failure {
        Failure { at: self.at as int, code: self.code, expected: self.expected@ }
    }
}

impl<'a> ParseError<'a> {
    /// The offending character: the one at which the grammar stopped
    /// matching. There is none where the line ended too early.
    pub fn offending(&self) -> (c: Option<char>)
        ensures
            c == (if self.input@.len() > 0 {
                Some(self.input@[0])
            } else {
                None
            }),
    {
        if self.input.is_empty() {
            None
        } else {
            Some(self.input.get_char(0))
        }
    }

    /// Whether this error reports the failure `f` to match the line `line`.
    pub open spec fn reports(self, line: Seq<char>, f: Failure) -> bool {
        &&& 0 <= f.at <= line.len()
        &&& self.input@ == line.skip(f.at)
        &&& self.code == f.code
        &&& self.expected@ == f.expected
    }
}

/// Whether the result `r` of reading a field, by positions, is what the
/// grammar `m` prescribes.
pub(crate) open spec fn steps<T>(
    r: Result<(usize, T), Stop>,
    m: Result<(int, T), Failure>,
) -> bool {
    match m {
        Ok((next, value)) => r matches Ok((n, v)) && n == next && v == value,
        Err(f) => r matches Err(e) && e.failure() == f,
    }
}

/// Whether the result `r` of reading a field at the start of `line` is what
/// the grammar `m` prescribes: the same value with the rest of the line
/// behind the field, or an error that reports the same failure.
pub open spec fn yields<'a, T>(
    r: Result<(&'a str, T), ParseError<'a>>,
    line: Seq<char>,
    m: Result<(int, T), Failure>,
) -> bool {
    match m {
        Ok((next, value)) => r matches Ok((rest, v)) && 0 <= next <= line.len() && rest@
            == line.skip(next) && v == value,
        Err(f) => r matches Err(e) && e.reports(line, f),
    }
}

/// What is left of `input` behind its first `from` characters.
pub(crate) fn rest_from<'a>(input: &'a str, chars: &Vec<char>, from: usize) -> (rest: &'a str)
    requires
        chars@ == input@,
        from <= chars.len(),
    ensures
        rest@ == input@.skip(from as int),
{
    let rest = input.substring_char(from, chars.len());
    assert(input@.subrange(from as int, chars.len() as int) =~= input@.skip(from as int));
    rest
}

/// The error that reports a failure found in `input`.
pub(crate) fn reported<'a>(input: &'a str, chars: &Vec<char>, stop: Stop) -> (error: ParseError<
    'a,
>)
    requires
        chars@ == input@,
        stop.at <= chars.len(),
    ensures
        error.reports(input@, stop.failure()),
{
    ParseError {
        input: rest_from(input, chars, stop.at),
        code: stop.code,
        expected: stop.expected,
    }
}

/// Turns positions in `input` into what is left of it there.
pub(crate) fn located<'a, T>(
    input: &'a str,
    chars: &Vec<char>,
    r: Result<(usize, T), Stop>,
) -> (out: Result<(&'a str, T), ParseError<'a>>)
    requires
        chars@ == input@,
        r matches Ok((next, _)) ==> next <= chars.len(),
        r matches Err(e) ==> e.at <= chars.len(),
    ensures
        (match r {
            Ok((next, value)) => out matches Ok((rest, v)) && rest@ == input@.skip(next as int)
                && v == value,
            Err(e) => out matches Err(p) && p.reports(input@, e.failure()),
        }),
{
    match r {
        Ok((next, value)) => Ok((rest_from(input, chars, next), value)),
        Err(e) => Err(reported(input, chars, e)),
    }
}

} // verus!
