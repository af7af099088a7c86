//! The seven flag columns of a listing line. Each column is one character
//! wide and has an alphabet of its own; the same character may mean different
//! things in different columns.

use super::error::{located, steps, yields, ErrorKind, Failure, ParseError, Stop};
use crate::chars::chars_of;
use vstd::prelude::*;

verus! {

/// Whether a symbol is visible outside its file.
#[derive(Debug, Clone, Copy, PartialEq, Eq, Structural)]
pub enum SymbolScope {
    Local,
    Global,
    Neither,
    Both,
}

/// Whether another definition may override the symbol.
#[derive(Debug, Clone, Copy, PartialEq, Eq, Structural)]
pub enum SymbolWeakness {
    Weak,
    Strong,
}

/// Whether the symbol is a constructor.
#[derive(Debug, Clone, Copy, PartialEq, Eq, Structural)]
pub enum SymbolConstructor {
    Constructor,
    Regular,
}

/// Whether the symbol is a warning.
#[derive(Debug, Clone, Copy, PartialEq, Eq, Structural)]
pub enum SymbolWarning {
    Warning,
    Regular,
}

/// Whether the symbol is a reference to another symbol.
#[derive(Debug, Clone, Copy, PartialEq, Eq, Structural)]
pub enum SymbolReference {
    Reference,
    Regular,
}

/// Whether the symbol serves debugging or dynamic linking.
#[derive(Debug, Clone, Copy, PartialEq, Eq, Structural)]
pub enum SymbolDebugging {
    Debug,
    Dynamic,
    Regular,
}

/// What the symbol names.
#[derive(Debug, Clone, Copy, PartialEq, Eq, Structural)]
pub enum SymbolType {
    Function,
    File,
    Object,
    Regular,
}

/// The seven flags of one symbol, in the order of their columns.
#[derive(Debug, Clone, Copy, PartialEq, Eq, Structural)]
pub struct SymbolTableFlags {
    pub scope: SymbolScope,
    pub weakness: SymbolWeakness,
    pub constructor: SymbolConstructor,
    pub warning: SymbolWarning,
    pub reference: SymbolReference,
    pub debugging: SymbolDebugging,
    pub symbol_type: SymbolType,
}

/// One flag column: a closed set of values, each written as one character.
pub trait FlagColumn: Sized {
    /// The characters that may stand in the column.
    spec fn alphabet() -> Seq<char>;

    /// The value that `c` stands for in this column, if it stands for one.
    spec fn decoded(c: char) -> Option<Self>;

    /// The character that stands for a value.
    spec fn letter(self) -> char;

    /// Decoding is a bijection between the column's alphabet and its values:
    /// exactly the characters of the alphabet decode, each value is decoded
    /// from its own character, and from no other.
    proof fn lemma_decoding_is_bijective()
        ensures
            forall|c: char| Self::alphabet().contains(c) <==> (#[trigger] Self::decoded(c)) is Some,
            forall|c: char|
                (#[trigger] Self::decoded(c)) matches Some(v) ==> Self::letter(v) == c,
            forall|v: Self| Self::decoded(#[trigger] Self::letter(v)) == Some(v),
    ;

    /// Decodes one character of the column.
    fn decode(c: char) -> (v: Option<Self>)
        ensures
            v == Self::decoded(c),
    ;

    /// The column's alphabet, as text.
    fn expected() -> (text: &'static str)
        ensures
            text@ == Self::alphabet(),
    ;
}

impl FlagColumn for SymbolScope {
    open spec fn alphabet() -> Seq<char> {
        seq!['l', 'g', ' ', '!']
    }

    open spec fn decoded(c: char) -> Option<Self> {
        if c == 'l' {
            Some(SymbolScope::Local)
        } else if c == 'g' {
            Some(SymbolScope::Global)
        } else if c == ' ' {
            Some(SymbolScope::Neither)
        } else if c == '!' {
            Some(SymbolScope::Both)
        } else {
            None
        }
    }

    open spec fn letter(self) -> char {
        match self {
            SymbolScope::Local => 'l',
            SymbolScope::Global => 'g',
            SymbolScope::Neither => ' ',
            SymbolScope::Both => '!',
        }
    }

    proof fn lemma_decoding_is_bijective() {
        let a = Self::alphabet();
        assert(a[0] == 'l' && a[1] == 'g' && a[2] == ' ' && a[3] == '!');
    }

    fn decode(c: char) -> (v: Option<Self>) {
        if c == 'l' {
            Some(SymbolScope::Local)
        } else if c == 'g' {
            Some(SymbolScope::Global)
        } else if c == ' ' {
            Some(SymbolScope::Neither)
        } else if c == '!' {
            Some(SymbolScope::Both)
        } else {
            None
        }
    }

    fn expected() -> (text: &'static str) {
        proof {
            reveal_strlit("lg !");
        }
        assert("lg !"@ =~= Self::alphabet());
        "lg !"
    }
}

impl FlagColumn for SymbolWeakness {
    open spec fn alphabet() -> Seq<char> {
        seq!['w', ' ']
    }

    open spec fn decoded(c: char) -> Option<Self> {
        if c == 'w' {
            Some(SymbolWeakness::Weak)
        } else if c == ' ' {
            Some(SymbolWeakness::Strong)
        } else {
            None
        }
    }

    open spec fn letter(self) -> char {
        match self {
            SymbolWeakness::Weak => 'w',
            SymbolWeakness::Strong => ' ',
        }
    }

    proof fn lemma_decoding_is_bijective() {
        let a = Self::alphabet();
        assert(a[0] == 'w' && a[1] == ' ');
    }

    fn decode(c: char) -> (v: Option<Self>) {
        if c == 'w' {
            Some(SymbolWeakness::Weak)
        } else if c == ' ' {
            Some(SymbolWeakness::Strong)
        } else {
            None
        }
    }

    fn expected() -> (text: &'static str) {
        proof {
            reveal_strlit("w ");
        }
        assert("w "@ =~= Self::alphabet());
        "w "
    }
}

impl FlagColumn for SymbolConstructor {
    open spec fn alphabet() -> Seq<char> {
        seq!['C', ' ']
    }

    open spec fn decoded(c: char) -> Option<Self> {
        if c == 'C' {
            Some(SymbolConstructor::Constructor)
        } else if c == ' ' {
            Some(SymbolConstructor::Regular)
        } else {
            None
        }
    }

    open spec fn letter(self) -> char {
        match self {
            SymbolConstructor::Constructor => 'C',
            SymbolConstructor::Regular => ' ',
        }
    }

    proof fn lemma_decoding_is_bijective() {
        let a = Self::alphabet();
        assert(a[0] == 'C' && a[1] == ' ');
    }

    fn decode(c: char) -> (v: Option<Self>) {
        if c == 'C' {
            Some(SymbolConstructor::Constructor)
        } else if c == ' ' {
            Some(SymbolConstructor::Regular)
        } else {
            None
        }
    }

    fn expected() -> (text: &'static str) {
        proof {
            reveal_strlit("C ");
        }
        assert("C "@ =~= Self::alphabet());
        "C "
    }
}

impl FlagColumn for SymbolWarning {
    open spec fn alphabet() -> Seq<char> {
        seq!['W', ' ']
    }

    open spec fn decoded(c: char) -> Option<Self> {
        if c == 'W' {
            Some(SymbolWarning::Warning)
        } else if c == ' ' {
            Some(SymbolWarning::Regular)
        } else {
            None
        }
    }

    open spec fn letter(self) -> char {
        match self {
            SymbolWarning::Warning => 'W',
            SymbolWarning::Regular => ' ',
        }
    }

    proof fn lemma_decoding_is_bijective() {
        let a = Self::alphabet();
        assert(a[0] == 'W' && a[1] == ' ');
    }

    fn decode(c: char) -> (v: Option<Self>) {
        if c == 'W' {
            Some(SymbolWarning::Warning)
        } else if c == ' ' {
            Some(SymbolWarning::Regular)
        } else {
            None
        }
    }

    fn expected() -> (text: &'static str) {
        proof {
            reveal_strlit("W ");
        }
        assert("W "@ =~= Self::alphabet());
        "W "
    }
}

impl FlagColumn for SymbolReference {
    open spec fn alphabet() -> Seq<char> {
        seq!['l', ' ']
    }

    open spec fn decoded(c: char) -> Option<Self> {
        if c == 'l' {
            Some(SymbolReference::Reference)
        } else if c == ' ' {
            Some(SymbolReference::Regular)
        } else {
            None
        }
    }

    open spec fn letter(self) -> char {
        match self {
            SymbolReference::Reference => 'l',
            SymbolReference::Regular => ' ',
        }
    }

    proof fn lemma_decoding_is_bijective() {
        let a = Self::alphabet();
        assert(a[0] == 'l' && a[1] == ' ');
    }

    fn decode(c: char) -> (v: Option<Self>) {
        if c == 'l' {
            Some(SymbolReference::Reference)
        } else if c == ' ' {
            Some(SymbolReference::Regular)
        } else {
            None
        }
    }

    fn expected() -> (text: &'static str) {
        proof {
            reveal_strlit("l ");
        }
        assert("l "@ =~= Self::alphabet());
        "l "
    }
}

impl FlagColumn for SymbolDebugging {
    open spec fn alphabet() -> Seq<char> {
        seq!['d', 'D', ' ']
    }

    open spec fn decoded(c: char) -> Option<Self> {
        if c == 'd' {
            Some(SymbolDebugging::Debug)
        } else if c == 'D' {
            Some(SymbolDebugging::Dynamic)
        } else if c == ' ' {
            Some(SymbolDebugging::Regular)
        } else {
            None
        }
    }

    open spec fn letter(self) -> char {
        match self {
            SymbolDebugging::Debug => 'd',
            SymbolDebugging::Dynamic => 'D',
            SymbolDebugging::Regular => ' ',
        }
    }

    proof fn lemma_decoding_is_bijective() {
        let a = Self::alphabet();
        assert(a[0] == 'd' && a[1] == 'D' && a[2] == ' ');
    }

    fn decode(c: char) -> (v: Option<Self>) {
        if c == 'd' {
            Some(SymbolDebugging::Debug)
        } else if c == 'D' {
            Some(SymbolDebugging::Dynamic)
        } else if c == ' ' {
            Some(SymbolDebugging::Regular)
        } else {
            None
        }
    }

    fn expected() -> (text: &'static str) {
        proof {
            reveal_strlit("dD ");
        }
        assert("dD "@ =~= Self::alphabet());
        "dD "
    }
}

impl FlagColumn for SymbolType {
    open spec fn alphabet() -> Seq<char> {
        seq!['F', 'f', 'O', ' ']
    }

    open spec fn decoded(c: char) -> Option<Self> {
        if c == 'F' {
            Some(SymbolType::Function)
        } else if c == 'f' {
            Some(SymbolType::File)
        } else if c == 'O' {
            Some(SymbolType::Object)
        } else if c == ' ' {
            Some(SymbolType::Regular)
        } else {
            None
        }
    }

    open spec fn letter(self) -> char {
        match self {
            SymbolType::Function => 'F',
            SymbolType::File => 'f',
            SymbolType::Object => 'O',
            SymbolType::Regular => ' ',
        }
    }

    proof fn lemma_decoding_is_bijective() {
        let a = Self::alphabet();
        assert(a[0] == 'F' && a[1] == 'f' && a[2] == 'O' && a[3] == ' ');
    }

    fn decode(c: char) -> (v: Option<Self>) {
        if c == 'F' {
            Some(SymbolType::Function)
        } else if c == 'f' {
            Some(SymbolType::File)
        } else if c == 'O' {
            Some(SymbolType::Object)
        } else if c == ' ' {
            Some(SymbolType::Regular)
        } else {
            None
        }
    }

    fn expected() -> (text: &'static str) {
        proof {
            reveal_strlit("FfO ");
        }
        assert("FfO "@ =~= Self::alphabet());
        "FfO "
    }
}

/// What one flag column at position `at` of `line` decodes to: the column's
/// value and the position behind it, or a failure at `at` where the line has
/// ended or the character there is not in the column's alphabet.
pub open spec fn column<F: FlagColumn>(line: Seq<char>, at: int) -> Result<(int, F), Failure> {
    if 0 <= at < line.len() && F::decoded(line[at]) is Some {
        Ok((at + 1, F::decoded(line[at])->0))
    } else {
        Err(Failure { at, code: ErrorKind::OneOf, expected: F::alphabet() })
    }
}

/// A character of the column's alphabet decodes, to the value that it
/// stands for.
pub proof fn lemma_column_accepts_its_alphabet<F: FlagColumn>(line: Seq<char>, at: int)
    requires
        0 <= at < line.len(),
        F::alphabet().contains(line[at]),
    ensures
        column::<F>(line, at) is Ok,
        column::<F>(line, at)->Ok_0.0 == at + 1,
        F::letter(column::<F>(line, at)->Ok_0.1) == line[at],
{
    F::lemma_decoding_is_bijective();
    assert(F::decoded(line[at]) is Some);
}

/// Any other character, and the end of the line, is a failure at that
/// column, which names the column's alphabet.
pub proof fn lemma_column_rejects_all_else<F: FlagColumn>(line: Seq<char>, at: int)
    requires
        0 <= at < line.len() ==> !F::alphabet().contains(line[at]),
    ensures
        column::<F>(line, at) == Err::<(int, F), Failure>(
            Failure { at, code: ErrorKind::OneOf, expected: F::alphabet() },
        ),
{
    F::lemma_decoding_is_bijective();
    if 0 <= at < line.len() {
        assert(!(F::decoded(line[at]) is Some));
    }
}

/// What the seven flag columns that start at `at` decode to: the flags and
/// the position behind them, or the failure of the first column that does not
/// decode.
pub open spec fn symbol_flags(line: Seq<char>, at: int) -> Result<
    (int, SymbolTableFlags),
    Failure,
> {
    if column::<SymbolScope>(line, at) is Err {
        Err(column::<SymbolScope>(line, at)->Err_0)
    } else if column::<SymbolWeakness>(line, at + 1) is Err {
        Err(column::<SymbolWeakness>(line, at + 1)->Err_0)
    } else if column::<SymbolConstructor>(line, at + 2) is Err {
        Err(column::<SymbolConstructor>(line, at + 2)->Err_0)
    } else if column::<SymbolWarning>(line, at + 3) is Err {
        Err(column::<SymbolWarning>(line, at + 3)->Err_0)
    } else if column::<SymbolReference>(line, at + 4) is Err {
        Err(column::<SymbolReference>(line, at + 4)->Err_0)
    } else if column::<SymbolDebugging>(line, at + 5) is Err {
        Err(column::<SymbolDebugging>(line, at + 5)->Err_0)
    } else if column::<SymbolType>(line, at + 6) is Err {
        Err(column::<SymbolType>(line, at + 6)->Err_0)
    } else {
        Ok(
            (
                at + 7,
                SymbolTableFlags {
                    scope: column::<SymbolScope>(line, at)->Ok_0.1,
                    weakness: column::<SymbolWeakness>(line, at + 1)->Ok_0.1,
                    constructor: column::<SymbolConstructor>(line, at + 2)->Ok_0.1,
                    warning: column::<SymbolWarning>(line, at + 3)->Ok_0.1,
                    reference: column::<SymbolReference>(line, at + 4)->Ok_0.1,
                    debugging: column::<SymbolDebugging>(line, at + 5)->Ok_0.1,
                    symbol_type: column::<SymbolType>(line, at + 6)->Ok_0.1,
                },
            ),
        )
    }
}

/// Reads the flag column at position `at`.
pub(crate) fn read_column<F: FlagColumn>(chars: &Vec<char>, at: usize) -> (r: Result<
    (usize, F),
    Stop,
>)
    requires
        at <= chars.len(),
    ensures
        steps(r, column::<F>(chars@, at as int)),
        r matches Ok((next, _)) ==> next == at + 1 && next <= chars.len(),
        r matches Err(e) ==> e.at == at,
{
    if at < chars.len() {
        match F::decode(chars[at]) {
            Some(v) => {
                return Ok((at + 1, v));
            },
            None => {},
        }
    }
    Err(Stop { at, code: ErrorKind::OneOf, expected: F::expected() })
}

/// Reads the seven flag columns that start at position `at`.
pub(crate) fn read_flags(chars: &Vec<char>, at: usize) -> (r: Result<
    (usize, SymbolTableFlags),
    Stop,
>)
    requires
        at <= chars.len(),
    ensures
        steps(r, symbol_flags(chars@, at as int)),
        r matches Ok((next, _)) ==> next == at + 7 && next <= chars.len(),
        r matches Err(e) ==> at <= e.at <= chars.len(),
{
    let (at, scope) = read_column::<SymbolScope>(chars, at)?;
    let (at, weakness) = read_column::<SymbolWeakness>(chars, at)?;
    let (at, constructor) = read_column::<SymbolConstructor>(chars, at)?;
    let (at, warning) = read_column::<SymbolWarning>(chars, at)?;
    let (at, reference) = read_column::<SymbolReference>(chars, at)?;
    let (at, debugging) = read_column::<SymbolDebugging>(chars, at)?;
    let (at, symbol_type) = read_column::<SymbolType>(chars, at)?;
    Ok(
        (
            at,
            SymbolTableFlags {
                scope,
                weakness,
                constructor,
                warning,
                reference,
                debugging,
                symbol_type,
            },
        ),
    )
}

/// Reads the seven flag columns at the start of `input`, in the order scope,
/// weakness, constructor, warning, reference, debugging, type.
pub fn parse_symbol_flags<'a>(input: &'a str) -> (r: Result<
    (&'a str, SymbolTableFlags),
    ParseError<'a>,
>)
    ensures
        yields(r, input@, symbol_flags(input@, 0)),
{
    let chars = chars_of(input);
    located(input, &chars, read_flags(&chars, 0))
}

/// Reads one flag column at the start of `input`.
pub fn parse_flag_bit<'a, F: FlagColumn>(input: &'a str) -> (r: Result<
    (&'a str, F),
    ParseError<'a>,
>)
    ensures
        yields(r, input@, column::<F>(input@, 0)),
{
    let len = input.unicode_len();
    assert(input@.skip(0) =~= input@);
    if len == 0 {
        return Err(ParseError { input, code: ErrorKind::OneOf, expected: F::expected() });
    }
    match F::decode(input.get_char(0)) {
        Some(v) => Ok((input.substring_char(1, len), v)),
        None => Err(ParseError { input, code: ErrorKind::OneOf, expected: F::expected() }),
    }
}

/// Reads the scope column: `l` local, `g` global, `!` both, blank neither.
pub fn parse_flag_bit_scope<'a>(input: &'a str) -> (r: Result<
    (&'a str, SymbolScope),
    ParseError<'a>,
>)
    ensures
        yields(r, input@, column::<SymbolScope>(input@, 0)),
{
    parse_flag_bit::<SymbolScope>(input)
}

/// Reads the weakness column: `w` weak, blank strong.
pub fn parse_flag_bit_weakness<'a>(input: &'a str) -> (r: Result<
    (&'a str, SymbolWeakness),
    ParseError<'a>,
>)
    ensures
        yields(r, input@, column::<SymbolWeakness>(input@, 0)),
{
    parse_flag_bit::<SymbolWeakness>(input)
}

/// Reads the constructor column: `C` constructor, blank regular.
pub fn parse_flag_bit_constructor<'a>(input: &'a str) -> (r: Result<
    (&'a str, SymbolConstructor),
    ParseError<'a>,
>)
    ensures
        yields(r, input@, column::<SymbolConstructor>(input@, 0)),
{
    parse_flag_bit::<SymbolConstructor>(input)
}

/// Reads the warning column: `W` warning, blank regular.
pub fn parse_flag_bit_warning<'a>(input: &'a str) -> (r: Result<
    (&'a str, SymbolWarning),
    ParseError<'a>,
>)
    ensures
        yields(r, input@, column::<SymbolWarning>(input@, 0)),
{
    parse_flag_bit::<SymbolWarning>(input)
}

/// Reads the reference column: `l` reference, blank regular.
pub fn parse_flag_bit_reference<'a>(input: &'a str) -> (r: Result<
    (&'a str, SymbolReference),
    ParseError<'a>,
>)
    ensures
        yields(r, input@, column::<SymbolReference>(input@, 0)),
{
    parse_flag_bit::<SymbolReference>(input)
}

/// Reads the debugging column: `d` debug, `D` dynamic, blank regular.
pub fn parse_flag_bit_debugging<'a>(input: &'a str) -> (r: Result<
    (&'a str, SymbolDebugging),
    ParseError<'a>,
>)
    ensures
        yields(r, input@, column::<SymbolDebugging>(input@, 0)),
{
    parse_flag_bit::<SymbolDebugging>(input)
}

/// Reads the type column: `F` function, `f` file, `O` object, blank regular.
pub fn parse_flag_bit_type<'a>(input: &'a str) -> (r: Result<(&'a str, SymbolType), ParseError<'a>>)
    ensures
        yields(r, input@, column::<SymbolType>(input@, 0)),
{
    parse_flag_bit::<SymbolType>(input)
}

} // verus!
