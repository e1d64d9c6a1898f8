//! The lexer: from the characters of the source to tokens.

use vstd::prelude::*;
use crate::text::{push_str, string_from_chars};
use crate::tokens::{DelimitersGroup, DigitType, KeywordsGroup, Lexeme, TokenGroupLexer};

verus! {

/// Why a text is not a numeric literal: the category that was attempted.
#[derive(Debug, Clone, Copy, PartialEq, Eq, Structural)]
pub enum NumberFault {
    /// The text cannot be a hexadecimal number.
    Hex,
    /// A `b` ends a number that is not binary.
    Binary,
    /// A `d` ends a number that is not decimal.
    Decimal,
    /// An `o` ends a number that is not octal.
    Octal,
    /// The text cannot be a real number.
    Float,
    /// A second exponent mark.
    SecondExponent,
    /// An `h` inside a number.
    HexMark,
    /// A point after the exponent mark.
    PointInExponent,
    /// A point that no digit follows.
    PointWithoutDigits,
    /// An `o` inside a number.
    OctalMark,
    /// A hexadecimal number without its closing `h`.
    DecimalOrFloat,
}

impl NumberFault {
    /// What the text could not be read as, in the words of the diagnostic.
    pub open spec fn what(self) -> Seq<char> {
        match self {
            NumberFault::Hex => "шестнадцатеричное число"@,
            NumberFault::Binary => "двоичное число"@,
            NumberFault::Decimal => "десятичное число"@,
            NumberFault::Octal => "восьмеричное число"@,
            NumberFault::Float => "число с плавающей точкой"@,
            NumberFault::SecondExponent => "число с плавающей точкой, обнаружен второй символ 'E'"@,
            NumberFault::HexMark => "шестнадцатеричное число, так как обнаружен не поддерживаемый символ 'H' или 'h'"@,
            NumberFault::PointInExponent => "число с плавающей точкой, неожиданная точка в экспоненте"@,
            NumberFault::PointWithoutDigits => "число с плавающей точкой, неожиданная точка без цифр после неё"@,
            NumberFault::OctalMark => "восьмеричное число, так как дальше обнаружен не поддерживаемый символ"@,
            NumberFault::DecimalOrFloat => "десятичное число или число с плавающей точкой"@,
        }
    }

    /// Executable form of [`NumberFault::what`].
    pub fn text(&self) -> (r: &'static str)
        ensures
            r@ == self.what(),
    {
        match self {
            NumberFault::Hex => "шестнадцатеричное число",
            NumberFault::Binary => "двоичное число",
            NumberFault::Decimal => "десятичное число",
            NumberFault::Octal => "восьмеричное число",
            NumberFault::Float => "число с плавающей точкой",
            NumberFault::SecondExponent => "число с плавающей точкой, обнаружен второй символ 'E'",
            NumberFault::HexMark => "шестнадцатеричное число, так как обнаружен не поддерживаемый символ 'H' или 'h'",
            NumberFault::PointInExponent => "число с плавающей точкой, неожиданная точка в экспоненте",
            NumberFault::PointWithoutDigits => "число с плавающей точкой, неожиданная точка без цифр после неё",
            NumberFault::OctalMark => "восьмеричное число, так как дальше обнаружен не поддерживаемый символ",
            NumberFault::DecimalOrFloat => "десятичное число или число с плавающей точкой",
        }
    }
}

/// Why the lexer stopped.
#[derive(Debug, Clone, Copy, PartialEq, Eq, Structural)]
pub enum LexFault {
    /// The input ended inside a comment.
    UnterminatedComment,
    /// A word that is no keyword holds the character `_`.
    MalformedIdentifier,
    /// A numeric literal is ill-formed.
    MalformedNumber(NumberFault),
}

/// A failure of the lexer, with the place it was found at.
#[derive(Debug, PartialEq)]
pub struct LexerError {
    pub path: String,
    /// The column.
    pub position: usize,
    pub line: usize,
    pub token: TokenGroupLexer,
    pub message: String,
}

/// What a [`LexerError`] stands for.
pub struct LexerErrorView {
    pub path: Seq<char>,
    pub position: nat,
    pub line: nat,
    pub token: Lexeme,
    pub message: Seq<char>,
}

impl View for LexerError {
    type V = LexerErrorView;

    open spec fn view(&self) -> LexerErrorView {
        LexerErrorView {
            path: self.path@,
            position: self.position as nat,
            line: self.line as nat,
            token: self.token@,
            message: self.message@,
        }
    }
}

/// The outcome of a step of the lexer.
pub type LexerResult<T> = Result<T, LexerError>;

/// The character at an index of the source; outside the source, the
/// character NUL, which stands for the end of input.
pub open spec fn char_at(s: Seq<char>, i: int) -> char {
    if 0 <= i < s.len() {
        s[i]
    } else {
        '\0'
    }
}

/// ASCII white space: space, tab, line feed, form feed, carriage return.
pub open spec fn is_space(c: char) -> bool {
    c == ' ' || c == '\t' || c == '\n' || c == '\x0C' || c == '\r'
}

/// A decimal digit.
pub open spec fn is_digit(c: char) -> bool {
    '0' <= c <= '9'
}

/// An ASCII letter.
pub open spec fn is_letter(c: char) -> bool {
    ('a' <= c <= 'z') || ('A' <= c <= 'Z')
}

/// A character of a word: a letter, a digit or `_`.
pub open spec fn is_word_char(c: char) -> bool {
    is_letter(c) || is_digit(c) || c == '_'
}

/// The letters that are hexadecimal digits.
pub open spec fn is_hex_letter(c: char) -> bool {
    ('a' <= c <= 'f') || ('A' <= c <= 'F')
}

/// The characters after which a `b`, `d`, `h` or `o` inside a number is read
/// as part of the number and not as its closing mark, because the number
/// goes on: the digits, the hexadecimal letters, the point and `h`.
pub open spec fn hex_follows(c: char) -> bool {
    is_digit(c) || is_hex_letter(c) || c == '.' || c == 'h' || c == 'H'
}

/// The line of the character at index `i`, counted from 1.
pub open spec fn line_at(s: Seq<char>, i: int) -> nat
    decreases i,
{
    if i <= 0 {
        1
    } else if char_at(s, i - 1) == '\n' {
        line_at(s, i - 1) + 1
    } else {
        line_at(s, i - 1)
    }
}

/// The column of the character at index `i`, counted from 1.
pub open spec fn column_at(s: Seq<char>, i: int) -> nat
    decreases i,
{
    if i <= 0 {
        1
    } else if char_at(s, i - 1) == '\n' {
        1
    } else {
        column_at(s, i - 1) + 1
    }
}

/// Where skipping white space and comments ends.
pub enum Skipped {
    /// At the first character of a token, or at the end of input.
    At(int),
    /// At the end of input, inside a comment.
    Unterminated(int),
}

/// Skips white space and comments from index `i`. A comment runs from a `%`
/// to the next `%`; `inside` tells whether `i` is inside one.
pub open spec fn skip_blank(s: Seq<char>, i: int, inside: bool) -> Skipped
    decreases s.len() - i,
{
    let c = char_at(s, i);
    if inside {
        if c == '\0' {
            Skipped::Unterminated(i)
        } else {
            skip_blank(s, i + 1, c != '%')
        }
    } else if c == '%' {
        skip_blank(s, i + 1, true)
    } else if is_space(c) {
        skip_blank(s, i + 1, false)
    } else {
        Skipped::At(i)
    }
}

/// The keyword that a word is, if it is one.
pub open spec fn keyword_of(w: Seq<char>) -> Option<KeywordsGroup> {
    if w == KeywordsGroup::Var.text() {
        Some(KeywordsGroup::Var)
    } else if w == KeywordsGroup::Let.text() {
        Some(KeywordsGroup::Let)
    } else if w == KeywordsGroup::If.text() {
        Some(KeywordsGroup::If)
    } else if w == KeywordsGroup::Then.text() {
        Some(KeywordsGroup::Then)
    } else if w == KeywordsGroup::Else.text() {
        Some(KeywordsGroup::Else)
    } else if w == KeywordsGroup::EndElse.text() {
        Some(KeywordsGroup::EndElse)
    } else if w == KeywordsGroup::For.text() {
        Some(KeywordsGroup::For)
    } else if w == KeywordsGroup::Do.text() {
        Some(KeywordsGroup::Do)
    } else if w == KeywordsGroup::While.text() {
        Some(KeywordsGroup::While)
    } else if w == KeywordsGroup::Loop.text() {
        Some(KeywordsGroup::Loop)
    } else if w == KeywordsGroup::Input.text() {
        Some(KeywordsGroup::Input)
    } else if w == KeywordsGroup::Output.text() {
        Some(KeywordsGroup::Output)
    } else if w == KeywordsGroup::Integer.text() {
        Some(KeywordsGroup::Integer)
    } else if w == KeywordsGroup::Real.text() {
        Some(KeywordsGroup::Real)
    } else if w == KeywordsGroup::Boolean.text() {
        Some(KeywordsGroup::Boolean)
    } else if w == KeywordsGroup::True.text() {
        Some(KeywordsGroup::True)
    } else if w == KeywordsGroup::False.text() {
        Some(KeywordsGroup::False)
    } else {
        None
    }
}

/// The index after the word that starts at `i`.
pub open spec fn word_end(s: Seq<char>, i: int) -> int
    decreases s.len() - i,
{
    if is_word_char(char_at(s, i)) {
        word_end(s, i + 1)
    } else {
        i
    }
}

/// What the lexer knows of a numeric literal while reading it: the narrowest
/// category that fits, and whether an exponent mark was read.
pub struct NumState {
    pub kind: DigitType,
    pub exp: bool,
}

/// What one character does to a numeric literal.
pub enum NumStep {
    /// The character belongs to the literal.
    Continue(NumState),
    /// The literal is complete; the flag tells whether the character is its
    /// last one (a closing mark) or the first after it.
    Accept(bool),
    Reject(NumberFault),
}

/// The category after a character that asks for at least `to`.
pub open spec fn widened(st: NumState, to: DigitType) -> NumState {
    if st.kind.widens_to(to) {
        NumState { kind: to, exp: st.exp }
    } else {
        st
    }
}

/// A closing mark `b`, `d` or `o` of the category `of`, or the same letter
/// as a hexadecimal digit when `next` shows that the number goes on.
pub open spec fn closing_mark(
    st: NumState,
    next: char,
    of: DigitType,
    fault: NumberFault,
) -> NumStep {
    if hex_follows(next) {
        if st.kind.widens_to(DigitType::Hex) {
            NumStep::Continue(NumState { kind: DigitType::Hex, exp: st.exp })
        } else {
            NumStep::Reject(NumberFault::Hex)
        }
    } else if st.kind.widens_to(of) {
        NumStep::Accept(true)
    } else {
        NumStep::Reject(fault)
    }
}

/// The transition of the numeric automaton: what the character `c` does in
/// state `st`, given the character before it and the one after it.
pub open spec fn number_step(st: NumState, prev: char, c: char, next: char) -> NumStep {
    if c == '0' || c == '1' {
        NumStep::Continue(st)
    } else if '2' <= c <= '7' {
        NumStep::Continue(widened(st, DigitType::Octal))
    } else if c == '8' || c == '9' {
        NumStep::Continue(widened(st, DigitType::Digital))
    } else if c == 'B' || c == 'b' {
        closing_mark(st, next, DigitType::Binary, NumberFault::Binary)
    } else if c == 'D' || c == 'd' {
        closing_mark(st, next, DigitType::Digital, NumberFault::Decimal)
    } else if c == 'E' || c == 'e' {
        if st.kind.widens_to(DigitType::HexPoint) || st.kind.widens_to(DigitType::Point) {
            if st.exp {
                NumStep::Reject(NumberFault::SecondExponent)
            } else {
                NumStep::Continue(
                    NumState { kind: widened(st, DigitType::HexPoint).kind, exp: true },
                )
            }
        } else {
            NumStep::Reject(NumberFault::Float)
        }
    } else if c == 'H' || c == 'h' {
        if hex_follows(next) {
            NumStep::Reject(NumberFault::HexMark)
        } else if st.kind.widens_to(DigitType::Hex) {
            NumStep::Accept(true)
        } else {
            NumStep::Reject(NumberFault::Hex)
        }
    } else if c == '.' {
        if st.kind.widens_to(DigitType::Point) {
            if st.exp {
                NumStep::Reject(NumberFault::PointInExponent)
            } else if st.kind == DigitType::Point {
                NumStep::Reject(NumberFault::Float)
            } else if is_digit(next) {
                NumStep::Continue(NumState { kind: DigitType::Point, exp: st.exp })
            } else {
                NumStep::Reject(NumberFault::PointWithoutDigits)
            }
        } else {
            NumStep::Reject(NumberFault::Float)
        }
    } else if c == 'O' || c == 'o' {
        if hex_follows(next) {
            NumStep::Reject(NumberFault::OctalMark)
        } else if st.kind.widens_to(DigitType::Octal) {
            NumStep::Accept(true)
        } else {
            NumStep::Reject(NumberFault::Octal)
        }
    } else if (c == '+' || c == '-') && st.exp && (prev == 'E' || prev == 'e') {
        if st.kind.widens_to(DigitType::Point) {
            NumStep::Continue(NumState { kind: DigitType::Point, exp: st.exp })
        } else {
            NumStep::Reject(NumberFault::Float)
        }
    } else if is_letter(c) {
        if is_hex_letter(c) && st.kind.widens_to(DigitType::Hex) {
            NumStep::Continue(NumState { kind: DigitType::Hex, exp: st.exp })
        } else {
            NumStep::Reject(NumberFault::Hex)
        }
    } else if st.kind.widens_to(DigitType::Digital) {
        NumStep::Accept(false)
    } else if st.kind.widens_to(DigitType::Point) {
        if is_digit(prev) {
            NumStep::Accept(false)
        } else {
            NumStep::Reject(NumberFault::Float)
        }
    } else {
        NumStep::Reject(NumberFault::DecimalOrFloat)
    }
}

/// How reading a numeric literal ends.
pub enum NumberEnd {
    /// The index after the literal.
    End(int),
    /// The fault and the index of the character it was found at.
    Fault(NumberFault, int),
}

/// Runs the numeric automaton from index `i` in state `st`; `prev` is the
/// character before `i`.
pub open spec fn scan_number(s: Seq<char>, i: int, st: NumState, prev: char) -> NumberEnd
    decreases s.len() - i,
{
    match number_step(st, prev, char_at(s, i), char_at(s, i + 1)) {
        NumStep::Continue(st2) => if i < s.len() {
            scan_number(s, i + 1, st2, char_at(s, i))
        } else {
            NumberEnd::End(i)
        },
        NumStep::Accept(take) => NumberEnd::End(
            if take {
                i + 1
            } else {
                i
            },
        ),
        NumStep::Reject(f) => NumberEnd::Fault(f, i),
    }
}

/// The state in which a numeric literal starts.
pub open spec fn number_start() -> NumState {
    NumState { kind: DigitType::Binary, exp: false }
}

/// The outcome of reading one token.
pub enum Scan {
    /// A lexeme, the index of its first character, and the index after it.
    Token { lexeme: Lexeme, start: int, next: int },
    /// A fault, the index where the token started, and the index the fault
    /// was found at.
    Fault { fault: LexFault, start: int, at: int },
}

/// A delimiter of one character, or of two when `second` follows `c`.
pub open spec fn delimiter_of(c: char, next: char) -> Option<(DelimitersGroup, int)> {
    if c == '{' {
        Some((DelimitersGroup::LeftCurlyBracket, 1))
    } else if c == '}' {
        Some((DelimitersGroup::RightCurlyBracket, 1))
    } else if c == '(' {
        Some((DelimitersGroup::LeftParenthesis, 1))
    } else if c == ')' {
        Some((DelimitersGroup::RightParenthesis, 1))
    } else if c == ',' {
        Some((DelimitersGroup::Comma, 1))
    } else if c == ':' {
        Some((DelimitersGroup::Colon, 1))
    } else if c == ';' {
        Some((DelimitersGroup::Semicolon, 1))
    } else if c == '+' {
        Some((DelimitersGroup::Plus, 1))
    } else if c == '-' {
        Some((DelimitersGroup::Minus, 1))
    } else if c == '*' {
        Some((DelimitersGroup::Asterisk, 1))
    } else if c == '/' {
        Some((DelimitersGroup::Slash, 1))
    } else if c == '=' {
        if next == '=' {
            Some((DelimitersGroup::Identical, 2))
        } else {
            Some((DelimitersGroup::Equal, 1))
        }
    } else if c == '!' {
        if next == '=' {
            Some((DelimitersGroup::NotEqual, 2))
        } else {
            Some((DelimitersGroup::Not, 1))
        }
    } else if c == '<' {
        if next == '=' {
            Some((DelimitersGroup::LessEqual, 2))
        } else {
            Some((DelimitersGroup::Less, 1))
        }
    } else if c == '>' {
        if next == '=' {
            Some((DelimitersGroup::GreaterEqual, 2))
        } else {
            Some((DelimitersGroup::Greater, 1))
        }
    } else if c == '&' && next == '&' {
        Some((DelimitersGroup::And, 2))
    } else if c == '|' && next == '|' {
        Some((DelimitersGroup::Or, 2))
    } else {
        None
    }
}

/// The token that starts at index `i`, where no white space or comment
/// stands.
pub open spec fn scan_token(s: Seq<char>, i: int) -> Scan {
    let c = char_at(s, i);
    match delimiter_of(c, char_at(s, i + 1)) {
        Some((d, n)) => Scan::Token { lexeme: Lexeme::Delimiters(d), start: i, next: i + n },
        None => if is_letter(c) {
            let end = word_end(s, i);
            let word = s.subrange(i, end);
            match keyword_of(word) {
                Some(k) => Scan::Token { lexeme: Lexeme::Keywords(k), start: i, next: end },
                None => if word.contains('_') {
                    Scan::Fault { fault: LexFault::MalformedIdentifier, start: i, at: end }
                } else {
                    Scan::Token { lexeme: Lexeme::Identifier(word), start: i, next: end }
                },
            }
        } else if is_digit(c) || c == '.' {
            match scan_number(s, i, number_start(), ' ') {
                NumberEnd::End(end) => Scan::Token {
                    lexeme: Lexeme::Variables(s.subrange(i, end)),
                    start: i,
                    next: end,
                },
                NumberEnd::Fault(f, at) => Scan::Fault { fault: LexFault::MalformedNumber(f), start: i, at },
            }
        } else if c == '\0' {
            Scan::Token { lexeme: Lexeme::Eof, start: i, next: i }
        } else {
            Scan::Token {
                lexeme: Lexeme::Illegal(c, line_at(s, i), column_at(s, i)),
                start: i,
                next: i + 1,
            }
        },
    }
}

/// The next token from index `i` on: white space and comments are skipped,
/// then one token is read.
pub open spec fn next_lexeme(s: Seq<char>, i: int) -> Scan {
    match skip_blank(s, i, false) {
        Skipped::At(j) => scan_token(s, j),
        Skipped::Unterminated(j) => Scan::Fault {
            fault: LexFault::UnterminatedComment,
            start: j,
            at: j,
        },
    }
}

/// The error that reports a fault in the source `s` of the file `path`.
pub open spec fn lexer_error(
    path: Seq<char>,
    s: Seq<char>,
    fault: LexFault,
    start: int,
    at: int,
) -> LexerErrorView {
    match fault {
        LexFault::UnterminatedComment => LexerErrorView {
            path,
            position: column_at(s, at),
            line: line_at(s, at),
            token: Lexeme::Illegal('\0', line_at(s, at), column_at(s, at)),
            message: "Неожиданный конец файла"@,
        },
        LexFault::MalformedIdentifier => LexerErrorView {
            path,
            position: column_at(s, start),
            line: line_at(s, at),
            token: Lexeme::Identifier(s.subrange(start, at)),
            message: "встречен символ '_'"@,
        },
        LexFault::MalformedNumber(f) => LexerErrorView {
            path,
            position: column_at(s, at),
            line: line_at(s, at),
            token: Lexeme::Variables(Seq::empty()),
            message: "Не возможно интерпретировать '"@ + s.subrange(start, at) + "' как "@
                + f.what(),
        },
    }
}

} // verus!

verus! {

/// Lines and columns never run ahead of the index.
pub proof fn lemma_place_bounds(s: Seq<char>, i: int)
    requires
        0 <= i,
    ensures
        1 <= line_at(s, i) <= i + 1,
        1 <= column_at(s, i) <= i + 1,
    decreases i,
{
    if i > 0 {
        lemma_place_bounds(s, i - 1);
    }
}

fn digit(c: char) -> (r: bool)
    ensures
        r == is_digit(c),
{
    '0' <= c && c <= '9'
}

fn letter(c: char) -> (r: bool)
    ensures
        r == is_letter(c),
{
    ('a' <= c && c <= 'z') || ('A' <= c && c <= 'Z')
}

fn hex_letter(c: char) -> (r: bool)
    ensures
        r == is_hex_letter(c),
{
    ('a' <= c && c <= 'f') || ('A' <= c && c <= 'F')
}

fn word_char(c: char) -> (r: bool)
    ensures
        r == is_word_char(c),
{
    letter(c) || digit(c) || c == '_'
}

fn space(c: char) -> (r: bool)
    ensures
        r == is_space(c),
{
    c == ' ' || c == '\t' || c == '\n' || c == '\x0C' || c == '\r'
}

fn follows_hex(c: char) -> (r: bool)
    ensures
        r == hex_follows(c),
{
    digit(c) || hex_letter(c) || c == '.' || c == 'h' || c == 'H'
}

/// Executable form of [`delimiter_of`].
fn delimiter(c: char, next: char) -> (r: Option<(DelimitersGroup, u8)>)
    ensures
        match delimiter_of(c, next) {
            Some((d, n)) => r == Some((d, n as u8)) && 1 <= n <= 2,
            None => r.is_none(),
        },
{
    if c == '{' {
        Some((DelimitersGroup::LeftCurlyBracket, 1))
    } else if c == '}' {
        Some((DelimitersGroup::RightCurlyBracket, 1))
    } else if c == '(' {
        Some((DelimitersGroup::LeftParenthesis, 1))
    } else if c == ')' {
        Some((DelimitersGroup::RightParenthesis, 1))
    } else if c == ',' {
        Some((DelimitersGroup::Comma, 1))
    } else if c == ':' {
        Some((DelimitersGroup::Colon, 1))
    } else if c == ';' {
        Some((DelimitersGroup::Semicolon, 1))
    } else if c == '+' {
        Some((DelimitersGroup::Plus, 1))
    } else if c == '-' {
        Some((DelimitersGroup::Minus, 1))
    } else if c == '*' {
        Some((DelimitersGroup::Asterisk, 1))
    } else if c == '/' {
        Some((DelimitersGroup::Slash, 1))
    } else if c == '=' {
        if next == '=' {
            Some((DelimitersGroup::Identical, 2))
        } else {
            Some((DelimitersGroup::Equal, 1))
        }
    } else if c == '!' {
        if next == '=' {
            Some((DelimitersGroup::NotEqual, 2))
        } else {
            Some((DelimitersGroup::Not, 1))
        }
    } else if c == '<' {
        if next == '=' {
            Some((DelimitersGroup::LessEqual, 2))
        } else {
            Some((DelimitersGroup::Less, 1))
        }
    } else if c == '>' {
        if next == '=' {
            Some((DelimitersGroup::GreaterEqual, 2))
        } else {
            Some((DelimitersGroup::Greater, 1))
        }
    } else if c == '&' && next == '&' {
        Some((DelimitersGroup::And, 2))
    } else if c == '|' && next == '|' {
        Some((DelimitersGroup::Or, 2))
    } else {
        None
    }
}

/// Whether the characters are those of the word.
fn same_text(chars: &Vec<char>, word: &str) -> (r: bool)
    ensures
        r == (chars@ == word@),
{
    let n = word.unicode_len();
    if chars.len() != n {
        return false;
    }
    let mut i: usize = 0;
    while i < n
        invariant
            i <= n,
            n == word@.len(),
            n == chars@.len(),
            forall|j: int| 0 <= j < i ==> chars@[j] == word@[j],
        decreases n - i,
    {
        if chars[i] != word.get_char(i) {
            return false;
        }
        i += 1;
    }
    assert(chars@ =~= word@);
    true
}

/// Executable form of [`keyword_of`].
fn keyword(w: &Vec<char>) -> (r: Option<KeywordsGroup>)
    ensures
        r == keyword_of(w@),
{
    if same_text(w, KeywordsGroup::Var.spelling()) {
        Some(KeywordsGroup::Var)
    } else if same_text(w, KeywordsGroup::Let.spelling()) {
        Some(KeywordsGroup::Let)
    } else if same_text(w, KeywordsGroup::If.spelling()) {
        Some(KeywordsGroup::If)
    } else if same_text(w, KeywordsGroup::Then.spelling()) {
        Some(KeywordsGroup::Then)
    } else if same_text(w, KeywordsGroup::Else.spelling()) {
        Some(KeywordsGroup::Else)
    } else if same_text(w, KeywordsGroup::EndElse.spelling()) {
        Some(KeywordsGroup::EndElse)
    } else if same_text(w, KeywordsGroup::For.spelling()) {
        Some(KeywordsGroup::For)
    } else if same_text(w, KeywordsGroup::Do.spelling()) {
        Some(KeywordsGroup::Do)
    } else if same_text(w, KeywordsGroup::While.spelling()) {
        Some(KeywordsGroup::While)
    } else if same_text(w, KeywordsGroup::Loop.spelling()) {
        Some(KeywordsGroup::Loop)
    } else if same_text(w, KeywordsGroup::Input.spelling()) {
        Some(KeywordsGroup::Input)
    } else if same_text(w, KeywordsGroup::Output.spelling()) {
        Some(KeywordsGroup::Output)
    } else if same_text(w, KeywordsGroup::Integer.spelling()) {
        Some(KeywordsGroup::Integer)
    } else if same_text(w, KeywordsGroup::Real.spelling()) {
        Some(KeywordsGroup::Real)
    } else if same_text(w, KeywordsGroup::Boolean.spelling()) {
        Some(KeywordsGroup::Boolean)
    } else if same_text(w, KeywordsGroup::True.spelling()) {
        Some(KeywordsGroup::True)
    } else if same_text(w, KeywordsGroup::False.spelling()) {
        Some(KeywordsGroup::False)
    } else {
        None
    }
}

/// Whether the characters hold `_`.
fn has_underscore(w: &Vec<char>) -> (r: bool)
    ensures
        r == w@.contains('_'),
{
    let mut i: usize = 0;
    while i < w.len()
        invariant
            i <= w.len(),
            forall|j: int| 0 <= j < i ==> w@[j] != '_',
        decreases w.len() - i,
    {
        if w[i] == '_' {
            return true;
        }
        i += 1;
    }
    false
}

/// Executable form of [`widened`].
fn widen(st: NumState, to: DigitType) -> (r: NumState)
    ensures
        r == widened(st, to),
{
    if st.kind >> to {
        NumState { kind: to, exp: st.exp }
    } else {
        st
    }
}

/// Executable form of [`closing_mark`].
fn mark(st: NumState, next: char, of: DigitType, fault: NumberFault) -> (r: NumStep)
    ensures
        r == closing_mark(st, next, of, fault),
{
    if follows_hex(next) {
        if st.kind >> DigitType::Hex {
            NumStep::Continue(NumState { kind: DigitType::Hex, exp: st.exp })
        } else {
            NumStep::Reject(NumberFault::Hex)
        }
    } else if st.kind >> of {
        NumStep::Accept(true)
    } else {
        NumStep::Reject(fault)
    }
}

/// Executable form of [`number_step`].
fn step(st: NumState, prev: char, c: char, next: char) -> (r: NumStep)
    ensures
        r == number_step(st, prev, c, next),
{
    if c == '0' || c == '1' {
        NumStep::Continue(st)
    } else if '2' <= c && c <= '7' {
        NumStep::Continue(widen(st, DigitType::Octal))
    } else if c == '8' || c == '9' {
        NumStep::Continue(widen(st, DigitType::Digital))
    } else if c == 'B' || c == 'b' {
        mark(st, next, DigitType::Binary, NumberFault::Binary)
    } else if c == 'D' || c == 'd' {
        mark(st, next, DigitType::Digital, NumberFault::Decimal)
    } else if c == 'E' || c == 'e' {
        if st.kind >> DigitType::HexPoint || st.kind >> DigitType::Point {
            if st.exp {
                NumStep::Reject(NumberFault::SecondExponent)
            } else {
                NumStep::Continue(NumState { kind: widen(st, DigitType::HexPoint).kind, exp: true })
            }
        } else {
            NumStep::Reject(NumberFault::Float)
        }
    } else if c == 'H' || c == 'h' {
        if follows_hex(next) {
            NumStep::Reject(NumberFault::HexMark)
        } else if st.kind >> DigitType::Hex {
            NumStep::Accept(true)
        } else {
            NumStep::Reject(NumberFault::Hex)
        }
    } else if c == '.' {
        if st.kind >> DigitType::Point {
            if st.exp {
                NumStep::Reject(NumberFault::PointInExponent)
            } else if st.kind == DigitType::Point {
                NumStep::Reject(NumberFault::Float)
            } else if digit(next) {
                NumStep::Continue(NumState { kind: DigitType::Point, exp: st.exp })
            } else {
                NumStep::Reject(NumberFault::PointWithoutDigits)
            }
        } else {
            NumStep::Reject(NumberFault::Float)
        }
    } else if c == 'O' || c == 'o' {
        if follows_hex(next) {
            NumStep::Reject(NumberFault::OctalMark)
        } else if st.kind >> DigitType::Octal {
            NumStep::Accept(true)
        } else {
            NumStep::Reject(NumberFault::Octal)
        }
    } else if (c == '+' || c == '-') && st.exp && (prev == 'E' || prev == 'e') {
        if st.kind >> DigitType::Point {
            NumStep::Continue(NumState { kind: DigitType::Point, exp: st.exp })
        } else {
            NumStep::Reject(NumberFault::Float)
        }
    } else if letter(c) {
        if hex_letter(c) && st.kind >> DigitType::Hex {
            NumStep::Continue(NumState { kind: DigitType::Hex, exp: st.exp })
        } else {
            NumStep::Reject(NumberFault::Hex)
        }
    } else if st.kind >> DigitType::Digital {
        NumStep::Accept(false)
    } else if st.kind >> DigitType::Point {
        if digit(prev) {
            NumStep::Accept(false)
        } else {
            NumStep::Reject(NumberFault::Float)
        }
    } else {
        NumStep::Reject(NumberFault::DecimalOrFloat)
    }
}

} // verus!

verus! {

/// The lexer: the characters of the source and a cursor into them.
pub struct Lexer {
    path: String,
    /// The characters of the source, closed by one NUL.
    source: Vec<char>,
    /// Index of the current character.
    position: usize,
    buffer: Vec<char>,
    line: usize,
    inline_position: usize,
    character: char,
    next_character: char,
}

impl Lexer {
    /// The characters of the source.
    pub closed spec fn text(&self) -> Seq<char> {
        self.source@.drop_last()
    }

    /// The name of the source file.
    pub closed spec fn file(&self) -> Seq<char> {
        self.path@
    }

    /// Index of the first character that was not read yet.
    pub closed spec fn cursor(&self) -> int {
        self.position as int
    }

    /// The cursor is inside the source or at its end, and the current
    /// character, the one after it, the line and the column are those of
    /// the cursor.
    pub closed spec fn wf(&self) -> bool {
        &&& self.source@.len() >= 1
        &&& self.source@.last() == '\0'
        &&& self.position < self.source@.len()
        &&& self.character == char_at(self.text(), self.position as int)
        &&& self.next_character == char_at(self.text(), self.position + 1)
        &&& self.line == line_at(self.text(), self.position as int)
        &&& self.inline_position == column_at(self.text(), self.position as int)
    }

    /// The cursor of a well-formed lexer is inside the source or at its end.
    pub proof fn lemma_cursor(&self)
        requires
            self.wf(),
        ensures
            0 <= self.cursor() <= self.text().len(),
    {
    }

    /// A lexer at the start of `source`, the text of the file `path`.
    pub fn new(source: Vec<char>, path: String) -> (r: Lexer)
        ensures
            r.wf(),
            r.text() == source@,
            r.file() == path@,
            r.cursor() == 0,
    {
        let mut source = source;
        let ghost given = source@;
        source.push('\0');
        assert(source@.drop_last() =~= given);
        let character = source[0];
        let next_character = if source.len() > 1 {
            source[1]
        } else {
            '\0'
        };
        Lexer {
            path,
            source,
            position: 0,
            buffer: Vec::new(),
            line: 1,
            inline_position: 1,
            character,
            next_character,
        }
    }

    /// Moves the cursor to the next character; at the end of input it stays.
    fn read_char(&mut self)
        requires
            old(self).wf(),
        ensures
            final(self).wf(),
            final(self).text() == old(self).text(),
            final(self).file() == old(self).file(),
            final(self).buffer == old(self).buffer,
            final(self).cursor() == if char_at(old(self).text(), old(self).cursor()) != '\0' {
                old(self).cursor() + 1
            } else {
                old(self).cursor()
            },
    {
        if self.character != '\0' {
            proof {
                lemma_place_bounds(self.text(), self.position as int);
            }
            let n = self.source.len();
            if self.character == '\n' {
                self.line += 1;
                self.inline_position = 1;
            } else {
                self.inline_position += 1;
            }
            self.position += 1;
            self.character = self.next_character;
            self.next_character = if self.position + 1 < n {
                self.source[self.position + 1]
            } else {
                '\0'
            };
        }
    }

    /// The character after the current one.
    fn next_char(&self) -> (r: char)
        requires
            self.wf(),
        ensures
            r == char_at(self.text(), self.cursor() + 1),
    {
        self.next_character
    }

    /// The last character that was collected, or a space if none was.
    fn prev_char(&self) -> (r: char)
        ensures
            r == if self.buffer@.len() > 0 {
                self.buffer@.last()
            } else {
                ' '
            },
    {
        if self.buffer.len() > 0 {
            self.buffer[self.buffer.len() - 1]
        } else {
            ' '
        }
    }

    /// Skips white space and comments.
    fn skip_whitespace(&mut self) -> (r: Result<(), LexerError>)
        requires
            old(self).wf(),
        ensures
            final(self).wf(),
            final(self).text() == old(self).text(),
            final(self).file() == old(self).file(),
            match skip_blank(old(self).text(), old(self).cursor(), false) {
                Skipped::At(j) => r is Ok && final(self).cursor() == j,
                Skipped::Unterminated(j) => r is Err && final(self).cursor() == j && r->Err_0@
                    == lexer_error(
                    old(self).file(),
                    old(self).text(),
                    LexFault::UnterminatedComment,
                    j,
                    j,
                ),
            },
    {
        let mut inside = false;
        loop
            invariant
                self.wf(),
                self.text() == old(self).text(),
                self.file() == old(self).file(),
                skip_blank(old(self).text(), old(self).cursor(), false) == skip_blank(
                    self.text(),
                    self.cursor(),
                    inside,
                ),
            decreases self.text().len() - self.cursor(),
        {
            let c = self.character;
            if inside {
                if c == '\0' {
                    return Err(
                        LexerError {
                            path: self.path.clone(),
                            position: self.inline_position,
                            line: self.line,
                            token: TokenGroupLexer::Illegal(
                                (c, self.line, self.inline_position),
                            ),
                            message: "Неожиданный конец файла".to_owned(),
                        },
                    );
                }
                inside = c != '%';
            } else if c == '%' {
                inside = true;
            } else if !space(c) {
                return Ok(());
            }
            self.read_char();
        }
    }

    /// Collects the characters of a word into the buffer.
    fn read_identifier(&mut self)
        requires
            old(self).wf(),
        ensures
            final(self).wf(),
            final(self).text() == old(self).text(),
            final(self).file() == old(self).file(),
            final(self).cursor() == word_end(old(self).text(), old(self).cursor()),
            old(self).cursor() <= final(self).cursor(),
            final(self).buffer@ == old(self).text().subrange(
                old(self).cursor(),
                final(self).cursor(),
            ),
            final(self).line == old(self).line,
    {
        self.buffer.clear();
        let ghost start = self.cursor();
        assert(self.buffer@ =~= self.text().subrange(start, start));
        while word_char(self.character)
            invariant
                self.wf(),
                self.text() == old(self).text(),
                self.file() == old(self).file(),
                start == old(self).cursor(),
                start <= self.cursor(),
                self.buffer@ == self.text().subrange(start, self.cursor()),
                word_end(self.text(), start) == word_end(self.text(), self.cursor()),
                self.line == old(self).line,
            decreases self.text().len() - self.cursor(),
        {
            let ghost before = self.cursor();
            self.buffer.push(self.character);
            self.read_char();
            assert(self.buffer@ =~= self.text().subrange(start, self.cursor()));
        }
    }

    /// The error for an ill-formed numeric literal whose characters so far
    /// are in the buffer.
    fn variable_error(&mut self, fault: NumberFault, Ghost(start): Ghost<int>) -> (r: LexerError)
        requires
            old(self).wf(),
            0 <= start <= old(self).cursor(),
            old(self).buffer@ == old(self).text().subrange(start, old(self).cursor()),
        ensures
            final(self).wf(),
            final(self).text() == old(self).text(),
            final(self).file() == old(self).file(),
            final(self).cursor() == old(self).cursor(),
            r@ == lexer_error(
                old(self).file(),
                old(self).text(),
                LexFault::MalformedNumber(fault),
                start,
                old(self).cursor(),
            ),
    {
        let mut message: Vec<char> = Vec::new();
        push_str(&mut message, "Не возможно интерпретировать '");
        let ghost text = self.buffer@;
        message.append(&mut self.buffer);
        push_str(&mut message, "' как ");
        push_str(&mut message, fault.text());
        assert(message@ =~= "Не возможно интерпретировать '"@ + text + "' как "@ + fault.what());
        LexerError {
            path: self.path.clone(),
            position: self.inline_position,
            line: self.line,
            token: TokenGroupLexer::Variables(String::new()),
            message: string_from_chars(&message),
        }
    }

    /// Reads a numeric literal.
    fn read_digit(&mut self) -> (r: LexerResult<(TokenGroupLexer, usize, usize)>)
        requires
            old(self).wf(),
        ensures
            final(self).wf(),
            final(self).text() == old(self).text(),
            final(self).file() == old(self).file(),
            match scan_number(old(self).text(), old(self).cursor(), number_start(), ' ') {
                NumberEnd::End(end) => r is Ok && final(self).cursor() == end && r->Ok_0.0@
                    == Lexeme::Variables(old(self).text().subrange(old(self).cursor(), end))
                    && r->Ok_0.1 == line_at(old(self).text(), old(self).cursor()) && r->Ok_0.2
                    == column_at(old(self).text(), old(self).cursor()),
                NumberEnd::Fault(f, at) => r is Err && final(self).cursor() == at && r->Err_0@
                    == lexer_error(
                    old(self).file(),
                    old(self).text(),
                    LexFault::MalformedNumber(f),
                    old(self).cursor(),
                    at,
                ),
            },
    {
        let line = self.line;
        let inline_position = self.inline_position;
        let ghost start = self.cursor();
        let ghost s = self.text();
        let mut state = NumState { kind: DigitType::Binary, exp: false };
        self.buffer.clear();
        assert(self.buffer@ =~= s.subrange(start, start));
        loop
            invariant
                self.wf(),
                self.text() == s,
                s == old(self).text(),
                self.file() == old(self).file(),
                start == old(self).cursor(),
                0 <= start <= self.cursor(),
                self.buffer@ == s.subrange(start, self.cursor()),
                line == line_at(s, start),
                inline_position == column_at(s, start),
                scan_number(s, start, number_start(), ' ') == scan_number(
                    s,
                    self.cursor(),
                    state,
                    if self.cursor() > start {
                        char_at(s, self.cursor() - 1)
                    } else {
                        ' '
                    },
                ),
            decreases s.len() - self.cursor(),
        {
            let prev = self.prev_char();
            assert(self.cursor() > start ==> prev == char_at(s, self.cursor() - 1));
            match step(state, prev, self.character, self.next_char()) {
                NumStep::Continue(next) => {
                    state = next;
                    self.buffer.push(self.character);
                    self.read_char();
                    assert(self.buffer@ =~= s.subrange(start, self.cursor()));
                },
                NumStep::Accept(take) => {
                    if take {
                        self.buffer.push(self.character);
                        self.read_char();
                        assert(self.buffer@ =~= s.subrange(start, self.cursor()));
                    }
                    let res = string_from_chars(&self.buffer);
                    self.buffer.clear();
                    return Ok((TokenGroupLexer::Variables(res), line, inline_position));
                },
                NumStep::Reject(fault) => {
                    return Err(self.variable_error(fault, Ghost(start)));
                },
            }
        }
    }

    /// Reads a keyword or an identifier.
    fn read_word(&mut self) -> (r: LexerResult<(TokenGroupLexer, usize, usize)>)
        requires
            old(self).wf(),
            is_letter(char_at(old(self).text(), old(self).cursor())),
        ensures
            final(self).wf(),
            final(self).text() == old(self).text(),
            final(self).file() == old(self).file(),
            outcome(old(self).file(), old(self).text(), final(self).cursor(), r, scan_token(
                old(self).text(),
                old(self).cursor(),
            )),
    {
        let line = self.line;
        let inline_position = self.inline_position;
        self.read_identifier();
        match keyword(&self.buffer) {
            Some(k) => {
                self.buffer.clear();
                Ok((TokenGroupLexer::Keywords(k), line, inline_position))
            },
            None => {
                let name = string_from_chars(&self.buffer);
                let bad = has_underscore(&self.buffer);
                self.buffer.clear();
                if bad {
                    Err(
                        LexerError {
                            path: self.path.clone(),
                            position: inline_position,
                            line: self.line,
                            token: TokenGroupLexer::Identifier(name),
                            message: "встречен символ '_'".to_owned(),
                        },
                    )
                } else {
                    Ok((TokenGroupLexer::Identifier(name), line, inline_position))
                }
            },
        }
    }

    /// Reads the next token: white space and comments are skipped, then one
    /// token is read. The result is the token with the line and column of
    /// its first character; the cursor is left after the token. A fault
    /// leaves the cursor where it was found.
    pub fn next_token(&mut self) -> (r: LexerResult<(TokenGroupLexer, usize, usize)>)
        requires
            old(self).wf(),
        ensures
            final(self).wf(),
            final(self).text() == old(self).text(),
            final(self).file() == old(self).file(),
            outcome(old(self).file(), old(self).text(), final(self).cursor(), r, next_lexeme(
                old(self).text(),
                old(self).cursor(),
            )),
    {
        match self.skip_whitespace() {
            Err(e) => {
                return Err(e);
            },
            Ok(_) => {},
        }
        let line = self.line;
        let inline_position = self.inline_position;
        let c = self.character;
        match delimiter(c, self.next_char()) {
            Some((d, n)) => {
                self.read_char();
                if n == 2 {
                    self.read_char();
                }
                return Ok((TokenGroupLexer::Delimiters(d), line, inline_position));
            },
            None => {},
        }
        if letter(c) {
            self.read_word()
        } else if digit(c) || c == '.' {
            self.read_digit()
        } else if c == '\0' {
            Ok((TokenGroupLexer::Eof, line, inline_position))
        } else {
            self.read_char();
            Ok((TokenGroupLexer::Illegal((c, line, inline_position)), line, inline_position))
        }
    }
}

/// Whether an executable outcome is the one the scan gives: the token with
/// the line and column of its first character and the cursor after it, or
/// the error of the fault and the cursor at it.
pub open spec fn outcome(
    path: Seq<char>,
    s: Seq<char>,
    cursor: int,
    r: LexerResult<(TokenGroupLexer, usize, usize)>,
    scan: Scan,
) -> bool {
    match scan {
        Scan::Token { lexeme, start, next } => r is Ok && r->Ok_0.0@ == lexeme && r->Ok_0.1
            == line_at(s, start) && r->Ok_0.2 == column_at(s, start) && cursor == next,
        Scan::Fault { fault, start, at } => r is Err && r->Err_0@ == lexer_error(
            path,
            s,
            fault,
            start,
            at,
        ) && cursor == at,
    }
}

} // verus!

verus! {

/// Skipping never moves back, nor past the end of the source.
pub proof fn lemma_skip_bounds(s: Seq<char>, i: int, inside: bool)
    requires
        0 <= i <= s.len(),
    ensures
        match skip_blank(s, i, inside) {
            Skipped::At(j) => i <= j <= s.len() && !is_space(char_at(s, j)) && char_at(s, j)
                != '%',
            Skipped::Unterminated(j) => i <= j <= s.len() && char_at(s, j) == '\0',
        },
    decreases s.len() - i,
{
    let c = char_at(s, i);
    if inside {
        if c != '\0' {
            lemma_skip_bounds(s, i + 1, c != '%');
        }
    } else if c == '%' {
        lemma_skip_bounds(s, i + 1, true);
    } else if is_space(c) {
        lemma_skip_bounds(s, i + 1, false);
    }
}

/// A word ends at or after its start, inside the source, and consists of
/// word characters.
pub proof fn lemma_word_bounds(s: Seq<char>, i: int)
    requires
        0 <= i <= s.len(),
    ensures
        i <= word_end(s, i) <= s.len(),
        is_word_char(char_at(s, i)) ==> i < word_end(s, i),
        forall|k: int| i <= k < word_end(s, i) ==> is_word_char(#[trigger] s[k]),
        !is_word_char(char_at(s, word_end(s, i))),
    decreases s.len() - i,
{
    if is_word_char(char_at(s, i)) {
        lemma_word_bounds(s, i + 1);
    }
}

/// A character that a numeric literal can hold: a digit, a letter, a point
/// or a sign.
pub open spec fn is_number_char(c: char) -> bool {
    is_digit(c) || is_letter(c) || c == '.' || c == '+' || c == '-'
}

/// A numeric literal ends at or after its start, inside the source, and
/// consists of characters that a literal can hold.
pub proof fn lemma_number_bounds(s: Seq<char>, i: int, st: NumState, prev: char)
    requires
        0 <= i <= s.len(),
    ensures
        match scan_number(s, i, st, prev) {
            NumberEnd::End(e) => i <= e <= s.len() && forall|k: int|
                i <= k < e ==> is_number_char(#[trigger] s[k]),
            NumberEnd::Fault(_, at) => i <= at <= s.len(),
        },
        number_step(st, prev, char_at(s, i), char_at(s, i + 1)) is Continue ==> (scan_number(
            s,
            i,
            st,
            prev,
        ) matches NumberEnd::End(e) ==> i < e),
    decreases s.len() - i,
{
    match number_step(st, prev, char_at(s, i), char_at(s, i + 1)) {
        NumStep::Continue(st2) => {
            if i < s.len() {
                lemma_number_bounds(s, i + 1, st2, char_at(s, i));
            }
        },
        _ => {},
    }
}

/// Reading a token never moves back: the token starts at or after the
/// cursor, ends inside the source, and, unless it is the end of input, holds
/// at least one character.
pub proof fn lemma_progress(s: Seq<char>, i: int)
    requires
        0 <= i <= s.len(),
    ensures
        match next_lexeme(s, i) {
            Scan::Token { lexeme, start, next } => i <= start <= next <= s.len() && (lexeme
                !is Eof ==> start < next),
            Scan::Fault { fault, start, at } => i <= start <= at <= s.len(),
        },
{
    lemma_skip_bounds(s, i, false);
    match skip_blank(s, i, false) {
        Skipped::At(j) => {
            lemma_word_bounds(s, j);
            lemma_number_bounds(s, j, number_start(), ' ');
        },
        _ => {},
    }
}

} // verus!

verus! {

/// The source from index `i` on without white space and comments; `inside`
/// tells whether `i` is inside a comment.
pub open spec fn stripped(s: Seq<char>, i: int, inside: bool) -> Seq<char>
    decreases s.len() - i,
{
    if i < 0 || i >= s.len() {
        Seq::empty()
    } else if inside {
        stripped(s, i + 1, s[i] != '%')
    } else if s[i] == '%' {
        stripped(s, i + 1, true)
    } else if is_space(s[i]) {
        stripped(s, i + 1, false)
    } else {
        seq![s[i]] + stripped(s, i + 1, false)
    }
}

/// The lexemes of the source from index `i` to the end of input, the end of
/// input not among them; nothing if the lexer meets a fault.
pub open spec fn lexemes(s: Seq<char>, i: int) -> Option<Seq<Lexeme>>
    decreases s.len() - i,
{
    match next_lexeme(s, i) {
        Scan::Fault { .. } => None,
        Scan::Token { lexeme, start, next } => if lexeme is Eof {
            Some(Seq::empty())
        } else if next <= i || next > s.len() {
            None
        } else {
            match lexemes(s, next) {
                Some(rest) => Some(seq![lexeme] + rest),
                None => None,
            }
        },
    }
}

/// The texts of lexemes, one after the other.
pub open spec fn joined(ls: Seq<Lexeme>) -> Seq<char>
    decreases ls.len(),
{
    if ls.len() == 0 {
        Seq::empty()
    } else {
        ls[0].text() + joined(ls.drop_first())
    }
}

/// A character that is neither white space nor the mark of a comment nor
/// NUL.
pub open spec fn is_plain(c: char) -> bool {
    !is_space(c) && c != '%' && c != '\0'
}

/// Skipping leaves nothing behind: what is skipped holds only white space
/// and comments.
proof fn lemma_skip_strips(s: Seq<char>, i: int, inside: bool)
    requires
        0 <= i <= s.len(),
        forall|k: int| 0 <= k < s.len() ==> s[k] != '\0',
    ensures
        skip_blank(s, i, inside) matches Skipped::At(j) ==> stripped(s, i, inside) == stripped(
            s,
            j,
            false,
        ),
    decreases s.len() - i,
{
    if i < s.len() {
        let c = s[i];
        if inside {
            lemma_skip_strips(s, i + 1, c != '%');
        } else if c == '%' {
            lemma_skip_strips(s, i + 1, true);
        } else if is_space(c) {
            lemma_skip_strips(s, i + 1, false);
        }
    }
}

/// A run of plain characters is kept as it is.
proof fn lemma_plain_run(s: Seq<char>, i: int, j: int)
    requires
        0 <= i <= j <= s.len(),
        forall|k: int| i <= k < j ==> is_plain(#[trigger] s[k]),
    ensures
        stripped(s, i, false) == s.subrange(i, j) + stripped(s, j, false),
    decreases j - i,
{
    if i < j {
        lemma_plain_run(s, i + 1, j);
        assert(s.subrange(i, j) =~= seq![s[i]] + s.subrange(i + 1, j));
        assert(stripped(s, i, false) =~= s.subrange(i, j) + stripped(s, j, false));
    } else {
        assert(s.subrange(i, j) + stripped(s, j, false) =~= stripped(s, j, false));
    }
}

/// The text of a delimiter is the characters it was read from.
proof fn lemma_delimiter_text(c: char, next: char)
    ensures
        match delimiter_of(c, next) {
            Some((d, n)) => d.text() == if n == 1 {
                seq![c]
            } else {
                seq![c, next]
            } && is_plain(c) && (n == 2 ==> is_plain(next)) && 1 <= n <= 2,
            None => true,
        },
{
    reveal_strlit(";");
    reveal_strlit(":");
    reveal_strlit(",");
    reveal_strlit("!=");
    reveal_strlit("=");
    reveal_strlit("==");
    reveal_strlit("<");
    reveal_strlit(">");
    reveal_strlit("<=");
    reveal_strlit(">=");
    reveal_strlit("(");
    reveal_strlit(")");
    reveal_strlit("{");
    reveal_strlit("}");
    reveal_strlit("+");
    reveal_strlit("-");
    reveal_strlit("||");
    reveal_strlit("&&");
    reveal_strlit("*");
    reveal_strlit("/");
    reveal_strlit("!");
    match delimiter_of(c, next) {
        Some((d, n)) => {
            if n == 1 {
                assert(d.text() =~= seq![c]);
            } else {
                assert(d.text() =~= seq![c, next]);
            }
        },
        None => {},
    }
}

/// A token that is not the end of input has the text that it was read
/// from, and the text holds plain characters only.
proof fn lemma_token_text(s: Seq<char>, i: int)
    requires
        0 <= i <= s.len(),
        forall|k: int| 0 <= k < s.len() ==> s[k] != '\0',
        !is_space(char_at(s, i)),
        char_at(s, i) != '%',
    ensures
        match scan_token(s, i) {
            Scan::Token { lexeme, start, next } => start == i && i <= next <= s.len() && (lexeme
                is Eof ==> i == s.len()) && (!(lexeme is Eof) ==> i < next && lexeme.text()
                == s.subrange(i, next) && forall|k: int| i <= k < next ==> is_plain(#[trigger] s[k])),
            Scan::Fault { .. } => true,
        },
{
    let c = char_at(s, i);
    lemma_delimiter_text(c, char_at(s, i + 1));
    match delimiter_of(c, char_at(s, i + 1)) {
        Some((d, n)) => {
            assert(i < s.len());
            if n == 2 {
                assert(i + 1 < s.len());
                assert(s.subrange(i, i + 2) =~= seq![c, char_at(s, i + 1)]);
            } else {
                assert(s.subrange(i, i + 1) =~= seq![c]);
            }
        },
        None => {
            if is_letter(c) {
                lemma_word_bounds(s, i);
            } else if is_digit(c) || c == '.' {
                lemma_number_bounds(s, i, number_start(), ' ');
            } else if c != '\0' {
                assert(s.subrange(i, i + 1) =~= seq![c]);
            }
        },
    }
}

/// The texts of the tokens, one after the other, are the source without
/// its white space and comments: for every source that holds no NUL and
/// that the lexer reads to the end without a fault.
pub proof fn token_texts_are_the_source(s: Seq<char>, i: int)
    requires
        0 <= i <= s.len(),
        forall|k: int| 0 <= k < s.len() ==> s[k] != '\0',
    ensures
        lexemes(s, i) matches Some(ls) ==> joined(ls) == stripped(s, i, false),
    decreases s.len() - i,
{
    lemma_skip_bounds(s, i, false);
    lemma_skip_strips(s, i, false);
    match skip_blank(s, i, false) {
        Skipped::At(j) => {
            lemma_token_text(s, j);
            match scan_token(s, j) {
                Scan::Token { lexeme, start, next } => {
                    if lexeme is Eof {
                        assert(joined(Seq::<Lexeme>::empty()) =~= Seq::<char>::empty());
                    } else {
                        token_texts_are_the_source(s, next);
                        lemma_plain_run(s, j, next);
                        match lexemes(s, next) {
                            Some(rest) => {
                                let ls = seq![lexeme] + rest;
                                assert(ls[0] == lexeme);
                                assert(ls.drop_first() =~= rest);
                            },
                            None => {},
                        }
                    }
                },
                Scan::Fault { .. } => {},
            }
        },
        Skipped::Unterminated(_) => {},
    }
}

} // verus!
