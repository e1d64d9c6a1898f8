//! Tokens, their groups, and the categories of numeric literals.

use vstd::prelude::*;
use vstd::std_specs::ops::ShrSpecImpl;

verus! {

/// The reserved words of the language.
#[derive(Debug, Clone, Copy, PartialEq, Eq, Structural)]
pub enum KeywordsGroup {
    /// `integer`
    Integer,
    /// `real`
    Real,
    /// `boolean`
    Boolean,
    /// `true`
    True,
    /// `false`
    False,
    /// `var`
    Var,
    /// `let`
    Let,
    /// `if`
    If,
    /// `then`
    Then,
    /// `else`
    Else,
    /// `end_else`
    EndElse,
    /// `for`
    For,
    /// `do`
    Do,
    /// `while`
    While,
    /// `loop`
    Loop,
    /// `input`
    Input,
    /// `output`
    Output,
}

impl KeywordsGroup {
    /// Position of the keyword in its table.
    pub open spec fn code(self) -> nat {
        match self {
            KeywordsGroup::Integer => 0,
            KeywordsGroup::Real => 1,
            KeywordsGroup::Boolean => 2,
            KeywordsGroup::True => 3,
            KeywordsGroup::False => 4,
            KeywordsGroup::Var => 5,
            KeywordsGroup::Let => 6,
            KeywordsGroup::If => 7,
            KeywordsGroup::Then => 8,
            KeywordsGroup::Else => 9,
            KeywordsGroup::EndElse => 10,
            KeywordsGroup::For => 11,
            KeywordsGroup::Do => 12,
            KeywordsGroup::While => 13,
            KeywordsGroup::Loop => 14,
            KeywordsGroup::Input => 15,
            KeywordsGroup::Output => 16,
        }
    }

    /// The characters the keyword is written with.
    pub open spec fn text(self) -> Seq<char> {
        match self {
            KeywordsGroup::Integer => "integer"@,
            KeywordsGroup::Real => "real"@,
            KeywordsGroup::Boolean => "boolean"@,
            KeywordsGroup::True => "true"@,
            KeywordsGroup::False => "false"@,
            KeywordsGroup::Var => "var"@,
            KeywordsGroup::Let => "let"@,
            KeywordsGroup::If => "if"@,
            KeywordsGroup::Then => "then"@,
            KeywordsGroup::Else => "else"@,
            KeywordsGroup::EndElse => "end_else"@,
            KeywordsGroup::For => "for"@,
            KeywordsGroup::Do => "do"@,
            KeywordsGroup::While => "while"@,
            KeywordsGroup::Loop => "loop"@,
            KeywordsGroup::Input => "input"@,
            KeywordsGroup::Output => "output"@,
        }
    }

    /// Executable form of [`KeywordsGroup::code`].
    pub fn index(&self) -> (r: u8)
        ensures
            r as nat == self.code(),
    {
        match self {
            KeywordsGroup::Integer => 0,
            KeywordsGroup::Real => 1,
            KeywordsGroup::Boolean => 2,
            KeywordsGroup::True => 3,
            KeywordsGroup::False => 4,
            KeywordsGroup::Var => 5,
            KeywordsGroup::Let => 6,
            KeywordsGroup::If => 7,
            KeywordsGroup::Then => 8,
            KeywordsGroup::Else => 9,
            KeywordsGroup::EndElse => 10,
            KeywordsGroup::For => 11,
            KeywordsGroup::Do => 12,
            KeywordsGroup::While => 13,
            KeywordsGroup::Loop => 14,
            KeywordsGroup::Input => 15,
            KeywordsGroup::Output => 16,
        }
    }

    /// Executable form of [`KeywordsGroup::text`].
    pub fn spelling(&self) -> (r: &'static str)
        ensures
            r@ == self.text(),
    {
        match self {
            KeywordsGroup::Integer => "integer",
            KeywordsGroup::Real => "real",
            KeywordsGroup::Boolean => "boolean",
            KeywordsGroup::True => "true",
            KeywordsGroup::False => "false",
            KeywordsGroup::Var => "var",
            KeywordsGroup::Let => "let",
            KeywordsGroup::If => "if",
            KeywordsGroup::Then => "then",
            KeywordsGroup::Else => "else",
            KeywordsGroup::EndElse => "end_else",
            KeywordsGroup::For => "for",
            KeywordsGroup::Do => "do",
            KeywordsGroup::While => "while",
            KeywordsGroup::Loop => "loop",
            KeywordsGroup::Input => "input",
            KeywordsGroup::Output => "output",
        }
    }
}

/// The punctuation and operator symbols of the language.
#[derive(Debug, Clone, Copy, PartialEq, Eq, Structural)]
pub enum DelimitersGroup {
    /// `;`
    Semicolon,
    /// `:`
    Colon,
    /// `,`
    Comma,
    /// `!=`
    NotEqual,
    /// `=`
    Equal,
    /// `==`
    Identical,
    /// `<`
    Less,
    /// `>`
    Greater,
    /// `<=`
    LessEqual,
    /// `>=`
    GreaterEqual,
    /// `(`
    LeftParenthesis,
    /// `)`
    RightParenthesis,
    /// `{`
    LeftCurlyBracket,
    /// `}`
    RightCurlyBracket,
    /// `+`
    Plus,
    /// `-`
    Minus,
    /// `||`
    Or,
    /// `&&`
    And,
    /// `*`
    Asterisk,
    /// `/`
    Slash,
    /// `!`
    Not,
}

impl DelimitersGroup {
    /// Position of the delimiter in its table.
    pub open spec fn code(self) -> nat {
        match self {
            DelimitersGroup::Semicolon => 0,
            DelimitersGroup::Colon => 1,
            DelimitersGroup::Comma => 2,
            DelimitersGroup::NotEqual => 3,
            DelimitersGroup::Equal => 4,
            DelimitersGroup::Identical => 5,
            DelimitersGroup::Less => 6,
            DelimitersGroup::Greater => 7,
            DelimitersGroup::LessEqual => 8,
            DelimitersGroup::GreaterEqual => 9,
            DelimitersGroup::LeftParenthesis => 10,
            DelimitersGroup::RightParenthesis => 11,
            DelimitersGroup::LeftCurlyBracket => 12,
            DelimitersGroup::RightCurlyBracket => 13,
            DelimitersGroup::Plus => 14,
            DelimitersGroup::Minus => 15,
            DelimitersGroup::Or => 16,
            DelimitersGroup::And => 17,
            DelimitersGroup::Asterisk => 18,
            DelimitersGroup::Slash => 19,
            DelimitersGroup::Not => 20,
        }
    }

    /// The characters the delimiter is written with.
    pub open spec fn text(self) -> Seq<char> {
        match self {
            DelimitersGroup::Semicolon => ";"@,
            DelimitersGroup::Colon => ":"@,
            DelimitersGroup::Comma => ","@,
            DelimitersGroup::NotEqual => "!="@,
            DelimitersGroup::Equal => "="@,
            DelimitersGroup::Identical => "=="@,
            DelimitersGroup::Less => "<"@,
            DelimitersGroup::Greater => ">"@,
            DelimitersGroup::LessEqual => "<="@,
            DelimitersGroup::GreaterEqual => ">="@,
            DelimitersGroup::LeftParenthesis => "("@,
            DelimitersGroup::RightParenthesis => ")"@,
            DelimitersGroup::LeftCurlyBracket => "{"@,
            DelimitersGroup::RightCurlyBracket => "}"@,
            DelimitersGroup::Plus => "+"@,
            DelimitersGroup::Minus => "-"@,
            DelimitersGroup::Or => "||"@,
            DelimitersGroup::And => "&&"@,
            DelimitersGroup::Asterisk => "*"@,
            DelimitersGroup::Slash => "/"@,
            DelimitersGroup::Not => "!"@,
        }
    }

    /// Executable form of [`DelimitersGroup::code`].
    pub fn index(&self) -> (r: u8)
        ensures
            r as nat == self.code(),
    {
        match self {
            DelimitersGroup::Semicolon => 0,
            DelimitersGroup::Colon => 1,
            DelimitersGroup::Comma => 2,
            DelimitersGroup::NotEqual => 3,
            DelimitersGroup::Equal => 4,
            DelimitersGroup::Identical => 5,
            DelimitersGroup::Less => 6,
            DelimitersGroup::Greater => 7,
            DelimitersGroup::LessEqual => 8,
            DelimitersGroup::GreaterEqual => 9,
            DelimitersGroup::LeftParenthesis => 10,
            DelimitersGroup::RightParenthesis => 11,
            DelimitersGroup::LeftCurlyBracket => 12,
            DelimitersGroup::RightCurlyBracket => 13,
            DelimitersGroup::Plus => 14,
            DelimitersGroup::Minus => 15,
            DelimitersGroup::Or => 16,
            DelimitersGroup::And => 17,
            DelimitersGroup::Asterisk => 18,
            DelimitersGroup::Slash => 19,
            DelimitersGroup::Not => 20,
        }
    }

    /// Executable form of [`DelimitersGroup::text`].
    pub fn spelling(&self) -> (r: &'static str)
        ensures
            r@ == self.text(),
    {
        match self {
            DelimitersGroup::Semicolon => ";",
            DelimitersGroup::Colon => ":",
            DelimitersGroup::Comma => ",",
            DelimitersGroup::NotEqual => "!=",
            DelimitersGroup::Equal => "=",
            DelimitersGroup::Identical => "==",
            DelimitersGroup::Less => "<",
            DelimitersGroup::Greater => ">",
            DelimitersGroup::LessEqual => "<=",
            DelimitersGroup::GreaterEqual => ">=",
            DelimitersGroup::LeftParenthesis => "(",
            DelimitersGroup::RightParenthesis => ")",
            DelimitersGroup::LeftCurlyBracket => "{",
            DelimitersGroup::RightCurlyBracket => "}",
            DelimitersGroup::Plus => "+",
            DelimitersGroup::Minus => "-",
            DelimitersGroup::Or => "||",
            DelimitersGroup::And => "&&",
            DelimitersGroup::Asterisk => "*",
            DelimitersGroup::Slash => "/",
            DelimitersGroup::Not => "!",
        }
    }
}

/// A token as the lexer produces it: identifiers and numeric literals still
/// carry their text.
#[derive(Debug, PartialEq, Eq)]
pub enum TokenGroupLexer {
    Keywords(KeywordsGroup),
    Delimiters(DelimitersGroup),
    /// A numeric literal, by its text.
    Variables(String),
    /// An identifier, by its name.
    Identifier(String),
    /// A character that starts no token, with its line and column.
    Illegal((char, usize, usize)),
    Eof,
}

/// What a [`TokenGroupLexer`] stands for, with texts as character sequences.
pub enum Lexeme {
    Keywords(KeywordsGroup),
    Delimiters(DelimitersGroup),
    Variables(Seq<char>),
    Identifier(Seq<char>),
    Illegal(char, nat, nat),
    Eof,
}

impl Lexeme {
    /// The characters of the source that the lexeme was read from. The end
    /// of input has none.
    pub open spec fn text(self) -> Seq<char> {
        match self {
            Lexeme::Keywords(k) => k.text(),
            Lexeme::Delimiters(d) => d.text(),
            Lexeme::Variables(s) => s,
            Lexeme::Identifier(s) => s,
            Lexeme::Illegal(c, _, _) => seq![c],
            Lexeme::Eof => Seq::empty(),
        }
    }
}

impl View for TokenGroupLexer {
    type V = Lexeme;

    open spec fn view(&self) -> Lexeme {
        match *self {
            TokenGroupLexer::Keywords(k) => Lexeme::Keywords(k),
            TokenGroupLexer::Delimiters(d) => Lexeme::Delimiters(d),
            TokenGroupLexer::Variables(s) => Lexeme::Variables(s@),
            TokenGroupLexer::Identifier(s) => Lexeme::Identifier(s@),
            TokenGroupLexer::Illegal(t) => Lexeme::Illegal(t.0, t.1 as nat, t.2 as nat),
            TokenGroupLexer::Eof => Lexeme::Eof,
        }
    }
}

impl Clone for TokenGroupLexer {
    fn clone(&self) -> (r: TokenGroupLexer)
        ensures
            r@ == self@,
    {
        match self {
            TokenGroupLexer::Keywords(k) => TokenGroupLexer::Keywords(*k),
            TokenGroupLexer::Delimiters(d) => TokenGroupLexer::Delimiters(*d),
            TokenGroupLexer::Variables(s) => TokenGroupLexer::Variables(s.clone()),
            TokenGroupLexer::Identifier(s) => TokenGroupLexer::Identifier(s.clone()),
            TokenGroupLexer::Illegal(t) => TokenGroupLexer::Illegal((t.0, t.1, t.2)),
            TokenGroupLexer::Eof => TokenGroupLexer::Eof,
        }
    }
}

/// A token after identifiers and literals were replaced by their numbers.
#[derive(Debug, Clone, Copy, PartialEq, Eq, Structural)]
pub enum TokenGroup {
    Keywords(KeywordsGroup),
    Delimiters(DelimitersGroup),
    /// A numeric literal, by its number in the literal table.
    Variables(u64),
    /// An identifier, by its number in the identifier table.
    Identifier(u64),
    Eof,
}

impl TokenGroup {
    /// The table a token belongs to and its number there: keywords are table
    /// 0, delimiters 1, literals 2 and identifiers 3. The end of input
    /// belongs to no table.
    pub open spec fn table_entry(self) -> Option<(nat, nat)> {
        match self {
            TokenGroup::Keywords(k) => Some((0, k.code())),
            TokenGroup::Delimiters(d) => Some((1, d.code())),
            TokenGroup::Variables(n) => Some((2, n as nat)),
            TokenGroup::Identifier(n) => Some((3, n as nat)),
            TokenGroup::Eof => None,
        }
    }

    /// Executable form of [`TokenGroup::table_entry`].
    pub fn entry(&self) -> (r: Option<(u8, u64)>)
        ensures
            match self.table_entry() {
                Some(e) => r.is_some() && r.unwrap().0 as nat == e.0 && r.unwrap().1 as nat == e.1,
                None => r.is_none(),
            },
    {
        match self {
            TokenGroup::Keywords(k) => Some((0, k.index() as u64)),
            TokenGroup::Delimiters(d) => Some((1, d.index() as u64)),
            TokenGroup::Variables(n) => Some((2, *n)),
            TokenGroup::Identifier(n) => Some((3, *n)),
            TokenGroup::Eof => None,
        }
    }
}

/// A lexer token with the line and column it starts at.
#[derive(Debug, PartialEq)]
pub struct TokenLexer {
    pub token: TokenGroupLexer,
    pub line: usize,
    pub column: usize,
}

/// A token with the line and column it starts at.
#[derive(Debug, Clone, Copy, PartialEq, Eq, Structural)]
pub struct Token {
    pub token: TokenGroup,
    pub line: usize,
    pub column: usize,
}

impl Token {
    /// The end-of-input token, at no position.
    pub fn eof() -> (r: Token)
        ensures
            r == (Token { token: TokenGroup::Eof, line: 0, column: 0 }),
    {
        Token { token: TokenGroup::Eof, line: 0, column: 0 }
    }
}

/// The six categories a numeric literal can be in while it is being read.
#[derive(Debug, Clone, Copy, PartialEq, Eq, Structural)]
pub enum DigitType {
    Binary,
    Octal,
    Digital,
    HexPoint,
    Hex,
    Point,
}

impl DigitType {
    /// Position of the category in the declaration order.
    pub open spec fn rank(self) -> nat {
        match self {
            DigitType::Binary => 0,
            DigitType::Octal => 1,
            DigitType::Digital => 2,
            DigitType::HexPoint => 3,
            DigitType::Hex => 4,
            DigitType::Point => 5,
        }
    }

    /// The widening relation: a literal that is consistent with `self` so far
    /// may still turn out to be of category `target`.
    ///
    /// Every category widens to itself, `Hex` and `Point` widen to nothing
    /// else, and any other category widens to each one declared after it.
    pub open spec fn widens_to(self, target: DigitType) -> bool {
        self == target || (self != DigitType::Hex && self != DigitType::Point && self.rank()
            < target.rank())
    }

    /// Executable form of [`DigitType::rank`].
    pub fn index(&self) -> (r: u8)
        ensures
            r as nat == self.rank(),
    {
        match self {
            DigitType::Binary => 0,
            DigitType::Octal => 1,
            DigitType::Digital => 2,
            DigitType::HexPoint => 3,
            DigitType::Hex => 4,
            DigitType::Point => 5,
        }
    }
}

/// Whether `b` is declared at or after `a`.
pub fn ordering(a: &DigitType, b: &DigitType) -> (r: bool)
    ensures
        r == (a.rank() <= b.rank()),
{
    let (a, b) = (a.index(), b.index());
    b >= a
}

impl ShrSpecImpl for DigitType {
    open spec fn obeys_shr_spec() -> bool {
        true
    }

    open spec fn shr_req(self, other: DigitType) -> bool {
        true
    }

    open spec fn shr_spec(self, other: DigitType) -> bool {
        self.widens_to(other)
    }
}

impl std::ops::Shr for DigitType {
    type Output = bool;

    /// `a >> b` is the widening relation [`DigitType::widens_to`].
    fn shr(self, other: DigitType) -> (r: bool)
        ensures
            r == self.widens_to(other),
    {
        match self {
            DigitType::Point => match other {
                DigitType::Hex => false,
                _ => ordering(&self, &other),
            },
            DigitType::Hex => match other {
                DigitType::Point => false,
                _ => ordering(&self, &other),
            },
            _ => ordering(&self, &other),
        }
    }
}

/// The widening relation is reflexive.
pub proof fn widening_is_reflexive(a: DigitType)
    ensures
        a.widens_to(a),
{
}

/// The widening relation is transitive and antisymmetric: with reflexivity,
/// a partial order on the categories.
pub proof fn widening_is_an_order(a: DigitType, b: DigitType, c: DigitType)
    ensures
        a.widens_to(b) && b.widens_to(c) ==> a.widens_to(c),
        a.widens_to(b) && b.widens_to(a) ==> a == b,
{
}

/// The whole table of the widening relation, row by row: what each category
/// widens to.
pub proof fn widening_table(a: DigitType, b: DigitType)
    ensures
        a == DigitType::Binary ==> a.widens_to(b),
        a == DigitType::Octal ==> (a.widens_to(b) <==> b != DigitType::Binary),
        a == DigitType::Digital ==> (a.widens_to(b) <==> b != DigitType::Binary && b
            != DigitType::Octal),
        a == DigitType::HexPoint ==> (a.widens_to(b) <==> b == DigitType::HexPoint || b
            == DigitType::Hex || b == DigitType::Point),
        a == DigitType::Hex ==> (a.widens_to(b) <==> b == DigitType::Hex),
        a == DigitType::Point ==> (a.widens_to(b) <==> b == DigitType::Point),
{
}

} // verus!
