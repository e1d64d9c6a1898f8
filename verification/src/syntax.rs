//! The syntax analyser: a recursive-descent parser from the token stream to
//! the program tree.

use std::collections::HashMap;
use vstd::prelude::*;
use crate::program::{
    Expression, ExpressionView, MainOperation, MainOperationView, Multiplier, MultiplierView,
    Operand, OperandView, Operator, OperatorView, Term, TermView,
};
use crate::tokens::{DelimitersGroup, KeywordsGroup, Token, TokenGroup};
use crate::types::{
    AdditionOperations, LexerDigitalData, MultiplicationOperations, ProgramTypes,
    RelationOperations,
};

verus! {

/// Why a token stream is not a program.
#[derive(Debug, Clone, Copy, PartialEq, Eq, Structural)]
pub enum FaultKind {
    /// The program does not start with `{`.
    ProgramStart,
    /// A `;` or `}` must follow an entry of the program body.
    Semicolon,
    /// A block or the program body is not closed by `}`.
    ClosingBrace,
    /// Something follows the closing `}` of the program.
    ProgramEnd,
    /// The program body is empty.
    EmptyProgram,
    /// A declaration names no type after `:`.
    DataType,
    /// An identifier is missing.
    Identifier,
    /// An identifier of a declaration is followed by neither `,` nor `:`.
    StrayToken,
    /// A `;` in a block is followed by `}`.
    NoOperator,
    /// An assignment has no `=`.
    EqualSign,
    /// The condition of an `if` is not followed by `then`.
    Then,
    /// An `if` is not closed by `end_else`.
    EndElse,
    /// A `(` is missing.
    OpeningParenthesis,
    /// The expressions of a `for` header are not separated by `;`.
    HeaderSemicolon,
    /// A `)` is missing.
    ClosingParenthesis,
    /// `do` is not followed by `while`.
    While,
    /// A `do while` is not closed by `loop`.
    Loop,
    /// Something other than an identifier or `)` stands in an `input`.
    InputItem,
    /// An `output` lists no expression.
    OutputItem,
    /// No operand starts here.
    Operand,
    /// No statement starts with this token.
    Unexpected,
}

impl FaultKind {
    /// The text of the diagnostic.
    pub open spec fn message(self) -> Seq<char> {
        match self {
            FaultKind::ProgramStart => "Программа должна начинаться с '{'"@,
            FaultKind::Semicolon => "Ожидалось ';'"@,
            FaultKind::ClosingBrace => "Ожидалось '}'"@,
            FaultKind::ProgramEnd => "Ожидался конец программы"@,
            FaultKind::EmptyProgram => "Ожидалось описание или оператор"@,
            FaultKind::DataType => "Ожидался тип данных"@,
            FaultKind::Identifier => "Ожидался идентификатор"@,
            FaultKind::StrayToken => "Встречена неожиданная лексема"@,
            FaultKind::NoOperator => "Ожидался оператор"@,
            FaultKind::EqualSign => "Ожидался знак '='"@,
            FaultKind::Then => "Ожидалось 'then'"@,
            FaultKind::EndElse => "Ожидалось 'end_else'"@,
            FaultKind::OpeningParenthesis => "Ожидалась '('"@,
            FaultKind::HeaderSemicolon => "Ожидалась ';'"@,
            FaultKind::ClosingParenthesis => "Ожидалась ')'"@,
            FaultKind::While => "Ожидалось ключевое слово 'while'"@,
            FaultKind::Loop => "Ожидалась 'loop'"@,
            FaultKind::InputItem => "Ожидался идентификатор или ')'"@,
            FaultKind::OutputItem => "Ожидался оператор"@,
            FaultKind::Operand => "Ожидался операнд"@,
            FaultKind::Unexpected => "Встречена непредвиденная лексема"@,
        }
    }

    /// Whether the fault is that something is missing; else the token that
    /// was found fits nowhere.
    pub open spec fn names_token(self) -> bool {
        match self {
            FaultKind::ProgramStart => true,
            FaultKind::Semicolon => true,
            FaultKind::ClosingBrace => true,
            FaultKind::ProgramEnd => true,
            FaultKind::EmptyProgram => false,
            FaultKind::DataType => true,
            FaultKind::Identifier => true,
            FaultKind::StrayToken => false,
            FaultKind::NoOperator => false,
            FaultKind::EqualSign => true,
            FaultKind::Then => true,
            FaultKind::EndElse => true,
            FaultKind::OpeningParenthesis => true,
            FaultKind::HeaderSemicolon => true,
            FaultKind::ClosingParenthesis => true,
            FaultKind::While => true,
            FaultKind::Loop => true,
            FaultKind::InputItem => true,
            FaultKind::OutputItem => true,
            FaultKind::Operand => true,
            FaultKind::Unexpected => false,
        }
    }

    /// Executable form of [`FaultKind::message`].
    pub fn text(&self) -> (r: &'static str)
        ensures
            r@ == self.message(),
    {
        match self {
            FaultKind::ProgramStart => "Программа должна начинаться с '{'",
            FaultKind::Semicolon => "Ожидалось ';'",
            FaultKind::ClosingBrace => "Ожидалось '}'",
            FaultKind::ProgramEnd => "Ожидался конец программы",
            FaultKind::EmptyProgram => "Ожидалось описание или оператор",
            FaultKind::DataType => "Ожидался тип данных",
            FaultKind::Identifier => "Ожидался идентификатор",
            FaultKind::StrayToken => "Встречена неожиданная лексема",
            FaultKind::NoOperator => "Ожидался оператор",
            FaultKind::EqualSign => "Ожидался знак '='",
            FaultKind::Then => "Ожидалось 'then'",
            FaultKind::EndElse => "Ожидалось 'end_else'",
            FaultKind::OpeningParenthesis => "Ожидалась '('",
            FaultKind::HeaderSemicolon => "Ожидалась ';'",
            FaultKind::ClosingParenthesis => "Ожидалась ')'",
            FaultKind::While => "Ожидалось ключевое слово 'while'",
            FaultKind::Loop => "Ожидалась 'loop'",
            FaultKind::InputItem => "Ожидался идентификатор или ')'",
            FaultKind::OutputItem => "Ожидался оператор",
            FaultKind::Operand => "Ожидался операнд",
            FaultKind::Unexpected => "Встречена непредвиденная лексема",
        }
    }

    /// Executable form of [`FaultKind::names_token`].
    pub fn has_token(&self) -> (r: bool)
        ensures
            r == self.names_token(),
    {
        match self {
            FaultKind::ProgramStart => true,
            FaultKind::Semicolon => true,
            FaultKind::ClosingBrace => true,
            FaultKind::ProgramEnd => true,
            FaultKind::EmptyProgram => false,
            FaultKind::DataType => true,
            FaultKind::Identifier => true,
            FaultKind::StrayToken => false,
            FaultKind::NoOperator => false,
            FaultKind::EqualSign => true,
            FaultKind::Then => true,
            FaultKind::EndElse => true,
            FaultKind::OpeningParenthesis => true,
            FaultKind::HeaderSemicolon => true,
            FaultKind::ClosingParenthesis => true,
            FaultKind::While => true,
            FaultKind::Loop => true,
            FaultKind::InputItem => true,
            FaultKind::OutputItem => true,
            FaultKind::Operand => true,
            FaultKind::Unexpected => false,
        }
    }
}

/// A failure of the syntax analyser: the token it was found at, which
/// carries the place, and the text of the diagnostic.
#[derive(Debug, PartialEq)]
pub enum SyntaxError {
    /// Something else was expected in place of the token.
    Missing(Token, String),
    /// The token fits nowhere.
    Unexpected(Token, String),
}

/// What a [`SyntaxError`] stands for.
pub enum SyntaxErrorView {
    Missing(Token, Seq<char>),
    Unexpected(Token, Seq<char>),
}

impl View for SyntaxError {
    type V = SyntaxErrorView;

    open spec fn view(&self) -> SyntaxErrorView {
        match *self {
            SyntaxError::Missing(t, m) => SyntaxErrorView::Missing(t, m@),
            SyntaxError::Unexpected(t, m) => SyntaxErrorView::Unexpected(t, m@),
        }
    }
}

/// The outcome of a step of the syntax analyser.
pub type SyntaxResult<T> = Result<T, SyntaxError>;

/// A fault and the index of the token at which it was found.
pub struct Fault {
    pub kind: FaultKind,
    pub at: int,
}

/// The outcome of reading one grammar rule at a position of the token
/// stream: the item read and the position after it, or the fault.
pub enum Parsed<T> {
    Done(T, int),
    Failed(Fault),
}

/// The groups of a token stream, without positions.
pub open spec fn kinds(tokens: Seq<Token>) -> Seq<TokenGroup> {
    Seq::new(tokens.len(), |i: int| tokens[i].token)
}

/// The token group at a position; past the end, the end of input.
pub open spec fn at(s: Seq<TokenGroup>, p: int) -> TokenGroup {
    if 0 <= p < s.len() {
        s[p]
    } else {
        TokenGroup::Eof
    }
}

/// The token at a position. Past the end it is the end of input, placed
/// where the last token is.
pub open spec fn token_at(tokens: Seq<Token>, p: int) -> Token {
    if 0 <= p < tokens.len() {
        tokens[p]
    } else if tokens.len() > 0 {
        Token { token: TokenGroup::Eof, line: tokens.last().line, column: tokens.last().column }
    } else {
        Token { token: TokenGroup::Eof, line: 0, column: 0 }
    }
}

/// The error that reports a fault: the token at the fault and the text of
/// the diagnostic.
pub open spec fn fault_error(tokens: Seq<Token>, f: Fault) -> SyntaxErrorView {
    if f.kind.names_token() {
        SyntaxErrorView::Missing(token_at(tokens, f.at), f.kind.message())
    } else {
        SyntaxErrorView::Unexpected(token_at(tokens, f.at), f.kind.message())
    }
}

/// Keeps an outcome only if it ends after `p` and inside the stream. Every
/// rule consumes at least one token, so nothing is ever dropped here; the
/// test is what shows that reading a stream comes to an end.
pub open spec fn advanced<T>(s: Seq<TokenGroup>, p: int, r: Parsed<T>) -> Parsed<T> {
    match r {
        Parsed::Done(_, q) => if p < q <= s.len() {
            r
        } else {
            Parsed::Failed(Fault { kind: FaultKind::Operand, at: p })
        },
        Parsed::Failed(_) => r,
    }
}

/// The comparison operator a token stands for, if any.
pub open spec fn relation_of(t: TokenGroup) -> Option<RelationOperations> {
    match t {
        TokenGroup::Delimiters(DelimitersGroup::NotEqual) => Some(RelationOperations::NotEqual),
        TokenGroup::Delimiters(DelimitersGroup::Identical) => Some(RelationOperations::Equal),
        TokenGroup::Delimiters(DelimitersGroup::Less) => Some(RelationOperations::Less),
        TokenGroup::Delimiters(DelimitersGroup::Greater) => Some(RelationOperations::Greater),
        TokenGroup::Delimiters(DelimitersGroup::LessEqual) => Some(RelationOperations::LessEqual),
        TokenGroup::Delimiters(DelimitersGroup::GreaterEqual) => Some(
            RelationOperations::GreaterEqual,
        ),
        _ => None,
    }
}

/// The additive operator a token stands for, if any.
pub open spec fn addition_of(t: TokenGroup) -> Option<AdditionOperations> {
    match t {
        TokenGroup::Delimiters(DelimitersGroup::Plus) => Some(AdditionOperations::Addition),
        TokenGroup::Delimiters(DelimitersGroup::Minus) => Some(AdditionOperations::Subtraction),
        TokenGroup::Delimiters(DelimitersGroup::Or) => Some(AdditionOperations::Or),
        _ => None,
    }
}

/// The multiplicative operator a token stands for, if any.
pub open spec fn multiplication_of(t: TokenGroup) -> Option<MultiplicationOperations> {
    match t {
        TokenGroup::Delimiters(DelimitersGroup::Asterisk) => Some(
            MultiplicationOperations::Multiplication,
        ),
        TokenGroup::Delimiters(DelimitersGroup::Slash) => Some(MultiplicationOperations::Division),
        TokenGroup::Delimiters(DelimitersGroup::And) => Some(MultiplicationOperations::And),
        _ => None,
    }
}

/// `multiplier := id | literal | 'true' | 'false' | '!' multiplier | '(' expression ')'`
pub open spec fn parse_multiplier(s: Seq<TokenGroup>, p: int) -> Parsed<MultiplierView>
    decreases s.len() - p, 0nat,
{
    match at(s, p) {
        TokenGroup::Identifier(id) => Parsed::Done(MultiplierView::Identifier(id), p + 1),
        TokenGroup::Variables(id) => Parsed::Done(MultiplierView::Variable(id), p + 1),
        TokenGroup::Keywords(KeywordsGroup::True) => Parsed::Done(
            MultiplierView::Boolean(true),
            p + 1,
        ),
        TokenGroup::Keywords(KeywordsGroup::False) => Parsed::Done(
            MultiplierView::Boolean(false),
            p + 1,
        ),
        TokenGroup::Delimiters(DelimitersGroup::Not) => match parse_multiplier(s, p + 1) {
            Parsed::Done(m, q) => Parsed::Done(MultiplierView::Not(Box::new(m)), q),
            Parsed::Failed(f) => Parsed::Failed(f),
        },
        TokenGroup::Delimiters(DelimitersGroup::LeftParenthesis) => match parse_expression(
            s,
            p + 1,
        ) {
            Parsed::Done(e, q) => if at(s, q) == TokenGroup::Delimiters(
                DelimitersGroup::RightParenthesis,
            ) {
                Parsed::Done(MultiplierView::Expression(e), q + 1)
            } else {
                Parsed::Failed(Fault { kind: FaultKind::ClosingParenthesis, at: q })
            },
            Parsed::Failed(f) => Parsed::Failed(f),
        },
        _ => Parsed::Failed(Fault { kind: FaultKind::Operand, at: p }),
    }
}

/// The rest of a term after the multipliers `ms`, joined by `ops`.
pub open spec fn term_tail(
    s: Seq<TokenGroup>,
    p: int,
    ms: Seq<MultiplierView>,
    ops: Seq<MultiplicationOperations>,
) -> Parsed<TermView>
    decreases s.len() - p, 0nat,
{
    match multiplication_of(at(s, p)) {
        Some(op) => match advanced(s, p + 1, parse_multiplier(s, p + 1)) {
            Parsed::Done(m, q) => term_tail(s, q, ms.push(m), ops.push(op)),
            Parsed::Failed(f) => Parsed::Failed(f),
        },
        None => Parsed::Done(TermView { multipliers: ms, operations: ops }, p),
    }
}

/// `term := multiplier (mul_op multiplier)*`
pub open spec fn parse_term(s: Seq<TokenGroup>, p: int) -> Parsed<TermView>
    decreases s.len() - p, 1nat,
{
    match advanced(s, p, parse_multiplier(s, p)) {
        Parsed::Done(m, q) => term_tail(s, q, seq![m], Seq::empty()),
        Parsed::Failed(f) => Parsed::Failed(f),
    }
}

/// The rest of an operand after the terms `ts`, joined by `ops`.
pub open spec fn operand_tail(
    s: Seq<TokenGroup>,
    p: int,
    ts: Seq<TermView>,
    ops: Seq<AdditionOperations>,
) -> Parsed<OperandView>
    decreases s.len() - p, 0nat,
{
    match addition_of(at(s, p)) {
        Some(op) => match advanced(s, p + 1, parse_term(s, p + 1)) {
            Parsed::Done(t, q) => operand_tail(s, q, ts.push(t), ops.push(op)),
            Parsed::Failed(f) => Parsed::Failed(f),
        },
        None => Parsed::Done(OperandView { terms: ts, operations: ops }, p),
    }
}

/// `operand := term (add_op term)*`
pub open spec fn parse_operand(s: Seq<TokenGroup>, p: int) -> Parsed<OperandView>
    decreases s.len() - p, 2nat,
{
    match advanced(s, p, parse_term(s, p)) {
        Parsed::Done(t, q) => operand_tail(s, q, seq![t], Seq::empty()),
        Parsed::Failed(f) => Parsed::Failed(f),
    }
}

/// The rest of an expression after the operands `os`, joined by `ops`.
pub open spec fn expression_tail(
    s: Seq<TokenGroup>,
    p: int,
    os: Seq<OperandView>,
    ops: Seq<RelationOperations>,
) -> Parsed<ExpressionView>
    decreases s.len() - p, 0nat,
{
    match relation_of(at(s, p)) {
        Some(op) => match advanced(s, p + 1, parse_operand(s, p + 1)) {
            Parsed::Done(o, q) => expression_tail(s, q, os.push(o), ops.push(op)),
            Parsed::Failed(f) => Parsed::Failed(f),
        },
        None => Parsed::Done(ExpressionView { operands: os, operations: ops }, p),
    }
}

/// `expression := operand (rel_op operand)*`
pub open spec fn parse_expression(s: Seq<TokenGroup>, p: int) -> Parsed<ExpressionView>
    decreases s.len() - p, 3nat,
{
    match advanced(s, p, parse_operand(s, p)) {
        Parsed::Done(o, q) => expression_tail(s, q, seq![o], Seq::empty()),
        Parsed::Failed(f) => Parsed::Failed(f),
    }
}

/// Whether an executable outcome is the one the grammar gives: the item read
/// and the position after it, or the error of the fault and the position of
/// the fault.
pub open spec fn agrees<T: View>(
    tokens: Seq<Token>,
    before: int,
    after: int,
    r: Result<T, SyntaxError>,
    expected: Parsed<T::V>,
) -> bool {
    match expected {
        Parsed::Done(v, q) => r is Ok && r->Ok_0@ == v && after == q && before < q
            <= tokens.len(),
        Parsed::Failed(f) => r is Err && r->Err_0@ == fault_error(tokens, f) && after == f.at,
    }
}

/// The syntax analyser: a cursor into the token stream.
pub struct Syntax {
    current_token: Token,
    /// Index of the current token.
    pub position: usize,
    tokens: Vec<Token>,
    vars: HashMap<u64, LexerDigitalData>,
}

/// The comparison operator of a token, if it is one.
fn relation_op(t: &TokenGroup) -> (r: Option<RelationOperations>)
    ensures
        r == relation_of(*t),
{
    match t {
        TokenGroup::Delimiters(DelimitersGroup::NotEqual) => Some(RelationOperations::NotEqual),
        TokenGroup::Delimiters(DelimitersGroup::Identical) => Some(RelationOperations::Equal),
        TokenGroup::Delimiters(DelimitersGroup::Less) => Some(RelationOperations::Less),
        TokenGroup::Delimiters(DelimitersGroup::Greater) => Some(RelationOperations::Greater),
        TokenGroup::Delimiters(DelimitersGroup::LessEqual) => Some(RelationOperations::LessEqual),
        TokenGroup::Delimiters(DelimitersGroup::GreaterEqual) => Some(
            RelationOperations::GreaterEqual,
        ),
        _ => None,
    }
}

/// The additive operator of a token, if it is one.
fn addition_op(t: &TokenGroup) -> (r: Option<AdditionOperations>)
    ensures
        r == addition_of(*t),
{
    match t {
        TokenGroup::Delimiters(DelimitersGroup::Plus) => Some(AdditionOperations::Addition),
        TokenGroup::Delimiters(DelimitersGroup::Minus) => Some(AdditionOperations::Subtraction),
        TokenGroup::Delimiters(DelimitersGroup::Or) => Some(AdditionOperations::Or),
        _ => None,
    }
}

/// The multiplicative operator of a token, if it is one.
fn multiplication_op(t: &TokenGroup) -> (r: Option<MultiplicationOperations>)
    ensures
        r == multiplication_of(*t),
{
    match t {
        TokenGroup::Delimiters(DelimitersGroup::Asterisk) => Some(
            MultiplicationOperations::Multiplication,
        ),
        TokenGroup::Delimiters(DelimitersGroup::Slash) => Some(MultiplicationOperations::Division),
        TokenGroup::Delimiters(DelimitersGroup::And) => Some(MultiplicationOperations::And),
        _ => None,
    }
}

impl Syntax {
    /// The token stream.
    pub closed spec fn stream(&self) -> Seq<Token> {
        self.tokens@
    }

    /// The cursor is inside the stream or at its end, and the current token
    /// is the one under it.
    pub closed spec fn wf(&self) -> bool {
        &&& self.position <= self.tokens@.len()
        &&& self.current_token == token_at(self.tokens@, self.position as int)
    }

    /// Index of the current token.
    pub closed spec fn cursor(&self) -> int {
        self.position as int
    }

    /// The values of the numeric literals that the analyser was given.
    pub closed spec fn literals(&self) -> Map<u64, LexerDigitalData> {
        self.vars@
    }

    /// The groups of the token stream.
    pub open spec fn groups(&self) -> Seq<TokenGroup> {
        kinds(self.stream())
    }

    /// An analyser with no tokens.
    pub fn new() -> (r: Syntax)
        ensures
            r.wf(),
            r.stream() == Seq::<Token>::empty(),
            r.cursor() == 0,
    {
        Syntax { current_token: Token::eof(), position: 0, tokens: Vec::new(), vars: HashMap::new() }
    }

    /// The values of the numeric literals that the analyser was given.
    pub fn values(&self) -> (r: &HashMap<u64, LexerDigitalData>)
        ensures
            r@ == self.literals(),
    {
        &self.vars
    }

    /// Index of the current token.
    pub fn place(&self) -> (r: usize)
        ensures
            r == self.cursor(),
    {
        self.position
    }

    /// Moves the cursor to the next token; at the end of the stream it stays.
    fn read_token(&mut self)
        requires
            old(self).wf(),
        ensures
            final(self).wf(),
            final(self).stream() == old(self).stream(),
            final(self).position == if old(self).position < old(self).stream().len() {
                old(self).position + 1
            } else {
                old(self).position as int
            },
    {
        if self.position < self.tokens.len() {
            self.position += 1;
        }
        self.current_token = self.token_here(self.position);
    }

    /// The token at an index: executable form of [`token_at`].
    fn token_here(&self, p: usize) -> (r: Token)
        ensures
            r == token_at(self.tokens@, p as int),
    {
        let n = self.tokens.len();
        if p < n {
            self.tokens[p]
        } else if n > 0 {
            Token { token: TokenGroup::Eof, line: self.tokens[n - 1].line, column: self.tokens[n - 1].column }
        } else {
            Token::eof()
        }
    }

    /// The token after the current one, without moving the cursor.
    fn next_token(&self) -> (r: Token)
        requires
            self.wf(),
        ensures
            r == token_at(self.stream(), self.position + 1),
    {
        if self.position < self.tokens.len() {
            self.token_here(self.position + 1)
        } else {
            self.token_here(self.position)
        }
    }

    /// The error for a fault at the current token.
    fn fault(&self, kind: FaultKind) -> (r: SyntaxError)
        requires
            self.wf(),
        ensures
            r@ == fault_error(self.stream(), Fault { kind, at: self.position as int }),
    {
        if kind.has_token() {
            SyntaxError::Missing(self.current_token, kind.text().to_owned())
        } else {
            SyntaxError::Unexpected(self.current_token, kind.text().to_owned())
        }
    }

    /// Reads a multiplier at the cursor.
    fn get_multiplier(&mut self) -> (r: SyntaxResult<Multiplier>)
        requires
            old(self).wf(),
        ensures
            final(self).wf(),
            final(self).stream() == old(self).stream(),
            agrees(
                old(self).stream(),
                old(self).position as int,
                final(self).position as int,
                r,
                parse_multiplier(old(self).groups(), old(self).position as int),
            ),
        decreases old(self).stream().len() - old(self).position, 0nat,
    {
        let res = match self.current_token.token {
            TokenGroup::Identifier(id) => Multiplier::Identifier(id),
            TokenGroup::Variables(id) => Multiplier::Variable(id),
            TokenGroup::Keywords(KeywordsGroup::True) => Multiplier::Boolean(true),
            TokenGroup::Keywords(KeywordsGroup::False) => Multiplier::Boolean(false),
            TokenGroup::Delimiters(DelimitersGroup::Not) => {
                self.read_token();
                match self.get_multiplier() {
                    Ok(multiplier) => {
                        return Ok(Multiplier::Not(Box::new(multiplier)));
                    },
                    Err(e) => {
                        return Err(e);
                    },
                }
            },
            TokenGroup::Delimiters(DelimitersGroup::LeftParenthesis) => {
                self.read_token();
                match self.get_expression() {
                    Ok(expression) => match self.current_token.token {
                        TokenGroup::Delimiters(DelimitersGroup::RightParenthesis) => {
                            Multiplier::Expression(expression)
                        },
                        _ => {
                            return Err(self.fault(FaultKind::ClosingParenthesis));
                        },
                    },
                    Err(e) => {
                        return Err(e);
                    },
                }
            },
            _ => {
                return Err(self.fault(FaultKind::Operand));
            },
        };
        self.read_token();
        Ok(res)
    }

    /// Reads a term at the cursor.
    fn get_term(&mut self) -> (r: SyntaxResult<Term>)
        requires
            old(self).wf(),
        ensures
            final(self).wf(),
            final(self).stream() == old(self).stream(),
            agrees(
                old(self).stream(),
                old(self).position as int,
                final(self).position as int,
                r,
                parse_term(old(self).groups(), old(self).position as int),
            ),
        decreases old(self).stream().len() - old(self).position, 1nat,
    {
        let ghost s = self.groups();
        let ghost start = self.position as int;
        let mut multipliers: Vec<Multiplier> = Vec::new();
        let mut operations: Vec<MultiplicationOperations> = Vec::new();
        match self.get_multiplier() {
            Ok(multiplier) => multipliers.push(multiplier),
            Err(e) => {
                return Err(e);
            },
        }
        let ghost mut views: Seq<MultiplierView> = seq![multipliers@[0]@];
        let mut op = multiplication_op(&self.current_token.token);
        while op.is_some()
            invariant
                self.wf(),
                self.stream() == old(self).stream(),
                s == self.groups(),
                start == old(self).position,
                start < self.position <= self.stream().len(),
                op == multiplication_of(at(s, self.position as int)),
                views.len() == multipliers@.len(),
                forall|i: int| 0 <= i < views.len() ==> (#[trigger] multipliers@[i])@ == views[i],
                parse_term(s, start) == term_tail(s, self.position as int, views, operations@),
            decreases self.stream().len() - self.position,
        {
            self.read_token();
            match self.get_multiplier() {
                Ok(multiplier) => {
                    proof {
                        views = views.push(multiplier@);
                    }
                    multipliers.push(multiplier);
                    operations.push(op.unwrap());
                },
                Err(e) => {
                    return Err(e);
                },
            }
            op = multiplication_op(&self.current_token.token);
        }
        let term = Term { multipliers, operations };
        assert(term@.multipliers =~= views);
        Ok(term)
    }

    /// Reads an operand at the cursor.
    fn get_operand(&mut self) -> (r: SyntaxResult<Operand>)
        requires
            old(self).wf(),
        ensures
            final(self).wf(),
            final(self).stream() == old(self).stream(),
            agrees(
                old(self).stream(),
                old(self).position as int,
                final(self).position as int,
                r,
                parse_operand(old(self).groups(), old(self).position as int),
            ),
        decreases old(self).stream().len() - old(self).position, 2nat,
    {
        let ghost s = self.groups();
        let ghost start = self.position as int;
        let mut terms: Vec<Term> = Vec::new();
        let mut operations: Vec<AdditionOperations> = Vec::new();
        match self.get_term() {
            Ok(term) => terms.push(term),
            Err(e) => {
                return Err(e);
            },
        }
        let ghost mut views: Seq<TermView> = seq![terms@[0]@];
        let mut op = addition_op(&self.current_token.token);
        while op.is_some()
            invariant
                self.wf(),
                self.stream() == old(self).stream(),
                s == self.groups(),
                start == old(self).position,
                start < self.position <= self.stream().len(),
                op == addition_of(at(s, self.position as int)),
                views.len() == terms@.len(),
                forall|i: int| 0 <= i < views.len() ==> (#[trigger] terms@[i])@ == views[i],
                parse_operand(s, start) == operand_tail(s, self.position as int, views, operations@),
            decreases self.stream().len() - self.position,
        {
            self.read_token();
            match self.get_term() {
                Ok(term) => {
                    proof {
                        views = views.push(term@);
                    }
                    terms.push(term);
                    operations.push(op.unwrap());
                },
                Err(e) => {
                    return Err(e);
                },
            }
            op = addition_op(&self.current_token.token);
        }
        let operand = Operand { terms, operations };
        assert(operand@.terms =~= views);
        Ok(operand)
    }

    /// Reads an expression at the cursor.
    fn get_expression(&mut self) -> (r: SyntaxResult<Expression>)
        requires
            old(self).wf(),
        ensures
            final(self).wf(),
            final(self).stream() == old(self).stream(),
            agrees(
                old(self).stream(),
                old(self).position as int,
                final(self).position as int,
                r,
                parse_expression(old(self).groups(), old(self).position as int),
            ),
        decreases old(self).stream().len() - old(self).position, 3nat,
    {
        let ghost s = self.groups();
        let ghost start = self.position as int;
        let mut operands: Vec<Operand> = Vec::new();
        let mut operations: Vec<RelationOperations> = Vec::new();
        match self.get_operand() {
            Ok(operand) => operands.push(operand),
            Err(e) => {
                return Err(e);
            },
        }
        let ghost mut views: Seq<OperandView> = seq![operands@[0]@];
        let mut op = relation_op(&self.current_token.token);
        while op.is_some()
            invariant
                self.wf(),
                self.stream() == old(self).stream(),
                s == self.groups(),
                start == old(self).position,
                start < self.position <= self.stream().len(),
                op == relation_of(at(s, self.position as int)),
                views.len() == operands@.len(),
                forall|i: int| 0 <= i < views.len() ==> (#[trigger] operands@[i])@ == views[i],
                parse_expression(s, start) == expression_tail(
                    s,
                    self.position as int,
                    views,
                    operations@,
                ),
            decreases self.stream().len() - self.position,
        {
            self.read_token();
            match self.get_operand() {
                Ok(operand) => {
                    proof {
                        views = views.push(operand@);
                    }
                    operands.push(operand);
                    operations.push(op.unwrap());
                },
                Err(e) => {
                    return Err(e);
                },
            }
            op = relation_op(&self.current_token.token);
        }
        let expression = Expression { operands, operations };
        assert(expression@.operands =~= views);
        Ok(expression)
    }
}

} // verus!

verus! {

/// `assign := ('let')? id '=' expression`, from the `=` on.
pub open spec fn parse_assignment(s: Seq<TokenGroup>, p: int, id: u64) -> Parsed<OperatorView> {
    if at(s, p) == TokenGroup::Delimiters(DelimitersGroup::Equal) {
        match parse_expression(s, p + 1) {
            Parsed::Done(e, q) => Parsed::Done(OperatorView::Assignment(id, e), q),
            Parsed::Failed(f) => Parsed::Failed(f),
        }
    } else {
        Parsed::Failed(Fault { kind: FaultKind::EqualSign, at: p })
    }
}

/// The identifiers of an `input` after `ids`, up to the closing `)`.
pub open spec fn input_tail(s: Seq<TokenGroup>, p: int, ids: Seq<u64>) -> Parsed<OperatorView>
    decreases s.len() - p,
{
    match at(s, p) {
        TokenGroup::Delimiters(DelimitersGroup::RightParenthesis) => if ids.len() == 0 {
            Parsed::Failed(Fault { kind: FaultKind::Identifier, at: p })
        } else {
            Parsed::Done(OperatorView::Input(ids), p + 1)
        },
        TokenGroup::Identifier(id) => input_tail(s, p + 1, ids.push(id)),
        _ => Parsed::Failed(Fault { kind: FaultKind::InputItem, at: p }),
    }
}

/// The expressions of an `output` after `es`, up to the closing `)`.
pub open spec fn output_tail(s: Seq<TokenGroup>, p: int, es: Seq<ExpressionView>) -> Parsed<
    OperatorView,
>
    decreases s.len() - p,
{
    if at(s, p) == TokenGroup::Delimiters(DelimitersGroup::RightParenthesis) {
        if es.len() == 0 {
            Parsed::Failed(Fault { kind: FaultKind::OutputItem, at: p })
        } else {
            Parsed::Done(OperatorView::Output(es), p + 1)
        }
    } else {
        match advanced(s, p, parse_expression(s, p)) {
            Parsed::Done(e, q) => output_tail(s, q, es.push(e)),
            Parsed::Failed(f) => Parsed::Failed(f),
        }
    }
}

/// `io := 'input' '(' id+ ')' | 'output' '(' expression+ ')'`, after the
/// keyword.
pub open spec fn parse_io(s: Seq<TokenGroup>, p: int, input: bool) -> Parsed<OperatorView> {
    if at(s, p) == TokenGroup::Delimiters(DelimitersGroup::LeftParenthesis) {
        if input {
            input_tail(s, p + 1, Seq::empty())
        } else {
            output_tail(s, p + 1, Seq::empty())
        }
    } else {
        Parsed::Failed(Fault { kind: FaultKind::OpeningParenthesis, at: p })
    }
}

/// The header of a `for` after `(`: three expressions separated by `;`, and
/// the closing `)`.
#[verifier::opaque]
pub open spec fn parse_header(s: Seq<TokenGroup>, p: int) -> Parsed<Seq<ExpressionView>> {
    match advanced(s, p, parse_expression(s, p)) {
        Parsed::Done(e1, q1) => if at(s, q1) != TokenGroup::Delimiters(
            DelimitersGroup::Semicolon,
        ) {
            Parsed::Failed(Fault { kind: FaultKind::HeaderSemicolon, at: q1 })
        } else {
            match advanced(s, q1 + 1, parse_expression(s, q1 + 1)) {
                Parsed::Done(e2, q2) => if at(s, q2) != TokenGroup::Delimiters(
                    DelimitersGroup::Semicolon,
                ) {
                    Parsed::Failed(Fault { kind: FaultKind::HeaderSemicolon, at: q2 })
                } else {
                    match advanced(s, q2 + 1, parse_expression(s, q2 + 1)) {
                        Parsed::Done(e3, q3) => if at(s, q3) != TokenGroup::Delimiters(
                            DelimitersGroup::RightParenthesis,
                        ) {
                            Parsed::Failed(Fault { kind: FaultKind::ClosingParenthesis, at: q3 })
                        } else {
                            Parsed::Done(seq![e1, e2, e3], q3 + 1)
                        },
                        Parsed::Failed(f) => Parsed::Failed(f),
                    }
                },
                Parsed::Failed(f) => Parsed::Failed(f),
            }
        },
        Parsed::Failed(f) => Parsed::Failed(f),
    }
}

/// The rest of a block after the statements `ops`.
pub open spec fn block_tail(s: Seq<TokenGroup>, p: int, ops: Seq<OperatorView>) -> Parsed<
    OperatorView,
>
    decreases s.len() - p, 0nat,
{
    match at(s, p) {
        TokenGroup::Delimiters(DelimitersGroup::Semicolon) => if at(s, p + 1)
            == TokenGroup::Delimiters(DelimitersGroup::RightCurlyBracket) {
            Parsed::Failed(Fault { kind: FaultKind::NoOperator, at: p + 1 })
        } else {
            match advanced(s, p + 1, parse_operator(s, p + 1)) {
                Parsed::Done(op, q) => block_tail(s, q, ops.push(op)),
                Parsed::Failed(f) => Parsed::Failed(f),
            }
        },
        TokenGroup::Delimiters(DelimitersGroup::RightCurlyBracket) => Parsed::Done(
            OperatorView::Composite(ops),
            p + 1,
        ),
        _ => Parsed::Failed(Fault { kind: FaultKind::ClosingBrace, at: p }),
    }
}

/// `if := 'if' expression 'then' operator ('else' operator)? 'end_else'`,
/// after the keyword.
pub open spec fn parse_if(s: Seq<TokenGroup>, p: int) -> Parsed<OperatorView>
    decreases s.len() - p, 0nat,
{
    match advanced(s, p, parse_expression(s, p)) {
        Parsed::Done(c, q) => if at(s, q) != TokenGroup::Keywords(KeywordsGroup::Then) {
            Parsed::Failed(Fault { kind: FaultKind::Then, at: q })
        } else {
            match advanced(s, q + 1, parse_operator(s, q + 1)) {
                Parsed::Done(a, q2) => if at(s, q2) == TokenGroup::Keywords(KeywordsGroup::Else) {
                    match advanced(s, q2 + 1, parse_operator(s, q2 + 1)) {
                        Parsed::Done(b, q3) => if at(s, q3) == TokenGroup::Keywords(
                            KeywordsGroup::EndElse,
                        ) {
                            Parsed::Done(
                                OperatorView::If(c, Box::new(a), Some(Box::new(b))),
                                q3 + 1,
                            )
                        } else {
                            Parsed::Failed(Fault { kind: FaultKind::EndElse, at: q3 })
                        },
                        Parsed::Failed(f) => Parsed::Failed(f),
                    }
                } else if at(s, q2) == TokenGroup::Keywords(KeywordsGroup::EndElse) {
                    Parsed::Done(OperatorView::If(c, Box::new(a), None), q2 + 1)
                } else {
                    Parsed::Failed(Fault { kind: FaultKind::EndElse, at: q2 })
                },
                Parsed::Failed(f) => Parsed::Failed(f),
            }
        },
        Parsed::Failed(f) => Parsed::Failed(f),
    }
}

/// `for := 'for' '(' expression ';' expression ';' expression ')' operator`,
/// after the keyword.
pub open spec fn parse_for(s: Seq<TokenGroup>, p: int) -> Parsed<OperatorView>
    decreases s.len() - p, 0nat,
{
    if at(s, p) != TokenGroup::Delimiters(DelimitersGroup::LeftParenthesis) {
        Parsed::Failed(Fault { kind: FaultKind::OpeningParenthesis, at: p })
    } else {
        match advanced(s, p + 1, parse_header(s, p + 1)) {
            Parsed::Done(es, q) => match parse_operator(s, q) {
                Parsed::Done(body, q2) => Parsed::Done(OperatorView::For(es, Box::new(body)), q2),
                Parsed::Failed(f) => Parsed::Failed(f),
            },
            Parsed::Failed(f) => Parsed::Failed(f),
        }
    }
}

/// `while := 'do' 'while' expression operator 'loop'`, after `do`.
pub open spec fn parse_while(s: Seq<TokenGroup>, p: int) -> Parsed<OperatorView>
    decreases s.len() - p, 0nat,
{
    if at(s, p) != TokenGroup::Keywords(KeywordsGroup::While) {
        Parsed::Failed(Fault { kind: FaultKind::While, at: p })
    } else {
        match advanced(s, p + 1, parse_expression(s, p + 1)) {
            Parsed::Done(c, q) => match advanced(s, q, parse_operator(s, q)) {
                Parsed::Done(body, q2) => if at(s, q2) == TokenGroup::Keywords(
                    KeywordsGroup::Loop,
                ) {
                    Parsed::Done(OperatorView::While(c, Box::new(body)), q2 + 1)
                } else {
                    Parsed::Failed(Fault { kind: FaultKind::Loop, at: q2 })
                },
                Parsed::Failed(f) => Parsed::Failed(f),
            },
            Parsed::Failed(f) => Parsed::Failed(f),
        }
    }
}

/// `block := '{' operator (';' operator)* '}'`, after the opening `{`.
pub open spec fn parse_block(s: Seq<TokenGroup>, p: int) -> Parsed<OperatorView>
    decreases s.len() - p, 2nat,
{
    match advanced(s, p, parse_operator(s, p)) {
        Parsed::Done(op, q) => block_tail(s, q, seq![op]),
        Parsed::Failed(f) => Parsed::Failed(f),
    }
}

/// `operator := block | assign | if | for | while | io`
pub open spec fn parse_operator(s: Seq<TokenGroup>, p: int) -> Parsed<OperatorView>
    decreases s.len() - p, 1nat,
{
    match at(s, p) {
        TokenGroup::Delimiters(DelimitersGroup::LeftCurlyBracket) => parse_block(s, p + 1),
        TokenGroup::Keywords(KeywordsGroup::Let) => match at(s, p + 1) {
            TokenGroup::Identifier(id) => parse_assignment(s, p + 2, id),
            _ => Parsed::Failed(Fault { kind: FaultKind::Identifier, at: p + 1 }),
        },
        TokenGroup::Identifier(id) => parse_assignment(s, p + 1, id),
        TokenGroup::Keywords(KeywordsGroup::If) => parse_if(s, p + 1),
        TokenGroup::Keywords(KeywordsGroup::For) => parse_for(s, p + 1),
        TokenGroup::Keywords(KeywordsGroup::Do) => parse_while(s, p + 1),
        TokenGroup::Keywords(KeywordsGroup::Input) => parse_io(s, p + 1, true),
        TokenGroup::Keywords(KeywordsGroup::Output) => parse_io(s, p + 1, false),
        _ => Parsed::Failed(Fault { kind: FaultKind::Unexpected, at: p }),
    }
}

/// The type a keyword names, without a value.
pub open spec fn type_of(t: TokenGroup) -> Option<ProgramTypes> {
    match t {
        TokenGroup::Keywords(KeywordsGroup::Integer) => Some(ProgramTypes::Integer(None)),
        TokenGroup::Keywords(KeywordsGroup::Real) => Some(ProgramTypes::Float(None)),
        TokenGroup::Keywords(KeywordsGroup::Boolean) => Some(ProgramTypes::Boolean(None)),
        _ => None,
    }
}

/// `id (',' id)* ':' type`: one group of a declaration, after the
/// identifiers `ids`.
pub open spec fn parse_group(s: Seq<TokenGroup>, p: int, ids: Seq<u64>) -> Parsed<
    (Seq<u64>, ProgramTypes),
>
    decreases s.len() - p,
{
    match at(s, p) {
        TokenGroup::Identifier(id) => match at(s, p + 1) {
            TokenGroup::Delimiters(DelimitersGroup::Comma) => parse_group(s, p + 2, ids.push(id)),
            TokenGroup::Delimiters(DelimitersGroup::Colon) => match type_of(at(s, p + 2)) {
                Some(t) => Parsed::Done((ids.push(id), t), p + 3),
                None => Parsed::Failed(Fault { kind: FaultKind::DataType, at: p + 2 }),
            },
            _ => Parsed::Failed(Fault { kind: FaultKind::StrayToken, at: p + 1 }),
        },
        _ => Parsed::Failed(Fault { kind: FaultKind::Identifier, at: p }),
    }
}

/// Whether another group of the same declaration starts after the `;` at
/// `p`: an identifier followed by `,` or `:`.
pub open spec fn group_follows(s: Seq<TokenGroup>, p: int) -> bool {
    &&& at(s, p) == TokenGroup::Delimiters(DelimitersGroup::Semicolon)
    &&& at(s, p + 1) is Identifier
    &&& (at(s, p + 2) == TokenGroup::Delimiters(DelimitersGroup::Comma) || at(s, p + 2)
        == TokenGroup::Delimiters(DelimitersGroup::Colon))
}

/// The rest of a declaration after the groups `gs`.
pub open spec fn groups_tail(
    s: Seq<TokenGroup>,
    p: int,
    gs: Seq<(Seq<u64>, ProgramTypes)>,
) -> Parsed<MainOperationView>
    decreases s.len() - p,
{
    if group_follows(s, p) {
        match advanced(s, p + 1, parse_group(s, p + 1, Seq::empty())) {
            Parsed::Done(g, q) => groups_tail(s, q, gs.push(g)),
            Parsed::Failed(f) => Parsed::Failed(f),
        }
    } else {
        Parsed::Done(MainOperationView::CreateVariable(gs), p)
    }
}

/// `var_decl := 'var' (id_list ':' type) (';' id_list ':' type)*`, after
/// the keyword.
pub open spec fn parse_var(s: Seq<TokenGroup>, p: int) -> Parsed<MainOperationView> {
    match advanced(s, p, parse_group(s, p, Seq::empty())) {
        Parsed::Done(g, q) => groups_tail(s, q, seq![g]),
        Parsed::Failed(f) => Parsed::Failed(f),
    }
}

/// `main_op := var_decl | operator`
#[verifier::opaque]
pub open spec fn parse_main(s: Seq<TokenGroup>, p: int) -> Parsed<MainOperationView> {
    if at(s, p) == TokenGroup::Keywords(KeywordsGroup::Var) {
        parse_var(s, p + 1)
    } else {
        match parse_operator(s, p) {
            Parsed::Done(op, q) => Parsed::Done(MainOperationView::Operator(op), q),
            Parsed::Failed(f) => Parsed::Failed(f),
        }
    }
}

/// The end of a program whose closing `}` is at `p`: only the end of input
/// may follow.
pub open spec fn parse_end(s: Seq<TokenGroup>, p: int, ms: Seq<MainOperationView>) -> Parsed<
    Seq<MainOperationView>,
> {
    if at(s, p + 1) == TokenGroup::Eof {
        Parsed::Done(ms, p + 1)
    } else {
        Parsed::Failed(Fault { kind: FaultKind::ProgramEnd, at: p + 1 })
    }
}

/// What follows an entry of the program body that ends before `p`: a `;`
/// and another entry (`false`, with the position of that entry), or the
/// closing `}` of the program, which a `;` may precede (`true`, with the
/// position of the `}`).
pub open spec fn parse_separator(s: Seq<TokenGroup>, p: int) -> Parsed<bool> {
    if at(s, p) == TokenGroup::Delimiters(DelimitersGroup::Semicolon) {
        if at(s, p + 1) == TokenGroup::Delimiters(DelimitersGroup::RightCurlyBracket) {
            Parsed::Done(true, p + 1)
        } else if at(s, p + 1) == TokenGroup::Eof {
            Parsed::Failed(Fault { kind: FaultKind::ClosingBrace, at: p + 1 })
        } else {
            Parsed::Done(false, p + 1)
        }
    } else if at(s, p) == TokenGroup::Delimiters(DelimitersGroup::RightCurlyBracket) {
        Parsed::Done(true, p)
    } else {
        Parsed::Failed(Fault { kind: FaultKind::Semicolon, at: p })
    }
}

/// `body := main_op (';' main_op)*` with an optional `;` before the closing
/// `}`: the entries from `p` on, after the entries `ms`.
pub open spec fn parse_body(s: Seq<TokenGroup>, p: int, ms: Seq<MainOperationView>) -> Parsed<
    Seq<MainOperationView>,
>
    decreases s.len() - p,
{
    match advanced(s, p, parse_main(s, p)) {
        Parsed::Done(m, q) => match parse_separator(s, q) {
            Parsed::Done(closing, n) => if closing {
                parse_end(s, n, ms.push(m))
            } else {
                parse_body(s, n, ms.push(m))
            },
            Parsed::Failed(f) => Parsed::Failed(f),
        },
        Parsed::Failed(f) => Parsed::Failed(f),
    }
}

/// `program := '{' body '}' EOF`: the entries of the program body, and the
/// index of the end of input.
pub open spec fn parse_program(s: Seq<TokenGroup>) -> Parsed<Seq<MainOperationView>> {
    if at(s, 0) != TokenGroup::Delimiters(DelimitersGroup::LeftCurlyBracket) {
        Parsed::Failed(Fault { kind: FaultKind::ProgramStart, at: 0 })
    } else if at(s, 1) == TokenGroup::Eof {
        Parsed::Failed(Fault { kind: FaultKind::ClosingBrace, at: 1 })
    } else if at(s, 1) == TokenGroup::Delimiters(DelimitersGroup::RightCurlyBracket) {
        if at(s, 2) == TokenGroup::Eof {
            Parsed::Failed(Fault { kind: FaultKind::EmptyProgram, at: 1 })
        } else {
            Parsed::Failed(Fault { kind: FaultKind::ProgramEnd, at: 2 })
        }
    } else {
        parse_body(s, 1, Seq::empty())
    }
}

/// What a list of program entries stands for.
pub open spec fn program_view(program: Seq<MainOperation>) -> Seq<MainOperationView> {
    Seq::new(program.len(), |i: int| program[i]@)
}

} // verus!

verus! {

/// Executable form of [`type_of`].
fn type_keyword(t: &TokenGroup) -> (r: Option<ProgramTypes>)
    ensures
        r == type_of(*t),
{
    match t {
        TokenGroup::Keywords(KeywordsGroup::Integer) => Some(ProgramTypes::Integer(None)),
        TokenGroup::Keywords(KeywordsGroup::Real) => Some(ProgramTypes::Float(None)),
        TokenGroup::Keywords(KeywordsGroup::Boolean) => Some(ProgramTypes::Boolean(None)),
        _ => None,
    }
}

impl Syntax {
    /// The group of the token `ahead` places after the current one.
    fn peek(&self, ahead: usize) -> (r: TokenGroup)
        requires
            self.wf(),
        ensures
            r == at(self.groups(), self.position + ahead),
    {
        let n = self.tokens.len();
        if ahead < n - self.position {
            self.tokens[self.position + ahead].token
        } else {
            TokenGroup::Eof
        }
    }

    /// Whether the current token is the given delimiter.
    fn is_delimiter(&self, d: DelimitersGroup) -> (r: bool)
        requires
            self.wf(),
        ensures
            r == (at(self.groups(), self.position as int) == TokenGroup::Delimiters(d)),
    {
        self.current_token.token == TokenGroup::Delimiters(d)
    }

    /// Whether the current token is the given keyword.
    fn is_keyword(&self, k: KeywordsGroup) -> (r: bool)
        requires
            self.wf(),
        ensures
            r == (at(self.groups(), self.position as int) == TokenGroup::Keywords(k)),
    {
        self.current_token.token == TokenGroup::Keywords(k)
    }

    /// Reads the `=` and the expression of an assignment to `id`.
    fn get_assignment(&mut self, id: u64) -> (r: SyntaxResult<Operator>)
        requires
            old(self).wf(),
        ensures
            final(self).wf(),
            final(self).stream() == old(self).stream(),
            agrees(
                old(self).stream(),
                old(self).position as int,
                final(self).position as int,
                r,
                parse_assignment(old(self).groups(), old(self).position as int, id),
            ),
    {
        if !self.is_delimiter(DelimitersGroup::Equal) {
            return Err(self.fault(FaultKind::EqualSign));
        }
        self.read_token();
        match self.get_expression() {
            Ok(v) => Ok(Operator::Assignment(id, v)),
            Err(e) => Err(e),
        }
    }

    /// Reads the parenthesised identifiers of an `input`.
    fn get_input(&mut self) -> (r: SyntaxResult<Operator>)
        requires
            old(self).wf(),
        ensures
            final(self).wf(),
            final(self).stream() == old(self).stream(),
            agrees(
                old(self).stream(),
                old(self).position as int,
                final(self).position as int,
                r,
                parse_io(old(self).groups(), old(self).position as int, true),
            ),
    {
        let ghost s = self.groups();
        let ghost start = self.position as int;
        if !self.is_delimiter(DelimitersGroup::LeftParenthesis) {
            return Err(self.fault(FaultKind::OpeningParenthesis));
        }
        self.read_token();
        let mut identifiers: Vec<u64> = Vec::new();
        while !self.is_delimiter(DelimitersGroup::RightParenthesis)
            invariant
                self.wf(),
                self.stream() == old(self).stream(),
                s == self.groups(),
                start == old(self).position,
                start < self.position <= self.stream().len(),
                parse_io(s, start, true) == input_tail(s, self.position as int, identifiers@),
            decreases self.stream().len() - self.position,
        {
            match self.current_token.token {
                TokenGroup::Identifier(id) => {
                    self.read_token();
                    identifiers.push(id);
                },
                _ => {
                    return Err(self.fault(FaultKind::InputItem));
                },
            }
        }
        if identifiers.len() == 0 {
            return Err(self.fault(FaultKind::Identifier));
        }
        self.read_token();
        Ok(Operator::Input(identifiers))
    }

    /// Reads the parenthesised expressions of an `output`.
    fn get_output(&mut self) -> (r: SyntaxResult<Operator>)
        requires
            old(self).wf(),
        ensures
            final(self).wf(),
            final(self).stream() == old(self).stream(),
            agrees(
                old(self).stream(),
                old(self).position as int,
                final(self).position as int,
                r,
                parse_io(old(self).groups(), old(self).position as int, false),
            ),
    {
        let ghost s = self.groups();
        let ghost start = self.position as int;
        if !self.is_delimiter(DelimitersGroup::LeftParenthesis) {
            return Err(self.fault(FaultKind::OpeningParenthesis));
        }
        self.read_token();
        let mut expressions: Vec<Expression> = Vec::new();
        let ghost mut views: Seq<ExpressionView> = Seq::empty();
        while !self.is_delimiter(DelimitersGroup::RightParenthesis)
            invariant
                self.wf(),
                self.stream() == old(self).stream(),
                s == self.groups(),
                start == old(self).position,
                start < self.position <= self.stream().len(),
                views.len() == expressions@.len(),
                forall|i: int| 0 <= i < views.len() ==> (#[trigger] expressions@[i])@ == views[i],
                parse_io(s, start, false) == output_tail(s, self.position as int, views),
            decreases self.stream().len() - self.position,
        {
            match self.get_expression() {
                Ok(expression) => {
                    proof {
                        views = views.push(expression@);
                    }
                    expressions.push(expression);
                },
                Err(e) => {
                    return Err(e);
                },
            }
        }
        if expressions.len() == 0 {
            return Err(self.fault(FaultKind::OutputItem));
        }
        self.read_token();
        let op = Operator::Output(expressions);
        assert(op@->Output_0 =~= views);
        Ok(op)
    }

    /// Reads the statements of a block and its closing `}`.
    fn get_block(&mut self) -> (r: SyntaxResult<Operator>)
        requires
            old(self).wf(),
        ensures
            final(self).wf(),
            final(self).stream() == old(self).stream(),
            agrees(
                old(self).stream(),
                old(self).position as int,
                final(self).position as int,
                r,
                parse_block(old(self).groups(), old(self).position as int),
            ),
        decreases old(self).stream().len() - old(self).position, 2nat,
    {
        let ghost s = self.groups();
        let ghost start = self.position as int;
        let mut operators: Vec<Operator> = Vec::new();
        match self.get_operator() {
            Ok(v) => operators.push(v),
            Err(e) => {
                return Err(e);
            },
        }
        let ghost mut views: Seq<OperatorView> = seq![operators@[0]@];
        while self.is_delimiter(DelimitersGroup::Semicolon)
            invariant
                self.wf(),
                self.stream() == old(self).stream(),
                s == self.groups(),
                start == old(self).position,
                start < self.position <= self.stream().len(),
                views.len() == operators@.len(),
                forall|i: int| 0 <= i < views.len() ==> (#[trigger] operators@[i])@ == views[i],
                parse_block(s, start) == block_tail(s, self.position as int, views),
            decreases self.stream().len() - self.position,
        {
            match self.next_token().token {
                TokenGroup::Delimiters(DelimitersGroup::RightCurlyBracket) => {
                    self.read_token();
                    return Err(self.fault(FaultKind::NoOperator));
                },
                _ => {
                    self.read_token();
                },
            }
            match self.get_operator() {
                Ok(v) => {
                    proof {
                        views = views.push(v@);
                    }
                    operators.push(v);
                },
                Err(e) => {
                    return Err(e);
                },
            }
        }
        if !self.is_delimiter(DelimitersGroup::RightCurlyBracket) {
            return Err(self.fault(FaultKind::ClosingBrace));
        }
        self.read_token();
        let op = Operator::Composite(operators);
        assert(op@->Composite_0 =~= views);
        Ok(op)
    }

    /// Reads an `if` statement after its keyword.
    fn get_if(&mut self) -> (r: SyntaxResult<Operator>)
        requires
            old(self).wf(),
        ensures
            final(self).wf(),
            final(self).stream() == old(self).stream(),
            agrees(
                old(self).stream(),
                old(self).position as int,
                final(self).position as int,
                r,
                parse_if(old(self).groups(), old(self).position as int),
            ),
        decreases old(self).stream().len() - old(self).position, 0nat,
    {
        let expression = match self.get_expression() {
            Err(e) => {
                return Err(e);
            },
            Ok(expression) => expression,
        };
        if !self.is_keyword(KeywordsGroup::Then) {
            return Err(self.fault(FaultKind::Then));
        }
        self.read_token();
        let operator1 = match self.get_operator() {
            Ok(operator) => operator,
            Err(e) => {
                return Err(e);
            },
        };
        let operator2 = if self.is_keyword(KeywordsGroup::Else) {
            self.read_token();
            match self.get_operator() {
                Ok(operator2) => Some(Box::new(operator2)),
                Err(e) => {
                    return Err(e);
                },
            }
        } else {
            None
        };
        if !self.is_keyword(KeywordsGroup::EndElse) {
            return Err(self.fault(FaultKind::EndElse));
        }
        self.read_token();
        Ok(Operator::If(expression, Box::new(operator1), operator2))
    }

    /// Reads a `for` statement after its keyword.
    fn get_for(&mut self) -> (r: SyntaxResult<Operator>)
        requires
            old(self).wf(),
        ensures
            final(self).wf(),
            final(self).stream() == old(self).stream(),
            agrees(
                old(self).stream(),
                old(self).position as int,
                final(self).position as int,
                r,
                parse_for(old(self).groups(), old(self).position as int),
            ),
        decreases old(self).stream().len() - old(self).position, 0nat,
    {
        proof {
            reveal(parse_header);
        }
        if !self.is_delimiter(DelimitersGroup::LeftParenthesis) {
            return Err(self.fault(FaultKind::OpeningParenthesis));
        }
        self.read_token();
        let mut expressions: Vec<Expression> = Vec::with_capacity(3);
        match self.get_expression() {
            Ok(v) => expressions.push(v),
            Err(e) => {
                return Err(e);
            },
        }
        if !self.is_delimiter(DelimitersGroup::Semicolon) {
            return Err(self.fault(FaultKind::HeaderSemicolon));
        }
        self.read_token();
        match self.get_expression() {
            Ok(v) => expressions.push(v),
            Err(e) => {
                return Err(e);
            },
        }
        if !self.is_delimiter(DelimitersGroup::Semicolon) {
            return Err(self.fault(FaultKind::HeaderSemicolon));
        }
        self.read_token();
        match self.get_expression() {
            Ok(v) => expressions.push(v),
            Err(e) => {
                return Err(e);
            },
        }
        if !self.is_delimiter(DelimitersGroup::RightParenthesis) {
            return Err(self.fault(FaultKind::ClosingParenthesis));
        }
        self.read_token();
        match self.get_operator() {
            Ok(op) => {
                let r = Operator::For(expressions, Box::new(op));
                assert(r@->For_0 =~= seq![expressions@[0]@, expressions@[1]@, expressions@[2]@]);
                Ok(r)
            },
            Err(e) => Err(e),
        }
    }

    /// Reads a `do while` statement after `do`.
    fn get_while(&mut self) -> (r: SyntaxResult<Operator>)
        requires
            old(self).wf(),
        ensures
            final(self).wf(),
            final(self).stream() == old(self).stream(),
            agrees(
                old(self).stream(),
                old(self).position as int,
                final(self).position as int,
                r,
                parse_while(old(self).groups(), old(self).position as int),
            ),
        decreases old(self).stream().len() - old(self).position, 0nat,
    {
        if !self.is_keyword(KeywordsGroup::While) {
            return Err(self.fault(FaultKind::While));
        }
        self.read_token();
        let expressions = match self.get_expression() {
            Ok(v) => v,
            Err(e) => {
                return Err(e);
            },
        };
        let operator = match self.get_operator() {
            Ok(operator) => operator,
            Err(e) => {
                return Err(e);
            },
        };
        if !self.is_keyword(KeywordsGroup::Loop) {
            return Err(self.fault(FaultKind::Loop));
        }
        self.read_token();
        Ok(Operator::While(expressions, Box::new(operator)))
    }

    /// Reads a statement at the cursor.
    fn get_operator(&mut self) -> (r: SyntaxResult<Operator>)
        requires
            old(self).wf(),
        ensures
            final(self).wf(),
            final(self).stream() == old(self).stream(),
            agrees(
                old(self).stream(),
                old(self).position as int,
                final(self).position as int,
                r,
                parse_operator(old(self).groups(), old(self).position as int),
            ),
        decreases old(self).stream().len() - old(self).position, 1nat,
    {
        match self.current_token.token {
            TokenGroup::Delimiters(DelimitersGroup::LeftCurlyBracket) => {
                self.read_token();
                self.get_block()
            },
            TokenGroup::Keywords(KeywordsGroup::Let) => {
                self.read_token();
                match self.current_token.token {
                    TokenGroup::Identifier(id) => {
                        self.read_token();
                        self.get_assignment(id)
                    },
                    _ => Err(self.fault(FaultKind::Identifier)),
                }
            },
            TokenGroup::Identifier(id) => {
                self.read_token();
                self.get_assignment(id)
            },
            TokenGroup::Keywords(KeywordsGroup::If) => {
                self.read_token();
                self.get_if()
            },
            TokenGroup::Keywords(KeywordsGroup::For) => {
                self.read_token();
                self.get_for()
            },
            TokenGroup::Keywords(KeywordsGroup::Do) => {
                self.read_token();
                self.get_while()
            },
            TokenGroup::Keywords(KeywordsGroup::Input) => {
                self.read_token();
                self.get_input()
            },
            TokenGroup::Keywords(KeywordsGroup::Output) => {
                self.read_token();
                self.get_output()
            },
            _ => Err(self.fault(FaultKind::Unexpected)),
        }
    }
}

} // verus!

verus! {

/// What the groups of a declaration stand for.
pub open spec fn groups_view(gs: Seq<(Vec<u64>, ProgramTypes)>) -> Seq<(Seq<u64>, ProgramTypes)> {
    Seq::new(gs.len(), |i: int| (gs[i].0@, gs[i].1))
}

impl Syntax {
    /// Reads one group of a declaration: identifiers separated by `,`, then
    /// `:` and a type.
    fn get_group(&mut self) -> (r: SyntaxResult<(Vec<u64>, ProgramTypes)>)
        requires
            old(self).wf(),
        ensures
            final(self).wf(),
            final(self).stream() == old(self).stream(),
            match parse_group(old(self).groups(), old(self).position as int, Seq::empty()) {
                Parsed::Done(g, q) => r is Ok && r->Ok_0.0@ == g.0 && r->Ok_0.1 == g.1
                    && final(self).position == q && old(self).position < q
                    <= old(self).stream().len(),
                Parsed::Failed(f) => r is Err && r->Err_0@ == fault_error(old(self).stream(), f)
                    && final(self).position == f.at,
            },
    {
        let ghost s = self.groups();
        let ghost start = self.position as int;
        let mut group: Vec<u64> = Vec::new();
        loop
            invariant
                self.wf(),
                self.stream() == old(self).stream(),
                s == self.groups(),
                start == old(self).position,
                start <= self.position <= self.stream().len(),
                parse_group(s, start, Seq::empty()) == parse_group(
                    s,
                    self.position as int,
                    group@,
                ),
            decreases self.stream().len() - self.position,
        {
            match self.current_token.token {
                TokenGroup::Identifier(v) => {
                    group.push(v);
                    self.read_token();
                    match self.current_token.token {
                        TokenGroup::Delimiters(DelimitersGroup::Comma) => {
                            self.read_token();
                        },
                        TokenGroup::Delimiters(DelimitersGroup::Colon) => {
                            self.read_token();
                            match type_keyword(&self.current_token.token) {
                                Some(t) => {
                                    self.read_token();
                                    return Ok((group, t));
                                },
                                None => {
                                    return Err(self.fault(FaultKind::DataType));
                                },
                            }
                        },
                        _ => {
                            return Err(self.fault(FaultKind::StrayToken));
                        },
                    }
                },
                _ => {
                    return Err(self.fault(FaultKind::Identifier));
                },
            }
        }
    }

    /// Whether another group of the declaration starts after the current
    /// token.
    fn another_group(&self) -> (r: bool)
        requires
            self.wf(),
        ensures
            r == group_follows(self.groups(), self.position as int),
    {
        if !self.is_delimiter(DelimitersGroup::Semicolon) {
            return false;
        }
        match self.peek(1) {
            TokenGroup::Identifier(_) => match self.peek(2) {
                TokenGroup::Delimiters(DelimitersGroup::Comma) => true,
                TokenGroup::Delimiters(DelimitersGroup::Colon) => true,
                _ => false,
            },
            _ => false,
        }
    }

    /// Reads a declaration of variables after `var`.
    fn get_var(&mut self) -> (r: SyntaxResult<MainOperation>)
        requires
            old(self).wf(),
        ensures
            final(self).wf(),
            final(self).stream() == old(self).stream(),
            agrees(
                old(self).stream(),
                old(self).position as int,
                final(self).position as int,
                r,
                parse_var(old(self).groups(), old(self).position as int),
            ),
    {
        let ghost s = self.groups();
        let ghost start = self.position as int;
        let mut vars: Vec<(Vec<u64>, ProgramTypes)> = Vec::new();
        match self.get_group() {
            Ok(g) => vars.push(g),
            Err(e) => {
                return Err(e);
            },
        }
        assert(groups_view(vars@) =~= seq![(vars@[0].0@, vars@[0].1)]);
        while self.another_group()
            invariant
                self.wf(),
                self.stream() == old(self).stream(),
                s == self.groups(),
                start == old(self).position,
                start < self.position <= self.stream().len(),
                parse_var(s, start) == groups_tail(s, self.position as int, groups_view(vars@)),
            decreases self.stream().len() - self.position,
        {
            let ghost before = groups_view(vars@);
            self.read_token();
            match self.get_group() {
                Ok(g) => {
                    vars.push(g);
                    assert(groups_view(vars@) =~= before.push((g.0@, g.1)));
                },
                Err(e) => {
                    return Err(e);
                },
            }
        }
        let r = MainOperation::CreateVariable(vars);
        assert(r@->CreateVariable_0 =~= groups_view(vars@));
        Ok(r)
    }

    /// Reads one entry of the program body.
    fn get_main(&mut self) -> (r: SyntaxResult<MainOperation>)
        requires
            old(self).wf(),
        ensures
            final(self).wf(),
            final(self).stream() == old(self).stream(),
            agrees(
                old(self).stream(),
                old(self).position as int,
                final(self).position as int,
                r,
                parse_main(old(self).groups(), old(self).position as int),
            ),
    {
        proof {
            reveal(parse_main);
        }
        if self.is_keyword(KeywordsGroup::Var) {
            self.read_token();
            self.get_var()
        } else {
            match self.get_operator() {
                Ok(v) => Ok(MainOperation::Operator(v)),
                Err(e) => Err(e),
            }
        }
    }

    /// Reads what follows an entry of the program body. The cursor is left
    /// at the next entry or at the closing `}`.
    fn get_separator(&mut self) -> (r: SyntaxResult<bool>)
        requires
            old(self).wf(),
        ensures
            final(self).wf(),
            final(self).stream() == old(self).stream(),
            match parse_separator(old(self).groups(), old(self).position as int) {
                Parsed::Done(closing, n) => r == Ok::<bool, SyntaxError>(closing)
                    && final(self).position == n && n < old(self).stream().len(),
                Parsed::Failed(f) => r is Err && r->Err_0@ == fault_error(old(self).stream(), f)
                    && final(self).position == f.at,
            },
    {
        if self.is_delimiter(DelimitersGroup::Semicolon) {
            match self.peek(1) {
                TokenGroup::Delimiters(DelimitersGroup::RightCurlyBracket) => {
                    self.read_token();
                    Ok(true)
                },
                TokenGroup::Eof => {
                    self.read_token();
                    Err(self.fault(FaultKind::ClosingBrace))
                },
                _ => {
                    self.read_token();
                    Ok(false)
                },
            }
        } else if self.is_delimiter(DelimitersGroup::RightCurlyBracket) {
            Ok(true)
        } else {
            Err(self.fault(FaultKind::Semicolon))
        }
    }

    /// Reads the entries of the program body, the closing `}` and the end of
    /// input.
    fn get_body(&mut self) -> (r: SyntaxResult<Vec<MainOperation>>)
        requires
            old(self).wf(),
        ensures
            final(self).wf(),
            final(self).stream() == old(self).stream(),
            match parse_body(old(self).groups(), old(self).position as int, Seq::empty()) {
                Parsed::Done(v, q) => r is Ok && program_view(r->Ok_0@) == v
                    && final(self).position == q,
                Parsed::Failed(f) => r is Err && r->Err_0@ == fault_error(old(self).stream(), f)
                    && final(self).position == f.at,
            },
    {
        let ghost s = self.groups();
        let ghost start = self.position as int;
        let mut main: Vec<MainOperation> = Vec::new();
        let mut closing = false;
        assert(program_view(main@) =~= Seq::empty());
        while !closing
            invariant
                self.wf(),
                self.stream() == old(self).stream(),
                s == self.groups(),
                start == old(self).position,
                self.position <= self.stream().len(),
                !closing ==> parse_body(s, start, Seq::empty()) == parse_body(
                    s,
                    self.position as int,
                    program_view(main@),
                ),
                closing ==> parse_body(s, start, Seq::empty()) == parse_end(
                    s,
                    self.position as int,
                    program_view(main@),
                ) && self.position < self.stream().len(),
            decreases self.stream().len() - self.position + (if closing { 0int } else { 1int }),
        {
            let ghost before = program_view(main@);
            match self.get_main() {
                Ok(m) => {
                    main.push(m);
                    assert(program_view(main@) =~= before.push(m@));
                },
                Err(e) => {
                    return Err(e);
                },
            }
            match self.get_separator() {
                Ok(c) => {
                    closing = c;
                },
                Err(e) => {
                    return Err(e);
                },
            }
        }
        self.read_token();
        match self.current_token.token {
            TokenGroup::Eof => Ok(main),
            _ => Err(self.fault(FaultKind::ProgramEnd)),
        }
    }

    /// Reads a program at the start of the stream.
    fn get_program(&mut self) -> (r: SyntaxResult<Vec<MainOperation>>)
        requires
            old(self).wf(),
            old(self).position == 0,
        ensures
            final(self).wf(),
            final(self).stream() == old(self).stream(),
            match parse_program(old(self).groups()) {
                Parsed::Done(v, q) => r is Ok && program_view(r->Ok_0@) == v
                    && final(self).position == q,
                Parsed::Failed(f) => r is Err && r->Err_0@ == fault_error(old(self).stream(), f)
                    && final(self).position == f.at,
            },
    {
        if !self.is_delimiter(DelimitersGroup::LeftCurlyBracket) {
            return Err(self.fault(FaultKind::ProgramStart));
        }
        self.read_token();
        match self.current_token.token {
            TokenGroup::Eof => Err(self.fault(FaultKind::ClosingBrace)),
            TokenGroup::Delimiters(DelimitersGroup::RightCurlyBracket) => {
                match self.peek(1) {
                    TokenGroup::Eof => Err(self.fault(FaultKind::EmptyProgram)),
                    _ => {
                        self.read_token();
                        Err(self.fault(FaultKind::ProgramEnd))
                    },
                }
            },
            _ => self.get_body(),
        }
    }

    /// Reads a whole program from `tokens`.
    ///
    /// The result is what the grammar gives for the token groups: the
    /// entries of the program body, with the cursor left at the end of
    /// input, or the error of the first fault, with the cursor left at the
    /// fault.
    pub fn run_process(&mut self, tokens: Vec<Token>, vars: HashMap<u64, LexerDigitalData>) -> (r:
        SyntaxResult<Vec<MainOperation>>)
        ensures
            final(self).wf(),
            final(self).stream() == tokens@,
            final(self).literals() == vars@,
            match parse_program(kinds(tokens@)) {
                Parsed::Done(v, q) => r is Ok && program_view(r->Ok_0@) == v
                    && final(self).cursor() == q,
                Parsed::Failed(f) => r is Err && r->Err_0@ == fault_error(tokens@, f)
                    && final(self).cursor() == f.at,
            },
    {
        self.tokens = tokens;
        self.position = 0;
        self.current_token = self.token_here(0);
        let r = self.get_program();
        self.vars = vars;
        r
    }
}

} // verus!
