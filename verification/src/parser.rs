//! The driver: it owns the tables of identifiers and literals and runs the
//! stages in turn.

use std::collections::HashMap;
use vstd::prelude::*;
use vstd::slice::slice_subrange;
use crate::lexer::{
    column_at, lemma_progress, lexemes, lexer_error, line_at, next_lexeme, LexFault, Lexer,
    LexerError, Scan,
};
use crate::literal::{decode_literal, literal_value, Decoded};
use crate::program::MainOperation;
use crate::syntax::{fault_error, kinds, parse_program, program_view, Parsed, Syntax, SyntaxError};
use crate::text::push_str;
use crate::tokens::{Lexeme, Token, TokenGroup, TokenGroupLexer};
use crate::types::LexerDigitalData;

verus! {

/// The error of `read_char::read_next_char`: the end of the input, bytes
/// that are no character, or a failure of the reader.
#[verifier::external_type_specification]
#[verifier::external_body]
pub struct ExReadError(read_char::Error);

/// What `read_char::read_next_char` gives on a reader over these bytes: the
/// character, if it read one, and the number of bytes it left unread.
pub uninterp spec fn char_read(bytes: Seq<u8>) -> (Option<char>, nat);

/// Reads one UTF-8 character from the front of `bytes` with
/// `read_char::read_next_char`. The reader is the byte slice itself, so the
/// outcome depends on the bytes alone. The call takes bytes from the front
/// only, and it returns a character only after it has taken at least one.
/// The second part of the result is the number of bytes left unread.
#[verifier::external_body]
fn read_next(bytes: &[u8]) -> (r: (Result<char, read_char::Error>, usize))
    ensures
        match r.0 {
            Ok(c) => char_read(bytes@).0 == Some(c),
            Err(_) => char_read(bytes@).0 is None,
        },
        r.1 == char_read(bytes@).1,
        r.1 <= bytes@.len(),
        r.0 is Ok ==> r.1 < bytes@.len(),
{
    let mut reader: &[u8] = bytes;
    let c = read_char::read_next_char(&mut reader);
    (c, reader.len())
}

/// The characters that reading `bytes` one character at a time gives, up to
/// the end of the bytes or the first sequence that is no character.
pub open spec fn decoded(bytes: Seq<u8>) -> Seq<char>
    decreases bytes.len(),
{
    let (c, left) = char_read(bytes);
    match c {
        Some(ch) => if left < bytes.len() {
            seq![ch] + decoded(bytes.subrange(bytes.len() - left, bytes.len() as int))
        } else {
            Seq::empty()
        },
        None => Seq::empty(),
    }
}

/// Reads the characters of a source from its bytes.
pub fn read_source(bytes: &[u8]) -> (chars: Vec<char>)
    ensures
        chars@ == decoded(bytes@),
{
    let n = bytes.len();
    let mut chars: Vec<char> = Vec::new();
    let mut at: usize = 0;
    assert(bytes@.subrange(0, n as int) =~= bytes@);
    loop
        invariant
            at <= n,
            n == bytes@.len(),
            decoded(bytes@) == chars@ + decoded(bytes@.subrange(at as int, n as int)),
        decreases n - at,
    {
        let rest = slice_subrange(bytes, at, n);
        let (c, left) = read_next(rest);
        match c {
            Ok(ch) => {
                let ghost before = chars@;
                chars.push(ch);
                proof {
                    let tail = rest@.subrange(rest@.len() - left, rest@.len() as int);
                    assert(tail =~= bytes@.subrange(n - left, n as int));
                    assert(chars@ + decoded(tail) =~= before + (seq![ch] + decoded(tail)));
                }
                at = n - left;
            },
            Err(_) => {
                assert(chars@ + Seq::<char>::empty() =~= chars@);
                return chars;
            },
        }
    }
}

/// The texts of a list of strings.
pub open spec fn texts(names: Seq<String>) -> Seq<Seq<char>> {
    Seq::new(names.len(), |i: int| names[i]@)
}

/// The first index from `from` on at which `w` stands in `names`; the
/// length of `names` if it stands nowhere.
pub open spec fn find(names: Seq<Seq<char>>, w: Seq<char>, from: int) -> int
    decreases names.len() - from,
{
    if from >= names.len() {
        names.len() as int
    } else if names[from] == w {
        from
    } else {
        find(names, w, from + 1)
    }
}

/// A table after `w` was looked up in it: unchanged if `w` is in it, and
/// with `w` at its end if not.
pub open spec fn with_name(names: Seq<Seq<char>>, w: Seq<char>) -> Seq<Seq<char>> {
    if find(names, w, 0) == names.len() {
        names.push(w)
    } else {
        names
    }
}

/// What the driver has collected: the tokens, the identifiers and the
/// literals in the order of their numbers, and the illegal characters with
/// their lines and columns.
pub struct Tables {
    pub tokens: Seq<Token>,
    pub idents: Seq<Seq<char>>,
    pub literals: Seq<Seq<char>>,
    pub illegal: Seq<(char, nat, nat)>,
}

/// The tables after one more lexeme, read at the given line and column. An
/// identifier or literal gets the number of its text in the table, which is
/// a new number, the next free one, if the text is not there yet. An illegal
/// character is noted and gives no token.
pub open spec fn absorb(t: Tables, lexeme: Lexeme, line: nat, column: nat) -> Tables {
    let place = |token: TokenGroup| Token { token, line: line as usize, column: column as usize };
    match lexeme {
        Lexeme::Illegal(c, l, k) => Tables { illegal: t.illegal.push((c, l, k)), ..t },
        Lexeme::Keywords(k) => Tables { tokens: t.tokens.push(place(TokenGroup::Keywords(k))), ..t },
        Lexeme::Delimiters(d) => Tables {
            tokens: t.tokens.push(place(TokenGroup::Delimiters(d))),
            ..t
        },
        Lexeme::Identifier(w) => Tables {
            tokens: t.tokens.push(place(TokenGroup::Identifier(find(t.idents, w, 0) as u64))),
            idents: with_name(t.idents, w),
            ..t
        },
        Lexeme::Variables(w) => Tables {
            tokens: t.tokens.push(place(TokenGroup::Variables(find(t.literals, w, 0) as u64))),
            literals: with_name(t.literals, w),
            ..t
        },
        Lexeme::Eof => Tables { tokens: t.tokens.push(place(TokenGroup::Eof)), ..t },
    }
}

/// How reading a whole source ends.
pub enum Tokenized {
    Done(Tables),
    /// The fault at which the lexer stopped, with the index where the token
    /// started and the index the fault was found at, and what was collected
    /// before it.
    Failed { fault: LexFault, start: int, at: int, seen: Tables },
}

/// Reads the source `s` from index `i` to the end of input, into the tables
/// `t`.
pub open spec fn tokenize(s: Seq<char>, i: int, t: Tables) -> Tokenized
    decreases s.len() - i,
{
    match next_lexeme(s, i) {
        Scan::Fault { fault, start, at } => Tokenized::Failed { fault, start, at, seen: t },
        Scan::Token { lexeme, start, next } => {
            let t2 = absorb(t, lexeme, line_at(s, start), column_at(s, start));
            if lexeme is Eof || next <= i || next > s.len() {
                Tokenized::Done(t2)
            } else {
                tokenize(s, next, t2)
            }
        },
    }
}

/// Whether the lexer stands at the end of input when its cursor is at `i`:
/// only white space and comments are left.
pub open spec fn at_end(s: Seq<char>, i: int) -> bool {
    next_lexeme(s, i) matches Scan::Token { lexeme, .. } && lexeme is Eof
}

/// The number of the first literal from `from` on that has no value: it is
/// too large or malformed.
pub open spec fn first_unreadable(literals: Seq<Seq<char>>, from: int) -> Option<int>
    decreases literals.len() - from,
{
    if from >= literals.len() {
        None
    } else if literal_value(literals[from]) is TooLarge || literal_value(literals[from])
        is Malformed {
        Some(from)
    } else {
        first_unreadable(literals, from + 1)
    }
}

/// The first literal without a value, if there is one, is a literal of the
/// table at or after `from`, and every literal between has a value.
pub proof fn lemma_first_unreadable(literals: Seq<Seq<char>>, from: int)
    requires
        0 <= from,
    ensures
        match first_unreadable(literals, from) {
            Some(id) => from <= id < literals.len(),
            None => forall|k: int|
                from <= k < literals.len() ==> !(literal_value(#[trigger] literals[k])
                    is TooLarge) && !(literal_value(literals[k]) is Malformed),
        },
    decreases literals.len() - from,
{
    if from < literals.len() {
        lemma_first_unreadable(literals, from + 1);
    }
}

/// The values of the literals after the first `count` integer literals were
/// decoded: each integer literal below `count` has its value, and every
/// other number keeps what `before` has for it.
pub open spec fn values_after(
    literals: Seq<Seq<char>>,
    count: int,
    before: Map<u64, LexerDigitalData>,
) -> Map<u64, LexerDigitalData> {
    Map::new(
        |k: u64| before.contains_key(k) || (k < count && literal_value(literals[k as int]) is Integer),
        |k: u64|
            if k < count && literal_value(literals[k as int]) is Integer {
                LexerDigitalData::Integer(literal_value(literals[k as int])->Integer_0)
            } else {
                before[k]
            },
    )
}

/// Why the lexical stage failed.
#[derive(Debug, PartialEq)]
pub enum LexerFailure {
    /// The lexer stopped at a fault.
    Fault(LexerError),
    /// The literal with this number is an integer too large for 64 bits.
    Range(u64),
    /// Characters that start no token stand in the source: each with its
    /// line and column.
    IllegalCharacter(Vec<(char, usize, usize)>),
}

/// The numbers below `count` of the literals that are real numbers, in
/// ascending order.
pub open spec fn real_numbers(literals: Seq<Seq<char>>, count: int) -> Seq<u64>
    decreases count,
{
    if count <= 0 {
        Seq::empty()
    } else if literal_value(literals[count - 1]) is Real {
        real_numbers(literals, count - 1).push((count - 1) as u64)
    } else {
        real_numbers(literals, count - 1)
    }
}

/// The illegal characters as the tables hold them.
pub open spec fn noted(illegal: Seq<(char, usize, usize)>) -> Seq<(char, nat, nat)> {
    Seq::new(illegal.len(), |i: int| (illegal[i].0, illegal[i].1 as nat, illegal[i].2 as nat))
}

/// The driver of the compilation.
pub struct Parser {
    path: String,
    lexer: Lexer,
    syntax: Syntax,
    /// The tokens that the lexical stage read.
    pub tokens: Vec<Token>,
    /// The program that the syntax stage read.
    pub program: Vec<MainOperation>,
    /// The names of the identifiers; the number of an identifier is its
    /// index here.
    pub ident_map: Vec<String>,
    /// The texts of the numeric literals; the number of a literal is its
    /// index here.
    pub var_map: Vec<String>,
    /// The values of the numeric literals, by number.
    pub vars: HashMap<u64, LexerDigitalData>,
}

/// Looks a text up in a table and adds it if it is not there.
fn intern(names: &mut Vec<String>, w: String) -> (id: u64)
    ensures
        id == find(texts(old(names)@), w@, 0),
        texts(final(names)@) == with_name(texts(old(names)@), w@),
{
    let ghost before = texts(names@);
    let mut i: usize = 0;
    while i < names.len()
        invariant
            i <= names.len(),
            names@ == old(names)@,
            before == texts(names@),
            find(before, w@, 0) == find(before, w@, i as int),
        decreases names.len() - i,
    {
        if names[i] == w {
            return i as u64;
        }
        i += 1;
    }
    names.push(w);
    assert(texts(names@) =~= before.push(w@));
    i as u64
}

impl Parser {
    /// The characters of the source.
    pub closed spec fn source(&self) -> Seq<char> {
        self.lexer.text()
    }

    /// The name of the source file.
    pub closed spec fn file(&self) -> Seq<char> {
        self.lexer.file()
    }

    /// Index of the first character of the source that was not read yet.
    pub closed spec fn cursor(&self) -> int {
        self.lexer.cursor()
    }

    /// The tokens and the tables collected so far.
    pub closed spec fn tables(&self) -> Tables {
        Tables {
            tokens: self.tokens@,
            idents: texts(self.ident_map@),
            literals: texts(self.var_map@),
            illegal: Seq::empty(),
        }
    }

    /// The values of the literals, by number.
    pub closed spec fn values(&self) -> Map<u64, LexerDigitalData> {
        self.vars@
    }

    /// What the program that was read stands for.
    pub closed spec fn tree(&self) -> Seq<crate::program::MainOperationView> {
        program_view(self.program@)
    }

    /// The stages are in order, and only literals of the table have a
    /// value.
    pub closed spec fn wf(&self) -> bool {
        &&& self.lexer.wf()
        &&& self.syntax.wf()
        &&& self.path@ == self.lexer.file()
        &&& forall|k: u64| #[trigger] self.vars@.contains_key(k) ==> k < self.var_map@.len()
    }

    /// A driver for the source file `path`, whose contents are `bytes`. The
    /// characters of the source are those that reading the bytes gives.
    pub fn new(path: String, bytes: &[u8]) -> (r: Parser)
        ensures
            r.wf(),
            r.source() == decoded(bytes@),
            r.file() == path@,
            r.cursor() == 0,
            r.tables() == (Tables {
                tokens: Seq::empty(),
                idents: Seq::empty(),
                literals: Seq::empty(),
                illegal: Seq::empty(),
            }),
            r.values() == Map::<u64, LexerDigitalData>::empty(),
            r.tree() == Seq::<crate::program::MainOperationView>::empty(),
    {
        let lexer = Lexer::new(read_source(bytes), path.clone());
        let syntax = Syntax::new();
        let r = Parser {
            path,
            lexer,
            syntax,
            tokens: Vec::new(),
            program: Vec::new(),
            ident_map: Vec::new(),
            var_map: Vec::new(),
            vars: HashMap::new(),
        };
        assert(texts(r.ident_map@) =~= Seq::empty());
        assert(texts(r.var_map@) =~= Seq::empty());
        assert(program_view(r.program@) =~= Seq::empty());
        r
    }

    /// The name of the source file.
    pub fn source_path(&self) -> (r: &String)
        requires
            self.wf(),
        ensures
            r@ == self.file(),
    {
        &self.path
    }

    /// The tokens that the lexical stage read.
    pub fn token_stream(&self) -> (r: &Vec<Token>)
        ensures
            r@ == self.tables().tokens,
    {
        &self.tokens
    }

    /// The names of the identifiers, in the order of their numbers.
    pub fn identifier_names(&self) -> (r: &Vec<String>)
        ensures
            texts(r@) == self.tables().idents,
    {
        &self.ident_map
    }

    /// The texts of the literals, in the order of their numbers.
    pub fn literal_texts(&self) -> (r: &Vec<String>)
        ensures
            texts(r@) == self.tables().literals,
    {
        &self.var_map
    }

    /// The values of the literals, by number.
    pub fn literal_values(&self) -> (r: &HashMap<u64, LexerDigitalData>)
        ensures
            r@ == self.values(),
    {
        &self.vars
    }

    /// The program that the syntax stage read.
    pub fn program_tree(&self) -> (r: &Vec<MainOperation>)
        ensures
            program_view(r@) == self.tree(),
    {
        &self.program
    }

    /// The characters of a literal of the table.
    fn literal_chars(&self, id: usize) -> (r: Vec<char>)
        requires
            id < self.var_map@.len(),
        ensures
            r@ == texts(self.var_map@)[id as int],
    {
        let mut chars: Vec<char> = Vec::new();
        push_str(&mut chars, self.var_map[id].as_str());
        assert(chars@ =~= self.var_map@[id as int]@);
        chars
    }

    /// Reads the tokens of the source from the cursor to the end of input.
    fn read_tokens(&mut self) -> (r: Result<Vec<(char, usize, usize)>, LexerError>)
        requires
            old(self).wf(),
        ensures
            final(self).wf(),
            final(self).source() == old(self).source(),
            final(self).file() == old(self).file(),
            final(self).tree() == old(self).tree(),
            final(self).values() == old(self).values(),
            old(self).tables().literals.len() <= final(self).tables().literals.len(),
            match tokenize(old(self).source(), old(self).cursor(), old(self).tables()) {
                Tokenized::Failed { fault, start, at, seen } => r is Err && r->Err_0@
                    == lexer_error(old(self).file(), old(self).source(), fault, start, at)
                    && final(self).tables() == (Tables { illegal: Seq::empty(), ..seen })
                    && final(self).cursor() == at,
                Tokenized::Done(t) => r is Ok && final(self).tables() == (Tables {
                    illegal: Seq::empty(),
                    ..t
                }) && noted(r->Ok_0@) == t.illegal && at_end(
                    old(self).source(),
                    final(self).cursor(),
                ),
            },
    {
        let ghost s = self.source();
        let ghost goal = tokenize(self.source(), self.cursor(), self.tables());
        let mut illegal: Vec<(char, usize, usize)> = Vec::new();
        let mut done = false;
        assert(noted(illegal@) =~= Seq::empty());
        while !done
            invariant
                self.wf(),
                self.source() == s,
                s == old(self).source(),
                self.file() == old(self).file(),
                self.tree() == old(self).tree(),
                self.values() == old(self).values(),
                old(self).tables().literals.len() <= self.tables().literals.len(),
                goal == tokenize(old(self).source(), old(self).cursor(), old(self).tables()),
                !done ==> goal == tokenize(
                    s,
                    self.cursor(),
                    Tables { illegal: noted(illegal@), ..self.tables() },
                ),
                done ==> goal == Tokenized::Done(
                    Tables { illegal: noted(illegal@), ..self.tables() },
                ) && at_end(s, self.cursor()),
            decreases s.len() - self.cursor() + (if done { 0int } else { 1int }),
        {
            proof {
                self.lexer.lemma_cursor();
                lemma_progress(s, self.cursor());
            }
            let ghost before = noted(illegal@);
            match self.lexer.next_token() {
                Ok((token, line, column)) => {
                    proof {
                        self.lexer.lemma_cursor();
                    }
                    match token {
                        TokenGroupLexer::Illegal(i) => {
                            illegal.push(i);
                            assert(noted(illegal@) =~= before.push((i.0, i.1 as nat, i.2 as nat)));
                        },
                        TokenGroupLexer::Keywords(v) => {
                            self.tokens.push(Token { token: TokenGroup::Keywords(v), line, column });
                        },
                        TokenGroupLexer::Delimiters(v) => {
                            self.tokens.push(
                                Token { token: TokenGroup::Delimiters(v), line, column },
                            );
                        },
                        TokenGroupLexer::Identifier(v) => {
                            let id = intern(&mut self.ident_map, v);
                            self.tokens.push(Token { token: TokenGroup::Identifier(id), line, column });
                        },
                        TokenGroupLexer::Variables(v) => {
                            let ghost lits = texts(self.var_map@);
                            let id = intern(&mut self.var_map, v);
                            assert(lits.len() <= texts(self.var_map@).len());
                            self.tokens.push(Token { token: TokenGroup::Variables(id), line, column });
                        },
                        TokenGroupLexer::Eof => {
                            self.tokens.push(Token { token: TokenGroup::Eof, line, column });
                            done = true;
                        },
                    }
                },
                Err(e) => {
                    return Err(e);
                },
            }
        }
        Ok(illegal)
    }

    /// The number of the first literal that has no value, if there is one.
    fn check_literals(&self) -> (r: Option<u64>)
        ensures
            match first_unreadable(self.tables().literals, 0) {
                Some(id) => r.is_some() && r.unwrap() as int == id,
                None => r.is_none(),
            },
    {
        let ghost lits = texts(self.var_map@);
        let mut id: usize = 0;
        proof {
            lemma_first_unreadable(lits, 0);
        }
        while id < self.var_map.len()
            invariant
                id <= self.var_map@.len(),
                lits == texts(self.var_map@),
                first_unreadable(lits, 0) == first_unreadable(lits, id as int),
            decreases self.var_map@.len() - id,
        {
            let chars = self.literal_chars(id);
            match decode_literal(&chars) {
                Decoded::TooLarge => {
                    return Some(id as u64);
                },
                Decoded::Malformed => {
                    return Some(id as u64);
                },
                _ => {},
            }
            id += 1;
        }
        None
    }

    /// Gives every integer literal of the table its value.
    fn decode_literals(&mut self)
        requires
            old(self).wf(),
        ensures
            final(self).wf(),
            final(self).source() == old(self).source(),
            final(self).file() == old(self).file(),
            final(self).cursor() == old(self).cursor(),
            final(self).tree() == old(self).tree(),
            final(self).tables() == old(self).tables(),
            final(self).values() == values_after(
                old(self).tables().literals,
                old(self).tables().literals.len() as int,
                old(self).values(),
            ),
    {
        let ghost lits = texts(self.var_map@);
        let ghost before = self.vars@;
        let mut id: usize = 0;
        assert(self.vars@ =~= values_after(lits, 0, before));
        while id < self.var_map.len()
            invariant
                id <= self.var_map@.len(),
                self.wf(),
                self.source() == old(self).source(),
                self.file() == old(self).file(),
                self.cursor() == old(self).cursor(),
                self.tree() == old(self).tree(),
                self.tables() == old(self).tables(),
                lits == texts(self.var_map@),
                before == old(self).values(),
                self.vars@ == values_after(lits, id as int, before),
            decreases self.var_map@.len() - id,
        {
            let chars = self.literal_chars(id);
            match decode_literal(&chars) {
                Decoded::Integer(v) => {
                    self.vars.insert(id as u64, LexerDigitalData::Integer(v));
                },
                _ => {},
            }
            id += 1;
            assert(self.vars@ =~= values_after(lits, id as int, before));
        }
    }

    /// The lexical stage: reads the source from the cursor to the end of
    /// input, numbers the identifiers and literals, and gives the integer
    /// literals their values.
    ///
    /// It fails at the first fault of the lexer, with what was collected
    /// before the fault in the tables and the cursor at the fault. Else the
    /// cursor is left at the end of input, and the stage fails on the first
    /// literal that is too large, or, if there is none, if the source holds
    /// illegal characters, which are all reported.
    pub fn run_lexer(&mut self) -> (r: Result<(), LexerFailure>)
        requires
            old(self).wf(),
        ensures
            final(self).wf(),
            final(self).source() == old(self).source(),
            final(self).file() == old(self).file(),
            final(self).tree() == old(self).tree(),
            match tokenize(old(self).source(), old(self).cursor(), old(self).tables()) {
                Tokenized::Failed { fault, start, at, seen } => r matches Err(
                    LexerFailure::Fault(e),
                ) && e@ == lexer_error(old(self).file(), old(self).source(), fault, start, at)
                    && final(self).tables() == (Tables { illegal: Seq::empty(), ..seen })
                    && final(self).values() == old(self).values() && final(self).cursor() == at,
                Tokenized::Done(t) => {
                    &&& final(self).tables() == (Tables { illegal: Seq::empty(), ..t })
                    &&& at_end(old(self).source(), final(self).cursor())
                    &&& match first_unreadable(t.literals, 0) {
                        Some(id) => r matches Err(LexerFailure::Range(n)) && n == id
                            && final(self).values() == old(self).values(),
                        None => {
                            &&& final(self).values() == values_after(
                                t.literals,
                                t.literals.len() as int,
                                old(self).values(),
                            )
                            &&& if t.illegal.len() > 0 {
                                r matches Err(LexerFailure::IllegalCharacter(v)) && noted(v@) == t.illegal
                            } else {
                                r is Ok
                            }
                        },
                    }
                },
            },
    {
        let illegal = match self.read_tokens() {
            Ok(illegal) => illegal,
            Err(e) => {
                return Err(LexerFailure::Fault(e));
            },
        };
        match self.check_literals() {
            Some(id) => {
                return Err(LexerFailure::Range(id));
            },
            None => {},
        }
        self.decode_literals();
        if illegal.len() > 0 {
            Err(LexerFailure::IllegalCharacter(illegal))
        } else {
            Ok(())
        }
    }

    /// The numbers of the literals that are real numbers, in ascending
    /// order. Their texts stand in the table of literals.
    pub fn real_literals(&self) -> (r: Vec<u64>)
        ensures
            r@ == real_numbers(self.tables().literals, self.tables().literals.len() as int),
    {
        let ghost lits = texts(self.var_map@);
        let mut reals: Vec<u64> = Vec::new();
        let mut id: usize = 0;
        while id < self.var_map.len()
            invariant
                id <= self.var_map@.len(),
                lits == texts(self.var_map@),
                reals@ == real_numbers(lits, id as int),
            decreases self.var_map@.len() - id,
        {
            let chars = self.literal_chars(id);
            match decode_literal(&chars) {
                Decoded::Real => {
                    reals.push(id as u64);
                },
                _ => {},
            }
            id += 1;
        }
        reals
    }

    /// Gives the real literal with the number `id` its value: the 64 bits
    /// of its IEEE 754 double. Nothing changes, and the result is `false`,
    /// if no real literal has that number.
    pub fn set_real(&mut self, id: u64, bits: u64) -> (r: bool)
        requires
            old(self).wf(),
        ensures
            final(self).wf(),
            final(self).source() == old(self).source(),
            final(self).file() == old(self).file(),
            final(self).cursor() == old(self).cursor(),
            final(self).tree() == old(self).tree(),
            final(self).tables() == old(self).tables(),
            r == (id < old(self).tables().literals.len() && literal_value(
                old(self).tables().literals[id as int],
            ) is Real),
            final(self).values() == if r {
                old(self).values().insert(id, LexerDigitalData::Float(bits))
            } else {
                old(self).values()
            },
    {
        if id >= self.var_map.len() as u64 {
            return false;
        }
        let chars = self.literal_chars(id as usize);
        match decode_literal(&chars) {
            Decoded::Real => {
                self.vars.insert(id, LexerDigitalData::Float(bits));
                true
            },
            _ => false,
        }
    }

    /// Whether every literal of the table has a value.
    pub fn all_valued(&self) -> (r: bool)
        ensures
            r == forall|k: u64| k < self.tables().literals.len() ==> self.values().contains_key(k),
    {
        let mut id: usize = 0;
        while id < self.var_map.len()
            invariant
                id <= self.var_map@.len(),
                forall|k: u64| k < id ==> self.vars@.contains_key(k),
            decreases self.var_map@.len() - id,
        {
            let key = id as u64;
            if !self.vars.contains_key(&key) {
                assert(key < self.tables().literals.len() && !self.values().contains_key(key));
                return false;
            }
            id += 1;
        }
        true
    }

    /// A copy of the values of the literals.
    fn copy_values(&self) -> (r: HashMap<u64, LexerDigitalData>)
        requires
            self.wf(),
        ensures
            r@ == self.values(),
    {
        let mut copy: HashMap<u64, LexerDigitalData> = HashMap::new();
        let mut id: usize = 0;
        while id < self.var_map.len()
            invariant
                id <= self.var_map@.len(),
                forall|k: u64| #[trigger] copy@.contains_key(k) <==> k < id && self.vars@.contains_key(k),
                forall|k: u64| #[trigger] copy@.contains_key(k) ==> copy@[k] == self.vars@[k],
            decreases self.var_map@.len() - id,
        {
            let key = id as u64;
            match self.vars.get(&key) {
                Some(v) => {
                    copy.insert(key, *v);
                },
                None => {},
            }
            id += 1;
        }
        assert(copy@ =~= self.vars@);
        copy
    }

    /// A copy of the tokens.
    fn copy_tokens(&self) -> (r: Vec<Token>)
        ensures
            r@ == self.tokens@,
    {
        let mut copy: Vec<Token> = Vec::new();
        let mut i: usize = 0;
        while i < self.tokens.len()
            invariant
                i <= self.tokens@.len(),
                copy@ == self.tokens@.subrange(0, i as int),
            decreases self.tokens@.len() - i,
        {
            copy.push(self.tokens[i]);
            i += 1;
            assert(copy@ =~= self.tokens@.subrange(0, i as int));
        }
        assert(copy@ =~= self.tokens@);
        copy
    }

    /// The syntax stage: reads the program from the tokens. On a fault the
    /// program that was there stays.
    pub fn run_syntax(&mut self) -> (r: Result<(), SyntaxError>)
        requires
            old(self).wf(),
        ensures
            final(self).wf(),
            final(self).source() == old(self).source(),
            final(self).file() == old(self).file(),
            final(self).cursor() == old(self).cursor(),
            final(self).tables() == old(self).tables(),
            final(self).values() == old(self).values(),
            match parse_program(kinds(old(self).tables().tokens)) {
                Parsed::Done(v, _) => r is Ok && final(self).tree() == v,
                Parsed::Failed(f) => r is Err && r->Err_0@ == fault_error(
                    old(self).tables().tokens,
                    f,
                ) && final(self).tree() == old(self).tree(),
            },
    {
        let tokens = self.copy_tokens();
        let vars = self.copy_values();
        match self.syntax.run_process(tokens, vars) {
            Ok(data) => {
                self.program = data;
                Ok(())
            },
            Err(e) => Err(e),
        }
    }
}

} // verus!

verus! {

/// No text stands twice in the table.
pub open spec fn numbered(names: Seq<Seq<char>>) -> bool {
    forall|i: int, j: int| 0 <= i < j < names.len() ==> names[i] != names[j]
}

/// What a lookup finds: a number not above the size of the table, which is
/// the place of the text if it is below the size, and the size only if the
/// text stands nowhere in the table.
pub proof fn lemma_find(names: Seq<Seq<char>>, w: Seq<char>, from: int)
    requires
        0 <= from <= names.len(),
    ensures
        from <= find(names, w, from) <= names.len(),
        find(names, w, from) < names.len() ==> names[find(names, w, from)] == w,
        forall|k: int| from <= k < find(names, w, from) ==> names[k] != w,
    decreases names.len() - from,
{
    if from < names.len() && names[from] != w {
        lemma_find(names, w, from + 1);
    }
}

/// Numbers are given in the order of first appearance and without gaps: a
/// text that is in the table keeps its number, and a new text gets the next
/// free number, which is the size of the table. The table stays without
/// duplicates and grows by the new text only.
pub proof fn numbers_are_dense(names: Seq<Seq<char>>, w: Seq<char>)
    requires
        numbered(names),
    ensures
        numbered(with_name(names, w)),
        0 <= find(names, w, 0) <= names.len(),
        names.contains(w) ==> find(names, w, 0) < names.len() && with_name(names, w) == names,
        !names.contains(w) ==> find(names, w, 0) == names.len() && with_name(names, w)
            == names.push(w),
        with_name(names, w)[find(names, w, 0)] == w,
{
    lemma_find(names, w, 0);
    let id = find(names, w, 0);
    if names.contains(w) {
        let k = choose|k: int| 0 <= k < names.len() && names[k] == w;
        assert(id <= k);
    } else {
        if id < names.len() {
            assert(names[id] == w);
            assert(names.contains(w));
        }
        let grown = names.push(w);
        assert forall|i: int, j: int| 0 <= i < j < grown.len() implies grown[i] != grown[j] by {
            if j == names.len() {
                assert(grown[i] == names[i]);
                if names[i] == w {
                    assert(names.contains(w));
                }
            }
        }
    }
}

/// The same text always gets the same number, and different texts get
/// different numbers: when `v` and then `w` are looked up, their numbers
/// are equal exactly if the texts are equal, and `v` still has its number
/// afterwards.
pub proof fn same_text_same_number(names: Seq<Seq<char>>, v: Seq<char>, w: Seq<char>)
    requires
        numbered(names),
    ensures
        ({
            let first = with_name(names, v);
            let second = with_name(first, w);
            &&& (find(names, v, 0) == find(first, w, 0) <==> v == w)
            &&& find(second, v, 0) == find(names, v, 0)
            &&& find(first, v, 0) == find(names, v, 0)
        }),
{
    let first = with_name(names, v);
    let second = with_name(first, w);
    numbers_are_dense(names, v);
    numbers_are_dense(first, w);
    lemma_find(names, v, 0);
    lemma_find(first, v, 0);
    lemma_find(first, w, 0);
    lemma_find(second, v, 0);
    let id = find(names, v, 0);
    assert(first[id] == v);
    assert(second[id] == v) by {
        if second != first {
            assert(second == first.push(w));
        }
    }
    if find(first, v, 0) != id {
        assert(first[find(first, v, 0)] == v);
    }
    if find(second, v, 0) != id {
        assert(second[find(second, v, 0)] == v);
    }
    if find(first, w, 0) == id {
        assert(first[id] == w);
    }
}

/// Whether a token of the group `g` stands before index `i`.
pub open spec fn appears_before(tokens: Seq<Token>, g: TokenGroup, i: int) -> bool {
    exists|j: int| 0 <= j < i && j < tokens.len() && (#[trigger] tokens[j]).token == g
}

/// Whether the tokens number identifiers and literals without gaps: the
/// tables hold no text twice, every number is below the size of its table
/// and appears among the tokens, and a number other than zero appears only
/// after the number before it has appeared.
pub open spec fn dense(t: Tables) -> bool {
    &&& numbered(t.idents)
    &&& numbered(t.literals)
    &&& t.idents.len() <= u64::MAX
    &&& t.literals.len() <= u64::MAX
    &&& forall|i: int|
        0 <= i < t.tokens.len() ==> match (#[trigger] t.tokens[i]).token {
            TokenGroup::Identifier(id) => id < t.idents.len() && (id == 0 || appears_before(
                t.tokens,
                TokenGroup::Identifier((id - 1) as u64),
                i,
            )),
            TokenGroup::Variables(id) => id < t.literals.len() && (id == 0 || appears_before(
                t.tokens,
                TokenGroup::Variables((id - 1) as u64),
                i,
            )),
            _ => true,
        }
    &&& forall|k: u64|
        k < t.idents.len() ==> #[trigger] appears_before(
            t.tokens,
            TokenGroup::Identifier(k),
            t.tokens.len() as int,
        )
    &&& forall|k: u64|
        k < t.literals.len() ==> #[trigger] appears_before(
            t.tokens,
            TokenGroup::Variables(k),
            t.tokens.len() as int,
        )
}

/// A token that stands before an index still does after another token was
/// added at the end.
proof fn lemma_still_appears(tokens: Seq<Token>, x: Token, g: TokenGroup, i: int)
    requires
        appears_before(tokens, g, i),
    ensures
        appears_before(tokens.push(x), g, i),
        appears_before(tokens.push(x), g, (tokens.len() + 1) as int),
{
    let j = choose|j: int| 0 <= j < i && j < tokens.len() && (#[trigger] tokens[j]).token == g;
    assert(tokens.push(x)[j] == tokens[j]);
}

/// The tokens before the last one keep what holds of them when a token is
/// added.
proof fn lemma_push_dense(t: Tables, t2: Tables, x: Token)
    requires
        dense(t),
        t2.tokens == t.tokens.push(x),
        t.idents.len() <= t2.idents.len() <= u64::MAX,
        t.literals.len() <= t2.literals.len() <= u64::MAX,
    ensures
        forall|i: int|
            0 <= i < t.tokens.len() ==> match (#[trigger] t2.tokens[i]).token {
                TokenGroup::Identifier(id) => id < t2.idents.len() && (id == 0 || appears_before(
                    t2.tokens,
                    TokenGroup::Identifier((id - 1) as u64),
                    i,
                )),
                TokenGroup::Variables(id) => id < t2.literals.len() && (id == 0
                    || appears_before(t2.tokens, TokenGroup::Variables((id - 1) as u64), i)),
                _ => true,
            },
        forall|k: u64|
            k < t.idents.len() ==> #[trigger] appears_before(
                t2.tokens,
                TokenGroup::Identifier(k),
                t2.tokens.len() as int,
            ),
        forall|k: u64|
            k < t.literals.len() ==> #[trigger] appears_before(
                t2.tokens,
                TokenGroup::Variables(k),
                t2.tokens.len() as int,
            ),
{
    assert forall|i: int| 0 <= i < t.tokens.len() implies match (#[trigger] t2.tokens[i]).token {
        TokenGroup::Identifier(id) => id < t2.idents.len() && (id == 0 || appears_before(
            t2.tokens,
            TokenGroup::Identifier((id - 1) as u64),
            i,
        )),
        TokenGroup::Variables(id) => id < t2.literals.len() && (id == 0 || appears_before(
            t2.tokens,
            TokenGroup::Variables((id - 1) as u64),
            i,
        )),
        _ => true,
    } by {
        assert(t2.tokens[i] == t.tokens[i]);
        match t.tokens[i].token {
            TokenGroup::Identifier(id) => {
                if id != 0 {
                    lemma_still_appears(t.tokens, x, TokenGroup::Identifier((id - 1) as u64), i);
                }
            },
            TokenGroup::Variables(id) => {
                if id != 0 {
                    lemma_still_appears(t.tokens, x, TokenGroup::Variables((id - 1) as u64), i);
                }
            },
            _ => {},
        }
    }
    assert forall|k: u64| k < t.idents.len() implies #[trigger] appears_before(
        t2.tokens,
        TokenGroup::Identifier(k),
        t2.tokens.len() as int,
    ) by {
        assert(appears_before(t.tokens, TokenGroup::Identifier(k), t.tokens.len() as int));
        lemma_still_appears(t.tokens, x, TokenGroup::Identifier(k), t.tokens.len() as int);
    }
    assert forall|k: u64| k < t.literals.len() implies #[trigger] appears_before(
        t2.tokens,
        TokenGroup::Variables(k),
        t2.tokens.len() as int,
    ) by {
        assert(appears_before(t.tokens, TokenGroup::Variables(k), t.tokens.len() as int));
        lemma_still_appears(t.tokens, x, TokenGroup::Variables(k), t.tokens.len() as int);
    }
}

/// One more lexeme keeps the numbering without gaps.
pub proof fn lemma_absorb_dense(t: Tables, lexeme: Lexeme, line: nat, column: nat)
    requires
        dense(t),
        t.idents.len() < u64::MAX,
        t.literals.len() < u64::MAX,
    ensures
        dense(absorb(t, lexeme, line, column)),
{
    let t2 = absorb(t, lexeme, line, column);
    let n = t.tokens.len() as int;
    match lexeme {
        Lexeme::Illegal(_, _, _) => {},
        Lexeme::Identifier(w) => {
            numbers_are_dense(t.idents, w);
            let id = find(t.idents, w, 0);
            let x = t2.tokens[n];
            lemma_push_dense(t, t2, x);
            assert(x.token == TokenGroup::Identifier(id as u64));
            if id != 0 {
                assert(appears_before(t.tokens, TokenGroup::Identifier((id - 1) as u64), n));
                lemma_still_appears(t.tokens, x, TokenGroup::Identifier((id - 1) as u64), n);
            }
            assert forall|k: u64| k < t2.idents.len() implies #[trigger] appears_before(
                t2.tokens,
                TokenGroup::Identifier(k),
                t2.tokens.len() as int,
            ) by {
                if k >= t.idents.len() {
                    assert(t2.tokens[n].token == TokenGroup::Identifier(k));
                }
            }
        },
        Lexeme::Variables(w) => {
            numbers_are_dense(t.literals, w);
            let id = find(t.literals, w, 0);
            let x = t2.tokens[n];
            lemma_push_dense(t, t2, x);
            assert(x.token == TokenGroup::Variables(id as u64));
            if id != 0 {
                assert(appears_before(t.tokens, TokenGroup::Variables((id - 1) as u64), n));
                lemma_still_appears(t.tokens, x, TokenGroup::Variables((id - 1) as u64), n);
            }
            assert forall|k: u64| k < t2.literals.len() implies #[trigger] appears_before(
                t2.tokens,
                TokenGroup::Variables(k),
                t2.tokens.len() as int,
            ) by {
                if k >= t.literals.len() {
                    assert(t2.tokens[n].token == TokenGroup::Variables(k));
                }
            }
        },
        _ => {
            let x = t2.tokens[n];
            lemma_push_dense(t, t2, x);
        },
    }
}

/// Identifiers and literals are numbered in the order of their first
/// appearance and without gaps: after a source was read into empty tables,
/// the tables hold no text twice, every number of a table appears among the
/// tokens, and each number other than zero appears first after the number
/// before it.
pub proof fn numbering_has_no_gaps(s: Seq<char>, i: int, t: Tables)
    requires
        0 <= i <= s.len(),
        dense(t),
        t.idents.len() + s.len() - i < u64::MAX,
        t.literals.len() + s.len() - i < u64::MAX,
    ensures
        tokenize(s, i, t) matches Tokenized::Done(end) ==> dense(end),
    decreases s.len() - i,
{
    lemma_progress(s, i);
    match next_lexeme(s, i) {
        Scan::Fault { .. } => {},
        Scan::Token { lexeme, start, next } => {
            let t2 = absorb(t, lexeme, line_at(s, start), column_at(s, start));
            lemma_absorb_dense(t, lexeme, line_at(s, start), column_at(s, start));
            if !(lexeme is Eof || next <= i || next > s.len()) {
                match lexeme {
                    Lexeme::Identifier(w) => {
                        numbers_are_dense(t.idents, w);
                    },
                    Lexeme::Variables(w) => {
                        numbers_are_dense(t.literals, w);
                    },
                    _ => {},
                }
                numbering_has_no_gaps(s, next, t2);
            }
        },
    }
}

} // verus!

verus! {

/// The driver reads the lexemes of the lexer: reading a source ends without
/// a fault exactly if the lexer gives its lexemes, and then every lexeme and
/// the end of input have given one token or one illegal character.
pub proof fn tokens_are_the_lexemes(s: Seq<char>, i: int, t: Tables)
    requires
        0 <= i <= s.len(),
    ensures
        match tokenize(s, i, t) {
            Tokenized::Done(end) => lexemes(s, i) matches Some(ls) && end.tokens.len()
                + end.illegal.len() == t.tokens.len() + t.illegal.len() + ls.len() + 1,
            Tokenized::Failed { .. } => lexemes(s, i) is None,
        },
    decreases s.len() - i,
{
    lemma_progress(s, i);
    match next_lexeme(s, i) {
        Scan::Fault { .. } => {},
        Scan::Token { lexeme, start, next } => {
            let t2 = absorb(t, lexeme, line_at(s, start), column_at(s, start));
            if !(lexeme is Eof) {
                tokens_are_the_lexemes(s, next, t2);
            }
        },
    }
}

} // verus!
