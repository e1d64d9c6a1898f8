//! The language that the syntax analyser accepts, from the side of the
//! program tree: how a tree is written down as tokens, and that reading
//! what was written gives the tree back.

use vstd::prelude::*;
use crate::program::{
    ExpressionView, MainOperationView, MultiplierView, OperandView, OperatorView, TermView,
};
use crate::syntax::{
    addition_of, advanced, at, block_tail, expression_tail, group_follows, groups_tail, input_tail,
    multiplication_of, operand_tail, output_tail, parse_assignment, parse_body, parse_expression,
    parse_for, parse_group, parse_header, parse_if, parse_main, parse_multiplier, parse_operand,
    parse_operator, parse_program, parse_separator, parse_term, parse_while, relation_of,
    term_tail, type_of, Parsed,
};
use crate::tokens::{DelimitersGroup, KeywordsGroup, TokenGroup};
use crate::types::{
    AdditionOperations, MultiplicationOperations, ProgramTypes, RelationOperations,
};

verus! {

/// The token of a comparison operator.
pub open spec fn relation_token(op: RelationOperations) -> TokenGroup {
    TokenGroup::Delimiters(
        match op {
            RelationOperations::NotEqual => DelimitersGroup::NotEqual,
            RelationOperations::Equal => DelimitersGroup::Identical,
            RelationOperations::Less => DelimitersGroup::Less,
            RelationOperations::Greater => DelimitersGroup::Greater,
            RelationOperations::LessEqual => DelimitersGroup::LessEqual,
            RelationOperations::GreaterEqual => DelimitersGroup::GreaterEqual,
        },
    )
}

/// The token of an additive operator.
pub open spec fn addition_token(op: AdditionOperations) -> TokenGroup {
    TokenGroup::Delimiters(
        match op {
            AdditionOperations::Addition => DelimitersGroup::Plus,
            AdditionOperations::Subtraction => DelimitersGroup::Minus,
            AdditionOperations::Or => DelimitersGroup::Or,
        },
    )
}

/// The token of a multiplicative operator.
pub open spec fn multiplication_token(op: MultiplicationOperations) -> TokenGroup {
    TokenGroup::Delimiters(
        match op {
            MultiplicationOperations::Multiplication => DelimitersGroup::Asterisk,
            MultiplicationOperations::Division => DelimitersGroup::Slash,
            MultiplicationOperations::And => DelimitersGroup::And,
        },
    )
}

/// The keyword of a type.
pub open spec fn type_token(t: ProgramTypes) -> TokenGroup {
    TokenGroup::Keywords(
        match t {
            ProgramTypes::Integer(_) => KeywordsGroup::Integer,
            ProgramTypes::Float(_) => KeywordsGroup::Real,
            ProgramTypes::Boolean(_) => KeywordsGroup::Boolean,
        },
    )
}

/// One delimiter, as a run of tokens.
pub open spec fn delimiter(d: DelimitersGroup) -> Seq<TokenGroup> {
    seq![TokenGroup::Delimiters(d)]
}

/// One keyword, as a run of tokens.
pub open spec fn keyword(k: KeywordsGroup) -> Seq<TokenGroup> {
    seq![TokenGroup::Keywords(k)]
}

/// A multiplier written as tokens.
pub open spec fn spell_multiplier(m: MultiplierView) -> Seq<TokenGroup>
    decreases m, 0nat,
{
    match m {
        MultiplierView::Identifier(id) => seq![TokenGroup::Identifier(id)],
        MultiplierView::Variable(id) => seq![TokenGroup::Variables(id)],
        MultiplierView::Boolean(b) => keyword(
            if b {
                KeywordsGroup::True
            } else {
                KeywordsGroup::False
            },
        ),
        MultiplierView::Not(inner) => delimiter(DelimitersGroup::Not) + spell_multiplier(*inner),
        MultiplierView::Expression(e) => delimiter(DelimitersGroup::LeftParenthesis)
            + spell_expression(e) + delimiter(DelimitersGroup::RightParenthesis),
    }
}

/// The multipliers of a term from the `i`-th on, each after its operator.
pub open spec fn spell_term_rest(t: TermView, i: int) -> Seq<TokenGroup>
    decreases t, t.multipliers.len() - i,
{
    if i < 1 || i >= t.multipliers.len() || i > t.operations.len() {
        Seq::empty()
    } else {
        seq![multiplication_token(t.operations[i - 1])] + spell_multiplier(t.multipliers[i])
            + spell_term_rest(t, i + 1)
    }
}

/// A term written as tokens.
pub open spec fn spell_term(t: TermView) -> Seq<TokenGroup>
    decreases t, t.multipliers.len() + 1,
{
    if t.multipliers.len() == 0 {
        Seq::empty()
    } else {
        spell_multiplier(t.multipliers[0]) + spell_term_rest(t, 1)
    }
}

/// The terms of an operand from the `i`-th on, each after its operator.
pub open spec fn spell_operand_rest(o: OperandView, i: int) -> Seq<TokenGroup>
    decreases o, o.terms.len() - i,
{
    if i < 1 || i >= o.terms.len() || i > o.operations.len() {
        Seq::empty()
    } else {
        seq![addition_token(o.operations[i - 1])] + spell_term(o.terms[i]) + spell_operand_rest(
            o,
            i + 1,
        )
    }
}

/// An operand written as tokens.
pub open spec fn spell_operand(o: OperandView) -> Seq<TokenGroup>
    decreases o, o.terms.len() + 1,
{
    if o.terms.len() == 0 {
        Seq::empty()
    } else {
        spell_term(o.terms[0]) + spell_operand_rest(o, 1)
    }
}

/// The operands of an expression from the `i`-th on, each after its
/// operator.
pub open spec fn spell_expression_rest(e: ExpressionView, i: int) -> Seq<TokenGroup>
    decreases e, e.operands.len() - i,
{
    if i < 1 || i >= e.operands.len() || i > e.operations.len() {
        Seq::empty()
    } else {
        seq![relation_token(e.operations[i - 1])] + spell_operand(e.operands[i])
            + spell_expression_rest(e, i + 1)
    }
}

/// An expression written as tokens.
pub open spec fn spell_expression(e: ExpressionView) -> Seq<TokenGroup>
    decreases e, e.operands.len() + 1,
{
    if e.operands.len() == 0 {
        Seq::empty()
    } else {
        spell_operand(e.operands[0]) + spell_expression_rest(e, 1)
    }
}

/// Whether a multiplier is one that the grammar derives.
pub open spec fn wf_multiplier(m: MultiplierView) -> bool
    decreases m, 0nat,
{
    match m {
        MultiplierView::Not(inner) => wf_multiplier(*inner),
        MultiplierView::Expression(e) => wf_expression(e),
        _ => true,
    }
}

/// Whether a term is one that the grammar derives: at least one
/// multiplier, and one operator between each two.
pub open spec fn wf_term(t: TermView) -> bool
    decreases t, 1nat,
{
    &&& t.multipliers.len() >= 1
    &&& t.operations.len() + 1 == t.multipliers.len()
    &&& forall|i: int| 0 <= i < t.multipliers.len() ==> wf_multiplier(#[trigger] t.multipliers[i])
}

/// Whether an operand is one that the grammar derives.
pub open spec fn wf_operand(o: OperandView) -> bool
    decreases o, 1nat,
{
    &&& o.terms.len() >= 1
    &&& o.operations.len() + 1 == o.terms.len()
    &&& forall|i: int| 0 <= i < o.terms.len() ==> wf_term(#[trigger] o.terms[i])
}

/// Whether an expression is one that the grammar derives.
pub open spec fn wf_expression(e: ExpressionView) -> bool
    decreases e, 1nat,
{
    &&& e.operands.len() >= 1
    &&& e.operations.len() + 1 == e.operands.len()
    &&& forall|i: int| 0 <= i < e.operands.len() ==> wf_operand(#[trigger] e.operands[i])
}

/// Whether the tokens `w` stand in `s` from index `p` on.
#[verifier::opaque]
pub open spec fn holds(s: Seq<TokenGroup>, p: int, w: Seq<TokenGroup>) -> bool {
    &&& 0 <= p
    &&& p + w.len() <= s.len()
    &&& forall|k: int| 0 <= k < w.len() ==> s[p + k] == #[trigger] w[k]
}

/// Where two runs of tokens stand one after the other, each stands.
pub proof fn lemma_split(s: Seq<TokenGroup>, p: int, a: Seq<TokenGroup>, b: Seq<TokenGroup>)
    requires
        holds(s, p, a + b),
    ensures
        holds(s, p, a),
        holds(s, p + a.len(), b),
        0 <= p,
        p + a.len() + b.len() <= s.len(),
{
    reveal(holds);
    let w = a + b;
    assert forall|k: int| 0 <= k < a.len() implies s[p + k] == #[trigger] a[k] by {
        assert(w[k] == a[k]);
    }
    assert forall|k: int| 0 <= k < b.len() implies s[p + a.len() + k] == #[trigger] b[k] by {
        assert(w[a.len() + k] == b[k]);
    }
}

/// A token that ends an expression: no operator.
pub open spec fn closes(t: TokenGroup) -> bool {
    relation_of(t) is None && addition_of(t) is None && multiplication_of(t) is None
}

/// A token that an operand starts with.
pub open spec fn starts_operand(t: TokenGroup) -> bool {
    t is Identifier || t is Variables || t == TokenGroup::Keywords(KeywordsGroup::True) || t
        == TokenGroup::Keywords(KeywordsGroup::False) || t == TokenGroup::Delimiters(
        DelimitersGroup::Not,
    ) || t == TokenGroup::Delimiters(DelimitersGroup::LeftParenthesis)
}

/// What is written for a well-formed part of an expression starts with a
/// token that an operand starts with.
pub proof fn lemma_expression_start(e: ExpressionView)
    requires
        wf_expression(e),
    ensures
        spell_expression(e).len() >= 1,
        starts_operand(spell_expression(e)[0]),
{
    let o = e.operands[0];
    assert(wf_operand(o));
    let t = o.terms[0];
    assert(wf_term(t));
    let m = t.multipliers[0];
    assert(wf_multiplier(m));
    assert(spell_multiplier(m).len() >= 1 && starts_operand(spell_multiplier(m)[0])) by {
        match m {
            MultiplierView::Not(inner) => {},
            MultiplierView::Expression(inner) => {},
            _ => {},
        }
    }
    assert(spell_term(t)[0] == spell_multiplier(m)[0]);
    assert(spell_operand(o)[0] == spell_term(t)[0]);
    assert(spell_expression(e)[0] == spell_operand(o)[0]);
}

} // verus!

verus! {

/// The token of an operator stands for the operator, and for no operator of
/// another level.
pub proof fn lemma_operator_tokens(
    r: RelationOperations,
    a: AdditionOperations,
    m: MultiplicationOperations,
)
    ensures
        relation_of(relation_token(r)) == Some(r),
        addition_of(relation_token(r)) is None,
        multiplication_of(relation_token(r)) is None,
        addition_of(addition_token(a)) == Some(a),
        multiplication_of(addition_token(a)) is None,
        multiplication_of(multiplication_token(m)) == Some(m),
{
}

/// Reading a written multiplier gives the multiplier.
pub proof fn lemma_multiplier(m: MultiplierView, s: Seq<TokenGroup>, p: int)
    requires
        wf_multiplier(m),
        holds(s, p, spell_multiplier(m)),
    ensures
        spell_multiplier(m).len() >= 1,
        parse_multiplier(s, p) == Parsed::Done(m, p + spell_multiplier(m).len()),
    decreases m, 0nat,
{
    let w = spell_multiplier(m);
    match m {
        MultiplierView::Not(inner) => {
            lemma_split(s, p, delimiter(DelimitersGroup::Not), spell_multiplier(*inner));
            lemma_one(s, p, TokenGroup::Delimiters(DelimitersGroup::Not));
            lemma_multiplier(*inner, s, p + 1);
        },
        MultiplierView::Expression(e) => {
            let a = delimiter(DelimitersGroup::LeftParenthesis);
            let b = spell_expression(e);
            let c = delimiter(DelimitersGroup::RightParenthesis);
            lemma_split(s, p, a + b, c);
            lemma_split(s, p, a, b);
            lemma_one(s, p, a[0]);
            lemma_one(s, p + 1 + b.len(), c[0]);
            lemma_expression(e, s, p + 1);
        },
        _ => {
            assert(w =~= seq![w[0]]);
            lemma_one(s, p, w[0]);
        },
    }
}

/// Reading the written rest of a term, after its first `i` multipliers,
/// gives the term.
pub proof fn lemma_term_rest(t: TermView, i: int, s: Seq<TokenGroup>, q: int)
    requires
        wf_term(t),
        1 <= i <= t.multipliers.len(),
        holds(s, q, spell_term_rest(t, i)),
        multiplication_of(at(s, q + spell_term_rest(t, i).len())) is None,
    ensures
        term_tail(s, q, t.multipliers.take(i), t.operations.take(i - 1)) == Parsed::Done(
            t,
            q + spell_term_rest(t, i).len(),
        ),
    decreases t, t.multipliers.len() - i,
{
    if i == t.multipliers.len() {
        assert(t.multipliers.take(i) =~= t.multipliers);
        assert(t.operations.take(i - 1) =~= t.operations);
    } else {
        let op = t.operations[i - 1];
        let m = t.multipliers[i];
        let a = seq![multiplication_token(op)];
        let b = spell_multiplier(m);
        let c = spell_term_rest(t, i + 1);
        lemma_split(s, q, a + b, c);
        lemma_split(s, q, a, b);
        lemma_one(s, q, a[0]);
        lemma_operator_tokens(RelationOperations::Equal, AdditionOperations::Or, op);
        assert(wf_multiplier(m));
        lemma_multiplier(m, s, q + 1);
        lemma_term_rest(t, i + 1, s, q + 1 + b.len());
        assert(t.multipliers.take(i).push(m) =~= t.multipliers.take(i + 1));
        assert(t.operations.take(i - 1).push(op) =~= t.operations.take(i));
    }
}

/// Reading a written term gives the term.
pub proof fn lemma_term(t: TermView, s: Seq<TokenGroup>, p: int)
    requires
        wf_term(t),
        holds(s, p, spell_term(t)),
        multiplication_of(at(s, p + spell_term(t).len())) is None,
    ensures
        spell_term(t).len() >= 1,
        parse_term(s, p) == Parsed::Done(t, p + spell_term(t).len()),
    decreases t, t.multipliers.len() + 1,
{
    let m = t.multipliers[0];
    lemma_split(s, p, spell_multiplier(m), spell_term_rest(t, 1));
    assert(wf_multiplier(m));
    lemma_multiplier(m, s, p);
    lemma_term_rest(t, 1, s, p + spell_multiplier(m).len());
    assert(t.multipliers.take(1) =~= seq![m]);
    assert(t.operations.take(0) =~= Seq::empty());
}

/// Reading the written rest of an operand, after its first `i` terms, gives
/// the operand.
pub proof fn lemma_operand_rest(o: OperandView, i: int, s: Seq<TokenGroup>, q: int)
    requires
        wf_operand(o),
        1 <= i <= o.terms.len(),
        holds(s, q, spell_operand_rest(o, i)),
        addition_of(at(s, q + spell_operand_rest(o, i).len())) is None,
        multiplication_of(at(s, q + spell_operand_rest(o, i).len())) is None,
    ensures
        operand_tail(s, q, o.terms.take(i), o.operations.take(i - 1)) == Parsed::Done(
            o,
            q + spell_operand_rest(o, i).len(),
        ),
    decreases o, o.terms.len() - i,
{
    if i == o.terms.len() {
        assert(o.terms.take(i) =~= o.terms);
        assert(o.operations.take(i - 1) =~= o.operations);
    } else {
        let op = o.operations[i - 1];
        let t = o.terms[i];
        let a = seq![addition_token(op)];
        let b = spell_term(t);
        let c = spell_operand_rest(o, i + 1);
        lemma_split(s, q, a + b, c);
        lemma_split(s, q, a, b);
        lemma_one(s, q, a[0]);
        lemma_operator_tokens(RelationOperations::Equal, op, MultiplicationOperations::And);
        assert(wf_term(t));
        lemma_follow_operand_rest(o, i + 1, s, q + 1 + b.len());
        lemma_term(t, s, q + 1);
        lemma_operand_rest(o, i + 1, s, q + 1 + b.len());
        assert(o.terms.take(i).push(t) =~= o.terms.take(i + 1));
        assert(o.operations.take(i - 1).push(op) =~= o.operations.take(i));
    }
}

/// After a term of an operand stands an additive operator or what follows
/// the operand: no multiplicative operator.
pub proof fn lemma_follow_operand_rest(o: OperandView, i: int, s: Seq<TokenGroup>, q: int)
    requires
        wf_operand(o),
        1 <= i <= o.terms.len(),
        holds(s, q, spell_operand_rest(o, i)),
        multiplication_of(at(s, q + spell_operand_rest(o, i).len())) is None,
    ensures
        multiplication_of(at(s, q)) is None,
{
    if i < o.terms.len() {
        let w = spell_operand_rest(o, i);
        assert(w[0] == addition_token(o.operations[i - 1]));
        lemma_first(s, q, w);
        lemma_operator_tokens(
            RelationOperations::Equal,
            o.operations[i - 1],
            MultiplicationOperations::And,
        );
    }
}

/// Reading a written operand gives the operand.
pub proof fn lemma_operand(o: OperandView, s: Seq<TokenGroup>, p: int)
    requires
        wf_operand(o),
        holds(s, p, spell_operand(o)),
        addition_of(at(s, p + spell_operand(o).len())) is None,
        multiplication_of(at(s, p + spell_operand(o).len())) is None,
    ensures
        spell_operand(o).len() >= 1,
        parse_operand(s, p) == Parsed::Done(o, p + spell_operand(o).len()),
    decreases o, o.terms.len() + 1,
{
    let t = o.terms[0];
    lemma_split(s, p, spell_term(t), spell_operand_rest(o, 1));
    assert(wf_term(t));
    lemma_follow_operand_rest(o, 1, s, p + spell_term(t).len());
    lemma_term(t, s, p);
    lemma_operand_rest(o, 1, s, p + spell_term(t).len());
    assert(o.terms.take(1) =~= seq![t]);
    assert(o.operations.take(0) =~= Seq::empty());
}

/// After an operand of an expression stands a comparison operator or what
/// follows the expression: no additive or multiplicative operator.
pub proof fn lemma_follow_expression_rest(e: ExpressionView, i: int, s: Seq<TokenGroup>, q: int)
    requires
        wf_expression(e),
        1 <= i <= e.operands.len(),
        holds(s, q, spell_expression_rest(e, i)),
        closes(at(s, q + spell_expression_rest(e, i).len())),
    ensures
        addition_of(at(s, q)) is None,
        multiplication_of(at(s, q)) is None,
{
    if i < e.operands.len() {
        let w = spell_expression_rest(e, i);
        assert(w[0] == relation_token(e.operations[i - 1]));
        lemma_first(s, q, w);
        lemma_operator_tokens(
            e.operations[i - 1],
            AdditionOperations::Or,
            MultiplicationOperations::And,
        );
    }
}

/// Reading the written rest of an expression, after its first `i`
/// operands, gives the expression.
pub proof fn lemma_expression_rest(e: ExpressionView, i: int, s: Seq<TokenGroup>, q: int)
    requires
        wf_expression(e),
        1 <= i <= e.operands.len(),
        holds(s, q, spell_expression_rest(e, i)),
        closes(at(s, q + spell_expression_rest(e, i).len())),
    ensures
        expression_tail(s, q, e.operands.take(i), e.operations.take(i - 1)) == Parsed::Done(
            e,
            q + spell_expression_rest(e, i).len(),
        ),
    decreases e, e.operands.len() - i,
{
    if i == e.operands.len() {
        assert(e.operands.take(i) =~= e.operands);
        assert(e.operations.take(i - 1) =~= e.operations);
    } else {
        let op = e.operations[i - 1];
        let o = e.operands[i];
        let a = seq![relation_token(op)];
        let b = spell_operand(o);
        let c = spell_expression_rest(e, i + 1);
        lemma_split(s, q, a + b, c);
        lemma_split(s, q, a, b);
        lemma_one(s, q, a[0]);
        lemma_operator_tokens(op, AdditionOperations::Or, MultiplicationOperations::And);
        assert(wf_operand(o));
        lemma_follow_expression_rest(e, i + 1, s, q + 1 + b.len());
        lemma_operand(o, s, q + 1);
        lemma_expression_rest(e, i + 1, s, q + 1 + b.len());
        assert(e.operands.take(i).push(o) =~= e.operands.take(i + 1));
        assert(e.operations.take(i - 1).push(op) =~= e.operations.take(i));
    }
}

/// Reading a written expression gives the expression, where no operator
/// follows it.
pub proof fn lemma_expression(e: ExpressionView, s: Seq<TokenGroup>, p: int)
    requires
        wf_expression(e),
        holds(s, p, spell_expression(e)),
        closes(at(s, p + spell_expression(e).len())),
    ensures
        spell_expression(e).len() >= 1,
        parse_expression(s, p) == Parsed::Done(e, p + spell_expression(e).len()),
    decreases e, e.operands.len() + 1,
{
    let o = e.operands[0];
    lemma_split(s, p, spell_operand(o), spell_expression_rest(e, 1));
    assert(wf_operand(o));
    lemma_follow_expression_rest(e, 1, s, p + spell_operand(o).len());
    lemma_operand(o, s, p);
    lemma_expression_rest(e, 1, s, p + spell_operand(o).len());
    assert(e.operands.take(1) =~= seq![o]);
    assert(e.operations.take(0) =~= Seq::empty());
}

} // verus!

verus! {

/// The identifiers of an `input` from the `i`-th on, and the closing `)`.
pub open spec fn spell_ids(ids: Seq<u64>, i: int) -> Seq<TokenGroup>
    decreases ids.len() - i,
{
    if i < 0 || i >= ids.len() {
        delimiter(DelimitersGroup::RightParenthesis)
    } else {
        seq![TokenGroup::Identifier(ids[i])] + spell_ids(ids, i + 1)
    }
}

/// The expressions of an `output` from the `i`-th on, one after the other,
/// and the closing `)`.
pub open spec fn spell_list(es: Seq<ExpressionView>, i: int) -> Seq<TokenGroup>
    decreases es.len() - i,
{
    if i < 0 || i >= es.len() {
        delimiter(DelimitersGroup::RightParenthesis)
    } else {
        spell_expression(es[i]) + spell_list(es, i + 1)
    }
}

/// The statements of a block from the `i`-th on, each after a `;`, and the
/// closing `}`.
pub open spec fn spell_block(ops: Seq<OperatorView>, i: int) -> Seq<TokenGroup>
    decreases ops, ops.len() - i,
{
    if i < 0 || i >= ops.len() {
        delimiter(DelimitersGroup::RightCurlyBracket)
    } else {
        delimiter(DelimitersGroup::Semicolon) + (spell_operator(ops[i]) + spell_block(ops, i + 1))
    }
}

/// A statement written as tokens. An assignment is written without `let`.
#[verifier::opaque]
pub open spec fn spell_operator(op: OperatorView) -> Seq<TokenGroup>
    decreases op, 0nat,
{
    match op {
        OperatorView::Composite(ops) => delimiter(DelimitersGroup::LeftCurlyBracket) + (if ops.len()
            == 0 {
            delimiter(DelimitersGroup::RightCurlyBracket)
        } else {
            spell_operator(ops[0]) + spell_block(ops, 1)
        }),
        OperatorView::Assignment(id, e) => seq![
            TokenGroup::Identifier(id),
            TokenGroup::Delimiters(DelimitersGroup::Equal),
        ] + spell_expression(e),
        OperatorView::If(c, a, b) => keyword(KeywordsGroup::If) + (spell_expression(c) + (keyword(
            KeywordsGroup::Then,
        ) + (spell_operator(*a) + (match b {
            Some(b) => keyword(KeywordsGroup::Else) + (spell_operator(*b) + keyword(
                KeywordsGroup::EndElse,
            )),
            None => keyword(KeywordsGroup::EndElse),
        })))),
        OperatorView::For(es, body) => seq![
            TokenGroup::Keywords(KeywordsGroup::For),
            TokenGroup::Delimiters(DelimitersGroup::LeftParenthesis),
        ] + (spell_expression(es[0]) + (delimiter(DelimitersGroup::Semicolon) + (spell_expression(
            es[1],
        ) + (delimiter(DelimitersGroup::Semicolon) + (spell_expression(es[2]) + (delimiter(
            DelimitersGroup::RightParenthesis,
        ) + spell_operator(*body))))))),
        OperatorView::While(c, body) => seq![
            TokenGroup::Keywords(KeywordsGroup::Do),
            TokenGroup::Keywords(KeywordsGroup::While),
        ] + (spell_expression(c) + (spell_operator(*body) + keyword(KeywordsGroup::Loop))),
        OperatorView::Input(ids) => seq![
            TokenGroup::Keywords(KeywordsGroup::Input),
            TokenGroup::Delimiters(DelimitersGroup::LeftParenthesis),
        ] + spell_ids(ids, 0),
        OperatorView::Output(es) => seq![
            TokenGroup::Keywords(KeywordsGroup::Output),
            TokenGroup::Delimiters(DelimitersGroup::LeftParenthesis),
        ] + spell_list(es, 0),
    }
}

/// Whether a statement is one that the grammar derives: blocks and lists
/// are not empty, and the header of a `for` has three expressions.
#[verifier::opaque]
pub open spec fn wf_operator(op: OperatorView) -> bool
    decreases op,
{
    match op {
        OperatorView::Composite(ops) => ops.len() >= 1 && forall|i: int|
            0 <= i < ops.len() ==> wf_operator(#[trigger] ops[i]),
        OperatorView::Assignment(_, e) => wf_expression(e),
        OperatorView::If(c, a, b) => wf_expression(c) && wf_operator(*a) && match b {
            Some(b) => wf_operator(*b),
            None => true,
        },
        OperatorView::For(es, body) => es.len() == 3 && wf_expression(es[0]) && wf_expression(
            es[1],
        ) && wf_expression(es[2]) && wf_operator(*body),
        OperatorView::While(c, body) => wf_expression(c) && wf_operator(*body),
        OperatorView::Input(ids) => ids.len() >= 1,
        OperatorView::Output(es) => es.len() >= 1 && forall|i: int|
            0 <= i < es.len() ==> wf_expression(#[trigger] es[i]),
    }
}

/// A token that a statement starts with.
pub open spec fn starts_operator(t: TokenGroup) -> bool {
    t is Identifier || t == TokenGroup::Delimiters(DelimitersGroup::LeftCurlyBracket) || t
        == TokenGroup::Keywords(KeywordsGroup::If) || t == TokenGroup::Keywords(KeywordsGroup::For)
        || t == TokenGroup::Keywords(KeywordsGroup::Do) || t == TokenGroup::Keywords(
        KeywordsGroup::Input,
    ) || t == TokenGroup::Keywords(KeywordsGroup::Output)
}

/// What is written for a statement starts with a token that a statement
/// starts with, and a written assignment goes on with `=`.
pub proof fn lemma_operator_start(op: OperatorView)
    ensures
        spell_operator(op).len() >= 2,
        starts_operator(spell_operator(op)[0]),
        spell_operator(op)[0] is Identifier ==> spell_operator(op)[1] == TokenGroup::Delimiters(
            DelimitersGroup::Equal,
        ),
{
    reveal(spell_operator);
    let w = spell_operator(op);
    match op {
        OperatorView::Composite(ops) => {
            lemma_spell_block(ops, 1);
            assert(w[0] == delimiter(DelimitersGroup::LeftCurlyBracket)[0]);
        },
        OperatorView::Assignment(id, e) => {
            let a = seq![TokenGroup::Identifier(id), TokenGroup::Delimiters(DelimitersGroup::Equal)];
            assert(w[0] == a[0]);
            assert(w[1] == a[1]);
        },
        OperatorView::If(c, a, b) => {
            assert(w[0] == keyword(KeywordsGroup::If)[0]);
        },
        OperatorView::For(es, body) => {
            let a = seq![
                TokenGroup::Keywords(KeywordsGroup::For),
                TokenGroup::Delimiters(DelimitersGroup::LeftParenthesis),
            ];
            assert(w[0] == a[0]);
        },
        OperatorView::While(c, body) => {
            let a = seq![
                TokenGroup::Keywords(KeywordsGroup::Do),
                TokenGroup::Keywords(KeywordsGroup::While),
            ];
            assert(w[0] == a[0]);
        },
        OperatorView::Input(ids) => {
            let a = seq![
                TokenGroup::Keywords(KeywordsGroup::Input),
                TokenGroup::Delimiters(DelimitersGroup::LeftParenthesis),
            ];
            assert(w[0] == a[0]);
        },
        OperatorView::Output(es) => {
            let a = seq![
                TokenGroup::Keywords(KeywordsGroup::Output),
                TokenGroup::Delimiters(DelimitersGroup::LeftParenthesis),
            ];
            assert(w[0] == a[0]);
        },
    }
}

/// The token at an index where one token stands.
pub proof fn lemma_one(s: Seq<TokenGroup>, p: int, t: TokenGroup)
    requires
        holds(s, p, seq![t]),
    ensures
        at(s, p) == t,
        0 <= p < s.len(),
{
    reveal(holds);
    assert(s[p + 0] == seq![t][0]);
}

/// Tokens that stand at an index stand inside the stream.
pub proof fn lemma_inside(s: Seq<TokenGroup>, p: int, w: Seq<TokenGroup>)
    requires
        holds(s, p, w),
    ensures
        0 <= p,
        p + w.len() <= s.len(),
{
    reveal(holds);
}

/// The first of the tokens that stand at an index.
pub proof fn lemma_first(s: Seq<TokenGroup>, p: int, w: Seq<TokenGroup>)
    requires
        holds(s, p, w),
        w.len() >= 1,
    ensures
        at(s, p) == w[0],
        0 <= p < s.len(),
{
    reveal(holds);
    assert(s[p + 0] == w[0]);
}

/// The tokens at an index where two tokens stand.
pub proof fn lemma_two(s: Seq<TokenGroup>, p: int, t: TokenGroup, u: TokenGroup)
    requires
        holds(s, p, seq![t, u]),
    ensures
        at(s, p) == t,
        at(s, p + 1) == u,
        0 <= p,
        p + 2 <= s.len(),
{
    reveal(holds);
    assert(s[p + 0] == seq![t, u][0]);
    assert(s[p + 1] == seq![t, u][1]);
}

/// Reading the written identifiers of an `input` from the `i`-th on, up to
/// the closing `)`, gives the statement.
pub proof fn lemma_ids(ids: Seq<u64>, i: int, s: Seq<TokenGroup>, q: int)
    requires
        ids.len() >= 1,
        0 <= i <= ids.len(),
        holds(s, q, spell_ids(ids, i)),
    ensures
        input_tail(s, q, ids.take(i)) == Parsed::Done(
            OperatorView::Input(ids),
            q + spell_ids(ids, i).len(),
        ),
    decreases ids.len() - i,
{
    if i == ids.len() {
        lemma_one(s, q, TokenGroup::Delimiters(DelimitersGroup::RightParenthesis));
        assert(ids.take(i) =~= ids);
    } else {
        let a = seq![TokenGroup::Identifier(ids[i])];
        lemma_split(s, q, a, spell_ids(ids, i + 1));
        lemma_one(s, q, a[0]);
        lemma_ids(ids, i + 1, s, q + 1);
        assert(ids.take(i).push(ids[i]) =~= ids.take(i + 1));
    }
}

/// Reading the written expressions of an `output` from the `i`-th on, up
/// to the closing `)`, gives the statement.
pub proof fn lemma_list(es: Seq<ExpressionView>, i: int, s: Seq<TokenGroup>, q: int)
    requires
        es.len() >= 1,
        forall|k: int| 0 <= k < es.len() ==> wf_expression(#[trigger] es[k]),
        0 <= i <= es.len(),
        holds(s, q, spell_list(es, i)),
    ensures
        output_tail(s, q, es.take(i)) == Parsed::Done(
            OperatorView::Output(es),
            q + spell_list(es, i).len(),
        ),
        closes(at(s, q)),
    decreases es.len() - i,
{
    if i == es.len() {
        lemma_one(s, q, TokenGroup::Delimiters(DelimitersGroup::RightParenthesis));
        assert(es.take(i) =~= es);
    } else {
        let a = spell_expression(es[i]);
        lemma_split(s, q, a, spell_list(es, i + 1));
        assert(wf_expression(es[i]));
        lemma_expression_start(es[i]);
        lemma_first(s, q, a);
        lemma_list(es, i + 1, s, q + a.len());
        lemma_expression(es[i], s, q);
        assert(es.take(i).push(es[i]) =~= es.take(i + 1));
    }
}

/// What the rest of a block is written as.
pub proof fn lemma_spell_block(ops: Seq<OperatorView>, i: int)
    ensures
        spell_block(ops, i) == if i < 0 || i >= ops.len() {
            delimiter(DelimitersGroup::RightCurlyBracket)
        } else {
            delimiter(DelimitersGroup::Semicolon) + (spell_operator(ops[i]) + spell_block(
                ops,
                i + 1,
            ))
        },
{
    reveal(spell_operator);
}

/// Reading the written rest of a block, after its first `i` statements, up
/// to the closing `}`, gives the block.
pub proof fn lemma_block(ops: Seq<OperatorView>, i: int, s: Seq<TokenGroup>, q: int)
    requires
        ops.len() >= 1,
        forall|k: int| 0 <= k < ops.len() ==> wf_operator(#[trigger] ops[k]),
        1 <= i <= ops.len(),
        holds(s, q, spell_block(ops, i)),
    ensures
        block_tail(s, q, ops.take(i)) == Parsed::Done(
            OperatorView::Composite(ops),
            q + spell_block(ops, i).len(),
        ),
        closes(at(s, q)),
    decreases ops, ops.len() - i,
{
    lemma_spell_block(ops, i);
    if i == ops.len() {
        lemma_one(s, q, TokenGroup::Delimiters(DelimitersGroup::RightCurlyBracket));
        assert(ops.take(i) =~= ops);
    } else {
        let a = delimiter(DelimitersGroup::Semicolon);
        let b = spell_operator(ops[i]);
        let c = spell_block(ops, i + 1);
        lemma_split(s, q, a, b + c);
        lemma_split(s, q + 1, b, c);
        lemma_one(s, q, a[0]);
        lemma_operator_start(ops[i]);
        lemma_first(s, q + 1, b);
        lemma_block(ops, i + 1, s, q + 1 + b.len());
        assert(wf_operator(ops[i]));
        lemma_operator(ops[i], s, q + 1);
        assert(ops.take(i).push(ops[i]) =~= ops.take(i + 1));
    }
}

/// What is written for an `if`, and when an `if` is well-formed.
pub proof fn lemma_spell_if(c: ExpressionView, a: Box<OperatorView>, b: Option<Box<OperatorView>>)
    ensures
        spell_operator(OperatorView::If(c, a, b)) == keyword(KeywordsGroup::If) + (spell_expression(
            c,
        ) + (keyword(KeywordsGroup::Then) + (spell_operator(*a) + (match b {
            Some(b) => keyword(KeywordsGroup::Else) + (spell_operator(*b) + keyword(
                KeywordsGroup::EndElse,
            )),
            None => keyword(KeywordsGroup::EndElse),
        })))),
        wf_operator(OperatorView::If(c, a, b)) == (wf_expression(c) && wf_operator(*a) && match b {
            Some(b) => wf_operator(*b),
            None => true,
        }),
{
    reveal(spell_operator);
    reveal(wf_operator);
}

/// What is written for a `for`, and when a `for` is well-formed.
pub proof fn lemma_spell_for(es: Seq<ExpressionView>, body: Box<OperatorView>)
    ensures
        spell_operator(OperatorView::For(es, body)) == seq![
            TokenGroup::Keywords(KeywordsGroup::For),
            TokenGroup::Delimiters(DelimitersGroup::LeftParenthesis),
        ] + (spell_expression(es[0]) + (delimiter(DelimitersGroup::Semicolon) + (spell_expression(
            es[1],
        ) + (delimiter(DelimitersGroup::Semicolon) + (spell_expression(es[2]) + (delimiter(
            DelimitersGroup::RightParenthesis,
        ) + spell_operator(*body))))))),
        wf_operator(OperatorView::For(es, body)) == (es.len() == 3 && wf_expression(es[0])
            && wf_expression(es[1]) && wf_expression(es[2]) && wf_operator(*body)),
{
    reveal(spell_operator);
    reveal(wf_operator);
}

/// What is written for a `do while`, and when it is well-formed.
pub proof fn lemma_spell_while(c: ExpressionView, body: Box<OperatorView>)
    ensures
        spell_operator(OperatorView::While(c, body)) == seq![
            TokenGroup::Keywords(KeywordsGroup::Do),
            TokenGroup::Keywords(KeywordsGroup::While),
        ] + (spell_expression(c) + (spell_operator(*body) + keyword(KeywordsGroup::Loop))),
        wf_operator(OperatorView::While(c, body)) == (wf_expression(c) && wf_operator(*body)),
{
    reveal(spell_operator);
    reveal(wf_operator);
}

/// What is written for a block, and when a block is well-formed.
pub proof fn lemma_spell_composite(ops: Seq<OperatorView>)
    ensures
        spell_operator(OperatorView::Composite(ops)) == delimiter(DelimitersGroup::LeftCurlyBracket)
            + (if ops.len() == 0 {
            delimiter(DelimitersGroup::RightCurlyBracket)
        } else {
            spell_operator(ops[0]) + spell_block(ops, 1)
        }),
        wf_operator(OperatorView::Composite(ops)) == (ops.len() >= 1 && forall|i: int|
            0 <= i < ops.len() ==> wf_operator(#[trigger] ops[i])),
{
    reveal(spell_operator);
    reveal(wf_operator);
}

/// What is written for an assignment, an `input` and an `output`, and when
/// they are well-formed.
pub proof fn lemma_spell_simple(op: OperatorView)
    ensures
        op matches OperatorView::Assignment(id, e) ==> spell_operator(op) == seq![
            TokenGroup::Identifier(id),
            TokenGroup::Delimiters(DelimitersGroup::Equal),
        ] + spell_expression(e) && wf_operator(op) == wf_expression(e),
        op matches OperatorView::Input(ids) ==> spell_operator(op) == seq![
            TokenGroup::Keywords(KeywordsGroup::Input),
            TokenGroup::Delimiters(DelimitersGroup::LeftParenthesis),
        ] + spell_ids(ids, 0) && wf_operator(op) == (ids.len() >= 1),
        op matches OperatorView::Output(es) ==> spell_operator(op) == seq![
            TokenGroup::Keywords(KeywordsGroup::Output),
            TokenGroup::Delimiters(DelimitersGroup::LeftParenthesis),
        ] + spell_list(es, 0) && wf_operator(op) == (es.len() >= 1 && forall|i: int|
            0 <= i < es.len() ==> wf_expression(#[trigger] es[i])),
{
    reveal(spell_operator);
    reveal(wf_operator);
}

/// An `if` is read from its parts.
pub proof fn lemma_read_if(
    s: Seq<TokenGroup>,
    p: int,
    c: ExpressionView,
    q: int,
    a: OperatorView,
    q2: int,
    b: Option<OperatorView>,
    q3: int,
)
    requires
        at(s, p) == TokenGroup::Keywords(KeywordsGroup::If),
        parse_expression(s, p + 1) == Parsed::Done(c, q),
        p + 1 < q <= s.len(),
        at(s, q) == TokenGroup::Keywords(KeywordsGroup::Then),
        parse_operator(s, q + 1) == Parsed::Done(a, q2),
        q + 1 < q2 <= s.len(),
        match b {
            Some(b) => at(s, q2) == TokenGroup::Keywords(KeywordsGroup::Else) && parse_operator(
                s,
                q2 + 1,
            ) == Parsed::Done(b, q3) && q2 + 1 < q3 <= s.len(),
            None => q3 == q2,
        },
        at(s, q3) == TokenGroup::Keywords(KeywordsGroup::EndElse),
    ensures
        parse_operator(s, p) == Parsed::Done(
            OperatorView::If(
                c,
                Box::new(a),
                match b {
                    Some(b) => Some(Box::new(b)),
                    None => None,
                },
            ),
            q3 + 1,
        ),
{
}

/// A `for` is read from its header and its body.
pub proof fn lemma_read_for(
    s: Seq<TokenGroup>,
    p: int,
    es: Seq<ExpressionView>,
    q: int,
    body: OperatorView,
    q2: int,
)
    requires
        at(s, p) == TokenGroup::Keywords(KeywordsGroup::For),
        at(s, p + 1) == TokenGroup::Delimiters(DelimitersGroup::LeftParenthesis),
        parse_header(s, p + 2) == Parsed::Done(es, q),
        p + 2 < q <= s.len(),
        parse_operator(s, q) == Parsed::Done(body, q2),
    ensures
        parse_operator(s, p) == Parsed::Done(OperatorView::For(es, Box::new(body)), q2),
{
}

/// Reading the written header of a `for`, after the `(`, gives its three
/// expressions; what is written after the header stands after it.
#[verifier::rlimit(50)]
pub proof fn lemma_header(
    e0: ExpressionView,
    e1: ExpressionView,
    e2: ExpressionView,
    tail: Seq<TokenGroup>,
    s: Seq<TokenGroup>,
    p: int,
)
    requires
        wf_expression(e0),
        wf_expression(e1),
        wf_expression(e2),
        holds(
            s,
            p,
            spell_expression(e0) + (delimiter(DelimitersGroup::Semicolon) + (spell_expression(e1)
                + (delimiter(DelimitersGroup::Semicolon) + (spell_expression(e2) + (delimiter(
                DelimitersGroup::RightParenthesis,
            ) + tail))))),
        ),
    ensures
        ({
            let q = p + spell_expression(e0).len() + 1 + spell_expression(e1).len() + 1
                + spell_expression(e2).len() + 1;
            &&& parse_header(s, p) == Parsed::Done(seq![e0, e1, e2], q)
            &&& p < q <= s.len()
            &&& holds(s, q, tail)
        }),
{
    reveal(parse_header);
    let w0 = spell_expression(e0);
    let semi = delimiter(DelimitersGroup::Semicolon);
    let w1 = spell_expression(e1);
    let w2 = spell_expression(e2);
    let close = delimiter(DelimitersGroup::RightParenthesis);
    lemma_split(s, p, w0, semi + (w1 + (semi + (w2 + (close + tail)))));
    let q1 = p + w0.len();
    lemma_split(s, q1, semi, w1 + (semi + (w2 + (close + tail))));
    lemma_split(s, q1 + 1, w1, semi + (w2 + (close + tail)));
    let q2 = q1 + 1 + w1.len();
    lemma_split(s, q2, semi, w2 + (close + tail));
    lemma_split(s, q2 + 1, w2, close + tail);
    let q3 = q2 + 1 + w2.len();
    lemma_split(s, q3, close, tail);
    lemma_one(s, q1, semi[0]);
    lemma_one(s, q2, semi[0]);
    lemma_one(s, q3, close[0]);
    lemma_expression(e0, s, p);
    lemma_expression(e1, s, q1 + 1);
    lemma_expression(e2, s, q2 + 1);
}

/// A `do while` is read from its parts.
pub proof fn lemma_read_while(
    s: Seq<TokenGroup>,
    p: int,
    c: ExpressionView,
    q: int,
    body: OperatorView,
    q2: int,
)
    requires
        at(s, p) == TokenGroup::Keywords(KeywordsGroup::Do),
        at(s, p + 1) == TokenGroup::Keywords(KeywordsGroup::While),
        parse_expression(s, p + 2) == Parsed::Done(c, q),
        p + 2 < q <= s.len(),
        parse_operator(s, q) == Parsed::Done(body, q2),
        q < q2 <= s.len(),
        at(s, q2) == TokenGroup::Keywords(KeywordsGroup::Loop),
    ensures
        parse_operator(s, p) == Parsed::Done(OperatorView::While(c, Box::new(body)), q2 + 1),
{
}

/// A block is read from its first statement and its rest.
pub proof fn lemma_read_block(
    s: Seq<TokenGroup>,
    p: int,
    first: OperatorView,
    q: int,
    block: OperatorView,
    q2: int,
)
    requires
        at(s, p) == TokenGroup::Delimiters(DelimitersGroup::LeftCurlyBracket),
        parse_operator(s, p + 1) == Parsed::Done(first, q),
        p + 1 < q <= s.len(),
        block_tail(s, q, seq![first]) == Parsed::Done(block, q2),
    ensures
        parse_operator(s, p) == Parsed::Done(block, q2),
{
}

/// Reading a written `if` without `else` gives the statement.
#[verifier::rlimit(50)]
pub proof fn lemma_if_plain(op: OperatorView, s: Seq<TokenGroup>, p: int)
    requires
        op is If,
        op->If_2 is None,
        wf_operator(op),
        holds(s, p, spell_operator(op)),
    ensures
        parse_operator(s, p) == Parsed::Done(op, p + spell_operator(op).len()),
    decreases op, 0nat,
{
    let c = op->If_0;
    let a = op->If_1;
    lemma_spell_if(c, a, None);
    let w1 = keyword(KeywordsGroup::If);
    let w2 = spell_expression(c);
    let w3 = keyword(KeywordsGroup::Then);
    let w4 = spell_operator(*a);
    let w6 = keyword(KeywordsGroup::EndElse);
    lemma_split(s, p, w1, w2 + (w3 + (w4 + w6)));
    lemma_split(s, p + 1, w2, w3 + (w4 + w6));
    let q = p + 1 + w2.len();
    lemma_split(s, q, w3, w4 + w6);
    lemma_split(s, q + 1, w4, w6);
    let q2 = q + 1 + w4.len();
    lemma_one(s, p, w1[0]);
    lemma_one(s, q, w3[0]);
    lemma_one(s, q2, w6[0]);
    lemma_expression(c, s, p + 1);
    lemma_operator_start(*a);
    lemma_operator(*a, s, q + 1);
    lemma_read_if(s, p, c, q, *a, q2, None, q2);
}

/// Reading a written `if` with `else` gives the statement.
#[verifier::rlimit(50)]
pub proof fn lemma_if_else(op: OperatorView, s: Seq<TokenGroup>, p: int)
    requires
        op is If,
        op->If_2 is Some,
        wf_operator(op),
        holds(s, p, spell_operator(op)),
    ensures
        parse_operator(s, p) == Parsed::Done(op, p + spell_operator(op).len()),
    decreases op, 0nat,
{
    let c = op->If_0;
    let a = op->If_1;
    let b = op->If_2->Some_0;
    lemma_spell_if(c, a, Some(b));
    let w1 = keyword(KeywordsGroup::If);
    let w2 = spell_expression(c);
    let w3 = keyword(KeywordsGroup::Then);
    let w4 = spell_operator(*a);
    let w5 = keyword(KeywordsGroup::Else);
    let w6 = spell_operator(*b);
    let w7 = keyword(KeywordsGroup::EndElse);
    lemma_split(s, p, w1, w2 + (w3 + (w4 + (w5 + (w6 + w7)))));
    lemma_split(s, p + 1, w2, w3 + (w4 + (w5 + (w6 + w7))));
    let q = p + 1 + w2.len();
    lemma_split(s, q, w3, w4 + (w5 + (w6 + w7)));
    lemma_split(s, q + 1, w4, w5 + (w6 + w7));
    let q2 = q + 1 + w4.len();
    lemma_split(s, q2, w5, w6 + w7);
    lemma_split(s, q2 + 1, w6, w7);
    let q3 = q2 + 1 + w6.len();
    lemma_one(s, p, w1[0]);
    lemma_one(s, q, w3[0]);
    lemma_one(s, q2, w5[0]);
    lemma_one(s, q3, w7[0]);
    lemma_expression(c, s, p + 1);
    lemma_operator_start(*a);
    lemma_operator(*a, s, q + 1);
    lemma_operator_start(*b);
    lemma_operator(*b, s, q2 + 1);
    lemma_read_if(s, p, c, q, *a, q2, Some(*b), q3);
}

/// Reading a written `for` gives the statement.
#[verifier::rlimit(50)]
pub proof fn lemma_for(op: OperatorView, s: Seq<TokenGroup>, p: int)
    requires
        op is For,
        wf_operator(op),
        holds(s, p, spell_operator(op)),
        closes(at(s, p + spell_operator(op).len())),
    ensures
        parse_operator(s, p) == Parsed::Done(op, p + spell_operator(op).len()),
    decreases op, 0nat,
{
    let es = op->For_0;
    let body = op->For_1;
    lemma_spell_for(es, body);
    let w1 = seq![
        TokenGroup::Keywords(KeywordsGroup::For),
        TokenGroup::Delimiters(DelimitersGroup::LeftParenthesis),
    ];
    let wb = spell_operator(*body);
    let header = spell_expression(es[0]) + (delimiter(DelimitersGroup::Semicolon) + (
    spell_expression(es[1]) + (delimiter(DelimitersGroup::Semicolon) + (spell_expression(es[2])
        + (delimiter(DelimitersGroup::RightParenthesis) + wb)))));
    lemma_split(s, p, w1, header);
    lemma_two(s, p, w1[0], w1[1]);
    lemma_header(es[0], es[1], es[2], wb, s, p + 2);
    let q = p + 2 + spell_expression(es[0]).len() + 1 + spell_expression(es[1]).len() + 1
        + spell_expression(es[2]).len() + 1;
    lemma_inside(s, q, wb);
    lemma_operator(*body, s, q);
    assert(seq![es[0], es[1], es[2]] =~= es);
    lemma_read_for(s, p, es, q, *body, q + wb.len());
}

/// Reading a written `do while` gives the statement.
#[verifier::rlimit(50)]
pub proof fn lemma_while(op: OperatorView, s: Seq<TokenGroup>, p: int)
    requires
        op is While,
        wf_operator(op),
        holds(s, p, spell_operator(op)),
    ensures
        parse_operator(s, p) == Parsed::Done(op, p + spell_operator(op).len()),
    decreases op, 0nat,
{
    let c = op->While_0;
    let body = op->While_1;
    lemma_spell_while(c, body);
    let w1 = seq![TokenGroup::Keywords(KeywordsGroup::Do), TokenGroup::Keywords(KeywordsGroup::While)];
    let w2 = spell_expression(c);
    let w3 = spell_operator(*body);
    let w4 = keyword(KeywordsGroup::Loop);
    lemma_split(s, p, w1, w2 + (w3 + w4));
    lemma_split(s, p + 2, w2, w3 + w4);
    let q = p + 2 + w2.len();
    lemma_split(s, q, w3, w4);
    let q2 = q + w3.len();
    lemma_two(s, p, w1[0], w1[1]);
    lemma_one(s, q2, w4[0]);
    lemma_operator_start(*body);
    lemma_first(s, q, w3);
    lemma_expression(c, s, p + 2);
    lemma_operator(*body, s, q);
    lemma_read_while(s, p, c, q, *body, q2);
}

/// Reading a written block gives the block.
#[verifier::rlimit(50)]
pub proof fn lemma_composite(op: OperatorView, s: Seq<TokenGroup>, p: int)
    requires
        op is Composite,
        wf_operator(op),
        holds(s, p, spell_operator(op)),
    ensures
        parse_operator(s, p) == Parsed::Done(op, p + spell_operator(op).len()),
    decreases op, 0nat,
{
    let ops = op->Composite_0;
    lemma_spell_composite(ops);
    let open = delimiter(DelimitersGroup::LeftCurlyBracket);
    let first = spell_operator(ops[0]);
    let rest = spell_block(ops, 1);
    lemma_split(s, p, open, first + rest);
    lemma_split(s, p + 1, first, rest);
    lemma_one(s, p, open[0]);
    let q = p + 1 + first.len();
    lemma_block(ops, 1, s, q);
    assert(wf_operator(ops[0]));
    lemma_operator_start(ops[0]);
    lemma_operator(ops[0], s, p + 1);
    assert(ops.take(1) =~= seq![ops[0]]);
    lemma_read_block(s, p, ops[0], q, op, q + rest.len());
}

/// Reading a written statement gives the statement, where no operator
/// follows it.
pub proof fn lemma_operator(op: OperatorView, s: Seq<TokenGroup>, p: int)
    requires
        wf_operator(op),
        holds(s, p, spell_operator(op)),
        closes(at(s, p + spell_operator(op).len())),
    ensures
        parse_operator(s, p) == Parsed::Done(op, p + spell_operator(op).len()),
    decreases op, 1nat,
{
    match op {
        OperatorView::Composite(_) => {
            lemma_composite(op, s, p);
        },
        OperatorView::Assignment(id, e) => {
            lemma_spell_simple(op);
            let a = seq![TokenGroup::Identifier(id), TokenGroup::Delimiters(DelimitersGroup::Equal)];
            lemma_split(s, p, a, spell_expression(e));
            lemma_two(s, p, a[0], a[1]);
            lemma_expression(e, s, p + 2);
        },
        OperatorView::If(_, _, b) => {
            if b is Some {
                lemma_if_else(op, s, p);
            } else {
                lemma_if_plain(op, s, p);
            }
        },
        OperatorView::For(_, _) => {
            lemma_for(op, s, p);
        },
        OperatorView::While(_, _) => {
            lemma_while(op, s, p);
        },
        OperatorView::Input(ids) => {
            lemma_spell_simple(op);
            let a = seq![
                TokenGroup::Keywords(KeywordsGroup::Input),
                TokenGroup::Delimiters(DelimitersGroup::LeftParenthesis),
            ];
            lemma_split(s, p, a, spell_ids(ids, 0));
            lemma_two(s, p, a[0], a[1]);
            lemma_ids(ids, 0, s, p + 2);
            assert(ids.take(0) =~= Seq::empty());
        },
        OperatorView::Output(es) => {
            lemma_spell_simple(op);
            let a = seq![
                TokenGroup::Keywords(KeywordsGroup::Output),
                TokenGroup::Delimiters(DelimitersGroup::LeftParenthesis),
            ];
            lemma_split(s, p, a, spell_list(es, 0));
            lemma_two(s, p, a[0], a[1]);
            lemma_list(es, 0, s, p + 2);
            assert(es.take(0) =~= Seq::empty());
        },
    }
}

} // verus!

verus! {

/// The identifiers of a group from the `i`-th on, separated by `,`, then
/// `:` and the type.
pub open spec fn spell_group(ids: Seq<u64>, i: int, t: ProgramTypes) -> Seq<TokenGroup>
    decreases ids.len() - i,
{
    if i < 0 || i >= ids.len() {
        Seq::empty()
    } else if i + 1 < ids.len() {
        seq![TokenGroup::Identifier(ids[i]), TokenGroup::Delimiters(DelimitersGroup::Comma)]
            + spell_group(ids, i + 1, t)
    } else {
        seq![
            TokenGroup::Identifier(ids[i]),
            TokenGroup::Delimiters(DelimitersGroup::Colon),
            type_token(t),
        ]
    }
}

/// The groups of a declaration from the `i`-th on, each after a `;`.
pub open spec fn spell_groups(gs: Seq<(Seq<u64>, ProgramTypes)>, i: int) -> Seq<TokenGroup>
    decreases gs.len() - i,
{
    if i < 0 || i >= gs.len() {
        Seq::empty()
    } else {
        delimiter(DelimitersGroup::Semicolon) + (spell_group(gs[i].0, 0, gs[i].1) + spell_groups(
            gs,
            i + 1,
        ))
    }
}

/// An entry of the program body written as tokens.
pub open spec fn spell_main(m: MainOperationView) -> Seq<TokenGroup> {
    match m {
        MainOperationView::CreateVariable(gs) => keyword(KeywordsGroup::Var) + (if gs.len() == 0 {
            Seq::empty()
        } else {
            spell_group(gs[0].0, 0, gs[0].1) + spell_groups(gs, 1)
        }),
        MainOperationView::Operator(op) => spell_operator(op),
    }
}

/// The entries of a program from the `i`-th on, each after a `;`, then the
/// closing `}` and the end of input.
pub open spec fn spell_body(ms: Seq<MainOperationView>, i: int) -> Seq<TokenGroup>
    decreases ms.len() - i,
{
    if i < 0 || i >= ms.len() {
        seq![TokenGroup::Delimiters(DelimitersGroup::RightCurlyBracket), TokenGroup::Eof]
    } else {
        delimiter(DelimitersGroup::Semicolon) + (spell_main(ms[i]) + spell_body(ms, i + 1))
    }
}

/// A program written as tokens: its entries separated by `;` between `{`
/// and `}`, and the end of input.
pub open spec fn spell_program(ms: Seq<MainOperationView>) -> Seq<TokenGroup> {
    delimiter(DelimitersGroup::LeftCurlyBracket) + (if ms.len() == 0 {
        Seq::empty()
    } else {
        spell_main(ms[0])
    } + spell_body(ms, 1))
}

/// Whether an entry is one that the grammar derives: a declaration has at
/// least one group, each with at least one identifier and a type without
/// value.
pub open spec fn wf_main(m: MainOperationView) -> bool {
    match m {
        MainOperationView::CreateVariable(gs) => gs.len() >= 1 && forall|i: int|
            0 <= i < gs.len() ==> (#[trigger] gs[i]).0.len() >= 1 && !gs[i].1.has_value(),
        MainOperationView::Operator(op) => wf_operator(op),
    }
}

/// Whether a program is one that the grammar derives.
pub open spec fn wf_program(ms: Seq<MainOperationView>) -> bool {
    ms.len() >= 1 && forall|i: int| 0 <= i < ms.len() ==> wf_main(#[trigger] ms[i])
}

/// Reading a written group, after its first `i` identifiers, gives the
/// group.
pub proof fn lemma_group(ids: Seq<u64>, i: int, t: ProgramTypes, s: Seq<TokenGroup>, p: int)
    requires
        0 <= i < ids.len(),
        !t.has_value(),
        holds(s, p, spell_group(ids, i, t)),
    ensures
        parse_group(s, p, ids.take(i)) == Parsed::Done((ids, t), p + spell_group(ids, i, t).len()),
        at(s, p) is Identifier,
        at(s, p + 1) == TokenGroup::Delimiters(DelimitersGroup::Comma) || at(s, p + 1)
            == TokenGroup::Delimiters(DelimitersGroup::Colon),
        spell_group(ids, i, t).len() >= 3,
    decreases ids.len() - i,
{
    if i + 1 < ids.len() {
        let a = seq![TokenGroup::Identifier(ids[i]), TokenGroup::Delimiters(DelimitersGroup::Comma)];
        lemma_split(s, p, a, spell_group(ids, i + 1, t));
        lemma_two(s, p, a[0], a[1]);
        lemma_group(ids, i + 1, t, s, p + 2);
        assert(ids.take(i).push(ids[i]) =~= ids.take(i + 1));
    } else {
        let a = seq![TokenGroup::Identifier(ids[i]), TokenGroup::Delimiters(DelimitersGroup::Colon)];
        let b = seq![type_token(t)];
        assert(spell_group(ids, i, t) =~= a + b);
        lemma_split(s, p, a, b);
        lemma_two(s, p, a[0], a[1]);
        lemma_one(s, p + 2, b[0]);
        assert(type_of(type_token(t)) == Some(t));
        assert(ids.take(i).push(ids[i]) =~= ids);
    }
}

/// Reading the written rest of a declaration, after its first `i` groups,
/// gives the declaration, where no further group follows.
pub proof fn lemma_groups(gs: Seq<(Seq<u64>, ProgramTypes)>, i: int, s: Seq<TokenGroup>, q: int)
    requires
        gs.len() >= 1,
        forall|k: int| 0 <= k < gs.len() ==> (#[trigger] gs[k]).0.len() >= 1 && !gs[k].1.has_value(),
        1 <= i <= gs.len(),
        holds(s, q, spell_groups(gs, i)),
        !group_follows(s, q + spell_groups(gs, i).len()),
    ensures
        groups_tail(s, q, gs.take(i)) == Parsed::Done(
            MainOperationView::CreateVariable(gs),
            q + spell_groups(gs, i).len(),
        ),
    decreases gs.len() - i,
{
    if i == gs.len() {
        assert(gs.take(i) =~= gs);
    } else {
        let a = delimiter(DelimitersGroup::Semicolon);
        let b = spell_group(gs[i].0, 0, gs[i].1);
        let c = spell_groups(gs, i + 1);
        lemma_split(s, q, a, b + c);
        lemma_split(s, q + 1, b, c);
        lemma_one(s, q, a[0]);
        assert(gs[i].0.len() >= 1);
        lemma_group(gs[i].0, 0, gs[i].1, s, q + 1);
        assert(gs[i].0.take(0) =~= Seq::empty());
        lemma_groups(gs, i + 1, s, q + 1 + b.len());
        assert(gs.take(i).push(gs[i]) =~= gs.take(i + 1));
    }
}

/// Reading a written entry gives the entry, where neither an operator nor
/// a further group of a declaration follows.
pub proof fn lemma_main(m: MainOperationView, s: Seq<TokenGroup>, p: int)
    requires
        wf_main(m),
        holds(s, p, spell_main(m)),
        closes(at(s, p + spell_main(m).len())),
        !group_follows(s, p + spell_main(m).len()),
    ensures
        parse_main(s, p) == Parsed::Done(m, p + spell_main(m).len()),
        spell_main(m).len() >= 2,
        p + spell_main(m).len() <= s.len(),
        0 <= p,
{
    reveal(parse_main);
    match m {
        MainOperationView::CreateVariable(gs) => {
            let a = keyword(KeywordsGroup::Var);
            let b = spell_group(gs[0].0, 0, gs[0].1);
            let c = spell_groups(gs, 1);
            lemma_split(s, p, a, b + c);
            lemma_split(s, p + 1, b, c);
            lemma_one(s, p, a[0]);
            assert(gs[0].0.len() >= 1);
            lemma_group(gs[0].0, 0, gs[0].1, s, p + 1);
            assert(gs[0].0.take(0) =~= Seq::empty());
            lemma_groups(gs, 1, s, p + 1 + b.len());
            assert(gs.take(1) =~= seq![gs[0]]);
        },
        MainOperationView::Operator(op) => {
            lemma_operator_start(op);
            lemma_first(s, p, spell_operator(op));
            lemma_operator(op, s, p);
            lemma_inside(s, p, spell_operator(op));
        },
    }
}

/// What is written for an entry starts with a token that is neither `}`
/// nor the end of input, and if it starts with an identifier, `=` comes
/// next.
pub proof fn lemma_main_start(m: MainOperationView)
    ensures
        spell_main(m).len() >= 1,
        spell_main(m)[0] != TokenGroup::Delimiters(DelimitersGroup::RightCurlyBracket),
        spell_main(m)[0] != TokenGroup::Eof,
        spell_main(m)[0] is Identifier ==> spell_main(m).len() >= 2 && spell_main(m)[1]
            == TokenGroup::Delimiters(DelimitersGroup::Equal),
{
    match m {
        MainOperationView::CreateVariable(gs) => {
            assert(spell_main(m)[0] == keyword(KeywordsGroup::Var)[0]);
        },
        MainOperationView::Operator(op) => {
            lemma_operator_start(op);
        },
    }
}

/// Reading the written entries of a program from the `i`-th on gives the
/// program, with the cursor at the end of input.
pub proof fn lemma_body(ms: Seq<MainOperationView>, i: int, s: Seq<TokenGroup>, p: int)
    requires
        wf_program(ms),
        0 <= i < ms.len(),
        holds(s, p, spell_main(ms[i]) + spell_body(ms, i + 1)),
    ensures
        parse_body(s, p, ms.take(i)) == Parsed::Done(
            ms,
            p + spell_main(ms[i]).len() + spell_body(ms, i + 1).len() - 1,
        ),
    decreases ms.len() - i,
{
    let m = ms[i];
    let a = spell_main(m);
    let rest = spell_body(ms, i + 1);
    lemma_split(s, p, a, rest);
    let q = p + a.len();
    assert(wf_main(m));
    if i + 1 < ms.len() {
        let next = spell_main(ms[i + 1]);
        let semi = delimiter(DelimitersGroup::Semicolon);
        let after = spell_body(ms, i + 2);
        lemma_split(s, q, semi, next + after);
        lemma_split(s, q + 1, next, after);
        lemma_one(s, q, semi[0]);
        lemma_main_start(ms[i + 1]);
        lemma_first(s, q + 1, next);
        if next[0] is Identifier {
            reveal(holds);
            assert(s[q + 1 + 1] == next[1]);
        }
        lemma_main(m, s, p);
        lemma_body(ms, i + 1, s, q + 1);
        assert(ms.take(i).push(m) =~= ms.take(i + 1));
    } else {
        lemma_two(
            s,
            q,
            TokenGroup::Delimiters(DelimitersGroup::RightCurlyBracket),
            TokenGroup::Eof,
        );
        lemma_main(m, s, p);
        assert(ms.take(i).push(m) =~= ms);
    }
}

/// Reading what was written for a program gives the program, with the
/// cursor at the end of input: for every program that the grammar derives.
pub proof fn written_programs_read_back(ms: Seq<MainOperationView>)
    requires
        wf_program(ms),
    ensures
        parse_program(spell_program(ms)) == Parsed::Done(ms, spell_program(ms).len() - 1),
{
    let s = spell_program(ms);
    let open = delimiter(DelimitersGroup::LeftCurlyBracket);
    let rest = spell_main(ms[0]) + spell_body(ms, 1);
    assert(holds(s, 0, s)) by {
        reveal(holds);
    }
    lemma_split(s, 0, open, rest);
    lemma_one(s, 0, open[0]);
    lemma_main_start(ms[0]);
    lemma_split(s, 1, spell_main(ms[0]), spell_body(ms, 1));
    lemma_first(s, 1, spell_main(ms[0]));
    lemma_body(ms, 0, s, 1);
    assert(ms.take(0) =~= Seq::empty());
}

} // verus!

verus! {

/// A multiplier that was read is one that the grammar derives.
pub proof fn lemma_read_multiplier(s: Seq<TokenGroup>, p: int)
    ensures
        parse_multiplier(s, p) matches Parsed::Done(m, _) ==> wf_multiplier(m),
    decreases s.len() - p, 0nat,
{
    match at(s, p) {
        TokenGroup::Delimiters(DelimitersGroup::Not) => {
            lemma_read_multiplier(s, p + 1);
        },
        TokenGroup::Delimiters(DelimitersGroup::LeftParenthesis) => {
            lemma_read_expression(s, p + 1);
        },
        _ => {},
    }
}

/// A term that was read is one that the grammar derives.
pub proof fn lemma_read_term_tail(
    s: Seq<TokenGroup>,
    p: int,
    ms: Seq<MultiplierView>,
    ops: Seq<MultiplicationOperations>,
)
    requires
        ms.len() >= 1,
        ops.len() + 1 == ms.len(),
        forall|i: int| 0 <= i < ms.len() ==> wf_multiplier(#[trigger] ms[i]),
    ensures
        term_tail(s, p, ms, ops) matches Parsed::Done(t, _) ==> wf_term(t),
    decreases s.len() - p, 0nat,
{
    match multiplication_of(at(s, p)) {
        Some(op) => {
            lemma_read_multiplier(s, p + 1);
            match advanced(s, p + 1, parse_multiplier(s, p + 1)) {
                Parsed::Done(m, q) => {
                    lemma_read_term_tail(s, q, ms.push(m), ops.push(op));
                },
                _ => {},
            }
        },
        None => {},
    }
}

/// A term that was read from the start is one that the grammar derives.
pub proof fn lemma_read_term(s: Seq<TokenGroup>, p: int)
    ensures
        parse_term(s, p) matches Parsed::Done(t, _) ==> wf_term(t),
    decreases s.len() - p, 1nat,
{
    lemma_read_multiplier(s, p);
    match advanced(s, p, parse_multiplier(s, p)) {
        Parsed::Done(m, q) => {
            lemma_read_term_tail(s, q, seq![m], Seq::empty());
        },
        _ => {},
    }
}

/// An operand that was read is one that the grammar derives.
pub proof fn lemma_read_operand_tail(
    s: Seq<TokenGroup>,
    p: int,
    ts: Seq<TermView>,
    ops: Seq<AdditionOperations>,
)
    requires
        ts.len() >= 1,
        ops.len() + 1 == ts.len(),
        forall|i: int| 0 <= i < ts.len() ==> wf_term(#[trigger] ts[i]),
    ensures
        operand_tail(s, p, ts, ops) matches Parsed::Done(o, _) ==> wf_operand(o),
    decreases s.len() - p, 0nat,
{
    match addition_of(at(s, p)) {
        Some(op) => {
            lemma_read_term(s, p + 1);
            match advanced(s, p + 1, parse_term(s, p + 1)) {
                Parsed::Done(t, q) => {
                    lemma_read_operand_tail(s, q, ts.push(t), ops.push(op));
                },
                _ => {},
            }
        },
        None => {},
    }
}

/// An operand that was read from the start is one that the grammar derives.
pub proof fn lemma_read_operand(s: Seq<TokenGroup>, p: int)
    ensures
        parse_operand(s, p) matches Parsed::Done(o, _) ==> wf_operand(o),
    decreases s.len() - p, 2nat,
{
    lemma_read_term(s, p);
    match advanced(s, p, parse_term(s, p)) {
        Parsed::Done(t, q) => {
            lemma_read_operand_tail(s, q, seq![t], Seq::empty());
        },
        _ => {},
    }
}

/// An expression that was read is one that the grammar derives.
pub proof fn lemma_read_expression_tail(
    s: Seq<TokenGroup>,
    p: int,
    os: Seq<OperandView>,
    ops: Seq<RelationOperations>,
)
    requires
        os.len() >= 1,
        ops.len() + 1 == os.len(),
        forall|i: int| 0 <= i < os.len() ==> wf_operand(#[trigger] os[i]),
    ensures
        expression_tail(s, p, os, ops) matches Parsed::Done(e, _) ==> wf_expression(e),
    decreases s.len() - p, 0nat,
{
    match relation_of(at(s, p)) {
        Some(op) => {
            lemma_read_operand(s, p + 1);
            match advanced(s, p + 1, parse_operand(s, p + 1)) {
                Parsed::Done(o, q) => {
                    lemma_read_expression_tail(s, q, os.push(o), ops.push(op));
                },
                _ => {},
            }
        },
        None => {},
    }
}

/// An expression that was read from the start is one that the grammar
/// derives.
pub proof fn lemma_read_expression(s: Seq<TokenGroup>, p: int)
    ensures
        parse_expression(s, p) matches Parsed::Done(e, _) ==> wf_expression(e),
    decreases s.len() - p, 3nat,
{
    lemma_read_operand(s, p);
    match advanced(s, p, parse_operand(s, p)) {
        Parsed::Done(o, q) => {
            lemma_read_expression_tail(s, q, seq![o], Seq::empty());
        },
        _ => {},
    }
}

/// An `input` that was read has at least one identifier.
pub proof fn lemma_read_input(s: Seq<TokenGroup>, p: int, ids: Seq<u64>)
    ensures
        input_tail(s, p, ids) matches Parsed::Done(op, _) ==> wf_operator(op),
    decreases s.len() - p,
{
    match at(s, p) {
        TokenGroup::Identifier(id) => {
            lemma_read_input(s, p + 1, ids.push(id));
        },
        TokenGroup::Delimiters(DelimitersGroup::RightParenthesis) => {
            lemma_spell_simple(OperatorView::Input(ids));
        },
        _ => {},
    }
}

/// An `output` that was read has at least one expression, and each is one
/// that the grammar derives.
pub proof fn lemma_read_output(s: Seq<TokenGroup>, p: int, es: Seq<ExpressionView>)
    requires
        forall|i: int| 0 <= i < es.len() ==> wf_expression(#[trigger] es[i]),
    ensures
        output_tail(s, p, es) matches Parsed::Done(op, _) ==> wf_operator(op),
    decreases s.len() - p,
{
    if at(s, p) == TokenGroup::Delimiters(DelimitersGroup::RightParenthesis) {
        lemma_spell_simple(OperatorView::Output(es));
    } else {
        lemma_read_expression(s, p);
        match advanced(s, p, parse_expression(s, p)) {
            Parsed::Done(e, q) => {
                lemma_read_output(s, q, es.push(e));
            },
            _ => {},
        }
    }
}

/// A block that was read is one that the grammar derives.
pub proof fn lemma_read_block_tail(s: Seq<TokenGroup>, p: int, ops: Seq<OperatorView>)
    requires
        ops.len() >= 1,
        forall|i: int| 0 <= i < ops.len() ==> wf_operator(#[trigger] ops[i]),
    ensures
        block_tail(s, p, ops) matches Parsed::Done(op, _) ==> wf_operator(op),
    decreases s.len() - p, 0nat,
{
    match at(s, p) {
        TokenGroup::Delimiters(DelimitersGroup::Semicolon) => {
            if at(s, p + 1) != TokenGroup::Delimiters(DelimitersGroup::RightCurlyBracket) {
                lemma_read_operator(s, p + 1);
                match advanced(s, p + 1, parse_operator(s, p + 1)) {
                    Parsed::Done(op, q) => {
                        lemma_read_block_tail(s, q, ops.push(op));
                    },
                    _ => {},
                }
            }
        },
        TokenGroup::Delimiters(DelimitersGroup::RightCurlyBracket) => {
            lemma_spell_composite(ops);
        },
        _ => {},
    }
}

/// An `if` that was read is one that the grammar derives.
pub proof fn lemma_read_if_parts(s: Seq<TokenGroup>, p: int)
    ensures
        parse_if(s, p) matches Parsed::Done(op, _) ==> wf_operator(op),
    decreases s.len() - p, 0nat,
{
    lemma_read_expression(s, p);
    match advanced(s, p, parse_expression(s, p)) {
        Parsed::Done(c, q) => {
            if at(s, q) == TokenGroup::Keywords(KeywordsGroup::Then) {
                lemma_read_operator(s, q + 1);
                match advanced(s, q + 1, parse_operator(s, q + 1)) {
                    Parsed::Done(a, q2) => {
                        if at(s, q2) == TokenGroup::Keywords(KeywordsGroup::Else) {
                            lemma_read_operator(s, q2 + 1);
                            match advanced(s, q2 + 1, parse_operator(s, q2 + 1)) {
                                Parsed::Done(b, q3) => {
                                    lemma_spell_if(c, Box::new(a), Some(Box::new(b)));
                                },
                                _ => {},
                            }
                        } else {
                            lemma_spell_if(c, Box::new(a), None);
                        }
                    },
                    _ => {},
                }
            }
        },
        _ => {},
    }
}

/// A `for` that was read is one that the grammar derives.
pub proof fn lemma_read_for_parts(s: Seq<TokenGroup>, p: int)
    ensures
        parse_for(s, p) matches Parsed::Done(op, _) ==> wf_operator(op),
    decreases s.len() - p, 0nat,
{
    reveal(parse_header);
    if at(s, p) == TokenGroup::Delimiters(DelimitersGroup::LeftParenthesis) {
        lemma_read_expression(s, p + 1);
        match advanced(s, p + 1, parse_expression(s, p + 1)) {
            Parsed::Done(e1, q1) => {
                lemma_read_expression(s, q1 + 1);
                match advanced(s, q1 + 1, parse_expression(s, q1 + 1)) {
                    Parsed::Done(e2, q2) => {
                        lemma_read_expression(s, q2 + 1);
                        match advanced(s, q2 + 1, parse_expression(s, q2 + 1)) {
                            Parsed::Done(e3, q3) => {
                                match advanced(s, p + 1, parse_header(s, p + 1)) {
                                    Parsed::Done(es, q) => {
                                        lemma_read_operator(s, q);
                                        match parse_operator(s, q) {
                                            Parsed::Done(body, _) => {
                                                lemma_spell_for(es, Box::new(body));
                                            },
                                            _ => {},
                                        }
                                    },
                                    _ => {},
                                }
                            },
                            _ => {},
                        }
                    },
                    _ => {},
                }
            },
            _ => {},
        }
    }
}

/// A `do while` that was read is one that the grammar derives.
pub proof fn lemma_read_while_parts(s: Seq<TokenGroup>, p: int)
    ensures
        parse_while(s, p) matches Parsed::Done(op, _) ==> wf_operator(op),
    decreases s.len() - p, 0nat,
{
    if at(s, p) == TokenGroup::Keywords(KeywordsGroup::While) {
        lemma_read_expression(s, p + 1);
        match advanced(s, p + 1, parse_expression(s, p + 1)) {
            Parsed::Done(c, q) => {
                lemma_read_operator(s, q);
                match advanced(s, q, parse_operator(s, q)) {
                    Parsed::Done(body, _) => {
                        lemma_spell_while(c, Box::new(body));
                    },
                    _ => {},
                }
            },
            _ => {},
        }
    }
}

/// A statement that was read is one that the grammar derives.
pub proof fn lemma_read_operator(s: Seq<TokenGroup>, p: int)
    ensures
        parse_operator(s, p) matches Parsed::Done(op, _) ==> wf_operator(op),
    decreases s.len() - p, 1nat,
{
    match at(s, p) {
        TokenGroup::Delimiters(DelimitersGroup::LeftCurlyBracket) => {
            lemma_read_operator(s, p + 1);
            match advanced(s, p + 1, parse_operator(s, p + 1)) {
                Parsed::Done(op, q) => {
                    lemma_read_block_tail(s, q, seq![op]);
                },
                _ => {},
            }
        },
        TokenGroup::Keywords(KeywordsGroup::Let) => {
            match at(s, p + 1) {
                TokenGroup::Identifier(id) => {
                    lemma_read_assignment(s, p + 2, id);
                },
                _ => {},
            }
        },
        TokenGroup::Identifier(id) => {
            lemma_read_assignment(s, p + 1, id);
        },
        TokenGroup::Keywords(KeywordsGroup::If) => {
            lemma_read_if_parts(s, p + 1);
        },
        TokenGroup::Keywords(KeywordsGroup::For) => {
            lemma_read_for_parts(s, p + 1);
        },
        TokenGroup::Keywords(KeywordsGroup::Do) => {
            lemma_read_while_parts(s, p + 1);
        },
        TokenGroup::Keywords(KeywordsGroup::Input) => {
            if at(s, p + 1) == TokenGroup::Delimiters(DelimitersGroup::LeftParenthesis) {
                lemma_read_input(s, p + 2, Seq::empty());
            }
        },
        TokenGroup::Keywords(KeywordsGroup::Output) => {
            if at(s, p + 1) == TokenGroup::Delimiters(DelimitersGroup::LeftParenthesis) {
                lemma_read_output(s, p + 2, Seq::empty());
            }
        },
        _ => {},
    }
}

/// An assignment that was read is one that the grammar derives.
pub proof fn lemma_read_assignment(s: Seq<TokenGroup>, p: int, id: u64)
    ensures
        parse_assignment(s, p, id) matches Parsed::Done(op, _) ==> wf_operator(op),
{
    lemma_read_expression(s, p + 1);
    match parse_expression(s, p + 1) {
        Parsed::Done(e, _) => {
            lemma_spell_simple(OperatorView::Assignment(id, e));
        },
        _ => {},
    }
}

/// A group that was read has at least one identifier, and its type no
/// value.
pub proof fn lemma_read_group(s: Seq<TokenGroup>, p: int, ids: Seq<u64>)
    ensures
        parse_group(s, p, ids) matches Parsed::Done(g, _) ==> g.0.len() >= 1 && !g.1.has_value(),
    decreases s.len() - p,
{
    match at(s, p) {
        TokenGroup::Identifier(id) => match at(s, p + 1) {
            TokenGroup::Delimiters(DelimitersGroup::Comma) => {
                lemma_read_group(s, p + 2, ids.push(id));
            },
            _ => {},
        },
        _ => {},
    }
}

/// A declaration that was read is one that the grammar derives.
pub proof fn lemma_read_groups(s: Seq<TokenGroup>, p: int, gs: Seq<(Seq<u64>, ProgramTypes)>)
    requires
        gs.len() >= 1,
        forall|i: int| 0 <= i < gs.len() ==> (#[trigger] gs[i]).0.len() >= 1 && !gs[i].1.has_value(),
    ensures
        groups_tail(s, p, gs) matches Parsed::Done(m, _) ==> wf_main(m),
    decreases s.len() - p,
{
    if group_follows(s, p) {
        lemma_read_group(s, p + 1, Seq::empty());
        match advanced(s, p + 1, parse_group(s, p + 1, Seq::empty())) {
            Parsed::Done(g, q) => {
                lemma_read_groups(s, q, gs.push(g));
            },
            _ => {},
        }
    }
}

/// An entry that was read is one that the grammar derives.
pub proof fn lemma_read_main(s: Seq<TokenGroup>, p: int)
    ensures
        parse_main(s, p) matches Parsed::Done(m, _) ==> wf_main(m),
{
    reveal(parse_main);
    if at(s, p) == TokenGroup::Keywords(KeywordsGroup::Var) {
        lemma_read_group(s, p + 1, Seq::empty());
        match advanced(s, p + 1, parse_group(s, p + 1, Seq::empty())) {
            Parsed::Done(g, q) => {
                lemma_read_groups(s, q, seq![g]);
            },
            _ => {},
        }
    } else {
        lemma_read_operator(s, p);
    }
}

/// A program body that was read is one that the grammar derives.
pub proof fn lemma_read_body(s: Seq<TokenGroup>, p: int, ms: Seq<MainOperationView>)
    requires
        forall|i: int| 0 <= i < ms.len() ==> wf_main(#[trigger] ms[i]),
    ensures
        parse_body(s, p, ms) matches Parsed::Done(v, _) ==> wf_program(v),
    decreases s.len() - p,
{
    lemma_read_main(s, p);
    match advanced(s, p, parse_main(s, p)) {
        Parsed::Done(m, q) => match parse_separator(s, q) {
            Parsed::Done(closing, n) => {
                if !closing {
                    lemma_read_body(s, n, ms.push(m));
                }
            },
            _ => {},
        },
        _ => {},
    }
}

/// Every program that is read is one that the grammar derives.
pub proof fn read_programs_are_well_formed(s: Seq<TokenGroup>)
    ensures
        parse_program(s) matches Parsed::Done(ms, _) ==> wf_program(ms),
{
    lemma_read_body(s, 1, Seq::empty());
}

/// Writing down a program that was read and reading it again gives the
/// same program: for every stream of tokens that is accepted.
pub proof fn reading_again_gives_the_same(s: Seq<TokenGroup>)
    ensures
        parse_program(s) matches Parsed::Done(ms, _) ==> parse_program(spell_program(ms))
            == Parsed::Done(ms, spell_program(ms).len() - 1),
{
    read_programs_are_well_formed(s);
    match parse_program(s) {
        Parsed::Done(ms, _) => {
            written_programs_read_back(ms);
        },
        _ => {},
    }
}

} // verus!
