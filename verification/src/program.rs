//! The program tree that the syntax analyser builds.

use vstd::prelude::*;
use crate::types::{AdditionOperations, MultiplicationOperations, ProgramTypes, RelationOperations};

verus! {

/// One entry of a program body: a declaration of variables or a statement.
#[derive(Debug, PartialEq)]
pub enum MainOperation {
    /// Groups of identifiers, each group with its type.
    CreateVariable(Vec<(Vec<u64>, ProgramTypes)>),
    Operator(Operator),
}

/// A statement.
#[derive(Debug, PartialEq)]
pub enum Operator {
    /// A block of statements.
    Composite(Vec<Operator>),
    /// Assignment of an expression to an identifier.
    Assignment(u64, Expression),
    /// Condition, the statement for true, and the statement for false if
    /// there is one.
    If(Expression, Box<Operator>, Option<Box<Operator>>),
    /// The expressions of the loop header and the body.
    For(Vec<Expression>, Box<Operator>),
    /// Condition and body.
    While(Expression, Box<Operator>),
    /// The identifiers to read into.
    Input(Vec<u64>),
    /// The expressions to print.
    Output(Vec<Expression>),
}

/// Operands joined by comparison operators.
#[derive(Debug, PartialEq)]
pub struct Expression {
    pub operands: Vec<Operand>,
    pub operations: Vec<RelationOperations>,
}

/// Terms joined by additive operators.
#[derive(Debug, PartialEq)]
pub struct Operand {
    pub terms: Vec<Term>,
    pub operations: Vec<AdditionOperations>,
}

/// Multipliers joined by multiplicative operators.
#[derive(Debug, PartialEq)]
pub struct Term {
    pub multipliers: Vec<Multiplier>,
    pub operations: Vec<MultiplicationOperations>,
}

/// A primary expression.
#[derive(Debug, PartialEq)]
pub enum Multiplier {
    /// An identifier, by its number.
    Identifier(u64),
    /// A numeric literal, by its number.
    Variable(u64),
    Boolean(bool),
    /// Negation of a multiplier.
    Not(Box<Multiplier>),
    /// An expression in parentheses.
    Expression(Expression),
}

} // verus!

verus! {

/// What a [`Multiplier`] stands for.
pub enum MultiplierView {
    Identifier(u64),
    Variable(u64),
    Boolean(bool),
    Not(Box<MultiplierView>),
    Expression(ExpressionView),
}

/// What a [`Term`] stands for.
pub struct TermView {
    pub multipliers: Seq<MultiplierView>,
    pub operations: Seq<MultiplicationOperations>,
}

/// What an [`Operand`] stands for.
pub struct OperandView {
    pub terms: Seq<TermView>,
    pub operations: Seq<AdditionOperations>,
}

/// What an [`Expression`] stands for.
pub struct ExpressionView {
    pub operands: Seq<OperandView>,
    pub operations: Seq<RelationOperations>,
}

/// What an [`Operator`] stands for.
pub enum OperatorView {
    Composite(Seq<OperatorView>),
    Assignment(u64, ExpressionView),
    If(ExpressionView, Box<OperatorView>, Option<Box<OperatorView>>),
    For(Seq<ExpressionView>, Box<OperatorView>),
    While(ExpressionView, Box<OperatorView>),
    Input(Seq<u64>),
    Output(Seq<ExpressionView>),
}

/// What a [`MainOperation`] stands for.
pub enum MainOperationView {
    CreateVariable(Seq<(Seq<u64>, ProgramTypes)>),
    Operator(OperatorView),
}

/// What a multiplier stands for.
pub open spec fn multiplier_view(m: Multiplier) -> MultiplierView
    decreases m,
{
    match m {
        Multiplier::Identifier(id) => MultiplierView::Identifier(id),
        Multiplier::Variable(id) => MultiplierView::Variable(id),
        Multiplier::Boolean(b) => MultiplierView::Boolean(b),
        Multiplier::Not(inner) => MultiplierView::Not(Box::new(multiplier_view(*inner))),
        Multiplier::Expression(e) => MultiplierView::Expression(expression_view(e)),
    }
}

/// What a term stands for.
pub open spec fn term_view(t: Term) -> TermView
    decreases t,
{
    TermView {
        multipliers: Seq::new(
            t.multipliers@.len(),
            |i: int|
                if 0 <= i < t.multipliers@.len() {
                    multiplier_view(t.multipliers@[i])
                } else {
                    arbitrary()
                },
        ),
        operations: t.operations@,
    }
}

/// What an operand stands for.
pub open spec fn operand_view(o: Operand) -> OperandView
    decreases o,
{
    OperandView {
        terms: Seq::new(
            o.terms@.len(),
            |i: int|
                if 0 <= i < o.terms@.len() {
                    term_view(o.terms@[i])
                } else {
                    arbitrary()
                },
        ),
        operations: o.operations@,
    }
}

/// What an expression stands for.
pub open spec fn expression_view(e: Expression) -> ExpressionView
    decreases e,
{
    ExpressionView {
        operands: Seq::new(
            e.operands@.len(),
            |i: int|
                if 0 <= i < e.operands@.len() {
                    operand_view(e.operands@[i])
                } else {
                    arbitrary()
                },
        ),
        operations: e.operations@,
    }
}

/// What a statement stands for.
pub open spec fn operator_view(op: Operator) -> OperatorView
    decreases op,
{
    match op {
        Operator::Composite(ops) => OperatorView::Composite(
            Seq::new(
                ops@.len(),
                |i: int|
                    if 0 <= i < ops@.len() {
                        operator_view(ops@[i])
                    } else {
                        arbitrary()
                    },
            ),
        ),
        Operator::Assignment(id, e) => OperatorView::Assignment(id, expression_view(e)),
        Operator::If(c, a, b) => OperatorView::If(
            expression_view(c),
            Box::new(operator_view(*a)),
            match b {
                Some(b) => Some(Box::new(operator_view(*b))),
                None => None,
            },
        ),
        Operator::For(es, body) => OperatorView::For(
            Seq::new(es@.len(), |i: int| expression_view(es@[i])),
            Box::new(operator_view(*body)),
        ),
        Operator::While(c, body) => OperatorView::While(
            expression_view(c),
            Box::new(operator_view(*body)),
        ),
        Operator::Input(ids) => OperatorView::Input(ids@),
        Operator::Output(es) => OperatorView::Output(
            Seq::new(es@.len(), |i: int| expression_view(es@[i])),
        ),
    }
}

impl View for Multiplier {
    type V = MultiplierView;

    open spec fn view(&self) -> MultiplierView {
        multiplier_view(*self)
    }
}

impl View for Term {
    type V = TermView;

    open spec fn view(&self) -> TermView {
        term_view(*self)
    }
}

impl View for Operand {
    type V = OperandView;

    open spec fn view(&self) -> OperandView {
        operand_view(*self)
    }
}

impl View for Expression {
    type V = ExpressionView;

    open spec fn view(&self) -> ExpressionView {
        expression_view(*self)
    }
}

impl View for Operator {
    type V = OperatorView;

    open spec fn view(&self) -> OperatorView {
        operator_view(*self)
    }
}

impl View for MainOperation {
    type V = MainOperationView;

    open spec fn view(&self) -> MainOperationView {
        match *self {
            MainOperation::CreateVariable(groups) => MainOperationView::CreateVariable(
                Seq::new(groups@.len(), |i: int| (groups@[i].0@, groups@[i].1)),
            ),
            MainOperation::Operator(op) => MainOperationView::Operator(op@),
        }
    }
}

} // verus!

verus! {

/// A copy of a multiplier.
pub fn clone_multiplier(m: &Multiplier) -> (r: Multiplier)
    ensures
        r@ == m@,
    decreases *m, 0nat,
{
    match m {
        Multiplier::Identifier(id) => Multiplier::Identifier(*id),
        Multiplier::Variable(id) => Multiplier::Variable(*id),
        Multiplier::Boolean(b) => Multiplier::Boolean(*b),
        Multiplier::Not(inner) => Multiplier::Not(Box::new(clone_multiplier(inner))),
        Multiplier::Expression(e) => Multiplier::Expression(clone_expression(e)),
    }
}

/// A copy of a term.
pub fn clone_term(t: &Term) -> (r: Term)
    ensures
        r@ == t@,
    decreases *t, 1nat,
{
    let mut multipliers: Vec<Multiplier> = Vec::new();
    let mut i: usize = 0;
    while i < t.multipliers.len()
        invariant
            i <= t.multipliers@.len(),
            multipliers@.len() == i,
            forall|k: int| 0 <= k < i ==> (#[trigger] multipliers@[k])@ == t.multipliers@[k]@,
        decreases t.multipliers@.len() - i,
    {
        assert(decreases_to!(*t => t.multipliers));
        assert(decreases_to!(t.multipliers => t.multipliers[i as int]));
        multipliers.push(clone_multiplier(&t.multipliers[i]));
        i += 1;
    }
    let mut operations: Vec<MultiplicationOperations> = Vec::new();
    let mut j: usize = 0;
    while j < t.operations.len()
        invariant
            j <= t.operations@.len(),
            operations@ == t.operations@.subrange(0, j as int),
        decreases t.operations@.len() - j,
    {
        operations.push(t.operations[j]);
        j += 1;
        assert(operations@ =~= t.operations@.subrange(0, j as int));
    }
    assert(operations@ =~= t.operations@);
    let r = Term { multipliers, operations };
    assert(r@.multipliers =~= t@.multipliers);
    r
}

/// A copy of an operand.
pub fn clone_operand(o: &Operand) -> (r: Operand)
    ensures
        r@ == o@,
    decreases *o, 1nat,
{
    let mut terms: Vec<Term> = Vec::new();
    let mut i: usize = 0;
    while i < o.terms.len()
        invariant
            i <= o.terms@.len(),
            terms@.len() == i,
            forall|k: int| 0 <= k < i ==> (#[trigger] terms@[k])@ == o.terms@[k]@,
        decreases o.terms@.len() - i,
    {
        assert(decreases_to!(*o => o.terms));
        assert(decreases_to!(o.terms => o.terms[i as int]));
        terms.push(clone_term(&o.terms[i]));
        i += 1;
    }
    let mut operations: Vec<AdditionOperations> = Vec::new();
    let mut j: usize = 0;
    while j < o.operations.len()
        invariant
            j <= o.operations@.len(),
            operations@ == o.operations@.subrange(0, j as int),
        decreases o.operations@.len() - j,
    {
        operations.push(o.operations[j]);
        j += 1;
        assert(operations@ =~= o.operations@.subrange(0, j as int));
    }
    assert(operations@ =~= o.operations@);
    let r = Operand { terms, operations };
    assert(r@.terms =~= o@.terms);
    r
}

/// A copy of an expression.
pub fn clone_expression(e: &Expression) -> (r: Expression)
    ensures
        r@ == e@,
    decreases *e, 1nat,
{
    let mut operands: Vec<Operand> = Vec::new();
    let mut i: usize = 0;
    while i < e.operands.len()
        invariant
            i <= e.operands@.len(),
            operands@.len() == i,
            forall|k: int| 0 <= k < i ==> (#[trigger] operands@[k])@ == e.operands@[k]@,
        decreases e.operands@.len() - i,
    {
        assert(decreases_to!(*e => e.operands));
        assert(decreases_to!(e.operands => e.operands[i as int]));
        operands.push(clone_operand(&e.operands[i]));
        i += 1;
    }
    let mut operations: Vec<RelationOperations> = Vec::new();
    let mut j: usize = 0;
    while j < e.operations.len()
        invariant
            j <= e.operations@.len(),
            operations@ == e.operations@.subrange(0, j as int),
        decreases e.operations@.len() - j,
    {
        operations.push(e.operations[j]);
        j += 1;
        assert(operations@ =~= e.operations@.subrange(0, j as int));
    }
    assert(operations@ =~= e.operations@);
    let r = Expression { operands, operations };
    assert(r@.operands =~= e@.operands);
    r
}

/// A copy of a list of expressions.
fn clone_expressions(es: &Vec<Expression>) -> (r: Vec<Expression>)
    ensures
        r@.len() == es@.len(),
        forall|k: int| 0 <= k < es@.len() ==> (#[trigger] r@[k])@ == es@[k]@,
{
    let mut copy: Vec<Expression> = Vec::new();
    let mut i: usize = 0;
    while i < es.len()
        invariant
            i <= es@.len(),
            copy@.len() == i,
            forall|k: int| 0 <= k < i ==> (#[trigger] copy@[k])@ == es@[k]@,
        decreases es@.len() - i,
    {
        copy.push(clone_expression(&es[i]));
        i += 1;
    }
    copy
}

/// A copy of a list of numbers.
fn clone_numbers(ids: &Vec<u64>) -> (r: Vec<u64>)
    ensures
        r@ == ids@,
{
    let mut copy: Vec<u64> = Vec::new();
    let mut i: usize = 0;
    while i < ids.len()
        invariant
            i <= ids@.len(),
            copy@ == ids@.subrange(0, i as int),
        decreases ids@.len() - i,
    {
        copy.push(ids[i]);
        i += 1;
        assert(copy@ =~= ids@.subrange(0, i as int));
    }
    assert(copy@ =~= ids@);
    copy
}

/// A copy of a statement.
pub fn clone_operator(op: &Operator) -> (r: Operator)
    ensures
        r@ == op@,
    decreases *op,
{
    match op {
        Operator::Composite(ops) => {
            let mut copy: Vec<Operator> = Vec::new();
            let mut i: usize = 0;
            while i < ops.len()
                invariant
                    i <= ops@.len(),
                    *op is Composite,
                    op->Composite_0 == *ops,
                    copy@.len() == i,
                    forall|k: int| 0 <= k < i ==> (#[trigger] copy@[k])@ == ops@[k]@,
                decreases ops@.len() - i,
            {
                assert(decreases_to!(*op => op->Composite_0));
                assert(decreases_to!(ops => ops[i as int]));
                copy.push(clone_operator(&ops[i]));
                i += 1;
            }
            let r = Operator::Composite(copy);
            assert(r@->Composite_0 =~= op@->Composite_0);
            r
        },
        Operator::Assignment(id, e) => Operator::Assignment(*id, clone_expression(e)),
        Operator::If(c, a, b) => Operator::If(
            clone_expression(c),
            Box::new(clone_operator(a)),
            match b {
                Some(b) => Some(Box::new(clone_operator(b))),
                None => None,
            },
        ),
        Operator::For(es, body) => {
            let r = Operator::For(clone_expressions(es), Box::new(clone_operator(body)));
            assert(r@->For_0 =~= op@->For_0);
            r
        },
        Operator::While(c, body) => Operator::While(
            clone_expression(c),
            Box::new(clone_operator(body)),
        ),
        Operator::Input(ids) => Operator::Input(clone_numbers(ids)),
        Operator::Output(es) => {
            let r = Operator::Output(clone_expressions(es));
            assert(r@->Output_0 =~= op@->Output_0);
            r
        },
    }
}

/// A copy of an entry of the program body.
pub fn clone_main(m: &MainOperation) -> (r: MainOperation)
    ensures
        r@ == m@,
{
    match m {
        MainOperation::CreateVariable(groups) => {
            let mut copy: Vec<(Vec<u64>, ProgramTypes)> = Vec::new();
            let mut i: usize = 0;
            while i < groups.len()
                invariant
                    i <= groups@.len(),
                    copy@.len() == i,
                    forall|k: int|
                        0 <= k < i ==> (#[trigger] copy@[k]).0@ == groups@[k].0@ && copy@[k].1
                            == groups@[k].1,
                decreases groups@.len() - i,
            {
                copy.push((clone_numbers(&groups[i].0), groups[i].1));
                i += 1;
            }
            let r = MainOperation::CreateVariable(copy);
            assert(r@->CreateVariable_0 =~= m@->CreateVariable_0);
            r
        },
        MainOperation::Operator(op) => MainOperation::Operator(clone_operator(op)),
    }
}

impl Clone for Multiplier {
    fn clone(&self) -> (r: Multiplier)
        ensures
            r@ == self@,
    {
        clone_multiplier(self)
    }
}

impl Clone for Term {
    fn clone(&self) -> (r: Term)
        ensures
            r@ == self@,
    {
        clone_term(self)
    }
}

impl Clone for Operand {
    fn clone(&self) -> (r: Operand)
        ensures
            r@ == self@,
    {
        clone_operand(self)
    }
}

impl Clone for Expression {
    fn clone(&self) -> (r: Expression)
        ensures
            r@ == self@,
    {
        clone_expression(self)
    }
}

impl Clone for Operator {
    fn clone(&self) -> (r: Operator)
        ensures
            r@ == self@,
    {
        clone_operator(self)
    }
}

impl Clone for MainOperation {
    fn clone(&self) -> (r: MainOperation)
        ensures
            r@ == self@,
    {
        clone_main(self)
    }
}

} // verus!
