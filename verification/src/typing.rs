//! The typing rules of the language, and that the semantic analyser accepts
//! exactly the programs that follow them.

use vstd::prelude::*;
use crate::grammar::{
    lemma_spell_composite, lemma_spell_for, lemma_spell_if, lemma_spell_simple,
    lemma_spell_while, wf_expression, wf_main, wf_multiplier, wf_operand, wf_operator,
    wf_program, wf_term,
};
use crate::program::{
    ExpressionView, MainOperationView, MultiplierView, OperandView, OperatorView, TermView,
};
use crate::semantic::{
    block_rest, compile_condition, compile_expression, compile_header, compile_loop,
    compile_main, compile_multiplier, compile_operand, compile_operator, compile_program,
    compile_term, declare_groups, expression_rest, header_rest, input_rest, operand_rest,
    output_rest, program_rest, term_rest, valued, Code, Compiled, Ctx, Env,
};
use crate::types::{AdditionOperations, Kind, LexerDigitalData, MultiplicationOperations};

verus! {

/// The type of a multiplier, if it has one: an identifier is declared and
/// has a value, a literal has a value, and `!` takes a boolean.
pub open spec fn types_multiplier(m: MultiplierView, c: Ctx) -> Option<Kind>
    decreases m, 0nat,
{
    match m {
        MultiplierView::Identifier(id) => if c.env.contains_key(id) && c.env[id].has_value() {
            Some(c.env[id].kind())
        } else {
            None
        },
        MultiplierView::Variable(id) => if c.lits.contains_key(id) {
            Some(
                match c.lits[id] {
                    LexerDigitalData::Float(_) => Kind::Real,
                    LexerDigitalData::Integer(_) => Kind::Integer,
                },
            )
        } else {
            None
        },
        MultiplierView::Boolean(_) => Some(Kind::Boolean),
        MultiplierView::Not(inner) => if types_multiplier(*inner, c) == Some(Kind::Boolean) {
            Some(Kind::Boolean)
        } else {
            None
        },
        MultiplierView::Expression(e) => types_expression(e, c),
    }
}

/// The type of a term, if it has one: all its multipliers have one type,
/// `&&` joins booleans only, and `*` and `/` join numbers only.
pub open spec fn types_term(t: TermView, c: Ctx) -> Option<Kind>
    decreases t, 1nat,
{
    if t.multipliers.len() == 0 {
        None
    } else {
        match types_multiplier(t.multipliers[0], c) {
            Some(k) => if forall|j: int|
                1 <= j < t.multipliers.len() ==> types_multiplier(#[trigger] t.multipliers[j], c)
                    == Some(k) && ((k == Kind::Boolean) == (t.operations[j - 1]
                    == MultiplicationOperations::And)) {
                Some(k)
            } else {
                None
            },
            None => None,
        }
    }
}

/// The type of an operand, if it has one: all its terms have one type,
/// `||` joins booleans only, and `+` and `-` join numbers only.
pub open spec fn types_operand(o: OperandView, c: Ctx) -> Option<Kind>
    decreases o, 1nat,
{
    if o.terms.len() == 0 {
        None
    } else {
        match types_term(o.terms[0], c) {
            Some(k) => if forall|j: int|
                1 <= j < o.terms.len() ==> types_term(#[trigger] o.terms[j], c) == Some(k) && ((k
                    == Kind::Boolean) == (o.operations[j - 1] == AdditionOperations::Or)) {
                Some(k)
            } else {
                None
            },
            None => None,
        }
    }
}

/// The type of an expression, if it has one. Without a relation it is the
/// type of its operand. A relation takes two sides of one type and gives a
/// boolean, so the first two operands have one type, and every further
/// operand is a boolean.
pub open spec fn types_expression(e: ExpressionView, c: Ctx) -> Option<Kind>
    decreases e, 1nat,
{
    if e.operands.len() == 0 {
        None
    } else {
        match types_operand(e.operands[0], c) {
            Some(k) => if e.operands.len() <= 1 {
                Some(k)
            } else if types_operand(e.operands[1], c) == Some(k) && forall|j: int|
                2 <= j < e.operands.len() ==> types_operand(#[trigger] e.operands[j], c) == Some(
                    Kind::Boolean,
                ) {
                Some(Kind::Boolean)
            } else {
                None
            },
            None => None,
        }
    }
}

/// The analyser gives a multiplier a type exactly if the rules do, and then
/// the same one.
pub proof fn lemma_types_multiplier(m: MultiplierView, c: Ctx, at: int)
    requires
        wf_multiplier(m),
    ensures
        match compile_multiplier(m, c, at) {
            Compiled::Done(k, _) => types_multiplier(m, c) == Some(k),
            Compiled::Failed(_) => types_multiplier(m, c) is None,
        },
    decreases m, 0nat,
{
    match m {
        MultiplierView::Not(inner) => {
            lemma_types_multiplier(*inner, c, at);
        },
        MultiplierView::Expression(e) => {
            lemma_types_expression(e, c, at);
        },
        _ => {},
    }
}

/// The rules for the multipliers of a term from the `i`-th on.
pub open spec fn term_from(t: TermView, i: int, k: Kind, c: Ctx) -> bool {
    forall|j: int|
        i <= j < t.multipliers.len() ==> types_multiplier(#[trigger] t.multipliers[j], c) == Some(k)
            && ((k == Kind::Boolean) == (t.operations[j - 1] == MultiplicationOperations::And))
}

/// The analyser accepts the rest of a term exactly if it follows the rules.
pub proof fn lemma_types_term_rest(t: TermView, i: int, k: Kind, c: Ctx, at: int, acc: Code)
    requires
        wf_term(t),
        1 <= i <= t.multipliers.len(),
    ensures
        match term_rest(t, i, k, c, at, acc) {
            Compiled::Done(k2, _) => k2 == k && term_from(t, i, k, c),
            Compiled::Failed(_) => !term_from(t, i, k, c),
        },
    decreases t, t.multipliers.len() - i,
{
    if i < t.multipliers.len() {
        let m = t.multipliers[i];
        assert(wf_multiplier(m));
        lemma_types_multiplier(m, c, at + acc.len() + 1);
        match compile_multiplier(m, c, at + acc.len() + 1) {
            Compiled::Done(k2, code) => {
                let op = t.operations[i - 1];
                if (k2 == Kind::Boolean) != (op == MultiplicationOperations::And) || k2 != k {
                    assert(!(types_multiplier(t.multipliers[i], c) == Some(k) && ((k
                        == Kind::Boolean) == (t.operations[i - 1]
                        == MultiplicationOperations::And))));
                } else {
                    let loaded = acc.with(crate::semantic::push_rax()).with(code).with(
                        crate::semantic::pop_rbx(),
                    );
                    let next = loaded.with(
                        crate::semantic::multiplication_code(k2, op, c.reserve, at + loaded.len()),
                    );
                    lemma_types_term_rest(t, i + 1, k, c, at, next);
                    if term_from(t, i + 1, k, c) {
                        assert forall|j: int| i <= j < t.multipliers.len() implies types_multiplier(
                            #[trigger] t.multipliers[j],
                            c,
                        ) == Some(k) && ((k == Kind::Boolean) == (t.operations[j - 1]
                            == MultiplicationOperations::And)) by {
                            if j > i {
                                assert(i + 1 <= j);
                            }
                        }
                    } else {
                        let j = choose|j: int|
                            i + 1 <= j < t.multipliers.len() && !(types_multiplier(
                                #[trigger] t.multipliers[j],
                                c,
                            ) == Some(k) && ((k == Kind::Boolean) == (t.operations[j - 1]
                                == MultiplicationOperations::And)));
                        assert(i <= j);
                    }
                }
            },
            Compiled::Failed(_) => {
                assert(!(types_multiplier(t.multipliers[i], c) == Some(k)));
            },
        }
    }
}

/// The analyser gives a term a type exactly if the rules do, and then the
/// same one.
pub proof fn lemma_types_term(t: TermView, c: Ctx, at: int)
    requires
        wf_term(t),
    ensures
        match compile_term(t, c, at) {
            Compiled::Done(k, _) => types_term(t, c) == Some(k),
            Compiled::Failed(_) => types_term(t, c) is None,
        },
    decreases t, t.multipliers.len() + 1,
{
    let m = t.multipliers[0];
    assert(wf_multiplier(m));
    lemma_types_multiplier(m, c, at);
    match compile_multiplier(m, c, at) {
        Compiled::Done(k, code) => {
            lemma_types_term_rest(t, 1, k, c, at, code);
        },
        _ => {},
    }
}

/// The rules for the terms of an operand from the `i`-th on.
pub open spec fn operand_from(o: OperandView, i: int, k: Kind, c: Ctx) -> bool {
    forall|j: int|
        i <= j < o.terms.len() ==> types_term(#[trigger] o.terms[j], c) == Some(k) && ((k
            == Kind::Boolean) == (o.operations[j - 1] == AdditionOperations::Or))
}

/// The analyser accepts the rest of an operand exactly if it follows the
/// rules.
pub proof fn lemma_types_operand_rest(o: OperandView, i: int, k: Kind, c: Ctx, at: int, acc: Code)
    requires
        wf_operand(o),
        1 <= i <= o.terms.len(),
    ensures
        match operand_rest(o, i, k, c, at, acc) {
            Compiled::Done(k2, _) => k2 == k && operand_from(o, i, k, c),
            Compiled::Failed(_) => !operand_from(o, i, k, c),
        },
    decreases o, o.terms.len() - i,
{
    if i < o.terms.len() {
        let t = o.terms[i];
        assert(wf_term(t));
        lemma_types_term(t, c, at + acc.len() + 1);
        match compile_term(t, c, at + acc.len() + 1) {
            Compiled::Done(k2, code) => {
                let op = o.operations[i - 1];
                if (k2 == Kind::Boolean) != (op == AdditionOperations::Or) || k2 != k {
                    assert(!(types_term(o.terms[i], c) == Some(k) && ((k == Kind::Boolean) == (
                    o.operations[i - 1] == AdditionOperations::Or))));
                } else {
                    let loaded = acc.with(crate::semantic::push_rax()).with(code).with(
                        crate::semantic::pop_rbx(),
                    );
                    let next = loaded.with(
                        crate::semantic::addition_code(k2, op, c.reserve, at + loaded.len()),
                    );
                    lemma_types_operand_rest(o, i + 1, k, c, at, next);
                    if operand_from(o, i + 1, k, c) {
                        assert forall|j: int| i <= j < o.terms.len() implies types_term(
                            #[trigger] o.terms[j],
                            c,
                        ) == Some(k) && ((k == Kind::Boolean) == (o.operations[j - 1]
                            == AdditionOperations::Or)) by {
                            if j > i {
                                assert(i + 1 <= j);
                            }
                        }
                    } else {
                        let j = choose|j: int|
                            i + 1 <= j < o.terms.len() && !(types_term(#[trigger] o.terms[j], c)
                                == Some(k) && ((k == Kind::Boolean) == (o.operations[j - 1]
                                == AdditionOperations::Or)));
                        assert(i <= j);
                    }
                }
            },
            Compiled::Failed(_) => {
                assert(!(types_term(o.terms[i], c) == Some(k)));
            },
        }
    }
}

/// The analyser gives an operand a type exactly if the rules do, and then
/// the same one.
pub proof fn lemma_types_operand(o: OperandView, c: Ctx, at: int)
    requires
        wf_operand(o),
    ensures
        match compile_operand(o, c, at) {
            Compiled::Done(k, _) => types_operand(o, c) == Some(k),
            Compiled::Failed(_) => types_operand(o, c) is None,
        },
    decreases o, o.terms.len() + 1,
{
    let t = o.terms[0];
    assert(wf_term(t));
    lemma_types_term(t, c, at);
    match compile_term(t, c, at) {
        Compiled::Done(k, code) => {
            lemma_types_operand_rest(o, 1, k, c, at, code);
        },
        _ => {},
    }
}

/// The rules for the operands of an expression from the `i`-th on, where
/// what stands before has the type `cur`.
pub open spec fn expression_from(e: ExpressionView, i: int, cur: Kind, c: Ctx) -> bool {
    i < e.operands.len() ==> types_operand(e.operands[i], c) == Some(cur) && forall|j: int|
        i < j < e.operands.len() ==> types_operand(#[trigger] e.operands[j], c) == Some(
            Kind::Boolean,
        )
}

/// The analyser accepts the rest of an expression exactly if it follows
/// the rules.
pub proof fn lemma_types_expression_rest(
    e: ExpressionView,
    i: int,
    cur: Kind,
    c: Ctx,
    at: int,
    acc: Code,
)
    requires
        wf_expression(e),
        1 <= i <= e.operands.len(),
    ensures
        match expression_rest(e, i, cur, c, at, acc) {
            Compiled::Done(k, _) => expression_from(e, i, cur, c) && k == if i
                < e.operands.len() {
                Kind::Boolean
            } else {
                cur
            },
            Compiled::Failed(_) => !expression_from(e, i, cur, c),
        },
    decreases e, e.operands.len() - i,
{
    if i < e.operands.len() {
        let o = e.operands[i];
        assert(wf_operand(o));
        lemma_types_operand(o, c, at + acc.len() + 1);
        match compile_operand(o, c, at + acc.len() + 1) {
            Compiled::Done(k2, code) => {
                if k2 == cur {
                    let op = e.operations[i - 1];
                    let loaded = acc.with(crate::semantic::push_rax()).with(code).with(
                        crate::semantic::pop_rbx(),
                    );
                    let next = loaded.with(
                        crate::semantic::comparison_code(k2, op, c.reserve, at + loaded.len()),
                    );
                    lemma_types_expression_rest(e, i + 1, Kind::Boolean, c, at, next);
                    if expression_from(e, i + 1, Kind::Boolean, c) {
                        assert forall|j: int| i < j < e.operands.len() implies types_operand(
                            #[trigger] e.operands[j],
                            c,
                        ) == Some(Kind::Boolean) by {
                            if j > i + 1 {
                                assert(i + 1 < j);
                            }
                        }
                    } else {
                        if types_operand(e.operands[i + 1], c) == Some(Kind::Boolean) {
                            let j = choose|j: int|
                                i + 1 < j < e.operands.len() && types_operand(
                                    #[trigger] e.operands[j],
                                    c,
                                ) != Some(Kind::Boolean);
                            assert(i < j);
                        }
                    }
                }
            },
            Compiled::Failed(_) => {},
        }
    }
}

/// The analyser gives an expression a type exactly if the rules do, and
/// then the same one.
pub proof fn lemma_types_expression(e: ExpressionView, c: Ctx, at: int)
    requires
        wf_expression(e),
    ensures
        match compile_expression(e, c, at) {
            Compiled::Done(k, _) => types_expression(e, c) == Some(k),
            Compiled::Failed(_) => types_expression(e, c) is None,
        },
    decreases e, e.operands.len() + 1,
{
    let o = e.operands[0];
    assert(wf_operand(o));
    lemma_types_operand(o, c, at);
    match compile_operand(o, c, at) {
        Compiled::Done(k, code) => {
            lemma_types_expression_rest(e, 1, k, c, at, code);
            if e.operands.len() > 1 {
                if expression_from(e, 1, k, c) {
                    assert forall|j: int| 2 <= j < e.operands.len() implies types_operand(
                        #[trigger] e.operands[j],
                        c,
                    ) == Some(Kind::Boolean) by {
                        assert(1 < j);
                    }
                } else {
                    if types_operand(e.operands[1], c) == Some(k) {
                        let j = choose|j: int|
                            1 < j < e.operands.len() && types_operand(#[trigger] e.operands[j], c)
                                != Some(Kind::Boolean);
                        assert(2 <= j);
                    }
                }
            }
        },
        _ => {},
    }
}

} // verus!

verus! {

/// The variables after the identifiers of an `input` from the `i`-th on, if
/// each is declared: it has a value from then on.
pub open spec fn types_input(ids: Seq<u64>, i: int, env: Env) -> Option<Env>
    decreases ids.len() - i,
{
    if i < 0 || i >= ids.len() {
        Some(env)
    } else if !env.contains_key(ids[i]) {
        None
    } else {
        types_input(ids, i + 1, env.insert(ids[i], valued(env[ids[i]].kind())))
    }
}

/// The variables after the statements of a block from the `i`-th on, if
/// each follows the rules.
pub open spec fn types_block(ops: Seq<OperatorView>, i: int, c: Ctx) -> Option<Env>
    decreases ops, ops.len() - i,
{
    if i < 0 || i >= ops.len() {
        Some(c.env)
    } else {
        match types_operator(ops[i], c) {
            Some(env) => types_block(ops, i + 1, Ctx { env, ..c }),
            None => None,
        }
    }
}

/// The variables after a statement, if it follows the rules: an expression
/// is assigned to a declared variable of its type, which has a value from
/// then on; what is printed has a type; what is read into is declared; and
/// every condition is a boolean.
pub open spec fn types_operator(op: OperatorView, c: Ctx) -> Option<Env>
    decreases op, 0nat,
{
    match op {
        OperatorView::Assignment(id, e) => match types_expression(e, c) {
            Some(k) => if c.env.contains_key(id) && c.env[id].kind() == k {
                Some(c.env.insert(id, valued(k)))
            } else {
                None
            },
            None => None,
        },
        OperatorView::Composite(ops) => types_block(ops, 0, c),
        OperatorView::Output(es) => if forall|i: int|
            0 <= i < es.len() ==> types_expression(#[trigger] es[i], c) is Some {
            Some(c.env)
        } else {
            None
        },
        OperatorView::Input(ids) => types_input(ids, 0, c.env),
        OperatorView::If(cond, a, b) => if types_expression(cond, c) == Some(Kind::Boolean) {
            match types_operator(*a, c) {
                Some(env) => match b {
                    Some(b) => types_operator(*b, Ctx { env, ..c }),
                    None => Some(env),
                },
                None => None,
            }
        } else {
            None
        },
        OperatorView::For(es, body) => if forall|i: int|
            0 <= i < es.len() ==> types_expression(#[trigger] es[i], c) == Some(Kind::Boolean) {
            types_operator(*body, c)
        } else {
            None
        },
        OperatorView::While(cond, body) => if types_expression(cond, c) == Some(Kind::Boolean) {
            types_operator(*body, c)
        } else {
            None
        },
    }
}

/// The variables after an entry of the program, if it follows the rules: a
/// declaration declares no identifier twice.
pub open spec fn types_main(m: MainOperationView, c: Ctx) -> Option<Env> {
    match m {
        MainOperationView::CreateVariable(gs) => match declare_groups(gs, 0, c.env) {
            Ok(env) => Some(env),
            Err(_) => None,
        },
        MainOperationView::Operator(op) => types_operator(op, c),
    }
}

/// The variables after the entries of a program from the `i`-th on, if
/// each follows the rules.
pub open spec fn types_program(ms: Seq<MainOperationView>, i: int, c: Ctx) -> Option<Env>
    decreases ms.len() - i,
{
    if i < 0 || i >= ms.len() {
        Some(c.env)
    } else {
        match types_main(ms[i], c) {
            Some(env) => types_program(ms, i + 1, Ctx { env, ..c }),
            None => None,
        }
    }
}

/// `a` is the outcome that the rules give.
pub open spec fn same(a: Compiled<Env>, b: Option<Env>) -> bool {
    match a {
        Compiled::Done(env, _) => b == Some(env),
        Compiled::Failed(_) => b is None,
    }
}

/// The analyser accepts a condition exactly if it is a boolean.
pub proof fn lemma_types_condition(e: ExpressionView, c: Ctx, at: int)
    requires
        wf_expression(e),
    ensures
        compile_condition(e, c, at) is Done <==> types_expression(e, c) == Some(Kind::Boolean),
{
    lemma_types_expression(e, c, at);
}

/// The analyser accepts the identifiers of an `input` exactly if each is
/// declared.
pub proof fn lemma_types_input(ids: Seq<u64>, i: int, c: Ctx, at: int, acc: Code)
    requires
        0 <= i <= ids.len(),
    ensures
        same(input_rest(ids, i, c, at, acc), types_input(ids, i, c.env)),
    decreases ids.len() - i,
{
    if i < ids.len() && c.env.contains_key(ids[i]) {
        let k = c.env[ids[i]].kind();
        lemma_types_input(
            ids,
            i + 1,
            Ctx { env: c.env.insert(ids[i], valued(k)), ..c },
            at,
            acc.with(crate::semantic::input_code(ids[i], k, c.reserve, at + acc.len())),
        );
    }
}

/// The analyser accepts the expressions of an `output` exactly if each has
/// a type.
pub proof fn lemma_types_output(es: Seq<ExpressionView>, i: int, c: Ctx, at: int, acc: Code)
    requires
        0 <= i <= es.len(),
        forall|k: int| 0 <= k < es.len() ==> wf_expression(#[trigger] es[k]),
    ensures
        match output_rest(es, i, c, at, acc) {
            Compiled::Done(env, _) => env == c.env && forall|k: int|
                i <= k < es.len() ==> types_expression(#[trigger] es[k], c) is Some,
            Compiled::Failed(_) => exists|k: int|
                i <= k < es.len() && types_expression(#[trigger] es[k], c) is None,
        },
    decreases es.len() - i,
{
    if i < es.len() {
        assert(wf_expression(es[i]));
        lemma_types_expression(es[i], c, at + acc.len());
        match compile_expression(es[i], c, at + acc.len()) {
            Compiled::Done(k, code) => {
                let computed = acc.with(code);
                let next = computed.with(
                    crate::semantic::print_code(k, c.reserve, at + computed.len()),
                );
                lemma_types_output(es, i + 1, c, at, next);
                match output_rest(es, i + 1, c, at, next) {
                    Compiled::Done(_, _) => {
                        assert forall|k: int| i <= k < es.len() implies types_expression(
                            #[trigger] es[k],
                            c,
                        ) is Some by {
                            if k > i {
                                assert(i + 1 <= k);
                            }
                        }
                    },
                    Compiled::Failed(_) => {
                        let k = choose|k: int|
                            i + 1 <= k < es.len() && types_expression(#[trigger] es[k], c) is None;
                        assert(i <= k);
                    },
                }
            },
            Compiled::Failed(_) => {
                assert(types_expression(es[i], c) is None);
            },
        }
    }
}

/// The analyser accepts the rest of a `for` header exactly if each
/// expression is a boolean.
pub proof fn lemma_types_header_rest(es: Seq<ExpressionView>, i: int, c: Ctx, at: int, acc: Code)
    requires
        1 <= i <= es.len(),
        forall|k: int| 0 <= k < es.len() ==> wf_expression(#[trigger] es[k]),
    ensures
        header_rest(es, i, c, at, acc) is Done <==> forall|k: int|
            i <= k < es.len() ==> types_expression(#[trigger] es[k], c) == Some(Kind::Boolean),
    decreases es.len() - i,
{
    if i < es.len() {
        assert(wf_expression(es[i]));
        lemma_types_expression(es[i], c, at + acc.len() + 1);
        match compile_expression(es[i], c, at + acc.len() + 1) {
            Compiled::Done(k, code) => {
                if k == Kind::Boolean {
                    let next = acc.with(crate::semantic::push_rax()).with(code).with(
                        crate::semantic::pop_rbx(),
                    ).with(crate::semantic::alu(0x48, 0x39, 0xd8)).with(
                        crate::semantic::alu(0x48, 0x21, 0xd8),
                    );
                    lemma_types_header_rest(es, i + 1, c, at, next);
                    if header_rest(es, i + 1, c, at, next) is Done {
                        assert forall|k: int| i <= k < es.len() implies types_expression(
                            #[trigger] es[k],
                            c,
                        ) == Some(Kind::Boolean) by {
                            if k > i {
                                assert(i + 1 <= k);
                            }
                        }
                    } else {
                        let k = choose|k: int|
                            i + 1 <= k < es.len() && types_expression(#[trigger] es[k], c)
                                != Some(Kind::Boolean);
                        assert(i <= k);
                    }
                } else {
                    assert(types_expression(es[i], c) != Some(Kind::Boolean));
                }
            },
            Compiled::Failed(_) => {
                assert(types_expression(es[i], c) != Some(Kind::Boolean));
            },
        }
    }
}

/// The analyser accepts a `for` header exactly if each expression is a
/// boolean.
pub proof fn lemma_types_header(es: Seq<ExpressionView>, c: Ctx, at: int)
    requires
        forall|k: int| 0 <= k < es.len() ==> wf_expression(#[trigger] es[k]),
    ensures
        compile_header(es, c, at) is Done <==> forall|k: int|
            0 <= k < es.len() ==> types_expression(#[trigger] es[k], c) == Some(Kind::Boolean),
{
    if es.len() > 0 {
        assert(wf_expression(es[0]));
        lemma_types_condition(es[0], c, at);
        match compile_condition(es[0], c, at) {
            Compiled::Done(_, code) => {
                lemma_types_header_rest(es, 1, c, at, code);
                if header_rest(es, 1, c, at, code) is Done {
                    assert forall|k: int| 0 <= k < es.len() implies types_expression(
                        #[trigger] es[k],
                        c,
                    ) == Some(Kind::Boolean) by {
                        if k > 0 {
                            assert(1 <= k);
                        }
                    }
                } else {
                    let k = choose|k: int|
                        1 <= k < es.len() && types_expression(#[trigger] es[k], c) != Some(
                            Kind::Boolean,
                        );
                    assert(0 <= k);
                }
            },
            Compiled::Failed(_) => {
                assert(types_expression(es[0], c) != Some(Kind::Boolean));
            },
        }
    }
}

} // verus!

verus! {

/// The analyser accepts the rest of a block exactly if it follows the
/// rules.
pub proof fn lemma_types_block(ops: Seq<OperatorView>, i: int, c: Ctx, at: int, acc: Code)
    requires
        0 <= i <= ops.len(),
        forall|k: int| 0 <= k < ops.len() ==> wf_operator(#[trigger] ops[k]),
    ensures
        same(block_rest(ops, i, c, at, acc), types_block(ops, i, c)),
    decreases ops, ops.len() - i,
{
    if i < ops.len() {
        assert(wf_operator(ops[i]));
        lemma_types_operator(ops[i], c, at + acc.len());
        match compile_operator(ops[i], c, at + acc.len()) {
            Compiled::Done(env, code) => {
                lemma_types_block(ops, i + 1, Ctx { env, ..c }, at, acc.with(code));
            },
            _ => {},
        }
    }
}

/// The analyser accepts the body of a loop exactly if it follows the
/// rules.
pub proof fn lemma_types_loop(cond: Code, body: OperatorView, c: Ctx, at: int)
    requires
        wf_operator(body),
    ensures
        same(compile_loop(cond, body, c, at), types_operator(body, c)),
    decreases body, 2nat,
{
    lemma_types_operator(body, c, at + cond.len() + 9);
}

/// The analyser accepts an `if` exactly if it follows the rules.
pub proof fn lemma_types_if(op: OperatorView, c: Ctx, at: int)
    requires
        op is If,
        wf_operator(op),
    ensures
        same(compile_operator(op, c, at), types_operator(op, c)),
    decreases op, 0nat,
{
    let cond = op->If_0;
    let a = op->If_1;
    let b = op->If_2;
    lemma_spell_if(cond, a, b);
    lemma_types_condition(cond, c, at);
    match compile_condition(cond, c, at) {
        Compiled::Done(_, c1) => {
            lemma_types_operator(*a, c, at + c1.len() + 9);
            match compile_operator(*a, c, at + c1.len() + 9) {
                Compiled::Done(env1, ca) => match b {
                    Some(b) => {
                        lemma_types_operator(
                            *b,
                            Ctx { env: env1, ..c },
                            at + c1.len() + 9 + ca.len() + 5,
                        );
                    },
                    None => {},
                },
                _ => {},
            }
        },
        _ => {},
    }
}

/// The analyser accepts a statement exactly if it follows the rules, and
/// then the variables after it are those that the rules give.
pub proof fn lemma_types_operator(op: OperatorView, c: Ctx, at: int)
    requires
        wf_operator(op),
    ensures
        same(compile_operator(op, c, at), types_operator(op, c)),
    decreases op, 1nat,
{
    match op {
        OperatorView::Assignment(id, e) => {
            lemma_spell_simple(op);
            lemma_types_expression(e, c, at);
        },
        OperatorView::Composite(ops) => {
            lemma_spell_composite(ops);
            lemma_types_block(ops, 0, c, at, Code::nothing());
        },
        OperatorView::Output(es) => {
            lemma_spell_simple(op);
            lemma_types_output(es, 0, c, at, Code::nothing());
        },
        OperatorView::Input(ids) => {
            lemma_types_input(ids, 0, c, at, Code::nothing());
        },
        OperatorView::If(_, _, _) => {
            lemma_types_if(op, c, at);
        },
        OperatorView::For(es, body) => {
            lemma_spell_for(es, body);
            assert forall|k: int| 0 <= k < es.len() implies wf_expression(#[trigger] es[k]) by {
                if k == 0 {
                } else if k == 1 {
                } else {
                    assert(k == 2);
                }
            }
            lemma_types_header(es, c, at);
            match compile_header(es, c, at) {
                Compiled::Done(_, cond) => {
                    lemma_types_loop(cond, *body, c, at);
                },
                _ => {},
            }
        },
        OperatorView::While(cond, body) => {
            lemma_spell_while(cond, body);
            lemma_types_condition(cond, c, at);
            match compile_condition(cond, c, at) {
                Compiled::Done(_, code) => {
                    lemma_types_loop(code, *body, c, at);
                },
                _ => {},
            }
        },
    }
}

/// The analyser accepts the rest of a program exactly if it follows the
/// rules.
pub proof fn lemma_types_program(ms: Seq<MainOperationView>, i: int, c: Ctx, at: int, acc: Code)
    requires
        0 <= i <= ms.len(),
        forall|k: int| 0 <= k < ms.len() ==> wf_main(#[trigger] ms[k]),
    ensures
        same(program_rest(ms, i, c, at, acc), types_program(ms, i, c)),
    decreases ms.len() - i,
{
    if i < ms.len() {
        assert(wf_main(ms[i]));
        match ms[i] {
            MainOperationView::Operator(op) => {
                lemma_types_operator(op, c, at + acc.len());
            },
            _ => {},
        }
        match compile_main(ms[i], c, at + acc.len()) {
            Compiled::Done(env, code) => {
                lemma_types_program(ms, i + 1, Ctx { env, ..c }, at, acc.with(code));
            },
            _ => {},
        }
    }
}

/// The semantic analyser accepts a program exactly if the program follows
/// the typing rules: every identifier is declared once and before it is
/// used, and has a value before it is read; every literal has a value;
/// every operator gets operands of the types it takes; and every condition
/// is a boolean. The variables after an accepted program are those that
/// the rules give. This holds of every program that the grammar derives,
/// at every offset of the code.
pub proof fn accepted_programs_follow_the_rules(ms: Seq<MainOperationView>, c: Ctx, at: int)
    requires
        wf_program(ms),
    ensures
        match compile_program(ms, c, at) {
            Compiled::Done(env, _) => types_program(ms, 0, c) == Some(env),
            Compiled::Failed(_) => types_program(ms, 0, c) is None,
        },
{
    lemma_types_program(ms, 0, c, at, crate::semantic::prologue());
}

} // verus!
