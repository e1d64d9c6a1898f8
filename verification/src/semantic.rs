//! The semantic analyser: it checks the types of a program and, while it
//! does, emits x86-64 machine code with a list of relocations.

use std::collections::HashMap;
use vstd::prelude::*;
use crate::bytes::{le_bytes, lemma_le_len, lemma_low_bytes, push_le, push_le_signed};
use crate::program::{
    Expression, ExpressionView, MainOperation, MainOperationView, Multiplier, MultiplierView,
    Operand, OperandView, Operator, OperatorView, Term, TermView,
};
use crate::syntax::program_view;
use crate::types::{
    AdditionOperations, Kind, LexerDigitalData, MultiplicationOperations, ProgramTypes,
    RelationOperations,
};

verus! {

/// Why a program is rejected.
#[derive(Debug, PartialEq)]
pub enum SemanticError {
    /// The identifier is not declared, or is read before it has a value; or
    /// the literal with this number has no value.
    NotDeclared(u64),
    AlreadyDeclared(u64),
    /// The two sides of an operator differ in type: the type of the left
    /// side, then that of the right one.
    TypeMismatch(ProgramTypes, ProgramTypes),
    /// An expression of the first type is assigned to a variable of the
    /// second.
    AssignTypeMismatch(ProgramTypes, ProgramTypes),
    /// The operator, named as it is written, does not take the type.
    InvalidOperation(ProgramTypes, String),
    /// A condition has this type.
    NotBoolean(ProgramTypes),
}

/// What a [`SemanticError`] stands for.
pub enum SemanticErrorView {
    NotDeclared(u64),
    AlreadyDeclared(u64),
    TypeMismatch(ProgramTypes, ProgramTypes),
    AssignTypeMismatch(ProgramTypes, ProgramTypes),
    InvalidOperation(ProgramTypes, Seq<char>),
    NotBoolean(ProgramTypes),
}

impl View for SemanticError {
    type V = SemanticErrorView;

    open spec fn view(&self) -> SemanticErrorView {
        match *self {
            SemanticError::NotDeclared(id) => SemanticErrorView::NotDeclared(id),
            SemanticError::AlreadyDeclared(id) => SemanticErrorView::AlreadyDeclared(
                id,
            ),
            SemanticError::TypeMismatch(a, b) => SemanticErrorView::TypeMismatch(a, b),
            SemanticError::AssignTypeMismatch(a, b) => SemanticErrorView::AssignTypeMismatch(a, b),
            SemanticError::InvalidOperation(t, o) => SemanticErrorView::InvalidOperation(t, o@),
            SemanticError::NotBoolean(t) => SemanticErrorView::NotBoolean(t),
        }
    }
}

/// The outcome of a step of the analyser.
pub type SemanticResult<T> = Result<T, SemanticError>;

/// A type as errors name it: without a value.
pub open spec fn plain(k: Kind) -> ProgramTypes {
    match k {
        Kind::Integer => ProgramTypes::Integer(None),
        Kind::Real => ProgramTypes::Float(None),
        Kind::Boolean => ProgramTypes::Boolean(None),
    }
}

/// The type of a variable that has been given a value.
pub open spec fn valued(k: Kind) -> ProgramTypes {
    match k {
        Kind::Integer => ProgramTypes::Integer(Some(0)),
        Kind::Real => ProgramTypes::Float(Some(0)),
        Kind::Boolean => ProgramTypes::Boolean(Some(false)),
    }
}

/// Machine code with the relocations that patch it. A relocation is the
/// number of the symbol, the offset of the patched field in the whole text,
/// and whether the field has 8 bytes (else 4).
pub struct Code {
    pub bytes: Seq<u8>,
    pub relocs: Seq<(u64, u64, bool)>,
}

impl Code {
    /// No code.
    pub open spec fn nothing() -> Code {
        Code { bytes: Seq::empty(), relocs: Seq::empty() }
    }

    /// This code followed by `next`.
    pub open spec fn with(self, next: Code) -> Code {
        Code { bytes: self.bytes + next.bytes, relocs: self.relocs + next.relocs }
    }

    /// The number of bytes.
    pub open spec fn len(self) -> int {
        self.bytes.len() as int
    }
}

/// Code without relocations.
pub open spec fn raw(bytes: Seq<u8>) -> Code {
    Code { bytes, relocs: Seq::empty() }
}

/// Code that stands at offset `at` and ends with a field of 4 bytes that
/// the address of the symbol `id` is patched into.
pub open spec fn patched(bytes: Seq<u8>, id: u64, at: int) -> Code {
    Code { bytes, relocs: seq![(id, (at + bytes.len() - 4) as u64, false)] }
}

/// Code that stands at offset `at` and ends with a field of 8 bytes that
/// the address of the symbol `id` is patched into.
pub open spec fn patched_wide(bytes: Seq<u8>, id: u64, at: int) -> Code {
    Code { bytes, relocs: seq![(id, (at + bytes.len() - 8) as u64, true)] }
}

/// `sub rsp, 8`: the entry of `main`.
pub open spec fn prologue() -> Code {
    raw(seq![0x48, 0x83, 0xec, 0x08])
}

/// `mov eax, 60; xor rdi, rdi; syscall`: exit with status 0.
pub open spec fn epilogue() -> Code {
    raw(seq![0xb8, 0x3c, 0x00, 0x00, 0x00, 0x48, 0x31, 0xff, 0x0f, 0x05])
}

/// `mov rax, imm64`
pub open spec fn mov_rax(v: int) -> Code {
    raw(seq![0x48, 0xb8] + le_bytes(v, 8))
}

/// Loads a boolean: all bits set for true, none for false.
pub open spec fn load_bool(b: bool) -> Code {
    mov_rax(
        if b {
            -1
        } else {
            0
        },
    )
}

/// `mov rax, [id]`
pub open spec fn load_ident(id: u64, at: int) -> Code {
    patched(seq![0x48, 0x8b, 0x04, 0x25, 0, 0, 0, 0], id, at)
}

/// `mov [id], rax`
pub open spec fn store_ident(id: u64, at: int) -> Code {
    patched(seq![0x48, 0x89, 0x04, 0x25, 0, 0, 0, 0], id, at)
}

/// `push rax`
pub open spec fn push_rax() -> Code {
    raw(seq![0x50])
}

/// `pop rbx; xchg rax, rbx`: the left operand into `rax`, the right into
/// `rbx`.
pub open spec fn pop_rbx() -> Code {
    raw(seq![0x5b, 0x48, 0x93])
}

/// `finit; mov [scratch], rax; fld qword [scratch]; mov [scratch], rbx`,
/// where the scratch slot is the symbol `reserve`: 26 bytes.
pub open spec fn init_fpu(reserve: u64, at: int) -> Code {
    raw(seq![0x9b, 0xdb, 0xe3]).with(
        patched(seq![0x48, 0x89, 0x04, 0x25, 0, 0, 0, 0], reserve, at + 3),
    ).with(patched(seq![0xdd, 0x04, 0x25, 0, 0, 0, 0], reserve, at + 11)).with(
        patched(seq![0x48, 0x89, 0x1c, 0x25, 0, 0, 0, 0], reserve, at + 18),
    )
}

/// An x87 instruction on the scratch slot: the opcode, the ModRM byte, and
/// the address.
pub open spec fn fpu_op(opcode: u8, modrm: u8, reserve: u64, at: int) -> Code {
    patched(seq![opcode, modrm, 0x25, 0, 0, 0, 0], reserve, at)
}

/// `fstp qword [scratch]; mov rax, [scratch]`: 15 bytes.
pub open spec fn save_fpu_rax(reserve: u64, at: int) -> Code {
    fpu_op(0xdd, 0x1c, reserve, at).with(
        patched(seq![0x48, 0x8b, 0x04, 0x25, 0, 0, 0, 0], reserve, at + 7),
    )
}

/// Loads both operands into the x87 stack and compares them with `fcomi`:
/// 61 bytes.
pub open spec fn fcomi(reserve: u64, at: int) -> Code {
    init_fpu(reserve, at).with(fpu_op(0xdd, 0x04, reserve, at + 26)).with(raw(seq![0xdb, 0xf1]))
}

/// An instruction of three bytes on `rax` and `rbx`.
pub open spec fn alu(a: u8, b: u8, c: u8) -> Code {
    raw(seq![a, b, c])
}

/// The code that joins two terms of type `k`, both loaded, by `op`.
pub open spec fn addition_code(
    k: Kind,
    op: AdditionOperations,
    reserve: u64,
    at: int,
) -> Code {
    if k == Kind::Real {
        init_fpu(reserve, at).with(
            match op {
                AdditionOperations::Subtraction => fpu_op(0xdc, 0x24, reserve, at + 26),
                _ => fpu_op(0xdc, 0x04, reserve, at + 26),
            },
        ).with(save_fpu_rax(reserve, at + 33))
    } else {
        match op {
            AdditionOperations::Or => alu(0x48, 0x09, 0xd8),
            AdditionOperations::Addition => alu(0x48, 0x01, 0xd8),
            AdditionOperations::Subtraction => alu(0x48, 0x29, 0xd8),
        }
    }
}

/// The code that joins two multipliers of type `k`, both loaded, by `op`.
pub open spec fn multiplication_code(
    k: Kind,
    op: MultiplicationOperations,
    reserve: u64,
    at: int,
) -> Code {
    if k == Kind::Real {
        init_fpu(reserve, at).with(
            match op {
                MultiplicationOperations::Division => fpu_op(0xdc, 0x34, reserve, at + 26),
                _ => fpu_op(0xdc, 0x0c, reserve, at + 26),
            },
        ).with(save_fpu_rax(reserve, at + 33))
    } else {
        match op {
            MultiplicationOperations::And => alu(0x48, 0x21, 0xd8),
            MultiplicationOperations::Multiplication => alu(0x48, 0xf7, 0xeb),
            MultiplicationOperations::Division => alu(0x48, 0xf7, 0xfb),
        }
    }
}

/// The opcode of the short conditional jump that is taken when the relation
/// holds.
pub open spec fn jump_opcode(op: RelationOperations) -> u8 {
    match op {
        RelationOperations::Equal => 0x74,
        RelationOperations::NotEqual => 0x75,
        RelationOperations::Greater => 0x7f,
        RelationOperations::Less => 0x7c,
        RelationOperations::GreaterEqual => 0x7d,
        RelationOperations::LessEqual => 0x7e,
    }
}

/// The load of false, a jump over the next load, and the load of true: 22
/// bytes. A jump over the first 12 bytes gives true, falling in gives
/// false.
pub open spec fn false_or_true() -> Code {
    load_bool(false).with(raw(seq![0xeb, 10])).with(load_bool(true))
}

/// After a comparison: a short conditional jump that picks the boolean of
/// the relation: 24 bytes.
pub open spec fn relation_code(op: RelationOperations) -> Code {
    raw(seq![jump_opcode(op), 12]).with(false_or_true())
}

/// The comparison of two operands of type `k`, both loaded, and the boolean
/// of the relation `op`.
pub open spec fn comparison_code(
    k: Kind,
    op: RelationOperations,
    reserve: u64,
    at: int,
) -> Code {
    (if k == Kind::Real {
        init_fpu(reserve, at).with(fcomi(reserve, at + 26))
    } else {
        alu(0x48, 0x39, 0xd8)
    }).with(relation_code(op))
}

/// `test rax, rax; jz` over `skip` bytes: 9 bytes.
pub open spec fn jump_if_zero(skip: int) -> Code {
    raw(seq![0x48, 0x85, 0xc0, 0x0f, 0x84] + le_bytes(skip, 4))
}

/// `jmp` over `skip` bytes, back if `skip` is negative: 5 bytes.
pub open spec fn jump(skip: int) -> Code {
    raw(seq![0xe9] + le_bytes(skip, 4))
}

/// The call of `scanf` that reads the variable `id` of type `k`, at offset
/// `at`. A boolean is then brought to the form all bits or none.
pub open spec fn input_code(id: u64, k: Kind, reserve: u64, at: int) -> Code {
    let call = patched_wide(
        seq![0x48, 0xbf, 0, 0, 0, 0, 0, 0, 0, 0],
        if k == Kind::Real {
            (reserve + 3) as u64
        } else {
            (reserve + 1) as u64
        },
        at,
    ).with(patched_wide(seq![0x48, 0xbe, 0, 0, 0, 0, 0, 0, 0, 0], id, at + 10)).with(
        patched(seq![0xe8, 0, 0, 0, 0], (reserve + 5) as u64, at + 20),
    );
    if k == Kind::Boolean {
        call.with(load_ident(id, at + 25)).with(raw(seq![0x48, 0x85, 0xc0, 0x74, 12])).with(
            load_bool(true),
        ).with(raw(seq![0xeb, 10])).with(load_bool(false)).with(store_ident(id, at + 60))
    } else {
        call
    }
}

/// The call of `printf` that prints the value of type `k` in `rax`, at
/// offset `at`. A real number goes through the scratch slot into `xmm0`.
pub open spec fn print_code(k: Kind, reserve: u64, at: int) -> Code {
    if k == Kind::Real {
        patched_wide(seq![0x48, 0xbf, 0, 0, 0, 0, 0, 0, 0, 0], (reserve + 4) as u64, at).with(
            raw(seq![0x48, 0xbe, 0, 0, 0, 0, 0, 0, 0, 0]),
        ).with(store_ident(reserve, at + 20)).with(
            patched(
                seq![0xb8, 0x01, 0x00, 0x00, 0x00, 0xf2, 0x0f, 0x10, 0x04, 0x25, 0, 0, 0, 0],
                reserve,
                at + 28,
            ),
        ).with(patched(seq![0xe8, 0, 0, 0, 0], (reserve + 6) as u64, at + 42))
    } else {
        patched_wide(seq![0x48, 0xbf, 0, 0, 0, 0, 0, 0, 0, 0], (reserve + 2) as u64, at).with(
            raw(seq![0x48, 0x89, 0xc6, 0x48, 0x31, 0xc0]),
        ).with(patched(seq![0xe8, 0, 0, 0, 0], (reserve + 6) as u64, at + 16))
    }
}

} // verus!

verus! {

/// The declared variables, each with its type; the type holds a value once
/// the variable has been assigned or read into.
pub type Env = Map<u64, ProgramTypes>;

/// What the analyser works with: the declared variables, the values of the
/// literals, and the number of the scratch slot. The six symbols of the
/// runtime are numbered after it: the format strings `%ld`, `%ld\n`, `%lf`
/// and `%lf\n`, then `scanf` and `printf`.
pub struct Ctx {
    pub env: Env,
    pub lits: Map<u64, LexerDigitalData>,
    pub reserve: u64,
}

/// The outcome of analysing a part of a program: a result with the code
/// emitted for the part, or the first error.
pub enum Compiled<T> {
    Done(T, Code),
    Failed(SemanticErrorView),
}

/// The type of a multiplier and the code that loads its value into `rax`.
pub open spec fn compile_multiplier(m: MultiplierView, c: Ctx, at: int) -> Compiled<Kind>
    decreases m, 0nat,
{
    match m {
        MultiplierView::Identifier(id) => if c.env.contains_key(id) && c.env[id].has_value() {
            Compiled::Done(c.env[id].kind(), load_ident(id, at))
        } else {
            Compiled::Failed(SemanticErrorView::NotDeclared(id))
        },
        MultiplierView::Boolean(b) => Compiled::Done(Kind::Boolean, load_bool(b)),
        MultiplierView::Variable(id) => if c.lits.contains_key(id) {
            match c.lits[id] {
                LexerDigitalData::Float(bits) => Compiled::Done(Kind::Real, mov_rax(bits as int)),
                LexerDigitalData::Integer(v) => Compiled::Done(Kind::Integer, mov_rax(v as int)),
            }
        } else {
            Compiled::Failed(SemanticErrorView::NotDeclared(id))
        },
        MultiplierView::Expression(e) => compile_expression(e, c, at),
        MultiplierView::Not(inner) => match compile_multiplier(*inner, c, at) {
            Compiled::Done(k, code) => if k == Kind::Boolean {
                Compiled::Done(Kind::Boolean, code.with(alu(0x48, 0xf7, 0xd0)))
            } else {
                Compiled::Failed(SemanticErrorView::InvalidOperation(plain(k), "!"@))
            },
            Compiled::Failed(e) => Compiled::Failed(e),
        },
    }
}

/// The multipliers of a term from the `i`-th on. The first has the type
/// `k1`, and `acc` is the code so far, which starts at `at`. `&&` joins
/// booleans only, `*` and `/` numbers only, and both sides have one type.
pub open spec fn term_rest(t: TermView, i: int, k1: Kind, c: Ctx, at: int, acc: Code) -> Compiled<
    Kind,
>
    decreases t, t.multipliers.len() - i,
{
    if i < 1 || i >= t.multipliers.len() || i > t.operations.len() {
        Compiled::Done(k1, acc)
    } else {
        let op = t.operations[i - 1];
        match compile_multiplier(t.multipliers[i], c, at + acc.len() + 1) {
            Compiled::Failed(e) => Compiled::Failed(e),
            Compiled::Done(k, code) => if (k == Kind::Boolean) != (op
                == MultiplicationOperations::And) {
                Compiled::Failed(SemanticErrorView::InvalidOperation(plain(k), op.symbol()))
            } else if k != k1 {
                Compiled::Failed(SemanticErrorView::TypeMismatch(plain(k1), plain(k)))
            } else {
                let loaded = acc.with(push_rax()).with(code).with(pop_rbx());
                term_rest(
                    t,
                    i + 1,
                    k1,
                    c,
                    at,
                    loaded.with(multiplication_code(k, op, c.reserve, at + loaded.len())),
                )
            },
        }
    }
}

/// The type of a term and the code that computes it into `rax`.
pub open spec fn compile_term(t: TermView, c: Ctx, at: int) -> Compiled<Kind>
    decreases t, t.multipliers.len() + 1,
{
    if t.multipliers.len() == 0 {
        Compiled::Done(Kind::Boolean, Code::nothing())
    } else {
        match compile_multiplier(t.multipliers[0], c, at) {
            Compiled::Failed(e) => Compiled::Failed(e),
            Compiled::Done(k1, code) => term_rest(t, 1, k1, c, at, code),
        }
    }
}

/// The terms of an operand from the `i`-th on. `||` joins booleans only,
/// `+` and `-` numbers only, and both sides have one type.
pub open spec fn operand_rest(
    o: OperandView,
    i: int,
    k1: Kind,
    c: Ctx,
    at: int,
    acc: Code,
) -> Compiled<Kind>
    decreases o, o.terms.len() - i,
{
    if i < 1 || i >= o.terms.len() || i > o.operations.len() {
        Compiled::Done(k1, acc)
    } else {
        let op = o.operations[i - 1];
        match compile_term(o.terms[i], c, at + acc.len() + 1) {
            Compiled::Failed(e) => Compiled::Failed(e),
            Compiled::Done(k, code) => if (k == Kind::Boolean) != (op == AdditionOperations::Or) {
                Compiled::Failed(SemanticErrorView::InvalidOperation(plain(k), op.symbol()))
            } else if k != k1 {
                Compiled::Failed(SemanticErrorView::TypeMismatch(plain(k1), plain(k)))
            } else {
                let loaded = acc.with(push_rax()).with(code).with(pop_rbx());
                operand_rest(
                    o,
                    i + 1,
                    k1,
                    c,
                    at,
                    loaded.with(addition_code(k, op, c.reserve, at + loaded.len())),
                )
            },
        }
    }
}

/// The type of an operand and the code that computes it into `rax`.
pub open spec fn compile_operand(o: OperandView, c: Ctx, at: int) -> Compiled<Kind>
    decreases o, o.terms.len() + 1,
{
    if o.terms.len() == 0 {
        Compiled::Done(Kind::Boolean, Code::nothing())
    } else {
        match compile_term(o.terms[0], c, at) {
            Compiled::Failed(e) => Compiled::Failed(e),
            Compiled::Done(k1, code) => operand_rest(o, 1, k1, c, at, code),
        }
    }
}

/// The operands of an expression from the `i`-th on; what stands before
/// has the type `cur`. A relation takes two sides of one type and gives a
/// boolean.
pub open spec fn expression_rest(
    e: ExpressionView,
    i: int,
    cur: Kind,
    c: Ctx,
    at: int,
    acc: Code,
) -> Compiled<Kind>
    decreases e, e.operands.len() - i,
{
    if i < 1 || i >= e.operands.len() || i > e.operations.len() {
        Compiled::Done(cur, acc)
    } else {
        let op = e.operations[i - 1];
        match compile_operand(e.operands[i], c, at + acc.len() + 1) {
            Compiled::Failed(err) => Compiled::Failed(err),
            Compiled::Done(k, code) => if k != cur {
                Compiled::Failed(SemanticErrorView::TypeMismatch(plain(cur), plain(k)))
            } else {
                let loaded = acc.with(push_rax()).with(code).with(pop_rbx());
                expression_rest(
                    e,
                    i + 1,
                    Kind::Boolean,
                    c,
                    at,
                    loaded.with(comparison_code(k, op, c.reserve, at + loaded.len())),
                )
            },
        }
    }
}

/// The type of an expression and the code that computes it into `rax`.
pub open spec fn compile_expression(e: ExpressionView, c: Ctx, at: int) -> Compiled<Kind>
    decreases e, e.operands.len() + 1,
{
    if e.operands.len() == 0 {
        Compiled::Done(Kind::Boolean, Code::nothing())
    } else {
        match compile_operand(e.operands[0], c, at) {
            Compiled::Failed(err) => Compiled::Failed(err),
            Compiled::Done(k1, code) => expression_rest(e, 1, k1, c, at, code),
        }
    }
}

/// The expressions of an `output` from the `i`-th on: each is computed and
/// printed.
pub open spec fn output_rest(es: Seq<ExpressionView>, i: int, c: Ctx, at: int, acc: Code) -> Compiled<
    Env,
>
    decreases es.len() - i,
{
    if i < 0 || i >= es.len() {
        Compiled::Done(c.env, acc)
    } else {
        match compile_expression(es[i], c, at + acc.len()) {
            Compiled::Failed(err) => Compiled::Failed(err),
            Compiled::Done(k, code) => {
                let computed = acc.with(code);
                output_rest(
                    es,
                    i + 1,
                    c,
                    at,
                    computed.with(print_code(k, c.reserve, at + computed.len())),
                )
            },
        }
    }
}

/// The identifiers of an `input` from the `i`-th on: each must be declared,
/// is read into, and has a value from then on.
pub open spec fn input_rest(ids: Seq<u64>, i: int, c: Ctx, at: int, acc: Code) -> Compiled<Env>
    decreases ids.len() - i,
{
    if i < 0 || i >= ids.len() {
        Compiled::Done(c.env, acc)
    } else if !c.env.contains_key(ids[i]) {
        Compiled::Failed(SemanticErrorView::NotDeclared(ids[i]))
    } else {
        let k = c.env[ids[i]].kind();
        input_rest(
            ids,
            i + 1,
            Ctx { env: c.env.insert(ids[i], valued(k)), ..c },
            at,
            acc.with(input_code(ids[i], k, c.reserve, at + acc.len())),
        )
    }
}

/// The expressions of a `for` header from the `i`-th on: each is a boolean,
/// and it is joined to those before it by `and`.
pub open spec fn header_rest(es: Seq<ExpressionView>, i: int, c: Ctx, at: int, acc: Code) -> Compiled<
    Kind,
>
    decreases es.len() - i,
{
    if i < 1 || i >= es.len() {
        Compiled::Done(Kind::Boolean, acc)
    } else {
        match compile_expression(es[i], c, at + acc.len() + 1) {
            Compiled::Failed(err) => Compiled::Failed(err),
            Compiled::Done(k, code) => if k != Kind::Boolean {
                Compiled::Failed(SemanticErrorView::NotBoolean(plain(k)))
            } else {
                header_rest(
                    es,
                    i + 1,
                    c,
                    at,
                    acc.with(push_rax()).with(code).with(pop_rbx()).with(alu(0x48, 0x39, 0xd8)).with(
                        alu(0x48, 0x21, 0xd8),
                    ),
                )
            },
        }
    }
}

/// A condition: an expression that must be a boolean.
pub open spec fn compile_condition(e: ExpressionView, c: Ctx, at: int) -> Compiled<Kind> {
    match compile_expression(e, c, at) {
        Compiled::Failed(err) => Compiled::Failed(err),
        Compiled::Done(k, code) => if k != Kind::Boolean {
            Compiled::Failed(SemanticErrorView::NotBoolean(plain(k)))
        } else {
            Compiled::Done(k, code)
        },
    }
}

/// The condition of a `for`: all expressions of its header hold. A header
/// without expressions is true.
pub open spec fn compile_header(es: Seq<ExpressionView>, c: Ctx, at: int) -> Compiled<Kind> {
    if es.len() == 0 {
        Compiled::Done(Kind::Boolean, load_bool(true))
    } else {
        match compile_condition(es[0], c, at) {
            Compiled::Failed(err) => Compiled::Failed(err),
            Compiled::Done(_, code) => header_rest(es, 1, c, at, code),
        }
    }
}

/// A loop whose condition has the code `cond`, at `at`: the condition, a
/// jump over the body if it is false, the body, and a jump back to the
/// condition.
pub open spec fn compile_loop(cond: Code, body: OperatorView, c: Ctx, at: int) -> Compiled<Env>
    decreases body, 1nat,
{
    match compile_operator(body, c, at + cond.len() + 9) {
        Compiled::Failed(err) => Compiled::Failed(err),
        Compiled::Done(env, code) => Compiled::Done(
            env,
            cond.with(jump_if_zero(code.len() + 5)).with(code).with(
                jump(-(cond.len() + 9 + code.len() + 5)),
            ),
        ),
    }
}

/// The statements of a block from the `i`-th on, one after the other.
pub open spec fn block_rest(ops: Seq<OperatorView>, i: int, c: Ctx, at: int, acc: Code) -> Compiled<
    Env,
>
    decreases ops, ops.len() - i,
{
    if i < 0 || i >= ops.len() {
        Compiled::Done(c.env, acc)
    } else {
        match compile_operator(ops[i], c, at + acc.len()) {
            Compiled::Failed(err) => Compiled::Failed(err),
            Compiled::Done(env, code) => block_rest(
                ops,
                i + 1,
                Ctx { env, ..c },
                at,
                acc.with(code),
            ),
        }
    }
}

/// The variables after a statement, and the code of the statement at
/// offset `at`.
pub open spec fn compile_operator(op: OperatorView, c: Ctx, at: int) -> Compiled<Env>
    decreases op, 0nat,
{
    match op {
        OperatorView::Assignment(id, e) => match compile_expression(e, c, at) {
            Compiled::Failed(err) => Compiled::Failed(err),
            Compiled::Done(k, code) => if !c.env.contains_key(id) {
                Compiled::Failed(SemanticErrorView::NotDeclared(id))
            } else if c.env[id].kind() != k {
                Compiled::Failed(
                    SemanticErrorView::AssignTypeMismatch(plain(k), plain(c.env[id].kind())),
                )
            } else {
                Compiled::Done(
                    c.env.insert(id, valued(k)),
                    code.with(store_ident(id, at + code.len())),
                )
            },
        },
        OperatorView::Composite(ops) => block_rest(ops, 0, c, at, Code::nothing()),
        OperatorView::Output(es) => output_rest(es, 0, c, at, Code::nothing()),
        OperatorView::Input(ids) => input_rest(ids, 0, c, at, Code::nothing()),
        OperatorView::If(cond, a, b) => match compile_condition(cond, c, at) {
            Compiled::Failed(err) => Compiled::Failed(err),
            Compiled::Done(_, c1) => match compile_operator(*a, c, at + c1.len() + 9) {
                Compiled::Failed(err) => Compiled::Failed(err),
                Compiled::Done(env1, ca) => match b {
                    None => Compiled::Done(env1, c1.with(jump_if_zero(ca.len())).with(ca)),
                    Some(b) => match compile_operator(
                        *b,
                        Ctx { env: env1, ..c },
                        at + c1.len() + 9 + ca.len() + 5,
                    ) {
                        Compiled::Failed(err) => Compiled::Failed(err),
                        Compiled::Done(env2, cb) => Compiled::Done(
                            env2,
                            c1.with(jump_if_zero(ca.len() + 5)).with(ca).with(jump(cb.len())).with(
                                cb,
                            ),
                        ),
                    },
                },
            },
        },
        OperatorView::For(es, body) => match compile_header(es, c, at) {
            Compiled::Failed(err) => Compiled::Failed(err),
            Compiled::Done(_, cond) => compile_loop(cond, *body, c, at),
        },
        OperatorView::While(cond, body) => match compile_condition(cond, c, at) {
            Compiled::Failed(err) => Compiled::Failed(err),
            Compiled::Done(_, code) => compile_loop(code, *body, c, at),
        },
    }
}

/// The variables after the identifiers of a declaration from the `i`-th on
/// were declared with the type `t`. None may be declared already.
pub open spec fn declare_ids(ids: Seq<u64>, i: int, t: ProgramTypes, env: Env) -> Result<
    Env,
    SemanticErrorView,
>
    decreases ids.len() - i,
{
    if i < 0 || i >= ids.len() {
        Ok(env)
    } else if env.contains_key(ids[i]) {
        Err(SemanticErrorView::AlreadyDeclared(ids[i]))
    } else {
        declare_ids(ids, i + 1, t, env.insert(ids[i], t))
    }
}

/// The variables after the groups of a declaration from the `i`-th on.
pub open spec fn declare_groups(gs: Seq<(Seq<u64>, ProgramTypes)>, i: int, env: Env) -> Result<
    Env,
    SemanticErrorView,
>
    decreases gs.len() - i,
{
    if i < 0 || i >= gs.len() {
        Ok(env)
    } else {
        match declare_ids(gs[i].0, 0, gs[i].1, env) {
            Ok(env2) => declare_groups(gs, i + 1, env2),
            Err(e) => Err(e),
        }
    }
}

/// The variables after one entry of the program, and its code: a
/// declaration has none.
pub open spec fn compile_main(m: MainOperationView, c: Ctx, at: int) -> Compiled<Env> {
    match m {
        MainOperationView::CreateVariable(gs) => match declare_groups(gs, 0, c.env) {
            Ok(env) => Compiled::Done(env, Code::nothing()),
            Err(e) => Compiled::Failed(e),
        },
        MainOperationView::Operator(op) => compile_operator(op, c, at),
    }
}

/// The entries of a program from the `i`-th on.
pub open spec fn program_rest(ms: Seq<MainOperationView>, i: int, c: Ctx, at: int, acc: Code) -> Compiled<
    Env,
>
    decreases ms.len() - i,
{
    if i < 0 || i >= ms.len() {
        Compiled::Done(c.env, acc)
    } else {
        match compile_main(ms[i], c, at + acc.len()) {
            Compiled::Failed(err) => Compiled::Failed(err),
            Compiled::Done(env, code) => program_rest(
                ms,
                i + 1,
                Ctx { env, ..c },
                at,
                acc.with(code),
            ),
        }
    }
}

/// A whole program at offset `at`: the entry of `main`, the entries of the
/// program, and the exit.
pub open spec fn compile_program(ms: Seq<MainOperationView>, c: Ctx, at: int) -> Compiled<Env> {
    match program_rest(ms, 0, c, at, prologue()) {
        Compiled::Failed(err) => Compiled::Failed(err),
        Compiled::Done(env, code) => Compiled::Done(env, code.with(epilogue())),
    }
}

} // verus!

verus! {

/// Whether every relocation of the code patches a field that lies inside
/// the code, which starts at offset `at`.
pub open spec fn within(code: Code, at: int) -> bool {
    forall|i: int|
        0 <= i < code.relocs.len() ==> at <= (#[trigger] code.relocs[i]).1 && code.relocs[i].1 + (
        if code.relocs[i].2 {
            8int
        } else {
            4int
        }) <= at + code.len()
}

/// The semantic analyser and code emitter.
pub struct Semantic {
    program: Vec<MainOperation>,
    identifiers: HashMap<u64, ProgramTypes>,
    /// The number of the scratch slot: the number of identifiers.
    pub reserve: u64,
    vars: HashMap<u64, LexerDigitalData>,
    /// The machine code emitted so far.
    pub machine_code: Vec<u8>,
    position: u64,
    /// The relocations of the code: the symbol, the offset of the field,
    /// and whether the field has 8 bytes (else 4).
    pub asm_idents: Vec<(u64, u64, bool)>,
}

impl Semantic {
    /// The code emitted so far, with its relocations.
    pub closed spec fn code(&self) -> Code {
        Code { bytes: self.machine_code@, relocs: self.asm_idents@ }
    }

    /// The declared variables.
    pub closed spec fn env(&self) -> Env {
        self.identifiers@
    }

    /// The values of the literals.
    pub closed spec fn literals(&self) -> Map<u64, LexerDigitalData> {
        self.vars@
    }

    /// The number of the scratch slot.
    pub closed spec fn scratch(&self) -> u64 {
        self.reserve
    }

    /// What the program to analyse stands for.
    pub closed spec fn tree(&self) -> Seq<MainOperationView> {
        program_view(self.program@)
    }

    /// What the analyser works with.
    pub open spec fn ctx(&self) -> Ctx {
        Ctx { env: self.env(), lits: self.literals(), reserve: self.scratch() }
    }

    /// The symbols of the runtime have numbers, the write cursor is at the
    /// end of the code, and every relocation patches a field inside the
    /// code.
    pub closed spec fn wf(&self) -> bool {
        &&& self.reserve <= u64::MAX - 6
        &&& self.position == self.machine_code@.len()
        &&& within(self.code(), 0)
    }

    /// Whether `self` is `before` with `code` emitted at the end, and
    /// nothing else changed.
    pub closed spec fn extends(&self, before: &Semantic, code: Code) -> bool {
        &&& self.machine_code@ == before.machine_code@ + code.bytes
        &&& self.asm_idents@ == before.asm_idents@ + code.relocs
        &&& self.identifiers == before.identifiers
        &&& self.vars == before.vars
        &&& self.program == before.program
        &&& self.reserve == before.reserve
    }

    /// The offset of the end of the code.
    pub closed spec fn end(&self) -> int {
        self.machine_code@.len() as int
    }

    /// Emitting nothing changes nothing, and emitting twice is emitting the
    /// two codes joined.
    proof fn lemma_extends(&self, middle: &Semantic, before: &Semantic, a: Code, b: Code)
        requires
            middle.extends(before, a),
            self.extends(middle, b),
        ensures
            self.extends(before, a.with(b)),
            middle.end() == before.end() + a.len(),
    {
        assert(self.machine_code@ =~= before.machine_code@ + a.with(b).bytes);
        assert(self.asm_idents@ =~= before.asm_idents@ + a.with(b).relocs);
    }

    /// Sets the write cursor to the end of the code.
    fn cur_pos(&mut self)
        ensures
            final(self).position == final(self).machine_code@.len(),
            final(self).machine_code == old(self).machine_code,
            final(self).asm_idents == old(self).asm_idents,
            final(self).identifiers == old(self).identifiers,
            final(self).vars == old(self).vars,
            final(self).program == old(self).program,
            final(self).reserve == old(self).reserve,
    {
        self.position = self.machine_code.len() as u64;
    }

    /// Emits bytes.
    fn emit(&mut self, bytes: Vec<u8>)
        requires
            old(self).wf(),
        ensures
            final(self).wf(),
            final(self).extends(old(self), raw(bytes@)),
    {
        let mut buffer = bytes;
        self.machine_code.append(&mut buffer);
        self.cur_pos();
        assert(self.asm_idents@ =~= old(self).asm_idents@ + raw(bytes@).relocs);
        assert(self.code().relocs == old(self).code().relocs);
    }

    /// Emits bytes that end with a field of 4 bytes for the address of the
    /// symbol `id`.
    fn emit_patched(&mut self, bytes: Vec<u8>, id: u64)
        requires
            old(self).wf(),
            bytes@.len() >= 4,
        ensures
            final(self).wf(),
            final(self).extends(old(self), patched(bytes@, id, old(self).end())),
    {
        let mut buffer = bytes;
        self.machine_code.append(&mut buffer);
        self.cur_pos();
        self.asm_idents.push((id, self.position - 4, false));
        assert(self.asm_idents@ =~= old(self).asm_idents@ + patched(
            bytes@,
            id,
            old(self).end(),
        ).relocs);
        proof {
            let relocs = self.code().relocs;
            let earlier = old(self).code().relocs;
            assert forall|i: int| 0 <= i < relocs.len() implies 0 <= (#[trigger] relocs[i]).1
                && relocs[i].1 + (if relocs[i].2 {
                8int
            } else {
                4int
            }) <= self.code().len() by {
                if i < earlier.len() {
                    assert(relocs[i] == earlier[i]);
                }
            }
        }
    }

    /// Emits bytes that end with a field of 8 bytes for the address of the
    /// symbol `id`.
    fn emit_wide(&mut self, bytes: Vec<u8>, id: u64)
        requires
            old(self).wf(),
            bytes@.len() >= 8,
        ensures
            final(self).wf(),
            final(self).extends(old(self), patched_wide(bytes@, id, old(self).end())),
    {
        let mut buffer = bytes;
        self.machine_code.append(&mut buffer);
        self.cur_pos();
        self.asm_idents.push((id, self.position - 8, true));
        assert(self.asm_idents@ =~= old(self).asm_idents@ + patched_wide(
            bytes@,
            id,
            old(self).end(),
        ).relocs);
        proof {
            let relocs = self.code().relocs;
            let earlier = old(self).code().relocs;
            assert forall|i: int| 0 <= i < relocs.len() implies 0 <= (#[trigger] relocs[i]).1
                && relocs[i].1 + (if relocs[i].2 {
                8int
            } else {
                4int
            }) <= self.code().len() by {
                if i < earlier.len() {
                    assert(relocs[i] == earlier[i]);
                }
            }
        }
    }
}

} // verus!

verus! {

impl Semantic {
    /// `push rax`
    fn push_rax(&mut self)
        requires
            old(self).wf(),
        ensures
            final(self).wf(),
            final(self).extends(old(self), push_rax()),
    {
        let bytes: Vec<u8> = vec![0x50];
        assert(bytes@ =~= seq![0x50u8]);
        self.emit(bytes);
    }

    /// `pop rbx; xchg rax, rbx`
    fn pop_rbx(&mut self)
        requires
            old(self).wf(),
        ensures
            final(self).wf(),
            final(self).extends(old(self), pop_rbx()),
    {
        let bytes: Vec<u8> = vec![0x5b, 0x48, 0x93];
        assert(bytes@ =~= seq![0x5bu8, 0x48, 0x93]);
        self.emit(bytes);
    }

    /// `not rax`
    fn not_rax(&mut self)
        requires
            old(self).wf(),
        ensures
            final(self).wf(),
            final(self).extends(old(self), alu(0x48, 0xf7, 0xd0)),
    {
        let bytes: Vec<u8> = vec![0x48, 0xf7, 0xd0];
        assert(bytes@ =~= seq![0x48u8, 0xf7, 0xd0]);
        self.emit(bytes);
    }

    /// `and rax, rbx`
    fn and(&mut self)
        requires
            old(self).wf(),
        ensures
            final(self).wf(),
            final(self).extends(old(self), alu(0x48, 0x21, 0xd8)),
    {
        let bytes: Vec<u8> = vec![0x48, 0x21, 0xd8];
        assert(bytes@ =~= seq![0x48u8, 0x21, 0xd8]);
        self.emit(bytes);
    }

    /// `or rax, rbx`
    fn or(&mut self)
        requires
            old(self).wf(),
        ensures
            final(self).wf(),
            final(self).extends(old(self), alu(0x48, 0x09, 0xd8)),
    {
        let bytes: Vec<u8> = vec![0x48, 0x09, 0xd8];
        assert(bytes@ =~= seq![0x48u8, 0x09, 0xd8]);
        self.emit(bytes);
    }

    /// `add rax, rbx`
    fn add_i64(&mut self)
        requires
            old(self).wf(),
        ensures
            final(self).wf(),
            final(self).extends(old(self), alu(0x48, 0x01, 0xd8)),
    {
        let bytes: Vec<u8> = vec![0x48, 0x01, 0xd8];
        assert(bytes@ =~= seq![0x48u8, 0x01, 0xd8]);
        self.emit(bytes);
    }

    /// `sub rax, rbx`
    fn sub_i64(&mut self)
        requires
            old(self).wf(),
        ensures
            final(self).wf(),
            final(self).extends(old(self), alu(0x48, 0x29, 0xd8)),
    {
        let bytes: Vec<u8> = vec![0x48, 0x29, 0xd8];
        assert(bytes@ =~= seq![0x48u8, 0x29, 0xd8]);
        self.emit(bytes);
    }

    /// `imul rbx`
    fn mul_i64(&mut self)
        requires
            old(self).wf(),
        ensures
            final(self).wf(),
            final(self).extends(old(self), alu(0x48, 0xf7, 0xeb)),
    {
        let bytes: Vec<u8> = vec![0x48, 0xf7, 0xeb];
        assert(bytes@ =~= seq![0x48u8, 0xf7, 0xeb]);
        self.emit(bytes);
    }

    /// `idiv rbx`
    fn div_i64(&mut self)
        requires
            old(self).wf(),
        ensures
            final(self).wf(),
            final(self).extends(old(self), alu(0x48, 0xf7, 0xfb)),
    {
        let bytes: Vec<u8> = vec![0x48, 0xf7, 0xfb];
        assert(bytes@ =~= seq![0x48u8, 0xf7, 0xfb]);
        self.emit(bytes);
    }

    /// `mov rax, [id]`
    fn mov_rax_ident(&mut self, id: u64)
        requires
            old(self).wf(),
        ensures
            final(self).wf(),
            final(self).extends(old(self), load_ident(id, old(self).end())),
    {
        let bytes: Vec<u8> = vec![0x48, 0x8b, 0x04, 0x25, 0x00, 0x00, 0x00, 0x00];
        assert(bytes@ =~= seq![0x48u8, 0x8b, 0x04, 0x25, 0x00, 0x00, 0x00, 0x00]);
        self.emit_patched(bytes, id);
    }

    /// `mov [id], rax`
    fn assign(&mut self, id: u64)
        requires
            old(self).wf(),
        ensures
            final(self).wf(),
            final(self).extends(old(self), store_ident(id, old(self).end())),
    {
        let bytes: Vec<u8> = vec![0x48, 0x89, 0x04, 0x25, 0x00, 0x00, 0x00, 0x00];
        assert(bytes@ =~= seq![0x48u8, 0x89, 0x04, 0x25, 0x00, 0x00, 0x00, 0x00]);
        self.emit_patched(bytes, id);
    }

    /// `fadd qword [scratch]`
    fn add_fpu(&mut self)
        requires
            old(self).wf(),
        ensures
            final(self).wf(),
            final(self).extends(old(self), fpu_op(0xdc, 0x04, old(self).scratch(), old(self).end())),
    {
        let bytes: Vec<u8> = vec![0xdc, 0x04, 0x25, 0x00, 0x00, 0x00, 0x00];
        assert(bytes@ =~= seq![0xdcu8, 0x04, 0x25, 0x00, 0x00, 0x00, 0x00]);
        self.emit_patched(bytes, self.reserve);
    }

    /// `fsub qword [scratch]`
    fn sub_fpu(&mut self)
        requires
            old(self).wf(),
        ensures
            final(self).wf(),
            final(self).extends(old(self), fpu_op(0xdc, 0x24, old(self).scratch(), old(self).end())),
    {
        let bytes: Vec<u8> = vec![0xdc, 0x24, 0x25, 0x00, 0x00, 0x00, 0x00];
        assert(bytes@ =~= seq![0xdcu8, 0x24, 0x25, 0x00, 0x00, 0x00, 0x00]);
        self.emit_patched(bytes, self.reserve);
    }

    /// `fmul qword [scratch]`
    fn mul_fpu(&mut self)
        requires
            old(self).wf(),
        ensures
            final(self).wf(),
            final(self).extends(old(self), fpu_op(0xdc, 0x0c, old(self).scratch(), old(self).end())),
    {
        let bytes: Vec<u8> = vec![0xdc, 0x0c, 0x25, 0x00, 0x00, 0x00, 0x00];
        assert(bytes@ =~= seq![0xdcu8, 0x0c, 0x25, 0x00, 0x00, 0x00, 0x00]);
        self.emit_patched(bytes, self.reserve);
    }

    /// `fdiv qword [scratch]`
    fn div_fpu(&mut self)
        requires
            old(self).wf(),
        ensures
            final(self).wf(),
            final(self).extends(old(self), fpu_op(0xdc, 0x34, old(self).scratch(), old(self).end())),
    {
        let bytes: Vec<u8> = vec![0xdc, 0x34, 0x25, 0x00, 0x00, 0x00, 0x00];
        assert(bytes@ =~= seq![0xdcu8, 0x34, 0x25, 0x00, 0x00, 0x00, 0x00]);
        self.emit_patched(bytes, self.reserve);
    }

    /// `cmp rax, rbx`
    fn cmp(&mut self)
        requires
            old(self).wf(),
        ensures
            final(self).wf(),
            final(self).extends(old(self), alu(0x48, 0x39, 0xd8)),
    {
        let bytes: Vec<u8> = vec![0x48, 0x39, 0xd8];
        assert(bytes@ =~= seq![0x48u8, 0x39, 0xd8]);
        self.emit(bytes);
    }

    /// Prepares the x87 unit with both operands.
    fn init_fpu(&mut self)
        requires
            old(self).wf(),
        ensures
            final(self).wf(),
            final(self).extends(old(self), init_fpu(old(self).scratch(), old(self).end())),
    {
        let ghost at = self.end();
        let ghost s0 = *self;
        self.emit(vec![0x9b, 0xdb, 0xe3]);
        let ghost s1 = *self;
        self.emit_patched(vec![0x48, 0x89, 0x04, 0x25, 0x00, 0x00, 0x00, 0x00], self.reserve);
        let ghost s2 = *self;
        self.emit_patched(vec![0xdd, 0x04, 0x25, 0x00, 0x00, 0x00, 0x00], self.reserve);
        let ghost s3 = *self;
        self.emit_patched(vec![0x48, 0x89, 0x1c, 0x25, 0x00, 0x00, 0x00, 0x00], self.reserve);
        proof {
            let a = raw(seq![0x9bu8, 0xdb, 0xe3]);
            let b = patched(seq![0x48u8, 0x89, 0x04, 0x25, 0, 0, 0, 0], self.reserve, at + 3);
            let c = patched(seq![0xddu8, 0x04, 0x25, 0, 0, 0, 0], self.reserve, at + 11);
            let d = patched(seq![0x48u8, 0x89, 0x1c, 0x25, 0, 0, 0, 0], self.reserve, at + 18);
            s2.lemma_extends(&s1, &s0, a, b);
            s3.lemma_extends(&s2, &s0, a.with(b), c);
            self.lemma_extends(&s3, &s0, a.with(b).with(c), d);
        }
    }

    /// Stores the result of the x87 unit and loads it into `rax`.
    fn save_fpu_rax(&mut self)
        requires
            old(self).wf(),
        ensures
            final(self).wf(),
            final(self).extends(old(self), save_fpu_rax(old(self).scratch(), old(self).end())),
    {
        let ghost at = self.end();
        let ghost s0 = *self;
        self.emit_patched(vec![0xdd, 0x1c, 0x25, 0x00, 0x00, 0x00, 0x00], self.reserve);
        let ghost s1 = *self;
        self.emit_patched(vec![0x48, 0x8b, 0x04, 0x25, 0x00, 0x00, 0x00, 0x00], self.reserve);
        proof {
            let a = fpu_op(0xdd, 0x1c, self.reserve, at);
            let b = patched(seq![0x48u8, 0x8b, 0x04, 0x25, 0, 0, 0, 0], self.reserve, at + 7);
            assert(a.bytes =~= seq![0xddu8, 0x1c, 0x25, 0, 0, 0, 0]);
            self.lemma_extends(&s1, &s0, a, b);
        }
    }

    /// Compares the operands in the x87 unit.
    fn fcomi(&mut self)
        requires
            old(self).wf(),
        ensures
            final(self).wf(),
            final(self).extends(old(self), fcomi(old(self).scratch(), old(self).end())),
    {
        let ghost at = self.end();
        let ghost s0 = *self;
        self.init_fpu();
        let ghost s1 = *self;
        self.emit_patched(vec![0xdd, 0x04, 0x25, 0x00, 0x00, 0x00, 0x00], self.reserve);
        let ghost s2 = *self;
        self.emit(vec![0xdb, 0xf1]);
        proof {
            let a = init_fpu(self.reserve, at);
            let b = fpu_op(0xdd, 0x04, self.reserve, at + 26);
            let c = raw(seq![0xdbu8, 0xf1]);
            assert(b.bytes =~= seq![0xddu8, 0x04, 0x25, 0, 0, 0, 0]);
            s2.lemma_extends(&s1, &s0, a, b);
            self.lemma_extends(&s2, &s0, a.with(b), c);
        }
    }

    /// `mov rax, imm64` with an integer.
    fn mov_rax_i64(&mut self, num: i64)
        requires
            old(self).wf(),
        ensures
            final(self).wf(),
            final(self).extends(old(self), mov_rax(num as int)),
    {
        let mut bytes: Vec<u8> = vec![0x48, 0xb8];
        push_le_signed(&mut bytes, num, 8);
        assert(bytes@ =~= seq![0x48u8, 0xb8] + le_bytes(num as int, 8));
        self.emit(bytes);
    }

    /// `mov rax, imm64` with the bits of a real number.
    fn mov_rax_f64(&mut self, num: u64)
        requires
            old(self).wf(),
        ensures
            final(self).wf(),
            final(self).extends(old(self), mov_rax(num as int)),
    {
        let mut bytes: Vec<u8> = vec![0x48, 0xb8];
        push_le(&mut bytes, num, 8);
        assert(bytes@ =~= seq![0x48u8, 0xb8] + le_bytes(num as int, 8));
        self.emit(bytes);
    }

    /// Loads a boolean into `rax`.
    fn asm_bool(&mut self, b: bool)
        requires
            old(self).wf(),
        ensures
            final(self).wf(),
            final(self).extends(old(self), load_bool(b)),
    {
        self.mov_rax_i64(
            if b {
                -1
            } else {
                0
            },
        );
    }

    /// The two loads that a conditional jump picks from.
    fn jss_base(&mut self)
        requires
            old(self).wf(),
        ensures
            final(self).wf(),
            final(self).extends(old(self), false_or_true()),
    {
        let ghost s0 = *self;
        self.asm_bool(false);
        let ghost s1 = *self;
        let bytes: Vec<u8> = vec![0xeb, 10];
        assert(bytes@ =~= seq![0xebu8, 10]);
        self.emit(bytes);
        let ghost s2 = *self;
        self.asm_bool(true);
        proof {
            s2.lemma_extends(&s1, &s0, load_bool(false), raw(seq![0xebu8, 10]));
            self.lemma_extends(
                &s2,
                &s0,
                load_bool(false).with(raw(seq![0xebu8, 10])),
                load_bool(true),
            );
        }
    }

    /// The boolean of a relation, after a comparison.
    fn relation(&mut self, op: RelationOperations)
        requires
            old(self).wf(),
        ensures
            final(self).wf(),
            final(self).extends(old(self), relation_code(op)),
    {
        match op {
            RelationOperations::Equal => self.eq(),
            RelationOperations::NotEqual => self.neq(),
            RelationOperations::Greater => self.more(),
            RelationOperations::GreaterEqual => self.more_eq(),
            RelationOperations::Less => self.less(),
            RelationOperations::LessEqual => self.less_eq(),
        }
    }

    /// `je`: equal.
    fn eq(&mut self)
        requires
            old(self).wf(),
        ensures
            final(self).wf(),
            final(self).extends(old(self), relation_code(RelationOperations::Equal)),
    {
        let ghost s0 = *self;
        let bytes: Vec<u8> = vec![0x74, 12];
        assert(bytes@ =~= seq![0x74u8, 12]);
        self.emit(bytes);
        let ghost s1 = *self;
        self.jss_base();
        proof {
            self.lemma_extends(&s1, &s0, raw(seq![0x74u8, 12]), false_or_true());
        }
    }

    /// `jne`: not equal.
    fn neq(&mut self)
        requires
            old(self).wf(),
        ensures
            final(self).wf(),
            final(self).extends(old(self), relation_code(RelationOperations::NotEqual)),
    {
        let ghost s0 = *self;
        let bytes: Vec<u8> = vec![0x75, 12];
        assert(bytes@ =~= seq![0x75u8, 12]);
        self.emit(bytes);
        let ghost s1 = *self;
        self.jss_base();
        proof {
            self.lemma_extends(&s1, &s0, raw(seq![0x75u8, 12]), false_or_true());
        }
    }

    /// `jg`: greater.
    fn more(&mut self)
        requires
            old(self).wf(),
        ensures
            final(self).wf(),
            final(self).extends(old(self), relation_code(RelationOperations::Greater)),
    {
        let ghost s0 = *self;
        let bytes: Vec<u8> = vec![0x7f, 12];
        assert(bytes@ =~= seq![0x7fu8, 12]);
        self.emit(bytes);
        let ghost s1 = *self;
        self.jss_base();
        proof {
            self.lemma_extends(&s1, &s0, raw(seq![0x7fu8, 12]), false_or_true());
        }
    }

    /// `jl`: less.
    fn less(&mut self)
        requires
            old(self).wf(),
        ensures
            final(self).wf(),
            final(self).extends(old(self), relation_code(RelationOperations::Less)),
    {
        let ghost s0 = *self;
        let bytes: Vec<u8> = vec![0x7c, 12];
        assert(bytes@ =~= seq![0x7cu8, 12]);
        self.emit(bytes);
        let ghost s1 = *self;
        self.jss_base();
        proof {
            self.lemma_extends(&s1, &s0, raw(seq![0x7cu8, 12]), false_or_true());
        }
    }

    /// `jge`: greater or equal.
    fn more_eq(&mut self)
        requires
            old(self).wf(),
        ensures
            final(self).wf(),
            final(self).extends(old(self), relation_code(RelationOperations::GreaterEqual)),
    {
        let ghost s0 = *self;
        let bytes: Vec<u8> = vec![0x7d, 12];
        assert(bytes@ =~= seq![0x7du8, 12]);
        self.emit(bytes);
        let ghost s1 = *self;
        self.jss_base();
        proof {
            self.lemma_extends(&s1, &s0, raw(seq![0x7du8, 12]), false_or_true());
        }
    }

    /// `jle`: less or equal.
    fn less_eq(&mut self)
        requires
            old(self).wf(),
        ensures
            final(self).wf(),
            final(self).extends(old(self), relation_code(RelationOperations::LessEqual)),
    {
        let ghost s0 = *self;
        let bytes: Vec<u8> = vec![0x7e, 12];
        assert(bytes@ =~= seq![0x7eu8, 12]);
        self.emit(bytes);
        let ghost s1 = *self;
        self.jss_base();
        proof {
            self.lemma_extends(&s1, &s0, raw(seq![0x7eu8, 12]), false_or_true());
        }
    }
}

} // verus!

verus! {

/// The four bytes of zero are the encoding of zero.
proof fn lemma_zero_field()
    ensures
        le_bytes(0, 4) == seq![0u8, 0, 0, 0],
{
    reveal_with_fuel(le_bytes, 5);
    assert(le_bytes(0, 4) =~= seq![0u8, 0, 0, 0]);
}

/// Writing a value over a field of 4 zero bytes that follows `head` gives
/// the code with the value in the field.
proof fn lemma_patch(before: Seq<u8>, head: Seq<u8>, body: Seq<u8>, v: int)
    ensures
        ({
            let all = before + (head + le_bytes(0, 4)) + body;
            let p = (before.len() + head.len()) as int;
            all.subrange(0, p) + le_bytes(v, 4) + all.subrange(p + 4, all.len() as int)
        }) == before + (head + le_bytes(v, 4)) + body,
{
    lemma_le_len(0, 4);
    lemma_le_len(v, 4);
    let all = before + (head + le_bytes(0, 4)) + body;
    let p = (before.len() + head.len()) as int;
    assert(all.subrange(0, p) + le_bytes(v, 4) + all.subrange(p + 4, all.len() as int) =~= before
        + (head + le_bytes(v, 4)) + body);
}

impl Semantic {
    /// Writes the 4 low bytes of `value` into the field at offset `at`.
    fn patch(&mut self, at: u64, value: u64)
        requires
            old(self).wf(),
            at + 4 <= old(self).end(),
        ensures
            final(self).wf(),
            final(self).machine_code@ == old(self).machine_code@.subrange(0, at as int) + le_bytes(
                value as int,
                4,
            ) + old(self).machine_code@.subrange(at + 4, old(self).end()),
            final(self).asm_idents == old(self).asm_idents,
            final(self).identifiers == old(self).identifiers,
            final(self).vars == old(self).vars,
            final(self).program == old(self).program,
            final(self).reserve == old(self).reserve,
    {
        let mut bytes: Vec<u8> = Vec::new();
        push_le(&mut bytes, value, 4);
        proof {
            lemma_le_len(value as int, 4);
        }
        let ghost field = bytes@;
        let ghost given = self.machine_code@;
        let n = self.machine_code.len();
        assert(at + 4 <= n);
        let start = at as usize;
        let mut i: usize = 0;
        while i < 4
            invariant
                i <= 4,
                start == at,
                field == bytes@,
                field.len() == 4,
                at + 4 <= given.len(),
                n == given.len(),
                self.machine_code@.len() == given.len(),
                self.position == old(self).position,
                self.asm_idents == old(self).asm_idents,
                self.identifiers == old(self).identifiers,
                self.vars == old(self).vars,
                self.program == old(self).program,
                self.reserve == old(self).reserve,
                forall|j: int|
                    0 <= j < given.len() ==> self.machine_code@[j] == if at <= j < at + i {
                        field[j - at]
                    } else {
                        given[j]
                    },
            decreases 4 - i,
        {
            self.machine_code[start + i] = bytes[i];
            i += 1;
        }
        assert(self.machine_code@ =~= given.subrange(0, at as int) + field + given.subrange(
            at + 4,
            given.len() as int,
        ));
        assert(self.code().relocs == old(self).code().relocs);
    }

    /// `test rax, rax; jz` with an empty field. The result is the offset of
    /// the field.
    fn jz_default(&mut self) -> (r: u64)
        requires
            old(self).wf(),
        ensures
            final(self).wf(),
            final(self).extends(old(self), jump_if_zero(0)),
            r == old(self).end() + 5,
            final(self).end() == old(self).end() + 9,
    {
        proof {
            lemma_zero_field();
        }
        let bytes: Vec<u8> = vec![0x48, 0x85, 0xc0, 0x0f, 0x84, 0x00, 0x00, 0x00, 0x00];
        assert(bytes@ =~= seq![0x48u8, 0x85, 0xc0, 0x0f, 0x84] + le_bytes(0, 4));
        self.emit(bytes);
        self.position - 4
    }

    /// Fills the field of a `jz` so that it jumps to the end of the code.
    fn jz(&mut self, jz_pos: u64)
        requires
            old(self).wf(),
            jz_pos + 4 <= old(self).end(),
        ensures
            final(self).wf(),
            final(self).machine_code@ == old(self).machine_code@.subrange(0, jz_pos as int)
                + le_bytes(old(self).end() - jz_pos - 4, 4) + old(self).machine_code@.subrange(
                jz_pos + 4,
                old(self).end(),
            ),
            final(self).asm_idents == old(self).asm_idents,
            final(self).identifiers == old(self).identifiers,
            final(self).vars == old(self).vars,
            final(self).program == old(self).program,
            final(self).reserve == old(self).reserve,
    {
        let offset = self.position - jz_pos - 4;
        self.patch(jz_pos, offset);
    }

    /// `jmp` with an empty field. The result is the offset of the field.
    fn jpm_default(&mut self) -> (r: u64)
        requires
            old(self).wf(),
        ensures
            final(self).wf(),
            final(self).extends(old(self), jump(0)),
            r == old(self).end() + 1,
            final(self).end() == old(self).end() + 5,
    {
        proof {
            lemma_zero_field();
        }
        let bytes: Vec<u8> = vec![0xe9, 0x00, 0x00, 0x00, 0x00];
        assert(bytes@ =~= seq![0xe9u8] + le_bytes(0, 4));
        self.emit(bytes);
        self.position - 4
    }

    /// Fills the field of a `jmp` so that it jumps to the end of the code.
    fn jmp(&mut self, jmp_pos: u64)
        requires
            old(self).wf(),
            jmp_pos + 4 <= old(self).end(),
        ensures
            final(self).wf(),
            final(self).machine_code@ == old(self).machine_code@.subrange(0, jmp_pos as int)
                + le_bytes(old(self).end() - jmp_pos - 4, 4) + old(self).machine_code@.subrange(
                jmp_pos + 4,
                old(self).end(),
            ),
            final(self).asm_idents == old(self).asm_idents,
            final(self).identifiers == old(self).identifiers,
            final(self).vars == old(self).vars,
            final(self).program == old(self).program,
            final(self).reserve == old(self).reserve,
    {
        let offset = self.position - jmp_pos - 4;
        self.patch(jmp_pos, offset);
    }

    /// `jmp` back to the offset `pos`.
    fn jmp_cycle(&mut self, pos: u64)
        requires
            old(self).wf(),
            pos <= old(self).end(),
        ensures
            final(self).wf(),
            final(self).extends(old(self), jump(pos - (old(self).end() + 5))),
    {
        let ghost before = self.machine_code@;
        let back = self.position - pos;
        let field = self.jpm_default();
        let offset: u64 = (u64::MAX - (back + 5)) + 1;
        self.patch(field, offset);
        proof {
            let d = pos - (old(self).end() + 5);
            assert(offset as int == d + 0x1_0000_0000_0000_0000);
            lemma_low_bytes(d, 1, 4);
            lemma_patch(before, seq![0xe9u8], Seq::empty(), d);
            assert(self.machine_code@ =~= before + (seq![0xe9u8] + le_bytes(d, 4)));
            assert(self.asm_idents@ =~= old(self).asm_idents@ + jump(d).relocs);
        }
    }

    /// The call of `scanf` for the variable `id` of type `k`.
    fn input(&mut self, id: u64, k: Kind)
        requires
            old(self).wf(),
        ensures
            final(self).wf(),
            final(self).extends(
                old(self),
                input_code(id, k, old(self).scratch(), old(self).end()),
            ),
    {
        let ghost at = self.end();
        let ghost s0 = *self;
        let format = match k {
            Kind::Real => self.reserve + 3,
            _ => self.reserve + 1,
        };
        let first: Vec<u8> = vec![0x48, 0xbf, 0x00, 0x00, 0x00, 0x00, 0x00, 0x00, 0x00, 0x00];
        assert(first@ =~= seq![0x48u8, 0xbf, 0, 0, 0, 0, 0, 0, 0, 0]);
        self.emit_wide(first, format);
        let ghost s1 = *self;
        let second: Vec<u8> = vec![0x48, 0xbe, 0x00, 0x00, 0x00, 0x00, 0x00, 0x00, 0x00, 0x00];
        assert(second@ =~= seq![0x48u8, 0xbe, 0, 0, 0, 0, 0, 0, 0, 0]);
        self.emit_wide(second, id);
        let ghost s2 = *self;
        let third: Vec<u8> = vec![0xe8, 0x00, 0x00, 0x00, 0x00];
        assert(third@ =~= seq![0xe8u8, 0, 0, 0, 0]);
        self.emit_patched(third, self.reserve + 5);
        let ghost a = patched_wide(seq![0x48u8, 0xbf, 0, 0, 0, 0, 0, 0, 0, 0], format, at);
        let ghost b = patched_wide(seq![0x48u8, 0xbe, 0, 0, 0, 0, 0, 0, 0, 0], id, at + 10);
        let ghost c = patched(seq![0xe8u8, 0, 0, 0, 0], (self.reserve + 5) as u64, at + 20);
        let ghost call = a.with(b).with(c);
        proof {
            s2.lemma_extends(&s1, &s0, a, b);
            self.lemma_extends(&s2, &s0, a.with(b), c);
        }
        match k {
            Kind::Boolean => {
                let ghost s3 = *self;
                self.mov_rax_ident(id);
                let ghost s4 = *self;
                let test: Vec<u8> = vec![0x48, 0x85, 0xc0, 0x74, 12];
                assert(test@ =~= seq![0x48u8, 0x85, 0xc0, 0x74, 12]);
                self.emit(test);
                let ghost s5 = *self;
                self.asm_bool(true);
                let ghost s6 = *self;
                let skip: Vec<u8> = vec![0xeb, 10];
                assert(skip@ =~= seq![0xebu8, 10]);
                self.emit(skip);
                let ghost s7 = *self;
                self.asm_bool(false);
                let ghost s8 = *self;
                proof {
                    lemma_le_len(-1, 8);
                    lemma_le_len(0, 8);
                }
                self.assign(id);
                proof {
                    let d = load_ident(id, at + 25);
                    let e = raw(seq![0x48u8, 0x85, 0xc0, 0x74, 12]);
                    let f = load_bool(true);
                    let g = raw(seq![0xebu8, 10]);
                    let h = load_bool(false);
                    let i = store_ident(id, at + 60);
                    s4.lemma_extends(&s3, &s0, call, d);
                    s5.lemma_extends(&s4, &s0, call.with(d), e);
                    s6.lemma_extends(&s5, &s0, call.with(d).with(e), f);
                    s7.lemma_extends(&s6, &s0, call.with(d).with(e).with(f), g);
                    s8.lemma_extends(&s7, &s0, call.with(d).with(e).with(f).with(g), h);
                    self.lemma_extends(&s8, &s0, call.with(d).with(e).with(f).with(g).with(h), i);
                }
            },
            _ => {},
        }
    }

    /// The call of `printf` for a value of type `k` in `rax`.
    fn print(&mut self, k: Kind)
        requires
            old(self).wf(),
        ensures
            final(self).wf(),
            final(self).extends(old(self), print_code(k, old(self).scratch(), old(self).end())),
    {
        let ghost at = self.end();
        let ghost s0 = *self;
        let first: Vec<u8> = vec![0x48, 0xbf, 0x00, 0x00, 0x00, 0x00, 0x00, 0x00, 0x00, 0x00];
        assert(first@ =~= seq![0x48u8, 0xbf, 0, 0, 0, 0, 0, 0, 0, 0]);
        match k {
            Kind::Real => {
                self.emit_wide(first, self.reserve + 4);
                let ghost s1 = *self;
                let second: Vec<u8> = vec![0x48, 0xbe, 0x00, 0x00, 0x00, 0x00, 0x00, 0x00, 0x00, 0x00];
                assert(second@ =~= seq![0x48u8, 0xbe, 0, 0, 0, 0, 0, 0, 0, 0]);
                self.emit(second);
                let ghost s2 = *self;
                self.assign(self.reserve);
                let ghost s3 = *self;
                let load: Vec<u8> = vec![
                    0xb8,
                    0x01,
                    0x00,
                    0x00,
                    0x00,
                    0xf2,
                    0x0f,
                    0x10,
                    0x04,
                    0x25,
                    0x00,
                    0x00,
                    0x00,
                    0x00,
                ];
                assert(load@ =~= seq![
                    0xb8u8,
                    0x01,
                    0x00,
                    0x00,
                    0x00,
                    0xf2,
                    0x0f,
                    0x10,
                    0x04,
                    0x25,
                    0,
                    0,
                    0,
                    0,
                ]);
                self.emit_patched(load, self.reserve);
                let ghost s4 = *self;
                let call: Vec<u8> = vec![0xe8, 0x00, 0x00, 0x00, 0x00];
                assert(call@ =~= seq![0xe8u8, 0, 0, 0, 0]);
                self.emit_patched(call, self.reserve + 6);
                proof {
                    let a = patched_wide(
                        seq![0x48u8, 0xbf, 0, 0, 0, 0, 0, 0, 0, 0],
                        (self.reserve + 4) as u64,
                        at,
                    );
                    let b = raw(seq![0x48u8, 0xbe, 0, 0, 0, 0, 0, 0, 0, 0]);
                    let c = store_ident(self.reserve, at + 20);
                    let d = patched(
                        seq![0xb8u8, 0x01, 0x00, 0x00, 0x00, 0xf2, 0x0f, 0x10, 0x04, 0x25, 0, 0, 0, 0],
                        self.reserve,
                        at + 28,
                    );
                    let e = patched(seq![0xe8u8, 0, 0, 0, 0], (self.reserve + 6) as u64, at + 42);
                    s2.lemma_extends(&s1, &s0, a, b);
                    s3.lemma_extends(&s2, &s0, a.with(b), c);
                    s4.lemma_extends(&s3, &s0, a.with(b).with(c), d);
                    self.lemma_extends(&s4, &s0, a.with(b).with(c).with(d), e);
                }
            },
            _ => {
                self.emit_wide(first, self.reserve + 2);
                let ghost s1 = *self;
                let second: Vec<u8> = vec![0x48, 0x89, 0xc6, 0x48, 0x31, 0xc0];
                assert(second@ =~= seq![0x48u8, 0x89, 0xc6, 0x48, 0x31, 0xc0]);
                self.emit(second);
                let ghost s2 = *self;
                let call: Vec<u8> = vec![0xe8, 0x00, 0x00, 0x00, 0x00];
                assert(call@ =~= seq![0xe8u8, 0, 0, 0, 0]);
                self.emit_patched(call, self.reserve + 6);
                proof {
                    let a = patched_wide(
                        seq![0x48u8, 0xbf, 0, 0, 0, 0, 0, 0, 0, 0],
                        (self.reserve + 2) as u64,
                        at,
                    );
                    let b = raw(seq![0x48u8, 0x89, 0xc6, 0x48, 0x31, 0xc0]);
                    let c = patched(seq![0xe8u8, 0, 0, 0, 0], (self.reserve + 6) as u64, at + 16);
                    s2.lemma_extends(&s1, &s0, a, b);
                    self.lemma_extends(&s2, &s0, a.with(b), c);
                }
            },
        }
    }
}

} // verus!

verus! {

/// Executable form of [`plain`].
fn plain_of(k: Kind) -> (r: ProgramTypes)
    ensures
        r == plain(k),
{
    match k {
        Kind::Integer => ProgramTypes::Integer(None),
        Kind::Real => ProgramTypes::Float(None),
        Kind::Boolean => ProgramTypes::Boolean(None),
    }
}

/// Executable form of [`valued`].
fn valued_of(k: Kind) -> (r: ProgramTypes)
    ensures
        r == valued(k),
{
    match k {
        Kind::Integer => ProgramTypes::Integer(Some(0)),
        Kind::Real => ProgramTypes::Float(Some(0)),
        Kind::Boolean => ProgramTypes::Boolean(Some(false)),
    }
}

impl Semantic {
    /// Whether `self` is `before` with `code` emitted at the end; the
    /// declared variables may have changed.
    pub closed spec fn grows(&self, before: &Semantic, code: Code) -> bool {
        &&& self.machine_code@ == before.machine_code@ + code.bytes
        &&& self.asm_idents@ == before.asm_idents@ + code.relocs
        &&& self.vars == before.vars
        &&& self.program == before.program
        &&& self.reserve == before.reserve
    }

    /// Whether `self` has the literals, the program and the scratch slot of
    /// `before`.
    pub closed spec fn kept(&self, before: &Semantic) -> bool {
        &&& self.vars == before.vars
        &&& self.program == before.program
        &&& self.reserve == before.reserve
    }

    /// Whether the outcome of analysing an expression is the expected one:
    /// its type with its code emitted, or the error.
    pub closed spec fn typed(
        &self,
        before: &Semantic,
        r: SemanticResult<Kind>,
        expected: Compiled<Kind>,
    ) -> bool {
        match expected {
            Compiled::Done(k, code) => r is Ok && r->Ok_0 == k && self.extends(before, code),
            Compiled::Failed(e) => r is Err && r->Err_0@ == e && self.kept(before),
        }
    }

    /// Whether the outcome of analysing a statement is the expected one:
    /// the declared variables after it with its code emitted, or the error.
    pub closed spec fn done(
        &self,
        before: &Semantic,
        r: SemanticResult<()>,
        expected: Compiled<Env>,
    ) -> bool {
        match expected {
            Compiled::Done(env, code) => r is Ok && self.identifiers@ == env && self.grows(
                before,
                code,
            ),
            Compiled::Failed(e) => r is Err && r->Err_0@ == e && self.kept(before),
        }
    }

    /// Emitting twice is emitting the two codes joined, also when the
    /// declared variables change.
    proof fn lemma_grows(&self, middle: &Semantic, before: &Semantic, a: Code, b: Code)
        requires
            middle.grows(before, a),
            self.grows(middle, b),
        ensures
            self.grows(before, a.with(b)),
            middle.end() == before.end() + a.len(),
    {
        assert(self.machine_code@ =~= before.machine_code@ + a.with(b).bytes);
        assert(self.asm_idents@ =~= before.asm_idents@ + a.with(b).relocs);
    }

    /// Joining codes is associative.
    proof fn lemma_assoc(a: Code, b: Code, c: Code)
        ensures
            a.with(b).with(c) == a.with(b.with(c)),
    {
        assert(a.with(b).with(c).bytes =~= a.with(b.with(c)).bytes);
        assert(a.with(b).with(c).relocs =~= a.with(b.with(c)).relocs);
    }

    /// Filling the empty field of a jump: if `from` is `before` with the
    /// code `pre`, then `head` and a field of zeros, then `post`, and `self`
    /// is `from` with `v` written into that field, then `self` is `before`
    /// with the same code and `v` in the field.
    proof fn lemma_filled(
        &self,
        from: &Semantic,
        before: &Semantic,
        pre: Code,
        head: Seq<u8>,
        post: Code,
        v: int,
    )
        requires
            from.grows(before, pre.with(raw(head + le_bytes(0, 4))).with(post)),
            ({
                let p = before.end() + pre.len() + head.len();
                self.machine_code@ == from.machine_code@.subrange(0, p) + le_bytes(v, 4)
                    + from.machine_code@.subrange(p + 4, from.end())
            }),
            self.asm_idents == from.asm_idents,
            self.vars == from.vars,
            self.program == from.program,
            self.reserve == from.reserve,
        ensures
            self.grows(before, pre.with(raw(head + le_bytes(v, 4))).with(post)),
    {
        let m0 = before.machine_code@;
        lemma_le_len(0, 4);
        lemma_le_len(v, 4);
        assert(from.machine_code@ =~= (m0 + pre.bytes) + (head + le_bytes(0, 4)) + post.bytes);
        lemma_patch(m0 + pre.bytes, head, post.bytes, v);
        assert(self.machine_code@ =~= m0 + pre.with(raw(head + le_bytes(v, 4))).with(post).bytes);
        assert(self.asm_idents@ =~= before.asm_idents@ + pre.with(raw(head + le_bytes(v, 4))).with(
            post,
        ).relocs);
    }

    /// Nothing emitted is no change.
    proof fn lemma_same(&self)
        ensures
            self.extends(self, Code::nothing()),
            self.grows(self, Code::nothing()),
    {
        assert(self.machine_code@ =~= self.machine_code@ + Code::nothing().bytes);
        assert(self.asm_idents@ =~= self.asm_idents@ + Code::nothing().relocs);
    }

    /// The type of a declared variable that has a value.
    fn test_ident(&self, id: u64) -> (r: SemanticResult<Kind>)
        ensures
            match r {
                Ok(k) => self.env().contains_key(id) && self.env()[id].has_value() && k
                    == self.env()[id].kind(),
                Err(e) => !(self.env().contains_key(id) && self.env()[id].has_value()) && e@
                    == SemanticErrorView::NotDeclared(id),
            },
    {
        match self.identifiers.get(&id) {
            Some(t) => match t {
                ProgramTypes::Boolean(None) => Err(SemanticError::NotDeclared(id)),
                ProgramTypes::Float(None) => Err(SemanticError::NotDeclared(id)),
                ProgramTypes::Integer(None) => Err(SemanticError::NotDeclared(id)),
                _ => Ok(t.get_kind()),
            },
            None => Err(SemanticError::NotDeclared(id)),
        }
    }

    /// The code that joins two multipliers.
    fn multiply(&mut self, k: Kind, op: MultiplicationOperations)
        requires
            old(self).wf(),
        ensures
            final(self).wf(),
            final(self).extends(
                old(self),
                multiplication_code(k, op, old(self).scratch(), old(self).end()),
            ),
    {
        let ghost at = self.end();
        let ghost s0 = *self;
        match k {
            Kind::Real => {
                self.init_fpu();
                let ghost s1 = *self;
                match op {
                    MultiplicationOperations::Division => self.div_fpu(),
                    _ => self.mul_fpu(),
                }
                let ghost s2 = *self;
                self.save_fpu_rax();
                proof {
                    let a = init_fpu(self.reserve, at);
                    let b = match op {
                        MultiplicationOperations::Division => fpu_op(
                            0xdc,
                            0x34,
                            self.reserve,
                            at + 26,
                        ),
                        _ => fpu_op(0xdc, 0x0c, self.reserve, at + 26),
                    };
                    s2.lemma_extends(&s1, &s0, a, b);
                    self.lemma_extends(&s2, &s0, a.with(b), save_fpu_rax(self.reserve, at + 33));
                }
            },
            _ => match op {
                MultiplicationOperations::And => self.and(),
                MultiplicationOperations::Multiplication => self.mul_i64(),
                MultiplicationOperations::Division => self.div_i64(),
            },
        }
    }

    /// The code that joins two terms.
    fn combine(&mut self, k: Kind, op: AdditionOperations)
        requires
            old(self).wf(),
        ensures
            final(self).wf(),
            final(self).extends(
                old(self),
                addition_code(k, op, old(self).scratch(), old(self).end()),
            ),
    {
        let ghost at = self.end();
        let ghost s0 = *self;
        match k {
            Kind::Real => {
                self.init_fpu();
                let ghost s1 = *self;
                match op {
                    AdditionOperations::Subtraction => self.sub_fpu(),
                    _ => self.add_fpu(),
                }
                let ghost s2 = *self;
                self.save_fpu_rax();
                proof {
                    let a = init_fpu(self.reserve, at);
                    let b = match op {
                        AdditionOperations::Subtraction => fpu_op(0xdc, 0x24, self.reserve, at + 26),
                        _ => fpu_op(0xdc, 0x04, self.reserve, at + 26),
                    };
                    s2.lemma_extends(&s1, &s0, a, b);
                    self.lemma_extends(&s2, &s0, a.with(b), save_fpu_rax(self.reserve, at + 33));
                }
            },
            _ => match op {
                AdditionOperations::Or => self.or(),
                AdditionOperations::Addition => self.add_i64(),
                AdditionOperations::Subtraction => self.sub_i64(),
            },
        }
    }

    /// The code that compares two operands and gives the boolean of the
    /// relation.
    fn compare(&mut self, k: Kind, op: RelationOperations)
        requires
            old(self).wf(),
        ensures
            final(self).wf(),
            final(self).extends(
                old(self),
                comparison_code(k, op, old(self).scratch(), old(self).end()),
            ),
    {
        let ghost at = self.end();
        let ghost s0 = *self;
        match k {
            Kind::Real => {
                self.init_fpu();
                let ghost s1 = *self;
                self.fcomi();
                let ghost s2 = *self;
                self.relation(op);
                proof {
                    let a = init_fpu(self.reserve, at);
                    let b = fcomi(self.reserve, at + 26);
                    s2.lemma_extends(&s1, &s0, a, b);
                    self.lemma_extends(&s2, &s0, a.with(b), relation_code(op));
                }
            },
            _ => {
                self.cmp();
                let ghost s1 = *self;
                self.relation(op);
                proof {
                    self.lemma_extends(&s1, &s0, alu(0x48, 0x39, 0xd8), relation_code(op));
                }
            },
        }
    }
}

} // verus!

verus! {

impl Semantic {
    /// Analyses a multiplier: checks it and emits the code that loads its
    /// value into `rax`.
    fn test_multiplier(&mut self, multiplier: &Multiplier) -> (r: SemanticResult<Kind>)
        requires
            old(self).wf(),
        ensures
            final(self).wf(),
            final(self).typed(
                old(self),
                r,
                compile_multiplier(multiplier@, old(self).ctx(), old(self).end()),
            ),
        decreases *multiplier, 0nat,
    {
        match multiplier {
            Multiplier::Identifier(id) => {
                self.mov_rax_ident(*id);
                self.test_ident(*id)
            },
            Multiplier::Boolean(b) => {
                self.asm_bool(*b);
                Ok(Kind::Boolean)
            },
            Multiplier::Variable(id) => {
                match self.vars.get(id) {
                    Some(var) => match var {
                        LexerDigitalData::Float(v) => {
                            let bits = *v;
                            self.mov_rax_f64(bits);
                            Ok(Kind::Real)
                        },
                        LexerDigitalData::Integer(v) => {
                            let num = *v;
                            self.mov_rax_i64(num);
                            Ok(Kind::Integer)
                        },
                    },
                    None => Err(SemanticError::NotDeclared(*id)),
                }
            },
            Multiplier::Expression(e) => self.test_expression(e),
            Multiplier::Not(m) => {
                let ghost s0 = *self;
                let res = self.test_multiplier(m);
                match res {
                    Ok(k) => {
                        match k {
                            Kind::Boolean => {},
                            t => {
                                return Err(
                                    SemanticError::InvalidOperation(plain_of(t), "!".to_owned()),
                                );
                            },
                        }
                        let ghost s1 = *self;
                        self.not_rax();
                        proof {
                            let inner = compile_multiplier(m@, s0.ctx(), s0.end());
                            self.lemma_extends(&s1, &s0, inner->Done_1, alu(0x48, 0xf7, 0xd0));
                        }
                        Ok(Kind::Boolean)
                    },
                    Err(e) => Err(e),
                }
            },
        }
    }

    /// Analyses a term.
    fn test_term(&mut self, term: &Term) -> (r: SemanticResult<Kind>)
        requires
            old(self).wf(),
        ensures
            final(self).wf(),
            final(self).typed(old(self), r, compile_term(term@, old(self).ctx(), old(self).end())),
        decreases *term, 1nat,
    {
        let ghost s0 = *self;
        let ghost c = self.ctx();
        let ghost at = self.end();
        let n = term.multipliers.len();
        if n == 0 {
            proof {
                self.lemma_same();
            }
            return Ok(Kind::Boolean);
        }
        assert(decreases_to!(*term => term.multipliers));
        assert(decreases_to!(term.multipliers => term.multipliers[0]));
        let op1 = match self.test_multiplier(&term.multipliers[0]) {
            Ok(k) => k,
            Err(e) => {
                return Err(e);
            },
        };
        let ghost mut acc = compile_multiplier(term@.multipliers[0], c, at)->Done_1;
        let mut i: usize = 1;
        while i < n && i <= term.operations.len()
            invariant
                1 <= i,
                n == term.multipliers@.len(),
                self.wf(),
                s0.wf(),
                s0 == *old(self),
                c == s0.ctx(),
                at == s0.end(),
                self.extends(&s0, acc),
                compile_term(term@, c, at) == term_rest(term@, i as int, op1, c, at, acc),
            decreases n - i,
        {
            let ghost s1 = *self;
            self.push_rax();
            let ghost s2 = *self;
            assert(decreases_to!(*term => term.multipliers));
            assert(decreases_to!(term.multipliers => term.multipliers[i as int]));
            proof {
                s2.lemma_extends(&s1, &s0, acc, push_rax());
            }
            let op = match self.test_multiplier(&term.multipliers[i]) {
                Ok(k) => k,
                Err(e) => {
                    return Err(e);
                },
            };
            let ghost code = compile_multiplier(term@.multipliers[i as int], c, at + acc.len() + 1)->Done_1;
            let operation = term.operations[i - 1];
            match op {
                Kind::Boolean => match operation {
                    MultiplicationOperations::And => {},
                    o => {
                        return Err(
                            SemanticError::InvalidOperation(plain_of(op), o.sign().to_owned()),
                        );
                    },
                },
                _ => match operation {
                    MultiplicationOperations::And => {
                        return Err(
                            SemanticError::InvalidOperation(
                                plain_of(op),
                                MultiplicationOperations::And.sign().to_owned(),
                            ),
                        );
                    },
                    _ => {},
                },
            }
            let ghost s3 = *self;
            self.pop_rbx();
            let ghost s4 = *self;
            if op != op1 {
                return Err(SemanticError::TypeMismatch(plain_of(op1), plain_of(op)));
            }
            self.multiply(op, operation);
            proof {
                let pushed = acc.with(push_rax());
                s3.lemma_extends(&s2, &s0, pushed, code);
                s4.lemma_extends(&s3, &s0, pushed.with(code), pop_rbx());
                let loaded = pushed.with(code).with(pop_rbx());
                self.lemma_extends(
                    &s4,
                    &s0,
                    loaded,
                    multiplication_code(op, operation, c.reserve, at + loaded.len()),
                );
                acc = loaded.with(multiplication_code(op, operation, c.reserve, at + loaded.len()));
            }
            i += 1;
        }
        Ok(op1)
    }

    /// Analyses an operand.
    fn test_operand(&mut self, operand: &Operand) -> (r: SemanticResult<Kind>)
        requires
            old(self).wf(),
        ensures
            final(self).wf(),
            final(self).typed(
                old(self),
                r,
                compile_operand(operand@, old(self).ctx(), old(self).end()),
            ),
        decreases *operand, 1nat,
    {
        let ghost s0 = *self;
        let ghost c = self.ctx();
        let ghost at = self.end();
        let n = operand.terms.len();
        if n == 0 {
            proof {
                self.lemma_same();
            }
            return Ok(Kind::Boolean);
        }
        assert(decreases_to!(*operand => operand.terms));
        assert(decreases_to!(operand.terms => operand.terms[0]));
        let op1 = match self.test_term(&operand.terms[0]) {
            Ok(k) => k,
            Err(e) => {
                return Err(e);
            },
        };
        let ghost mut acc = compile_term(operand@.terms[0], c, at)->Done_1;
        let mut i: usize = 1;
        while i < n && i <= operand.operations.len()
            invariant
                1 <= i,
                n == operand.terms@.len(),
                self.wf(),
                s0.wf(),
                s0 == *old(self),
                c == s0.ctx(),
                at == s0.end(),
                self.extends(&s0, acc),
                compile_operand(operand@, c, at) == operand_rest(
                    operand@,
                    i as int,
                    op1,
                    c,
                    at,
                    acc,
                ),
            decreases n - i,
        {
            let ghost s1 = *self;
            self.push_rax();
            let ghost s2 = *self;
            assert(decreases_to!(*operand => operand.terms));
            assert(decreases_to!(operand.terms => operand.terms[i as int]));
            proof {
                s2.lemma_extends(&s1, &s0, acc, push_rax());
            }
            let op = match self.test_term(&operand.terms[i]) {
                Ok(k) => k,
                Err(e) => {
                    return Err(e);
                },
            };
            let ghost code = compile_term(operand@.terms[i as int], c, at + acc.len() + 1)->Done_1;
            let operation = operand.operations[i - 1];
            match op {
                Kind::Boolean => match operation {
                    AdditionOperations::Or => {},
                    o => {
                        return Err(
                            SemanticError::InvalidOperation(plain_of(op), o.sign().to_owned()),
                        );
                    },
                },
                _ => match operation {
                    AdditionOperations::Or => {
                        return Err(
                            SemanticError::InvalidOperation(
                                plain_of(op),
                                AdditionOperations::Or.sign().to_owned(),
                            ),
                        );
                    },
                    _ => {},
                },
            }
            let ghost s3 = *self;
            self.pop_rbx();
            let ghost s4 = *self;
            if op != op1 {
                return Err(SemanticError::TypeMismatch(plain_of(op1), plain_of(op)));
            }
            self.combine(op, operation);
            proof {
                let pushed = acc.with(push_rax());
                s3.lemma_extends(&s2, &s0, pushed, code);
                s4.lemma_extends(&s3, &s0, pushed.with(code), pop_rbx());
                let loaded = pushed.with(code).with(pop_rbx());
                self.lemma_extends(
                    &s4,
                    &s0,
                    loaded,
                    addition_code(op, operation, c.reserve, at + loaded.len()),
                );
                acc = loaded.with(addition_code(op, operation, c.reserve, at + loaded.len()));
            }
            i += 1;
        }
        Ok(op1)
    }

    /// Analyses an expression.
    fn test_expression(&mut self, expression: &Expression) -> (r: SemanticResult<Kind>)
        requires
            old(self).wf(),
        ensures
            final(self).wf(),
            final(self).typed(
                old(self),
                r,
                compile_expression(expression@, old(self).ctx(), old(self).end()),
            ),
        decreases *expression, 1nat,
    {
        let ghost s0 = *self;
        let ghost c = self.ctx();
        let ghost at = self.end();
        let n = expression.operands.len();
        if n == 0 {
            proof {
                self.lemma_same();
            }
            return Ok(Kind::Boolean);
        }
        assert(decreases_to!(*expression => expression.operands));
        assert(decreases_to!(expression.operands => expression.operands[0]));
        let op1 = match self.test_operand(&expression.operands[0]) {
            Ok(k) => k,
            Err(e) => {
                return Err(e);
            },
        };
        let mut current_type = op1;
        let ghost mut acc = compile_operand(expression@.operands[0], c, at)->Done_1;
        let mut i: usize = 1;
        while i < n && i <= expression.operations.len()
            invariant
                1 <= i,
                n == expression.operands@.len(),
                self.wf(),
                s0.wf(),
                s0 == *old(self),
                c == s0.ctx(),
                at == s0.end(),
                self.extends(&s0, acc),
                compile_expression(expression@, c, at) == expression_rest(
                    expression@,
                    i as int,
                    current_type,
                    c,
                    at,
                    acc,
                ),
            decreases n - i,
        {
            let ghost s1 = *self;
            self.push_rax();
            let ghost s2 = *self;
            assert(decreases_to!(*expression => expression.operands));
            assert(decreases_to!(expression.operands => expression.operands[i as int]));
            proof {
                s2.lemma_extends(&s1, &s0, acc, push_rax());
            }
            let op = match self.test_operand(&expression.operands[i]) {
                Ok(k) => k,
                Err(e) => {
                    return Err(e);
                },
            };
            let ghost code = compile_operand(expression@.operands[i as int], c, at + acc.len() + 1)->Done_1;
            let operation = expression.operations[i - 1];
            let ghost s3 = *self;
            self.pop_rbx();
            let ghost s4 = *self;
            if op != current_type {
                return Err(SemanticError::TypeMismatch(plain_of(current_type), plain_of(op)));
            }
            current_type = Kind::Boolean;
            self.compare(op, operation);
            proof {
                let pushed = acc.with(push_rax());
                s3.lemma_extends(&s2, &s0, pushed, code);
                s4.lemma_extends(&s3, &s0, pushed.with(code), pop_rbx());
                let loaded = pushed.with(code).with(pop_rbx());
                self.lemma_extends(
                    &s4,
                    &s0,
                    loaded,
                    comparison_code(op, operation, c.reserve, at + loaded.len()),
                );
                acc = loaded.with(comparison_code(op, operation, c.reserve, at + loaded.len()));
            }
            i += 1;
        }
        Ok(current_type)
    }
}

} // verus!

verus! {

impl Semantic {
    /// Analyses a condition: an expression that must be a boolean.
    fn test_condition(&mut self, expression: &Expression) -> (r: SemanticResult<Kind>)
        requires
            old(self).wf(),
        ensures
            final(self).wf(),
            final(self).typed(
                old(self),
                r,
                compile_condition(expression@, old(self).ctx(), old(self).end()),
            ),
    {
        match self.test_expression(expression) {
            Ok(k) => match k {
                Kind::Boolean => Ok(k),
                t => Err(SemanticError::NotBoolean(plain_of(t))),
            },
            Err(e) => Err(e),
        }
    }

    /// Sets the flags from the two conditions that are about to be joined.
    fn test_flags(&mut self)
        requires
            old(self).wf(),
        ensures
            final(self).wf(),
            final(self).extends(old(self), alu(0x48, 0x39, 0xd8)),
    {
        self.cmp();
    }

    /// Analyses the header of a `for`.
    fn test_header(&mut self, expressions: &Vec<Expression>) -> (r: SemanticResult<Kind>)
        requires
            old(self).wf(),
        ensures
            final(self).wf(),
            final(self).typed(
                old(self),
                r,
                compile_header(header_view(expressions@), old(self).ctx(), old(self).end()),
            ),
    {
        let ghost s0 = *self;
        let ghost c = self.ctx();
        let ghost at = self.end();
        let ghost es = header_view(expressions@);
        let n = expressions.len();
        if n == 0 {
            self.asm_bool(true);
            return Ok(Kind::Boolean);
        }
        match self.test_condition(&expressions[0]) {
            Ok(_) => {},
            Err(e) => {
                return Err(e);
            },
        }
        let ghost mut acc = compile_condition(es[0], c, at)->Done_1;
        let mut i: usize = 1;
        while i < n
            invariant
                1 <= i <= n,
                n == expressions@.len(),
                es == header_view(expressions@),
                self.wf(),
                s0.wf(),
                s0 == *old(self),
                c == s0.ctx(),
                at == s0.end(),
                self.extends(&s0, acc),
                compile_header(es, c, at) == header_rest(es, i as int, c, at, acc),
            decreases n - i,
        {
            let ghost s1 = *self;
            self.push_rax();
            let ghost s2 = *self;
            proof {
                s2.lemma_extends(&s1, &s0, acc, push_rax());
            }
            match self.test_expression(&expressions[i]) {
                Ok(k) => match k {
                    Kind::Boolean => {},
                    t => {
                        return Err(SemanticError::NotBoolean(plain_of(t)));
                    },
                },
                Err(e) => {
                    return Err(e);
                },
            }
            let ghost code = compile_expression(es[i as int], c, at + acc.len() + 1)->Done_1;
            let ghost s3 = *self;
            self.pop_rbx();
            let ghost s4 = *self;
            self.test_flags();
            let ghost s5 = *self;
            self.and();
            proof {
                let pushed = acc.with(push_rax());
                s3.lemma_extends(&s2, &s0, pushed, code);
                s4.lemma_extends(&s3, &s0, pushed.with(code), pop_rbx());
                s5.lemma_extends(&s4, &s0, pushed.with(code).with(pop_rbx()), alu(0x48, 0x39, 0xd8));
                self.lemma_extends(
                    &s5,
                    &s0,
                    pushed.with(code).with(pop_rbx()).with(alu(0x48, 0x39, 0xd8)),
                    alu(0x48, 0x21, 0xd8),
                );
                acc = pushed.with(code).with(pop_rbx()).with(alu(0x48, 0x39, 0xd8)).with(
                    alu(0x48, 0x21, 0xd8),
                );
            }
            i += 1;
        }
        Ok(Kind::Boolean)
    }

    /// Analyses the expressions of an `output`.
    fn test_output(&mut self, expressions: &Vec<Expression>) -> (r: SemanticResult<()>)
        requires
            old(self).wf(),
        ensures
            final(self).wf(),
            final(self).done(
                old(self),
                r,
                output_rest(header_view(expressions@), 0, old(self).ctx(), old(self).end(), Code::nothing()),
            ),
    {
        let ghost s0 = *self;
        let ghost c = self.ctx();
        let ghost at = self.end();
        let ghost es = header_view(expressions@);
        let n = expressions.len();
        let ghost mut acc = Code::nothing();
        proof {
            self.lemma_same();
        }
        let mut i: usize = 0;
        while i < n
            invariant
                i <= n,
                n == expressions@.len(),
                es == header_view(expressions@),
                self.wf(),
                s0.wf(),
                s0 == *old(self),
                c == s0.ctx(),
                at == s0.end(),
                self.extends(&s0, acc),
                output_rest(es, 0, c, at, Code::nothing()) == output_rest(es, i as int, c, at, acc),
            decreases n - i,
        {
            let ghost s1 = *self;
            let k = match self.test_expression(&expressions[i]) {
                Ok(k) => k,
                Err(e) => {
                    return Err(e);
                },
            };
            let ghost code = compile_expression(es[i as int], c, at + acc.len())->Done_1;
            let ghost s2 = *self;
            self.print(k);
            proof {
                s2.lemma_extends(&s1, &s0, acc, code);
                let computed = acc.with(code);
                self.lemma_extends(&s2, &s0, computed, print_code(k, c.reserve, at + computed.len()));
                acc = computed.with(print_code(k, c.reserve, at + computed.len()));
            }
            i += 1;
        }
        Ok(())
    }

    /// Analyses the identifiers of an `input`.
    fn test_input(&mut self, ids: &Vec<u64>) -> (r: SemanticResult<()>)
        requires
            old(self).wf(),
        ensures
            final(self).wf(),
            final(self).done(
                old(self),
                r,
                input_rest(ids@, 0, old(self).ctx(), old(self).end(), Code::nothing()),
            ),
    {
        let ghost s0 = *self;
        let ghost c = self.ctx();
        let ghost at = self.end();
        let n = ids.len();
        let ghost mut acc = Code::nothing();
        proof {
            self.lemma_same();
        }
        let mut i: usize = 0;
        while i < n
            invariant
                i <= n,
                n == ids@.len(),
                self.wf(),
                s0.wf(),
                s0 == *old(self),
                c == s0.ctx(),
                at == s0.end(),
                self.grows(&s0, acc),
                input_rest(ids@, 0, c, at, Code::nothing()) == input_rest(
                    ids@,
                    i as int,
                    Ctx { env: self.env(), ..c },
                    at,
                    acc,
                ),
            decreases n - i,
        {
            let id = ids[i];
            let k = match self.identifiers.get(&id) {
                Some(v) => v.get_kind(),
                None => {
                    return Err(SemanticError::NotDeclared(id));
                },
            };
            self.identifiers.insert(id, valued_of(k));
            let ghost s1 = *self;
            assert(s1.grows(&s0, acc));
            assert(s1.wf());
            self.input(id, k);
            proof {
                self.lemma_grows(&s1, &s0, acc, input_code(id, k, c.reserve, at + acc.len()));
                acc = acc.with(input_code(id, k, c.reserve, at + acc.len()));
            }
            i += 1;
        }
        Ok(())
    }
}

/// What the expressions of a list stand for.
pub open spec fn header_view(es: Seq<Expression>) -> Seq<ExpressionView> {
    Seq::new(es.len(), |i: int| es[i]@)
}

} // verus!

verus! {

impl Semantic {
    /// The rest of a loop after its condition, whose code `cond` was
    /// emitted from the offset `start` on: the jump over the body, the body,
    /// and the jump back.
    #[verifier::rlimit(50)]
    fn finish_loop(
        &mut self,
        start: u64,
        body: &Operator,
        Ghost(s0): Ghost<Semantic>,
        Ghost(cond): Ghost<Code>,
    ) -> (r: SemanticResult<()>)
        requires
            old(self).wf(),
            s0.wf(),
            old(self).extends(&s0, cond),
            start == s0.end(),
        ensures
            final(self).wf(),
            final(self).done(&s0, r, compile_loop(cond, body@, s0.ctx(), s0.end())),
        decreases *body, 2nat,
    {
        let ghost s1 = *self;
        let ghost c = s0.ctx();
        let ghost at = s0.end();
        let ghost head = seq![0x48u8, 0x85, 0xc0, 0x0f, 0x84];
        let jz_position = self.jz_default();
        let ghost s2 = *self;
        proof {
            s2.lemma_extends(&s1, &s0, cond, jump_if_zero(0));
        }
        match self.test_operator(body) {
            Ok(_) => {},
            Err(e) => {
                return Err(e);
            },
        }
        let ghost s3 = *self;
        let ghost code = compile_operator(body@, c, at + cond.len() + 9)->Done_1;
        let ghost back = jump(-(cond.len() + 9 + code.len() + 5));
        proof {
            lemma_le_len(0, 4);
            s3.lemma_grows(&s2, &s0, cond.with(jump_if_zero(0)), code);
        }
        self.jmp_cycle(start);
        let ghost s4 = *self;
        proof {
            s4.lemma_grows(&s3, &s0, cond.with(jump_if_zero(0)).with(code), back);
            Self::lemma_assoc(cond.with(jump_if_zero(0)), code, back);
        }
        self.jz(jz_position);
        proof {
            lemma_le_len(-(cond.len() + 9 + code.len() + 5), 4);
            self.lemma_filled(&s4, &s0, cond, head, code.with(back), code.len() + 5);
            Self::lemma_assoc(cond.with(jump_if_zero(code.len() + 5)), code, back);
        }
        Ok(())
    }

    /// Analyses an assignment of `expression` to the variable `id`.
    fn test_assignment(&mut self, id: &u64, expression: &Expression) -> (r: SemanticResult<()>)
        requires
            old(self).wf(),
        ensures
            final(self).wf(),
            final(self).done(
                old(self),
                r,
                compile_operator(
                    OperatorView::Assignment(*id, expression@),
                    old(self).ctx(),
                    old(self).end(),
                ),
            ),
    {
        let ghost s0 = *self;
        let ghost c = self.ctx();
        let ghost at = self.end();
            let t = match self.test_expression(expression) {
                Ok(t) => t,
                Err(e) => {
                    return Err(e);
                },
            };
            let ghost code = compile_expression(expression@, c, at)->Done_1;
            match self.identifiers.get(id) {
                Some(v) => {
                    let declared = *v;
                    if plain_of(t) & declared {
                        self.identifiers.insert(*id, valued_of(t));
                        let ghost s1 = *self;
                        assert(s1.grows(&s0, code));
                        self.assign(*id);
                        proof {
                            self.lemma_grows(&s1, &s0, code, store_ident(*id, at + code.len()));
                        }
                        Ok(())
                    } else {
                        Err(
                            SemanticError::AssignTypeMismatch(
                                plain_of(t),
                                plain_of(declared.get_kind()),
                            ),
                        )
                    }
                },
                None => Err(SemanticError::NotDeclared(*id)),
            }
    }

    /// Analyses a block of statements.
    #[verifier::rlimit(50)]
    fn test_block(&mut self, operator: &Operator) -> (r: SemanticResult<()>)
        requires
            old(self).wf(),
            *operator is Composite,
        ensures
            final(self).wf(),
            final(self).done(
                old(self),
                r,
                compile_operator(operator@, old(self).ctx(), old(self).end()),
            ),
        decreases *operator, 0nat,
    {
        let ghost s0 = *self;
        let ghost c = self.ctx();
        let ghost at = self.end();
        match operator {
            Operator::Composite(operators) => {
                let ghost ops = operator@->Composite_0;
                let n = operators.len();
                let ghost mut acc = Code::nothing();
                proof {
                    self.lemma_same();
                }
                let mut i: usize = 0;
                while i < n
                    invariant
                        i <= n,
                        n == operators@.len(),
                        *operator is Composite,
                        operator->Composite_0 == *operators,
                        ops == operator@->Composite_0,
                        self.wf(),
                        s0.wf(),
                        s0 == *old(self),
                        c == s0.ctx(),
                        at == s0.end(),
                        self.grows(&s0, acc),
                        block_rest(ops, 0, c, at, Code::nothing()) == block_rest(
                            ops,
                            i as int,
                            Ctx { env: self.env(), ..c },
                            at,
                            acc,
                        ),
                    decreases n - i,
                {
                    let ghost s1 = *self;
                    assert(decreases_to!(*operator => operator->Composite_0));
                    assert(decreases_to!(operators => operators[i as int]));
                    match self.test_operator(&operators[i]) {
                        Ok(_) => {},
                        Err(e) => {
                            return Err(e);
                        },
                    }
                    proof {
                        let code = compile_operator(
                            ops[i as int],
                            Ctx { env: s1.env(), ..c },
                            at + acc.len(),
                        )->Done_1;
                        self.lemma_grows(&s1, &s0, acc, code);
                        acc = acc.with(code);
                    }
                    i += 1;
                }
                Ok(())
            },
            _ => Ok(()),
        }
    }

    /// Analyses an `if` statement.
    #[verifier::rlimit(50)]
    fn test_if(&mut self, operator: &Operator) -> (r: SemanticResult<()>)
        requires
            old(self).wf(),
            *operator is If,
        ensures
            final(self).wf(),
            final(self).done(
                old(self),
                r,
                compile_operator(operator@, old(self).ctx(), old(self).end()),
            ),
        decreases *operator, 0nat,
    {
        let ghost s0 = *self;
        let ghost c = self.ctx();
        let ghost at = self.end();
        match operator {
            Operator::If(expression, operator1, operator2) => {
                match self.test_condition(expression) {
                    Ok(_) => {},
                    Err(e) => {
                        return Err(e);
                    },
                }
                let ghost s1 = *self;
                let ghost c1 = compile_condition(expression@, c, at)->Done_1;
                let ghost head = seq![0x48u8, 0x85, 0xc0, 0x0f, 0x84];
                let jz_position = self.jz_default();
                let ghost s2 = *self;
                proof {
                    lemma_le_len(0, 4);
                    s2.lemma_extends(&s1, &s0, c1, jump_if_zero(0));
                }
                match self.test_operator(operator1) {
                    Ok(_) => {},
                    Err(e) => {
                        return Err(e);
                    },
                }
                let ghost s3 = *self;
                let ghost ca = compile_operator(operator1@, c, at + c1.len() + 9)->Done_1;
                proof {
                    s3.lemma_grows(&s2, &s0, c1.with(jump_if_zero(0)), ca);
                }
                match operator2 {
                    Some(operator2) => {
                        let jmp_position = self.jpm_default();
                        let ghost s4 = *self;
                        proof {
                            s4.lemma_grows(&s3, &s0, c1.with(jump_if_zero(0)).with(ca), jump(0));
                            Self::lemma_assoc(c1.with(jump_if_zero(0)), ca, jump(0));
                        }
                        self.jz(jz_position);
                        let ghost s5 = *self;
                        let ghost front = c1.with(jump_if_zero(ca.len() + 5)).with(ca);
                        proof {
                            s5.lemma_filled(&s4, &s0, c1, head, ca.with(jump(0)), ca.len() + 5);
                            Self::lemma_assoc(c1.with(jump_if_zero(ca.len() + 5)), ca, jump(0));
                            lemma_le_len(ca.len() + 5, 4);
                        }
                        match self.test_operator(operator2) {
                            Ok(_) => {},
                            Err(e) => {
                                return Err(e);
                            },
                        }
                        let ghost s6 = *self;
                        let ghost cb = compile_operator(
                            operator2@,
                            Ctx { env: s3.env(), ..c },
                            at + c1.len() + 9 + ca.len() + 5,
                        )->Done_1;
                        proof {
                            s6.lemma_grows(&s5, &s0, front.with(jump(0)), cb);
                        }
                        self.jmp(jmp_position);
                        proof {
                            self.lemma_filled(&s6, &s0, front, seq![0xe9u8], cb, cb.len());
                        }
                    },
                    None => {
                        self.jz(jz_position);
                        proof {
                            self.lemma_filled(&s3, &s0, c1, head, ca, ca.len());
                        }
                    },
                }
                Ok(())
            },
            _ => Ok(()),
        }
    }

    /// Analyses a statement: checks it and emits its code.
    #[verifier::rlimit(50)]
    fn test_operator(&mut self, operator: &Operator) -> (r: SemanticResult<()>)
        requires
            old(self).wf(),
        ensures
            final(self).wf(),
            final(self).done(
                old(self),
                r,
                compile_operator(operator@, old(self).ctx(), old(self).end()),
            ),
        decreases *operator, 1nat,
    {
        let ghost s0 = *self;
        let ghost c = self.ctx();
        let ghost at = self.end();
        match operator {
            Operator::Assignment(id, expression) => self.test_assignment(id, expression),
            Operator::Composite(_) => self.test_block(operator),
            Operator::Output(expressions) => {
                assert(operator@->Output_0 =~= header_view(expressions@));
                self.test_output(expressions)
            },
            Operator::Input(ids) => self.test_input(ids),
            Operator::If(_, _, _) => self.test_if(operator),
            Operator::For(expressions, body) => {
                let start_position = self.position;
                assert(operator@->For_0 =~= header_view(expressions@));
                match self.test_header(expressions) {
                    Ok(_) => {},
                    Err(e) => {
                        return Err(e);
                    },
                }
                let ghost cond = compile_header(header_view(expressions@), c, at)->Done_1;
                self.finish_loop(start_position, body, Ghost(s0), Ghost(cond))
            },
            Operator::While(expression, body) => {
                let start_position = self.position;
                match self.test_condition(expression) {
                    Ok(_) => {},
                    Err(e) => {
                        return Err(e);
                    },
                }
                let ghost cond = compile_condition(expression@, c, at)->Done_1;
                self.finish_loop(start_position, body, Ghost(s0), Ghost(cond))
            },
        }
    }
}

} // verus!

verus! {

impl Semantic {
    /// An analyser for `program`, with the values `vars` of its literals
    /// and the number `reserv` of its identifiers.
    pub fn new(
        program: Vec<MainOperation>,
        vars: HashMap<u64, LexerDigitalData>,
        reserv: u64,
    ) -> (r: Semantic)
        requires
            reserv <= u64::MAX - 6,
        ensures
            r.wf(),
            r.tree() == program_view(program@),
            r.literals() == vars@,
            r.scratch() == reserv,
            r.env() == Map::<u64, ProgramTypes>::empty(),
            r.code() == Code::nothing(),
    {
        Semantic {
            program,
            identifiers: HashMap::new(),
            vars,
            machine_code: Vec::new(),
            position: 0,
            reserve: reserv,
            asm_idents: Vec::new(),
        }
    }

    /// The machine code emitted so far.
    pub fn text(&self) -> (r: &Vec<u8>)
        ensures
            r@ == self.code().bytes,
    {
        &self.machine_code
    }

    /// The relocations of the code emitted so far.
    pub fn relocations(&self) -> (r: &Vec<(u64, u64, bool)>)
        ensures
            r@ == self.code().relocs,
    {
        &self.asm_idents
    }

    /// Every relocation recorded so far patches a field of 4 or 8 bytes
    /// that lies inside the code emitted so far.
    pub proof fn lemma_relocations_inside(&self)
        requires
            self.wf(),
        ensures
            within(self.code(), 0),
    {
    }

    /// Declares the identifiers of one group with the type `t`.
    fn declare_group(&mut self, ids: &Vec<u64>, t: ProgramTypes) -> (r: SemanticResult<()>)
        requires
            old(self).wf(),
        ensures
            final(self).wf(),
            final(self).kept(old(self)),
            r is Ok ==> final(self).grows(old(self), Code::nothing()),
            match declare_ids(ids@, 0, t, old(self).env()) {
                Ok(env) => r is Ok && final(self).env() == env,
                Err(e) => r is Err && r->Err_0@ == e,
            },
    {
        proof {
            self.lemma_same();
        }
        let mut i: usize = 0;
        while i < ids.len()
            invariant
                i <= ids@.len(),
                self.wf(),
                self.grows(old(self), Code::nothing()),
                declare_ids(ids@, 0, t, old(self).env()) == declare_ids(
                    ids@,
                    i as int,
                    t,
                    self.env(),
                ),
            decreases ids@.len() - i,
        {
            let id = ids[i];
            match self.identifiers.get(&id) {
                None => {
                    self.identifiers.insert(id, t);
                },
                Some(_) => {
                    return Err(SemanticError::AlreadyDeclared(id));
                },
            }
            i += 1;
        }
        Ok(())
    }

    /// Declares the identifiers of a declaration.
    fn declare(&mut self, groups: &Vec<(Vec<u64>, ProgramTypes)>) -> (r: SemanticResult<()>)
        requires
            old(self).wf(),
        ensures
            final(self).wf(),
            final(self).kept(old(self)),
            r is Ok ==> final(self).grows(old(self), Code::nothing()),
            match declare_groups(crate::syntax::groups_view(groups@), 0, old(self).env()) {
                Ok(env) => r is Ok && final(self).env() == env,
                Err(e) => r is Err && r->Err_0@ == e,
            },
    {
        let ghost gs = crate::syntax::groups_view(groups@);
        let mut i: usize = 0;
        proof {
            self.lemma_same();
        }
        while i < groups.len()
            invariant
                i <= groups@.len(),
                gs == crate::syntax::groups_view(groups@),
                self.wf(),
                self.grows(old(self), Code::nothing()),
                declare_groups(gs, 0, old(self).env()) == declare_groups(gs, i as int, self.env()),
            decreases groups@.len() - i,
        {
            let ghost s1 = *self;
            match self.declare_group(&groups[i].0, groups[i].1) {
                Ok(_) => {},
                Err(e) => {
                    return Err(e);
                },
            }
            proof {
                self.lemma_grows(&s1, old(self), Code::nothing(), Code::nothing());
                Self::lemma_empty(Code::nothing());
            }
            i += 1;
        }
        Ok(())
    }

    /// Joining no code changes nothing.
    proof fn lemma_empty(a: Code)
        ensures
            a.with(Code::nothing()) == a,
            Code::nothing().with(a) == a,
    {
        assert(a.with(Code::nothing()).bytes =~= a.bytes);
        assert(a.with(Code::nothing()).relocs =~= a.relocs);
        assert(Code::nothing().with(a).bytes =~= a.bytes);
        assert(Code::nothing().with(a).relocs =~= a.relocs);
    }

    /// Analyses one entry of the program.
    fn test_main(&mut self, entry: &MainOperation) -> (r: SemanticResult<()>)
        requires
            old(self).wf(),
        ensures
            final(self).wf(),
            final(self).done(old(self), r, compile_main(entry@, old(self).ctx(), old(self).end())),
    {
        match entry {
            MainOperation::CreateVariable(groups) => {
                assert(entry@->CreateVariable_0 =~= crate::syntax::groups_view(groups@));
                self.declare(groups)
            },
            MainOperation::Operator(operator) => self.test_operator(operator),
        }
    }

    /// Analyses the entries of `program` one after the other.
    fn test_program(&mut self, program: &Vec<MainOperation>) -> (r: SemanticResult<()>)
        requires
            old(self).wf(),
        ensures
            final(self).wf(),
            final(self).done(
                old(self),
                r,
                compile_program(program_view(program@), old(self).ctx(), old(self).end()),
            ),
    {
        let ghost s0 = *self;
        let ghost c = self.ctx();
        let ghost at = self.end();
        let ghost ms = program_view(program@);
        let start: Vec<u8> = vec![0x48, 0x83, 0xec, 0x08];
        assert(start@ =~= seq![0x48u8, 0x83, 0xec, 0x08]);
        self.emit(start);
        let ghost mut acc = prologue();
        let mut i: usize = 0;
        while i < program.len()
            invariant
                i <= program@.len(),
                ms == program_view(program@),
                self.wf(),
                s0.wf(),
                s0 == *old(self),
                c == s0.ctx(),
                at == s0.end(),
                self.grows(&s0, acc),
                program_rest(ms, 0, c, at, prologue()) == program_rest(
                    ms,
                    i as int,
                    Ctx { env: self.env(), ..c },
                    at,
                    acc,
                ),
            decreases program@.len() - i,
        {
            let ghost s1 = *self;
            match self.test_main(&program[i]) {
                Ok(_) => {},
                Err(e) => {
                    return Err(e);
                },
            }
            proof {
                let code = compile_main(ms[i as int], Ctx { env: s1.env(), ..c }, at + acc.len())->Done_1;
                self.lemma_grows(&s1, &s0, acc, code);
                acc = acc.with(code);
            }
            i += 1;
        }
        let ghost s2 = *self;
        let exit: Vec<u8> = vec![0xb8, 0x3c, 0x00, 0x00, 0x00, 0x48, 0x31, 0xff, 0x0f, 0x05];
        assert(exit@ =~= seq![0xb8u8, 0x3c, 0x00, 0x00, 0x00, 0x48, 0x31, 0xff, 0x0f, 0x05]);
        self.emit(exit);
        proof {
            self.lemma_grows(&s2, &s0, acc, epilogue());
        }
        Ok(())
    }

    /// Checks the program and emits its code.
    ///
    /// The program is accepted when every identifier is declared once and
    /// before it is used, has a value before it is read, every literal has
    /// a value, every operator gets operands of the types it takes, and
    /// every condition is a boolean. Then the code of the program, with its
    /// relocations, stands after the code that was there. Else the first
    /// error is returned. In both cases every relocation patches a field
    /// inside the code.
    pub fn run_process(&mut self) -> (r: SemanticResult<()>)
        requires
            old(self).wf(),
        ensures
            final(self).wf(),
            final(self).tree() == old(self).tree(),
            final(self).literals() == old(self).literals(),
            final(self).scratch() == old(self).scratch(),
            within(final(self).code(), 0),
            match compile_program(old(self).tree(), old(self).ctx(), old(self).code().len()) {
                Compiled::Done(env, code) => r is Ok && final(self).env() == env
                    && final(self).code() == old(self).code().with(code),
                Compiled::Failed(e) => r is Err && r->Err_0@ == e,
            },
    {
        let program = self.take_program();
        let ghost s1 = *self;
        let r = self.test_program(&program);
        let ghost s2 = *self;
        self.put_program(program);
        r
    }

    /// Takes the program out of the analyser.
    fn take_program(&mut self) -> (program: Vec<MainOperation>)
        requires
            old(self).wf(),
        ensures
            final(self).wf(),
            program == old(self).program,
            final(self).extends(
                &(Semantic { program: final(self).program, ..*old(self) }),
                Code::nothing(),
            ),
            final(self).end() == old(self).end(),
            final(self).code() == old(self).code(),
    {
        let mut program: Vec<MainOperation> = Vec::new();
        core::mem::swap(&mut self.program, &mut program);
        proof {
            self.lemma_same();
        }
        program
    }

    /// Puts the program back into the analyser.
    fn put_program(&mut self, program: Vec<MainOperation>)
        requires
            old(self).wf(),
        ensures
            final(self).wf(),
            final(self).program == program,
            final(self).code() == old(self).code(),
            final(self).env() == old(self).env(),
            final(self).literals() == old(self).literals(),
            final(self).scratch() == old(self).scratch(),
    {
        self.program = program;
    }
}

} // verus!
