use std::collections::HashMap;

use cm_compiler::parser::Parser;
use cm_compiler::program::{Expression, MainOperation, Multiplier, Operand, Operator, Term};
use cm_compiler::semantic::{Semantic, SemanticError};
use cm_compiler::types::{Kind, LexerDigitalData, ProgramTypes};

fn analyser(src: &str) -> Semantic {
    let mut p = Parser::new("test.cm".to_string(), src.as_bytes());
    p.run_lexer().unwrap();
    for id in p.real_literals() {
        let bits = p.var_map[id as usize].parse::<f64>().unwrap().to_bits();
        assert!(p.set_real(id, bits));
    }
    p.run_syntax().unwrap();
    let count = p.ident_map.len() as u64;
    Semantic::new(std::mem::take(&mut p.program), std::mem::take(&mut p.vars), count)
}

fn check(src: &str) -> Result<(), SemanticError> {
    analyser(src).run_process()
}

fn code(src: &str) -> (Vec<u8>, Vec<(u64, u64, bool)>) {
    let mut s = analyser(src);
    assert_eq!(s.run_process(), Ok(()));
    (s.machine_code.clone(), s.asm_idents.clone())
}

const ENTRY: [u8; 4] = [0x48, 0x83, 0xec, 0x08];
const EXIT: [u8; 10] = [0xb8, 0x3c, 0x00, 0x00, 0x00, 0x48, 0x31, 0xff, 0x0f, 0x05];

fn mov_rax(v: u64) -> Vec<u8> {
    let mut out = vec![0x48, 0xb8];
    out.extend(v.to_le_bytes());
    out
}

fn load(out: &mut Vec<u8>) {
    out.extend([0x48, 0x8b, 0x04, 0x25, 0, 0, 0, 0]);
}

fn store(out: &mut Vec<u8>) {
    out.extend([0x48, 0x89, 0x04, 0x25, 0, 0, 0, 0]);
}

fn print_integer(out: &mut Vec<u8>) {
    out.extend([0x48, 0xbf, 0, 0, 0, 0, 0, 0, 0, 0]);
    out.extend([0x48, 0x89, 0xc6, 0x48, 0x31, 0xc0]);
    out.extend([0xe8, 0, 0, 0, 0]);
}

#[test]
fn a_program_without_statements_is_entry_and_exit() {
    let (text, relocs) = code("{ var x: integer; }");
    let mut expected = ENTRY.to_vec();
    expected.extend(EXIT);
    assert_eq!(text, expected);
    assert!(relocs.is_empty());
}

#[test]
fn the_sum_of_two_integers_is_assigned_and_printed() {
    let (text, relocs) = code("{ var x: integer; x = 1 + 2; output(x); }");
    let mut expected = ENTRY.to_vec();
    expected.extend(mov_rax(1)); // 4..14
    expected.push(0x50); // 14
    expected.extend(mov_rax(2)); // 15..25
    expected.extend([0x5b, 0x48, 0x93]); // 25..28
    expected.extend([0x48, 0x01, 0xd8]); // 28..31
    store(&mut expected); // 31..39, field at 35
    load(&mut expected); // 39..47, field at 43
    print_integer(&mut expected); // 47..68: field at 49, call field at 64
    expected.extend(EXIT);
    assert_eq!(text, expected);
    assert_eq!(relocs, vec![(0, 35, false), (0, 43, false), (3, 49, true), (7, 64, false)]);
}

#[test]
fn integer_operators() {
    let (text, _) = code("{ var x: integer; x = 7 - 2 * 3 / 4; }");
    let mut expected = ENTRY.to_vec();
    expected.extend(mov_rax(7));
    expected.push(0x50);
    expected.extend(mov_rax(2));
    expected.push(0x50);
    expected.extend(mov_rax(3));
    expected.extend([0x5b, 0x48, 0x93]);
    expected.extend([0x48, 0xf7, 0xeb]);
    expected.push(0x50);
    expected.extend(mov_rax(4));
    expected.extend([0x5b, 0x48, 0x93]);
    expected.extend([0x48, 0xf7, 0xfb]);
    expected.extend([0x5b, 0x48, 0x93]);
    expected.extend([0x48, 0x29, 0xd8]);
    store(&mut expected);
    expected.extend(EXIT);
    assert_eq!(text, expected);
}

#[test]
fn the_product_of_two_reals_goes_through_the_x87_unit() {
    let (text, relocs) = code("{ var f: real; f = 1.5 * 2.0; output(f); }");
    let mut expected = ENTRY.to_vec();
    expected.extend(mov_rax(1.5f64.to_bits())); // 4
    expected.push(0x50); // 14
    expected.extend(mov_rax(2.0f64.to_bits())); // 15
    expected.extend([0x5b, 0x48, 0x93]); // 25
    // init_fpu at 28
    expected.extend([0x9b, 0xdb, 0xe3]);
    expected.extend([0x48, 0x89, 0x04, 0x25, 0, 0, 0, 0]); // field 35
    expected.extend([0xdd, 0x04, 0x25, 0, 0, 0, 0]); // field 42
    expected.extend([0x48, 0x89, 0x1c, 0x25, 0, 0, 0, 0]); // field 50
    // fmul at 54
    expected.extend([0xdc, 0x0c, 0x25, 0, 0, 0, 0]); // field 57
    // save at 61
    expected.extend([0xdd, 0x1c, 0x25, 0, 0, 0, 0]); // field 64
    expected.extend([0x48, 0x8b, 0x04, 0x25, 0, 0, 0, 0]); // field 72
    store(&mut expected); // 76, field 80
    load(&mut expected); // 84, field 88
    // print real at 92
    expected.extend([0x48, 0xbf, 0, 0, 0, 0, 0, 0, 0, 0]); // field 94
    expected.extend([0x48, 0xbe, 0, 0, 0, 0, 0, 0, 0, 0]); // 102
    store(&mut expected); // 112, field 116
    expected.extend([0xb8, 0x01, 0, 0, 0, 0xf2, 0x0f, 0x10, 0x04, 0x25, 0, 0, 0, 0]); // 120, field 130
    expected.extend([0xe8, 0, 0, 0, 0]); // 134, field 135
    expected.extend(EXIT);
    assert_eq!(text, expected);
    assert_eq!(
        relocs,
        vec![
            (1, 35, false),
            (1, 42, false),
            (1, 50, false),
            (1, 57, false),
            (1, 64, false),
            (1, 72, false),
            (0, 80, false),
            (0, 88, false),
            (5, 94, true),
            (1, 116, false),
            (1, 130, false),
            (7, 135, false),
        ]
    );
}

#[test]
fn a_negated_comparison_gives_a_boolean() {
    let (text, relocs) = code("{ var b: boolean; b = !(1 == 2); output(b); }");
    let mut expected = ENTRY.to_vec();
    expected.extend(mov_rax(1));
    expected.push(0x50);
    expected.extend(mov_rax(2));
    expected.extend([0x5b, 0x48, 0x93]);
    expected.extend([0x48, 0x39, 0xd8]);
    expected.extend([0x74, 12]);
    expected.extend(mov_rax(0));
    expected.extend([0xeb, 10]);
    expected.extend(mov_rax(u64::MAX));
    expected.extend([0x48, 0xf7, 0xd0]);
    store(&mut expected);
    load(&mut expected);
    print_integer(&mut expected);
    expected.extend(EXIT);
    assert_eq!(text, expected);
    assert_eq!(relocs.len(), 4);
}

#[test]
fn every_relation_has_its_jump() {
    for (op, jump) in [("==", 0x74), ("!=", 0x75), (">", 0x7f), ("<", 0x7c), (">=", 0x7d), ("<=", 0x7e)] {
        let (text, _) = code(&format!("{{ var b: boolean; b = 1 {} 2; }}", op));
        assert_eq!(text[31], jump, "{}", op);
        assert_eq!(text[32], 12);
    }
}

#[test]
fn reals_are_compared_in_the_x87_unit() {
    let (text, relocs) = code("{ var b: boolean; b = 1.5 < 2.5; }");
    // entry 4, load 10, push 1, load 10, pop 3: the comparison starts at 28
    assert_eq!(&text[28..31], &[0x9b, 0xdb, 0xe3]);
    assert_eq!(&text[54..57], &[0x9b, 0xdb, 0xe3]);
    assert_eq!(&text[80..83], &[0xdd, 0x04, 0x25]);
    assert_eq!(&text[87..89], &[0xdb, 0xf1]);
    assert_eq!(&text[89..91], &[0x7c, 12]);
    assert_eq!(text.len(), 4 + 24 + 61 + 24 + 8 + 10);
    assert_eq!(relocs.len(), 8);
    assert!(relocs[..7].iter().all(|r| r.0 == 1 && !r.2));
}

#[test]
fn a_while_loop_jumps_over_its_body_and_back() {
    let (text, relocs) =
        code("{ var x: integer; input(x); do while x > 0 { x = x - 1 } loop; output(x); }");
    let mut expected = ENTRY.to_vec();
    // input at 4
    expected.extend([0x48, 0xbf, 0, 0, 0, 0, 0, 0, 0, 0]); // field 6
    expected.extend([0x48, 0xbe, 0, 0, 0, 0, 0, 0, 0, 0]); // field 16
    expected.extend([0xe8, 0, 0, 0, 0]); // field 25
    let start = expected.len(); // 29
    load(&mut expected); // field 33
    expected.push(0x50);
    expected.extend(mov_rax(0));
    expected.extend([0x5b, 0x48, 0x93]);
    expected.extend([0x48, 0x39, 0xd8]);
    expected.extend([0x7f, 12]);
    expected.extend(mov_rax(0));
    expected.extend([0xeb, 10]);
    expected.extend(mov_rax(u64::MAX));
    let mut body = Vec::new();
    load(&mut body);
    body.push(0x50);
    body.extend(mov_rax(1));
    body.extend([0x5b, 0x48, 0x93]);
    body.extend([0x48, 0x29, 0xd8]);
    store(&mut body);
    expected.extend([0x48, 0x85, 0xc0, 0x0f, 0x84]);
    expected.extend((body.len() as u32 + 5).to_le_bytes());
    expected.extend(&body);
    let back = -((expected.len() + 5 - start) as i32);
    expected.push(0xe9);
    expected.extend(back.to_le_bytes());
    load(&mut expected);
    print_integer(&mut expected);
    expected.extend(EXIT);
    assert_eq!(text, expected);
    assert_eq!(relocs[0], (2, 6, true));
    assert_eq!(relocs[1], (0, 16, true));
    assert_eq!(relocs[2], (6, 25, false));
    assert_eq!(relocs[3], (0, 33, false));
}

#[test]
fn an_if_jumps_over_the_branch_that_is_not_taken() {
    let (text, _) = code("{ var x: integer; if true then x = 1 else x = 2 end_else; }");
    let mut branch = mov_rax(1);
    store(&mut branch);
    let mut other = mov_rax(2);
    store(&mut other);
    let mut expected = ENTRY.to_vec();
    expected.extend(mov_rax(u64::MAX));
    expected.extend([0x48, 0x85, 0xc0, 0x0f, 0x84]);
    expected.extend((branch.len() as u32 + 5).to_le_bytes());
    expected.extend(&branch);
    expected.push(0xe9);
    expected.extend((other.len() as u32).to_le_bytes());
    expected.extend(&other);
    expected.extend(EXIT);
    assert_eq!(text, expected);

    let (text, _) = code("{ var x: integer; if false then x = 1 end_else; }");
    let mut expected = ENTRY.to_vec();
    expected.extend(mov_rax(0));
    expected.extend([0x48, 0x85, 0xc0, 0x0f, 0x84]);
    expected.extend((branch.len() as u32).to_le_bytes());
    expected.extend(&branch);
    expected.extend(EXIT);
    assert_eq!(text, expected);
}

#[test]
fn a_for_joins_the_expressions_of_its_header() {
    let (text, _) = code("{ var x: integer; for (true; false; true) x = 1; }");
    let mut body = mov_rax(1);
    store(&mut body);
    let mut expected = ENTRY.to_vec();
    let start = expected.len();
    expected.extend(mov_rax(u64::MAX));
    for v in [0, u64::MAX] {
        expected.push(0x50);
        expected.extend(mov_rax(v));
        expected.extend([0x5b, 0x48, 0x93]);
        expected.extend([0x48, 0x39, 0xd8]);
        expected.extend([0x48, 0x21, 0xd8]);
    }
    expected.extend([0x48, 0x85, 0xc0, 0x0f, 0x84]);
    expected.extend((body.len() as u32 + 5).to_le_bytes());
    expected.extend(&body);
    let back = -((expected.len() + 5 - start) as i32);
    expected.push(0xe9);
    expected.extend(back.to_le_bytes());
    expected.extend(EXIT);
    assert_eq!(text, expected);
}

#[test]
fn a_boolean_that_is_read_is_brought_to_all_bits_or_none() {
    let (text, relocs) = code("{ var b: boolean; input(b); }");
    let mut expected = ENTRY.to_vec();
    expected.extend([0x48, 0xbf, 0, 0, 0, 0, 0, 0, 0, 0]);
    expected.extend([0x48, 0xbe, 0, 0, 0, 0, 0, 0, 0, 0]);
    expected.extend([0xe8, 0, 0, 0, 0]);
    load(&mut expected);
    expected.extend([0x48, 0x85, 0xc0, 0x74, 12]);
    expected.extend(mov_rax(u64::MAX));
    expected.extend([0xeb, 10]);
    expected.extend(mov_rax(0));
    store(&mut expected);
    expected.extend(EXIT);
    assert_eq!(text, expected);
    assert_eq!(
        relocs,
        vec![(2, 6, true), (0, 16, true), (6, 25, false), (0, 33, false), (0, 68, false)]
    );
}

#[test]
fn a_real_is_read_with_its_own_format() {
    let (_, relocs) = code("{ var f: real; input(f); }");
    assert_eq!(relocs, vec![(4, 6, true), (0, 16, true), (6, 25, false)]);
}

#[test]
fn assigning_a_boolean_to_an_integer_is_rejected() {
    assert_eq!(
        check("{ var x: integer; x = true; }"),
        Err(SemanticError::AssignTypeMismatch(ProgramTypes::Boolean(None), ProgramTypes::Integer(None)))
    );
}

#[test]
fn a_second_let_is_an_assignment_and_a_second_declaration_is_rejected() {
    assert_eq!(check("{ var a: integer; let a = 1; let a = 2; }"), Ok(()));
    assert_eq!(
        check("{ var a: integer; var a: integer; }"),
        Err(SemanticError::AlreadyDeclared(0))
    );
    assert_eq!(
        check("{ var a, b: integer; c, a: real; }"),
        Err(SemanticError::AlreadyDeclared(0))
    );
}

#[test]
fn an_undeclared_or_unset_variable_is_not_defined() {
    assert_eq!(check("{ x = 1; }"), Err(SemanticError::NotDeclared(0)));
    assert_eq!(check("{ var x: integer; output(x); }"), Err(SemanticError::NotDeclared(0)));
    assert_eq!(check("{ var x: integer; x = x + 1; }"), Err(SemanticError::NotDeclared(0)));
    assert_eq!(check("{ var x: integer; input(y); }"), Err(SemanticError::NotDeclared(1)));
    assert_eq!(check("{ var b: boolean; b = !c; }"), Err(SemanticError::NotDeclared(1)));
    assert_eq!(check("{ var x: integer; input(x); output(x); }"), Ok(()));
    assert_eq!(check("{ var x: integer; x = 1; x = x + 1; }"), Ok(()));
}

#[test]
fn both_sides_of_an_operator_have_one_type() {
    assert_eq!(
        check("{ var x: integer; x = 1 + 1.5; }"),
        Err(SemanticError::TypeMismatch(ProgramTypes::Integer(None), ProgramTypes::Float(None)))
    );
    assert_eq!(
        check("{ var x: integer; x = 1.5 * 2; }"),
        Err(SemanticError::TypeMismatch(ProgramTypes::Float(None), ProgramTypes::Integer(None)))
    );
    assert_eq!(
        check("{ var b: boolean; b = 1 < 1.5; }"),
        Err(SemanticError::TypeMismatch(ProgramTypes::Integer(None), ProgramTypes::Float(None)))
    );
    assert_eq!(
        check("{ var b: boolean; b = 1 < 2 < 3; }"),
        Err(SemanticError::TypeMismatch(ProgramTypes::Boolean(None), ProgramTypes::Integer(None)))
    );
    assert_eq!(check("{ var b: boolean; b = 1 < 2 == true; }"), Ok(()));
    assert_eq!(check("{ var b: boolean; b = true < false; }"), Ok(()));
}

#[test]
fn operators_take_only_their_types() {
    let invalid = |t: ProgramTypes, o: &str| Err(SemanticError::InvalidOperation(t, o.to_string()));
    assert_eq!(check("{ var b: boolean; b = true + false; }"), invalid(ProgramTypes::Boolean(None), "+"));
    assert_eq!(check("{ var b: boolean; b = true - false; }"), invalid(ProgramTypes::Boolean(None), "-"));
    assert_eq!(check("{ var x: integer; x = 1 || 2; }"), invalid(ProgramTypes::Integer(None), "||"));
    assert_eq!(check("{ var b: boolean; b = true * false; }"), invalid(ProgramTypes::Boolean(None), "*"));
    assert_eq!(check("{ var b: boolean; b = true / false; }"), invalid(ProgramTypes::Boolean(None), "/"));
    assert_eq!(check("{ var f: real; f = 1.5 && 2.5; }"), invalid(ProgramTypes::Float(None), "&&"));
    assert_eq!(check("{ var x: integer; x = !1; }"), invalid(ProgramTypes::Integer(None), "!"));
    assert_eq!(check("{ var b: boolean; b = true || false && !true; }"), Ok(()));
}

#[test]
fn conditions_are_booleans() {
    assert_eq!(
        check("{ if 1 then output(1) end_else; }"),
        Err(SemanticError::NotBoolean(ProgramTypes::Integer(None)))
    );
    assert_eq!(
        check("{ do while 1.5 output(1) loop; }"),
        Err(SemanticError::NotBoolean(ProgramTypes::Float(None)))
    );
    assert_eq!(
        check("{ for (true; 1; true) output(1); }"),
        Err(SemanticError::NotBoolean(ProgramTypes::Integer(None)))
    );
    assert_eq!(
        check("{ for (1; true; true) output(1); }"),
        Err(SemanticError::NotBoolean(ProgramTypes::Integer(None)))
    );
    assert_eq!(check("{ if 1 < 2 then output(1) end_else; }"), Ok(()));
}

#[test]
fn a_literal_without_value_is_not_defined() {
    let e = Expression {
        operands: vec![Operand {
            terms: vec![Term { multipliers: vec![Multiplier::Variable(3)], operations: vec![] }],
            operations: vec![],
        }],
        operations: vec![],
    };
    let program = vec![MainOperation::Operator(Operator::Output(vec![e]))];
    let mut vars = HashMap::new();
    vars.insert(0, LexerDigitalData::Integer(1));
    let mut s = Semantic::new(program, vars, 0);
    assert_eq!(s.run_process(), Err(SemanticError::NotDeclared(3)));
}

#[test]
fn every_relocation_patches_a_field_inside_the_code() {
    for src in [
        "{ var x: integer; x = 1 + 2; output(x); }",
        "{ var f: real; f = 1.5 * 2.0 - 0.5 / 4.0; output(f); input(f); }",
        "{ var b: boolean; input(b); if b then output(1) else output(2.5) end_else; }",
        "{ var x: integer; input(x); do while x > 0 { x = x - 1 } loop; output(x); }",
    ] {
        let mut s = analyser(src);
        assert_eq!(s.run_process(), Ok(()));
        assert_eq!(s.text(), &s.machine_code);
        assert_eq!(s.relocations(), &s.asm_idents);
        assert!(!s.asm_idents.is_empty());
        for (_, offset, wide) in &s.asm_idents {
            let size = if *wide { 8 } else { 4 };
            assert!(offset + size <= s.machine_code.len() as u64);
            let field = &s.machine_code[*offset as usize..(*offset + size) as usize];
            assert!(field.iter().all(|b| *b == 0));
        }
    }
}

#[test]
fn kinds_and_names_of_types() {
    assert_eq!(ProgramTypes::Integer(Some(3)).get_kind(), Kind::Integer);
    assert_eq!(ProgramTypes::Float(None).get_kind(), Kind::Real);
    assert_eq!(ProgramTypes::Boolean(None).as_text(), "boolean");
    assert_eq!(ProgramTypes::Float(None).as_text(), "real");
    assert_eq!(ProgramTypes::Integer(None).as_text(), "integer");
    assert!(ProgramTypes::Integer(Some(1)) & ProgramTypes::Integer(None));
    assert!(!(ProgramTypes::Integer(None) & ProgramTypes::Float(None)));
    assert!(!(ProgramTypes::Boolean(None) & ProgramTypes::Float(None)));
}
