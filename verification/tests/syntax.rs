use std::collections::HashMap;

use cm_compiler::parser::Parser;
use cm_compiler::program::{Expression, MainOperation, Multiplier, Operand, Operator, Term};
use cm_compiler::syntax::{FaultKind, Syntax, SyntaxError};
use cm_compiler::tokens::{DelimitersGroup, KeywordsGroup, Token, TokenGroup};
use cm_compiler::types::{
    AdditionOperations, MultiplicationOperations, ProgramTypes, RelationOperations,
};

fn parse(src: &str) -> Result<Vec<MainOperation>, SyntaxError> {
    let mut p = Parser::new("test.cm".to_string(), src.as_bytes());
    p.run_lexer().unwrap();
    let tokens = p.tokens.clone();
    Syntax::new().run_process(tokens, HashMap::new())
}

fn term_of(m: Multiplier) -> Term {
    Term { multipliers: vec![m], operations: vec![] }
}

fn operand_of(m: Multiplier) -> Operand {
    Operand { terms: vec![term_of(m)], operations: vec![] }
}

fn expr_of(m: Multiplier) -> Expression {
    Expression { operands: vec![operand_of(m)], operations: vec![] }
}

fn id(n: u64) -> Expression {
    expr_of(Multiplier::Identifier(n))
}

fn lit(n: u64) -> Expression {
    expr_of(Multiplier::Variable(n))
}

fn missing(src: &str) -> (TokenGroup, String) {
    match parse(src) {
        Err(SyntaxError::Missing(t, m)) => (t.token, m),
        other => panic!("unexpected outcome: {:?}", other),
    }
}

fn unexpected(src: &str) -> (TokenGroup, String) {
    match parse(src) {
        Err(SyntaxError::Unexpected(t, m)) => (t.token, m),
        other => panic!("unexpected outcome: {:?}", other),
    }
}

#[test]
fn an_assignment_with_and_without_let() {
    let expected = vec![MainOperation::Operator(Operator::Assignment(0, lit(0)))];
    assert_eq!(parse("{ x = 1 }").unwrap(), expected);
    assert_eq!(parse("{ let x = 1 }").unwrap(), expected);
    assert_eq!(parse("{ x = 1; }").unwrap(), expected);
}

#[test]
fn a_declaration_with_several_groups() {
    assert_eq!(
        parse("{ var a, b: integer; c: real; d: boolean; a = 1 }").unwrap(),
        vec![
            MainOperation::CreateVariable(vec![
                (vec![0, 1], ProgramTypes::Integer(None)),
                (vec![2], ProgramTypes::Float(None)),
                (vec![3], ProgramTypes::Boolean(None)),
            ]),
            MainOperation::Operator(Operator::Assignment(0, lit(0))),
        ]
    );
}

#[test]
fn a_declaration_may_be_the_only_entry() {
    assert_eq!(
        parse("{ var x: integer; }").unwrap(),
        vec![MainOperation::CreateVariable(vec![(vec![0], ProgramTypes::Integer(None))])]
    );
    assert_eq!(
        parse("{ var x: integer }").unwrap(),
        vec![MainOperation::CreateVariable(vec![(vec![0], ProgramTypes::Integer(None))])]
    );
}

#[test]
fn multiplication_binds_tighter_than_addition_and_addition_than_relations() {
    // a + b * c < d
    let product = Term {
        multipliers: vec![Multiplier::Identifier(1), Multiplier::Identifier(2)],
        operations: vec![MultiplicationOperations::Multiplication],
    };
    let sum = Operand {
        terms: vec![term_of(Multiplier::Identifier(0)), product],
        operations: vec![AdditionOperations::Addition],
    };
    let relation = Expression {
        operands: vec![sum, operand_of(Multiplier::Identifier(3))],
        operations: vec![RelationOperations::Less],
    };
    assert_eq!(
        parse("{ x = a + b * c < d }").unwrap(),
        vec![MainOperation::Operator(Operator::Assignment(
            0,
            Expression {
                operands: relation
                    .operands
                    .into_iter()
                    .map(|o| Operand {
                        terms: o
                            .terms
                            .into_iter()
                            .map(|t| Term {
                                multipliers: t
                                    .multipliers
                                    .into_iter()
                                    .map(|m| match m {
                                        Multiplier::Identifier(n) => Multiplier::Identifier(n + 1),
                                        other => other,
                                    })
                                    .collect(),
                                operations: t.operations,
                            })
                            .collect(),
                        operations: o.operations,
                    })
                    .collect(),
                operations: relation.operations,
            }
        ))]
    );
}

#[test]
fn chains_of_operators_of_one_level_are_flat_lists() {
    let e = match parse("{ x = 1 - 2 + 3 || 4 }").unwrap().remove(0) {
        MainOperation::Operator(Operator::Assignment(_, e)) => e,
        other => panic!("unexpected entry: {:?}", other),
    };
    assert_eq!(e.operands.len(), 1);
    assert_eq!(e.operations.len(), 0);
    assert_eq!(e.operands[0].terms.len(), 4);
    assert_eq!(
        e.operands[0].operations,
        vec![AdditionOperations::Subtraction, AdditionOperations::Addition, AdditionOperations::Or]
    );
    let e = match parse("{ x = a * b / c && d }").unwrap().remove(0) {
        MainOperation::Operator(Operator::Assignment(_, e)) => e,
        other => panic!("unexpected entry: {:?}", other),
    };
    assert_eq!(e.operands[0].terms[0].multipliers.len(), 4);
    assert_eq!(
        e.operands[0].terms[0].operations,
        vec![
            MultiplicationOperations::Multiplication,
            MultiplicationOperations::Division,
            MultiplicationOperations::And
        ]
    );
    let e = match parse("{ x = a == b != c < d > e <= f >= g }").unwrap().remove(0) {
        MainOperation::Operator(Operator::Assignment(_, e)) => e,
        other => panic!("unexpected entry: {:?}", other),
    };
    assert_eq!(e.operands.len(), 7);
    assert_eq!(
        e.operations,
        vec![
            RelationOperations::Equal,
            RelationOperations::NotEqual,
            RelationOperations::Less,
            RelationOperations::Greater,
            RelationOperations::LessEqual,
            RelationOperations::GreaterEqual
        ]
    );
}

#[test]
fn negation_parentheses_and_boolean_literals() {
    assert_eq!(
        parse("{ b = !(true) }").unwrap(),
        vec![MainOperation::Operator(Operator::Assignment(
            0,
            expr_of(Multiplier::Not(Box::new(Multiplier::Expression(expr_of(
                Multiplier::Boolean(true)
            )))))
        ))]
    );
    assert_eq!(
        parse("{ b = !!false }").unwrap(),
        vec![MainOperation::Operator(Operator::Assignment(
            0,
            expr_of(Multiplier::Not(Box::new(Multiplier::Not(Box::new(Multiplier::Boolean(
                false
            ))))))
        ))]
    );
}

#[test]
fn an_if_with_and_without_else() {
    assert_eq!(
        parse("{ if a then x = 1 end_else }").unwrap(),
        vec![MainOperation::Operator(Operator::If(
            id(0),
            Box::new(Operator::Assignment(1, lit(0))),
            None
        ))]
    );
    assert_eq!(
        parse("{ if a then x = 1 else x = 2 end_else }").unwrap(),
        vec![MainOperation::Operator(Operator::If(
            id(0),
            Box::new(Operator::Assignment(1, lit(0))),
            Some(Box::new(Operator::Assignment(1, lit(1))))
        ))]
    );
}

#[test]
fn a_for_has_three_expressions_in_its_header() {
    assert_eq!(
        parse("{ for (a; b; c) x = 1 }").unwrap(),
        vec![MainOperation::Operator(Operator::For(
            vec![id(0), id(1), id(2)],
            Box::new(Operator::Assignment(3, lit(0)))
        ))]
    );
}

#[test]
fn a_do_while_is_closed_by_loop() {
    assert_eq!(
        parse("{ do while a { x = 1 } loop }").unwrap(),
        vec![MainOperation::Operator(Operator::While(
            id(0),
            Box::new(Operator::Composite(vec![Operator::Assignment(1, lit(0))]))
        ))]
    );
}

#[test]
fn input_and_output_take_lists_without_separators() {
    assert_eq!(
        parse("{ input(a b c); output(a b 1 (c)) }").unwrap(),
        vec![
            MainOperation::Operator(Operator::Input(vec![0, 1, 2])),
            MainOperation::Operator(Operator::Output(vec![
                id(0),
                id(1),
                lit(0),
                expr_of(Multiplier::Expression(id(2)))
            ])),
        ]
    );
}

#[test]
fn blocks_hold_statements_separated_by_semicolons() {
    assert_eq!(
        parse("{ { x = 1; y = 2; { z = 3 } } }").unwrap(),
        vec![MainOperation::Operator(Operator::Composite(vec![
            Operator::Assignment(0, lit(0)),
            Operator::Assignment(1, lit(1)),
            Operator::Composite(vec![Operator::Assignment(2, lit(2))]),
        ]))]
    );
}

#[test]
fn the_program_must_start_with_a_brace() {
    assert_eq!(
        missing("x = 1"),
        (TokenGroup::Identifier(0), "Программа должна начинаться с '{'".to_string())
    );
    assert_eq!(missing(""), (TokenGroup::Eof, "Программа должна начинаться с '{'".to_string()));
}

#[test]
fn the_program_must_be_closed_and_nothing_may_follow() {
    assert_eq!(missing("{"), (TokenGroup::Eof, "Ожидалось '}'".to_string()));
    assert_eq!(missing("{ x = 1;"), (TokenGroup::Eof, "Ожидалось '}'".to_string()));
    assert_eq!(missing("{ x = 1"), (TokenGroup::Eof, "Ожидалось ';'".to_string()));
    assert_eq!(
        missing("{ x = 1 } y"),
        (TokenGroup::Identifier(1), "Ожидался конец программы".to_string())
    );
    assert_eq!(
        missing("{ } }"),
        (
            TokenGroup::Delimiters(DelimitersGroup::RightCurlyBracket),
            "Ожидался конец программы".to_string()
        )
    );
}

#[test]
fn an_empty_program_is_rejected() {
    assert_eq!(
        unexpected("{ }"),
        (
            TokenGroup::Delimiters(DelimitersGroup::RightCurlyBracket),
            "Ожидалось описание или оператор".to_string()
        )
    );
}

#[test]
fn entries_must_be_separated() {
    assert_eq!(
        missing("{ x = 1 y = 2 }"),
        (TokenGroup::Identifier(1), "Ожидалось ';'".to_string())
    );
}

#[test]
fn faults_of_declarations() {
    assert_eq!(
        missing("{ var : integer }"),
        (TokenGroup::Delimiters(DelimitersGroup::Colon), "Ожидался идентификатор".to_string())
    );
    assert_eq!(
        missing("{ var a, : integer }"),
        (TokenGroup::Delimiters(DelimitersGroup::Colon), "Ожидался идентификатор".to_string())
    );
    assert_eq!(
        missing("{ var a: b }"),
        (TokenGroup::Identifier(1), "Ожидался тип данных".to_string())
    );
    assert_eq!(
        unexpected("{ var a b }"),
        (TokenGroup::Identifier(1), "Встречена неожиданная лексема".to_string())
    );
    assert_eq!(
        missing("{ var ; }"),
        (TokenGroup::Delimiters(DelimitersGroup::Semicolon), "Ожидался идентификатор".to_string())
    );
}

#[test]
fn faults_of_statements() {
    assert_eq!(
        missing("{ let = 1 }"),
        (TokenGroup::Delimiters(DelimitersGroup::Equal), "Ожидался идентификатор".to_string())
    );
    assert_eq!(missing("{ x 1 }"), (TokenGroup::Variables(0), "Ожидался знак '='".to_string()));
    assert_eq!(
        missing("{ if a x = 1 end_else }"),
        (TokenGroup::Identifier(1), "Ожидалось 'then'".to_string())
    );
    assert_eq!(
        missing("{ if a then x = 1 }"),
        (
            TokenGroup::Delimiters(DelimitersGroup::RightCurlyBracket),
            "Ожидалось 'end_else'".to_string()
        )
    );
    assert_eq!(
        missing("{ if a then x = 1 else x = 2 }"),
        (
            TokenGroup::Delimiters(DelimitersGroup::RightCurlyBracket),
            "Ожидалось 'end_else'".to_string()
        )
    );
    assert_eq!(missing("{ for a }"), (TokenGroup::Identifier(0), "Ожидалась '('".to_string()));
    assert_eq!(
        missing("{ for (a, b; c) x = 1 }"),
        (TokenGroup::Delimiters(DelimitersGroup::Comma), "Ожидалась ';'".to_string())
    );
    assert_eq!(
        missing("{ for (a; b) x = 1 }"),
        (TokenGroup::Delimiters(DelimitersGroup::RightParenthesis), "Ожидалась ';'".to_string())
    );
    assert_eq!(
        missing("{ for (a; b; c; d) x = 1 }"),
        (TokenGroup::Delimiters(DelimitersGroup::Semicolon), "Ожидалась ')'".to_string())
    );
    assert_eq!(
        missing("{ do a loop }"),
        (TokenGroup::Identifier(0), "Ожидалось ключевое слово 'while'".to_string())
    );
    assert_eq!(
        missing("{ do while a x = 1 }"),
        (TokenGroup::Delimiters(DelimitersGroup::RightCurlyBracket), "Ожидалась 'loop'".to_string())
    );
    assert_eq!(missing("{ input a }"), (TokenGroup::Identifier(0), "Ожидалась '('".to_string()));
    assert_eq!(
        missing("{ input(a 1) }"),
        (TokenGroup::Variables(0), "Ожидался идентификатор или ')'".to_string())
    );
    assert_eq!(
        missing("{ input() }"),
        (
            TokenGroup::Delimiters(DelimitersGroup::RightParenthesis),
            "Ожидался идентификатор".to_string()
        )
    );
    assert_eq!(
        missing("{ output() }"),
        (TokenGroup::Delimiters(DelimitersGroup::RightParenthesis), "Ожидался оператор".to_string())
    );
    assert_eq!(
        missing("{ x = (1 }"),
        (TokenGroup::Delimiters(DelimitersGroup::RightCurlyBracket), "Ожидалась ')'".to_string())
    );
    assert_eq!(
        missing("{ x = 1 + }"),
        (TokenGroup::Delimiters(DelimitersGroup::RightCurlyBracket), "Ожидался операнд".to_string())
    );
    assert_eq!(
        missing("{ x = }"),
        (TokenGroup::Delimiters(DelimitersGroup::RightCurlyBracket), "Ожидался операнд".to_string())
    );
}

#[test]
fn faults_of_blocks() {
    assert_eq!(
        unexpected("{ { x = 1; } }"),
        (TokenGroup::Delimiters(DelimitersGroup::RightCurlyBracket), "Ожидался оператор".to_string())
    );
    assert_eq!(missing("{ { x = 1 y = 2 } }"), (TokenGroup::Identifier(1), "Ожидалось '}'".to_string()));
    assert_eq!(missing("{ { x = 1"), (TokenGroup::Eof, "Ожидалось '}'".to_string()));
    assert_eq!(
        unexpected("{ { } }"),
        (
            TokenGroup::Delimiters(DelimitersGroup::RightCurlyBracket),
            "Встречена непредвиденная лексема".to_string()
        )
    );
}

#[test]
fn a_token_that_starts_no_statement_is_unexpected() {
    let text = "Встречена непредвиденная лексема".to_string();
    assert_eq!(unexpected("{ then }"), (TokenGroup::Keywords(KeywordsGroup::Then), text.clone()));
    assert_eq!(unexpected("{ 12 }"), (TokenGroup::Variables(0), text.clone()));
    assert_eq!(unexpected("{ x = 1; 5 }"), (TokenGroup::Variables(1), text.clone()));
    assert_eq!(
        unexpected("{ ; }"),
        (TokenGroup::Delimiters(DelimitersGroup::Semicolon), text.clone())
    );
    match parse("{ x = 1;\n  then }") {
        Err(SyntaxError::Unexpected(t, _)) => {
            assert_eq!((t.line, t.column), (2, 3));
        }
        other => panic!("unexpected outcome: {:?}", other),
    }
}

#[test]
fn a_missing_token_is_reported_with_its_place() {
    match parse("{\n  x = 1\n  y = 2\n}") {
        Err(SyntaxError::Missing(t, _)) => {
            assert_eq!(t, Token { token: TokenGroup::Identifier(1), line: 3, column: 3 });
        }
        other => panic!("unexpected outcome: {:?}", other),
    }
}

#[test]
fn a_stream_without_end_of_input_is_read_as_if_it_had_one() {
    let tokens = vec![
        Token { token: TokenGroup::Delimiters(DelimitersGroup::LeftCurlyBracket), line: 1, column: 1 },
        Token { token: TokenGroup::Identifier(0), line: 1, column: 3 },
        Token { token: TokenGroup::Delimiters(DelimitersGroup::Equal), line: 1, column: 5 },
        Token { token: TokenGroup::Keywords(KeywordsGroup::True), line: 1, column: 7 },
        Token { token: TokenGroup::Delimiters(DelimitersGroup::RightCurlyBracket), line: 1, column: 12 },
    ];
    let mut syntax = Syntax::new();
    assert_eq!(
        syntax.run_process(tokens.clone(), HashMap::new()).unwrap(),
        vec![MainOperation::Operator(Operator::Assignment(0, expr_of(Multiplier::Boolean(true))))]
    );
    assert_eq!(syntax.position, 5);
    assert_eq!(syntax.place(), 5);
    assert!(syntax.values().is_empty());
    let mut syntax = Syntax::new();
    assert_eq!(
        syntax.run_process(tokens[..4].to_vec(), HashMap::new()),
        Err(SyntaxError::Missing(
            Token { token: TokenGroup::Eof, line: 1, column: 7 },
            "Ожидалось ';'".to_string()
        ))
    );
    assert_eq!(
        Syntax::new().run_process(Vec::new(), HashMap::new()),
        Err(SyntaxError::Missing(Token::eof(), "Программа должна начинаться с '{'".to_string()))
    );
}

#[test]
fn texts_of_the_fault_kinds() {
    assert_eq!(FaultKind::Then.text(), "Ожидалось 'then'");
    assert!(FaultKind::Then.has_token());
    assert_eq!(FaultKind::EmptyProgram.text(), "Ожидалось описание или оператор");
    assert!(!FaultKind::EmptyProgram.has_token());
}

#[test]
fn the_scenario_programs_are_accepted() {
    for src in [
        "{ var x: integer; x = 1 + 2; output(x); }",
        "{ var f: real; f = 1.5 * 2.0; output(f); }",
        "{ var b: boolean; b = !(1 == 2); output(b); }",
        "{ var x: integer; input(x); do while x > 0 { x = x - 1 } loop; output(x); }",
        "{ var x: integer; x = true; }",
        "{ var a: integer; let a = 1; let a = 2; }",
        "{ var a: integer; var a: integer; }",
    ] {
        assert!(parse(src).is_ok(), "{}", src);
    }
}

#[test]
fn a_copy_of_a_program_is_equal_to_it() {
    let program = parse(
        "{ var a, b: integer; f: real; t: boolean;
           input(a b f t);
           for (a < b; t; true) { a = a + 1; if a == 10b then t = !(false) else output(a f) end_else };
           do while t t = false loop }",
    )
    .unwrap();
    let copy = program.clone();
    assert_eq!(copy, program);
    assert_eq!(copy.len(), 4);
}
