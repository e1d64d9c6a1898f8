use cm_compiler::parser::{read_source, LexerFailure, Parser};
use cm_compiler::tokens::{DelimitersGroup, KeywordsGroup, Token, TokenGroup, TokenGroupLexer};
use cm_compiler::types::LexerDigitalData;

fn parser(src: &str) -> Parser {
    Parser::new("test.cm".to_string(), src.as_bytes())
}

fn groups(p: &Parser) -> Vec<TokenGroup> {
    p.tokens.iter().map(|t| t.token).collect()
}

#[test]
fn the_source_is_read_character_by_character() {
    assert_eq!(read_source(b"abc"), vec!['a', 'b', 'c']);
    assert_eq!(read_source(b""), Vec::<char>::new());
    assert_eq!(read_source("x = ж;".as_bytes()), vec!['x', ' ', '=', ' ', 'ж', ';']);
    assert_eq!(read_source("€𝓐".as_bytes()), vec!['€', '𝓐']);
}

#[test]
fn reading_stops_at_bytes_that_are_no_character() {
    assert_eq!(read_source(&[b'a', b'b', 0xff, b'c']), vec!['a', 'b']);
    assert_eq!(read_source(&[b'a', 0xc3]), vec!['a']);
}

#[test]
fn identifiers_are_numbered_in_the_order_of_first_appearance() {
    let mut p = parser("b a b c a b");
    assert_eq!(p.run_lexer(), Ok(()));
    assert_eq!(p.ident_map, vec!["b".to_string(), "a".to_string(), "c".to_string()]);
    assert_eq!(
        groups(&p),
        vec![
            TokenGroup::Identifier(0),
            TokenGroup::Identifier(1),
            TokenGroup::Identifier(0),
            TokenGroup::Identifier(2),
            TokenGroup::Identifier(1),
            TokenGroup::Identifier(0),
            TokenGroup::Eof,
        ]
    );
}

#[test]
fn literals_are_numbered_by_their_text() {
    let mut p = parser("10 2 10 10d 2");
    assert_eq!(p.run_lexer(), Ok(()));
    assert_eq!(p.var_map, vec!["10".to_string(), "2".to_string(), "10d".to_string()]);
    assert_eq!(
        groups(&p),
        vec![
            TokenGroup::Variables(0),
            TokenGroup::Variables(1),
            TokenGroup::Variables(0),
            TokenGroup::Variables(2),
            TokenGroup::Variables(1),
            TokenGroup::Eof,
        ]
    );
    assert_eq!(p.vars.get(&0), Some(&LexerDigitalData::Integer(10)));
    assert_eq!(p.vars.get(&1), Some(&LexerDigitalData::Integer(2)));
    assert_eq!(p.vars.get(&2), Some(&LexerDigitalData::Integer(10)));
    assert_eq!(p.vars.len(), 3);
}

#[test]
fn tokens_carry_their_line_and_column() {
    let mut p = parser("{\n  x = 1;\n}");
    assert_eq!(p.run_lexer(), Ok(()));
    assert_eq!(
        p.tokens,
        vec![
            Token { token: TokenGroup::Delimiters(DelimitersGroup::LeftCurlyBracket), line: 1, column: 1 },
            Token { token: TokenGroup::Identifier(0), line: 2, column: 3 },
            Token { token: TokenGroup::Delimiters(DelimitersGroup::Equal), line: 2, column: 5 },
            Token { token: TokenGroup::Variables(0), line: 2, column: 7 },
            Token { token: TokenGroup::Delimiters(DelimitersGroup::Semicolon), line: 2, column: 8 },
            Token { token: TokenGroup::Delimiters(DelimitersGroup::RightCurlyBracket), line: 3, column: 1 },
            Token { token: TokenGroup::Eof, line: 3, column: 2 },
        ]
    );
}

#[test]
fn keywords_enter_the_stream_as_keywords() {
    let mut p = parser("var x: integer");
    assert_eq!(p.run_lexer(), Ok(()));
    assert_eq!(
        groups(&p),
        vec![
            TokenGroup::Keywords(KeywordsGroup::Var),
            TokenGroup::Identifier(0),
            TokenGroup::Delimiters(DelimitersGroup::Colon),
            TokenGroup::Keywords(KeywordsGroup::Integer),
            TokenGroup::Eof,
        ]
    );
}

#[test]
fn illegal_characters_are_all_reported_and_give_no_token() {
    let mut p = parser("a # b\n& c");
    assert_eq!(
        p.run_lexer(),
        Err(LexerFailure::IllegalCharacter(vec![('#', 1, 3), ('&', 2, 1)]))
    );
    assert_eq!(
        groups(&p),
        vec![
            TokenGroup::Identifier(0),
            TokenGroup::Identifier(1),
            TokenGroup::Identifier(2),
            TokenGroup::Eof,
        ]
    );
}

#[test]
fn a_fault_of_the_lexer_stops_the_stage() {
    let mut p = parser("a = 12b; # ");
    match p.run_lexer() {
        Err(LexerFailure::Fault(e)) => {
            assert_eq!(e.token, TokenGroupLexer::Variables(String::new()));
            assert_eq!(e.path, "test.cm");
            assert_eq!(e.message, "Не возможно интерпретировать '12' как двоичное число");
        }
        other => panic!("unexpected outcome: {:?}", other),
    }
}

#[test]
fn an_integer_too_large_is_reported_by_its_number() {
    let mut p = parser("1 99999999999999999999 2");
    assert_eq!(p.run_lexer(), Err(LexerFailure::Range(1)));
    assert_eq!(p.vars.len(), 0);
}

#[test]
fn real_literals_wait_for_their_value() {
    let mut p = parser("1.5 2 1e3 1.5");
    assert_eq!(p.run_lexer(), Ok(()));
    assert_eq!(p.real_literals(), vec![0, 2]);
    assert!(!p.all_valued());
    assert_eq!(p.vars.get(&1), Some(&LexerDigitalData::Integer(2)));
    assert_eq!(p.vars.get(&0), None);
    assert!(p.set_real(0, 1.5f64.to_bits()));
    assert!(!p.set_real(1, 0));
    assert!(!p.set_real(7, 0));
    assert!(!p.all_valued());
    assert!(p.set_real(2, 1e3f64.to_bits()));
    assert!(p.all_valued());
    assert_eq!(p.vars.get(&0), Some(&LexerDigitalData::Float(0x3ff8000000000000)));
    assert_eq!(p.vars.get(&1), Some(&LexerDigitalData::Integer(2)));
}

#[test]
fn the_syntax_stage_reads_the_program_from_the_tokens() {
    let mut p = parser("{ x = 1 }");
    assert_eq!(p.run_lexer(), Ok(()));
    assert!(p.program.is_empty());
    assert_eq!(p.run_syntax(), Ok(()));
    assert_eq!(p.program.len(), 1);
    assert_eq!(p.program_tree(), &p.program);
    assert_eq!(p.source_path(), "test.cm");
    assert_eq!(p.token_stream(), &p.tokens);
    assert_eq!(p.identifier_names(), &vec!["x".to_string()]);
    assert_eq!(p.literal_texts(), &vec!["1".to_string()]);
    assert_eq!(p.literal_values().get(&0), Some(&LexerDigitalData::Integer(1)));
}

#[test]
fn a_syntax_fault_leaves_the_program_as_it_was() {
    let mut p = parser("{ x = }");
    assert_eq!(p.run_lexer(), Ok(()));
    assert!(p.run_syntax().is_err());
    assert!(p.program.is_empty());
}
