use cm_compiler::lexer::{Lexer, LexerError};
use cm_compiler::tokens::{DelimitersGroup, KeywordsGroup, TokenGroupLexer};

fn lexer(src: &str) -> Lexer {
    Lexer::new(src.chars().collect(), "test.cm".to_string())
}

fn tokens(src: &str) -> Result<Vec<TokenGroupLexer>, LexerError> {
    let mut lexer = lexer(src);
    let mut out = Vec::new();
    loop {
        let (token, _, _) = lexer.next_token()?;
        let end = token == TokenGroupLexer::Eof;
        out.push(token);
        if end {
            return Ok(out);
        }
    }
}

fn literal(text: &str) -> TokenGroupLexer {
    TokenGroupLexer::Variables(text.to_string())
}

fn ident(text: &str) -> TokenGroupLexer {
    TokenGroupLexer::Identifier(text.to_string())
}

fn delim(d: DelimitersGroup) -> TokenGroupLexer {
    TokenGroupLexer::Delimiters(d)
}

fn message(src: &str) -> String {
    tokens(src).unwrap_err().message
}

#[test]
fn empty_source_is_the_end_of_input() {
    let mut lexer = lexer("");
    assert_eq!(lexer.next_token(), Ok((TokenGroupLexer::Eof, 1, 1)));
    assert_eq!(lexer.next_token(), Ok((TokenGroupLexer::Eof, 1, 1)));
}

#[test]
fn single_character_delimiters() {
    assert_eq!(
        tokens("{ } ( ) , : ; + - * /").unwrap(),
        vec![
            delim(DelimitersGroup::LeftCurlyBracket),
            delim(DelimitersGroup::RightCurlyBracket),
            delim(DelimitersGroup::LeftParenthesis),
            delim(DelimitersGroup::RightParenthesis),
            delim(DelimitersGroup::Comma),
            delim(DelimitersGroup::Colon),
            delim(DelimitersGroup::Semicolon),
            delim(DelimitersGroup::Plus),
            delim(DelimitersGroup::Minus),
            delim(DelimitersGroup::Asterisk),
            delim(DelimitersGroup::Slash),
            TokenGroupLexer::Eof,
        ]
    );
}

#[test]
fn two_character_delimiters_and_their_short_forms() {
    assert_eq!(
        tokens("== = != ! <= < >= > && ||").unwrap(),
        vec![
            delim(DelimitersGroup::Identical),
            delim(DelimitersGroup::Equal),
            delim(DelimitersGroup::NotEqual),
            delim(DelimitersGroup::Not),
            delim(DelimitersGroup::LessEqual),
            delim(DelimitersGroup::Less),
            delim(DelimitersGroup::GreaterEqual),
            delim(DelimitersGroup::Greater),
            delim(DelimitersGroup::And),
            delim(DelimitersGroup::Or),
            TokenGroupLexer::Eof,
        ]
    );
    assert_eq!(
        tokens("a<=b").unwrap(),
        vec![ident("a"), delim(DelimitersGroup::LessEqual), ident("b"), TokenGroupLexer::Eof]
    );
    assert_eq!(
        tokens("===").unwrap(),
        vec![delim(DelimitersGroup::Identical), delim(DelimitersGroup::Equal), TokenGroupLexer::Eof]
    );
}

#[test]
fn a_lone_ampersand_or_bar_is_illegal() {
    assert_eq!(
        tokens("a & b").unwrap(),
        vec![ident("a"), TokenGroupLexer::Illegal(('&', 1, 3)), ident("b"), TokenGroupLexer::Eof]
    );
    assert_eq!(
        tokens("|").unwrap(),
        vec![TokenGroupLexer::Illegal(('|', 1, 1)), TokenGroupLexer::Eof]
    );
}

#[test]
fn other_characters_are_illegal_and_lexing_goes_on() {
    assert_eq!(
        tokens("x # y\n@").unwrap(),
        vec![
            ident("x"),
            TokenGroupLexer::Illegal(('#', 1, 3)),
            ident("y"),
            TokenGroupLexer::Illegal(('@', 2, 1)),
            TokenGroupLexer::Eof,
        ]
    );
}

#[test]
fn every_keyword_is_recognised() {
    let words = [
        ("integer", KeywordsGroup::Integer),
        ("real", KeywordsGroup::Real),
        ("boolean", KeywordsGroup::Boolean),
        ("true", KeywordsGroup::True),
        ("false", KeywordsGroup::False),
        ("var", KeywordsGroup::Var),
        ("let", KeywordsGroup::Let),
        ("if", KeywordsGroup::If),
        ("then", KeywordsGroup::Then),
        ("else", KeywordsGroup::Else),
        ("end_else", KeywordsGroup::EndElse),
        ("for", KeywordsGroup::For),
        ("do", KeywordsGroup::Do),
        ("while", KeywordsGroup::While),
        ("loop", KeywordsGroup::Loop),
        ("input", KeywordsGroup::Input),
        ("output", KeywordsGroup::Output),
    ];
    for (text, keyword) in words {
        assert_eq!(
            tokens(text).unwrap(),
            vec![TokenGroupLexer::Keywords(keyword), TokenGroupLexer::Eof]
        );
        assert_eq!(keyword.spelling(), text);
    }
}

#[test]
fn identifiers_are_letters_followed_by_letters_and_digits() {
    assert_eq!(
        tokens("x abc A1b2 iffy vars").unwrap(),
        vec![ident("x"), ident("abc"), ident("A1b2"), ident("iffy"), ident("vars"), TokenGroupLexer::Eof]
    );
}

#[test]
fn an_underscore_in_an_identifier_is_a_fault() {
    let e = tokens("  my_name").unwrap_err();
    assert_eq!(e.token, ident("my_name"));
    assert_eq!(e.message, "встречен символ '_'");
    assert_eq!(e.path, "test.cm");
    assert_eq!(e.line, 1);
    assert_eq!(e.position, 3);
}

#[test]
fn lines_and_columns_start_at_one() {
    let mut lexer = lexer("a\n  b c\n\nd");
    assert_eq!(lexer.next_token(), Ok((ident("a"), 1, 1)));
    assert_eq!(lexer.next_token(), Ok((ident("b"), 2, 3)));
    assert_eq!(lexer.next_token(), Ok((ident("c"), 2, 5)));
    assert_eq!(lexer.next_token(), Ok((ident("d"), 4, 1)));
    assert_eq!(lexer.next_token(), Ok((TokenGroupLexer::Eof, 4, 2)));
}

#[test]
fn comments_are_skipped_and_may_span_lines() {
    assert_eq!(
        tokens("a % a comment % b %another\none% c").unwrap(),
        vec![ident("a"), ident("b"), ident("c"), TokenGroupLexer::Eof]
    );
    let mut lexer = lexer("%one\ntwo%x");
    assert_eq!(lexer.next_token(), Ok((ident("x"), 2, 5)));
}

#[test]
fn an_unterminated_comment_is_a_fault() {
    let e = tokens("a % never closed\n").unwrap_err();
    assert_eq!(e.message, "Неожиданный конец файла");
    assert_eq!(e.token, TokenGroupLexer::Illegal(('\0', 2, 1)));
    assert_eq!(e.line, 2);
    assert_eq!(e.position, 1);
}

#[test]
fn all_white_space_is_skipped() {
    assert_eq!(tokens(" \t\r\n\x0C x").unwrap(), vec![ident("x"), TokenGroupLexer::Eof]);
}

#[test]
fn a_nul_character_ends_the_input() {
    assert_eq!(tokens("a\0b").unwrap(), vec![ident("a"), TokenGroupLexer::Eof]);
}

#[test]
fn decimal_literals() {
    assert_eq!(tokens("0 7 42 1989").unwrap(), vec![
        literal("0"), literal("7"), literal("42"), literal("1989"), TokenGroupLexer::Eof
    ]);
    assert_eq!(tokens("12d 9D").unwrap(), vec![literal("12d"), literal("9D"), TokenGroupLexer::Eof]);
}

#[test]
fn binary_octal_and_hexadecimal_literals() {
    assert_eq!(tokens("101b 1B").unwrap(), vec![literal("101b"), literal("1B"), TokenGroupLexer::Eof]);
    assert_eq!(tokens("17o 7O").unwrap(), vec![literal("17o"), literal("7O"), TokenGroupLexer::Eof]);
    assert_eq!(
        tokens("1Fh 0ah 9H 1b2h 1d2h 1e5h").unwrap(),
        vec![
            literal("1Fh"),
            literal("0ah"),
            literal("9H"),
            literal("1b2h"),
            literal("1d2h"),
            literal("1e5h"),
            TokenGroupLexer::Eof
        ]
    );
}

#[test]
fn real_literals() {
    assert_eq!(
        tokens("1.5 .5 2.0 1e5 1E5 1.5e3 1e+5 1.5e-3").unwrap(),
        vec![
            literal("1.5"),
            literal(".5"),
            literal("2.0"),
            literal("1e5"),
            literal("1E5"),
            literal("1.5e3"),
            literal("1e+5"),
            literal("1.5e-3"),
            TokenGroupLexer::Eof
        ]
    );
}

#[test]
fn a_literal_ends_before_an_operator() {
    assert_eq!(
        tokens("1+2").unwrap(),
        vec![literal("1"), delim(DelimitersGroup::Plus), literal("2"), TokenGroupLexer::Eof]
    );
    assert_eq!(
        tokens("1e5+2").unwrap(),
        vec![literal("1e5"), delim(DelimitersGroup::Plus), literal("2"), TokenGroupLexer::Eof]
    );
    assert_eq!(
        tokens("(1.5)").unwrap(),
        vec![
            delim(DelimitersGroup::LeftParenthesis),
            literal("1.5"),
            delim(DelimitersGroup::RightParenthesis),
            TokenGroupLexer::Eof
        ]
    );
}

#[test]
fn a_mark_before_a_digit_is_a_hexadecimal_digit() {
    assert_eq!(tokens("1b9h").unwrap(), vec![literal("1b9h"), TokenGroupLexer::Eof]);
    assert_eq!(tokens("12b9h 1d0h").unwrap(), vec![literal("12b9h"), literal("1d0h"), TokenGroupLexer::Eof]);
    assert_eq!(
        message("1b9"),
        "Не возможно интерпретировать '1b9' как десятичное число или число с плавающей точкой"
    );
}

#[test]
fn malformed_numbers_name_the_attempted_category() {
    let prefix = "Не возможно интерпретировать '";
    assert_eq!(message("12b"), format!("{}12' как двоичное число", prefix));
    assert_eq!(message("19o"), format!("{}19' как восьмеричное число", prefix));
    assert_eq!(message("1ad"), format!("{}1a' как десятичное число", prefix));
    assert_eq!(message("1.5h"), format!("{}1.5' как шестнадцатеричное число", prefix));
    assert_eq!(message("1.5a"), format!("{}1.5' как шестнадцатеричное число", prefix));
    assert_eq!(message("12x"), format!("{}12' как шестнадцатеричное число", prefix));
    assert_eq!(message("1ae"), format!("{}1a' как число с плавающей точкой", prefix));
    assert_eq!(message("1.5.5"), format!("{}1.5' как число с плавающей точкой", prefix));
    assert_eq!(message("1e "), format!("{}1e' как число с плавающей точкой", prefix));
    assert_eq!(
        message("1e5e"),
        format!("{}1e5' как число с плавающей точкой, обнаружен второй символ 'E'", prefix)
    );
    assert_eq!(
        message("1hh"),
        format!(
            "{}1' как шестнадцатеричное число, так как обнаружен не поддерживаемый символ 'H' или 'h'",
            prefix
        )
    );
    assert_eq!(
        message("1e5.5"),
        format!("{}1e5' как число с плавающей точкой, неожиданная точка в экспоненте", prefix)
    );
    assert_eq!(
        message("1. "),
        format!("{}1' как число с плавающей точкой, неожиданная точка без цифр после неё", prefix)
    );
    assert_eq!(
        message("1o1"),
        format!(
            "{}1' как восьмеричное число, так как дальше обнаружен не поддерживаемый символ",
            prefix
        )
    );
    assert_eq!(
        message("1a "),
        format!("{}1a' как десятичное число или число с плавающей точкой", prefix)
    );
}

#[test]
fn a_malformed_number_is_reported_where_it_was_found() {
    let e = tokens("x = 12b;").unwrap_err();
    assert_eq!(e.token, TokenGroupLexer::Variables(String::new()));
    assert_eq!(e.line, 1);
    assert_eq!(e.position, 7);
    assert_eq!(e.path, "test.cm");
}

#[test]
fn token_texts_are_the_source_without_blanks_and_comments() {
    let source = "{ var x: integer; % note % x = 10b + 0ffh*2.5e-3;\n output(x) }";
    let mut expected = String::new();
    let mut inside = false;
    for c in source.chars() {
        if inside {
            if c == '%' {
                inside = false;
            }
        } else if c == '%' {
            inside = true;
        } else if !c.is_ascii_whitespace() {
            expected.push(c);
        }
    }
    let mut text = String::new();
    for token in tokens(source).unwrap() {
        match token {
            TokenGroupLexer::Keywords(k) => text.push_str(k.spelling()),
            TokenGroupLexer::Delimiters(d) => text.push_str(d.spelling()),
            TokenGroupLexer::Variables(s) => text.push_str(&s),
            TokenGroupLexer::Identifier(s) => text.push_str(&s),
            TokenGroupLexer::Illegal(i) => text.push(i.0),
            TokenGroupLexer::Eof => {}
        }
    }
    assert_eq!(text, expected);
}
