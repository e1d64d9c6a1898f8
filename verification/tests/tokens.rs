use cm_compiler::tokens::{
    ordering, DelimitersGroup, DigitType, KeywordsGroup, Token, TokenGroup, TokenGroupLexer,
};

#[test]
fn digit_types_ordering() {
    assert_eq!(DigitType::Binary >> DigitType::Binary, true);
    assert_eq!(DigitType::Binary >> DigitType::Octal, true);
    assert_eq!(DigitType::Binary >> DigitType::Digital, true);
    assert_eq!(DigitType::Binary >> DigitType::HexPoint, true);
    assert_eq!(DigitType::Binary >> DigitType::Hex, true);
    assert_eq!(DigitType::Binary >> DigitType::Point, true);

    assert_eq!(DigitType::Octal >> DigitType::Binary, false);
    assert_eq!(DigitType::Octal >> DigitType::Octal, true);
    assert_eq!(DigitType::Octal >> DigitType::Digital, true);
    assert_eq!(DigitType::Octal >> DigitType::HexPoint, true);
    assert_eq!(DigitType::Octal >> DigitType::Hex, true);
    assert_eq!(DigitType::Octal >> DigitType::Point, true);

    assert_eq!(DigitType::Digital >> DigitType::Binary, false);
    assert_eq!(DigitType::Digital >> DigitType::Octal, false);
    assert_eq!(DigitType::Digital >> DigitType::Digital, true);
    assert_eq!(DigitType::Digital >> DigitType::HexPoint, true);
    assert_eq!(DigitType::Digital >> DigitType::Hex, true);
    assert_eq!(DigitType::Digital >> DigitType::Point, true);

    assert_eq!(DigitType::HexPoint >> DigitType::Binary, false);
    assert_eq!(DigitType::HexPoint >> DigitType::Octal, false);
    assert_eq!(DigitType::HexPoint >> DigitType::Digital, false);
    assert_eq!(DigitType::HexPoint >> DigitType::HexPoint, true);
    assert_eq!(DigitType::HexPoint >> DigitType::Hex, true);
    assert_eq!(DigitType::HexPoint >> DigitType::Point, true);

    assert_eq!(DigitType::Hex >> DigitType::Binary, false);
    assert_eq!(DigitType::Hex >> DigitType::Octal, false);
    assert_eq!(DigitType::Hex >> DigitType::Digital, false);
    assert_eq!(DigitType::Hex >> DigitType::HexPoint, false);
    assert_eq!(DigitType::Hex >> DigitType::Hex, true);
    assert_eq!(DigitType::Hex >> DigitType::Point, false);

    assert_eq!(DigitType::Point >> DigitType::Binary, false);
    assert_eq!(DigitType::Point >> DigitType::Octal, false);
    assert_eq!(DigitType::Point >> DigitType::Digital, false);
    assert_eq!(DigitType::Point >> DigitType::HexPoint, false);
    assert_eq!(DigitType::Point >> DigitType::Hex, false);
    assert_eq!(DigitType::Point >> DigitType::Point, true);
}

fn all_digit_types() -> Vec<DigitType> {
    vec![
        DigitType::Binary,
        DigitType::Octal,
        DigitType::Digital,
        DigitType::HexPoint,
        DigitType::Hex,
        DigitType::Point,
    ]
}

#[test]
fn widening_is_reflexive_on_every_category() {
    for a in all_digit_types() {
        assert!(a >> a);
    }
}

#[test]
fn widening_is_transitive_and_antisymmetric() {
    for a in all_digit_types() {
        for b in all_digit_types() {
            if a >> b && b >> a {
                assert_eq!(a, b);
            }
            for c in all_digit_types() {
                if a >> b && b >> c {
                    assert!(a >> c);
                }
            }
        }
    }
}

#[test]
fn ordering_follows_the_declaration_order() {
    assert!(ordering(&DigitType::Binary, &DigitType::Point));
    assert!(ordering(&DigitType::Hex, &DigitType::Point));
    assert!(ordering(&DigitType::Hex, &DigitType::Hex));
    assert!(!ordering(&DigitType::Point, &DigitType::Hex));
    assert!(!ordering(&DigitType::Octal, &DigitType::Binary));
    assert_eq!(DigitType::Digital.index(), 2);
}

#[test]
fn eof_token_has_no_position() {
    assert_eq!(Token::eof(), Token { token: TokenGroup::Eof, line: 0, column: 0 });
}

#[test]
fn table_entries_of_tokens() {
    assert_eq!(TokenGroup::Keywords(KeywordsGroup::Integer).entry(), Some((0, 0)));
    assert_eq!(TokenGroup::Keywords(KeywordsGroup::Output).entry(), Some((0, 16)));
    assert_eq!(TokenGroup::Delimiters(DelimitersGroup::Semicolon).entry(), Some((1, 0)));
    assert_eq!(TokenGroup::Delimiters(DelimitersGroup::Not).entry(), Some((1, 20)));
    assert_eq!(TokenGroup::Variables(7).entry(), Some((2, 7)));
    assert_eq!(TokenGroup::Identifier(9).entry(), Some((3, 9)));
    assert_eq!(TokenGroup::Eof.entry(), None);
}

#[test]
fn spellings_of_keywords_and_delimiters() {
    assert_eq!(KeywordsGroup::EndElse.spelling(), "end_else");
    assert_eq!(KeywordsGroup::While.spelling(), "while");
    assert_eq!(DelimitersGroup::GreaterEqual.spelling(), ">=");
    assert_eq!(DelimitersGroup::And.spelling(), "&&");
    assert_eq!(DelimitersGroup::LeftCurlyBracket.spelling(), "{");
}

#[test]
fn lexer_tokens_clone_with_their_text() {
    let t = TokenGroupLexer::Identifier("abc".to_string());
    assert_eq!(t.clone(), t);
    let i = TokenGroupLexer::Illegal(('#', 3, 4));
    assert_eq!(i.clone(), i);
}
