use cm_compiler::bytes::{push_all, push_le, push_le_signed, push_zeros};
use cm_compiler::text::push_str;
use cm_compiler::types::{AdditionOperations, MultiplicationOperations, RelationOperations};

#[test]
fn integers_are_encoded_least_significant_byte_first() {
    let mut out = vec![0xaa];
    push_le(&mut out, 0x0102030405060708, 8);
    assert_eq!(out, vec![0xaa, 8, 7, 6, 5, 4, 3, 2, 1]);
    let mut out = Vec::new();
    push_le(&mut out, 0x0102030405060708, 4);
    assert_eq!(out, vec![8, 7, 6, 5]);
    let mut out = Vec::new();
    push_le(&mut out, 0x1234, 2);
    push_le(&mut out, 7, 0);
    push_le(&mut out, 0xff, 1);
    assert_eq!(out, vec![0x34, 0x12, 0xff]);
}

#[test]
fn negative_integers_are_encoded_in_twos_complement() {
    let mut out = Vec::new();
    push_le_signed(&mut out, -1, 8);
    assert_eq!(out, vec![0xff; 8]);
    let mut out = Vec::new();
    push_le_signed(&mut out, -4, 8);
    assert_eq!(out, (-4i64).to_le_bytes().to_vec());
    let mut out = Vec::new();
    push_le_signed(&mut out, i64::MIN, 8);
    assert_eq!(out, i64::MIN.to_le_bytes().to_vec());
    let mut out = Vec::new();
    push_le_signed(&mut out, -70000, 4);
    assert_eq!(out, (-70000i32).to_le_bytes().to_vec());
    let mut out = Vec::new();
    push_le_signed(&mut out, 70000, 4);
    assert_eq!(out, 70000i32.to_le_bytes().to_vec());
}

#[test]
fn zeros_and_bytes_are_appended() {
    let mut out = vec![1];
    push_zeros(&mut out, 3);
    push_zeros(&mut out, 0);
    push_all(&mut out, &[7, 8]);
    push_all(&mut out, &[]);
    assert_eq!(out, vec![1, 0, 0, 0, 7, 8]);
}

#[test]
fn strings_are_appended_character_by_character() {
    let mut out = vec!['a'];
    push_str(&mut out, "бв");
    push_str(&mut out, "");
    push_str(&mut out, "c");
    assert_eq!(out, vec!['a', 'б', 'в', 'c']);
}

#[test]
fn operators_are_named_as_they_are_written() {
    assert_eq!(RelationOperations::Equal.into(), "==");
    assert_eq!(RelationOperations::NotEqual.into(), "!=");
    assert_eq!(RelationOperations::Less.into(), "<");
    assert_eq!(RelationOperations::Greater.into(), ">");
    assert_eq!(RelationOperations::LessEqual.into(), "<=");
    assert_eq!(RelationOperations::GreaterEqual.into(), ">=");
    assert_eq!(AdditionOperations::Addition.sign(), "+");
    assert_eq!(AdditionOperations::Subtraction.sign(), "-");
    assert_eq!(AdditionOperations::Or.sign(), "||");
    assert_eq!(MultiplicationOperations::Multiplication.sign(), "*");
    assert_eq!(MultiplicationOperations::Division.sign(), "/");
    assert_eq!(MultiplicationOperations::And.sign(), "&&");
}
