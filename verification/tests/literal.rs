use cm_compiler::literal::{decode_literal, Decoded};

fn decode(text: &str) -> Decoded {
    decode_literal(&text.chars().collect())
}

#[test]
fn binary_literals_are_read_in_base_two() {
    assert_eq!(decode("0b"), Decoded::Integer(0));
    assert_eq!(decode("101b"), Decoded::Integer(5));
    assert_eq!(decode("11111111B"), Decoded::Integer(255));
}

#[test]
fn octal_literals_are_read_in_base_eight() {
    assert_eq!(decode("17o"), Decoded::Integer(15));
    assert_eq!(decode("777O"), Decoded::Integer(511));
}

#[test]
fn hexadecimal_literals_are_read_in_base_sixteen() {
    assert_eq!(decode("0ffh"), Decoded::Integer(255));
    assert_eq!(decode("1AH"), Decoded::Integer(26));
    assert_eq!(decode("1e5h"), Decoded::Integer(0x1e5));
    assert_eq!(decode("1b2h"), Decoded::Integer(0x1b2));
}

#[test]
fn decimal_literals_with_and_without_mark() {
    assert_eq!(decode("12d"), Decoded::Integer(12));
    assert_eq!(decode("12D"), Decoded::Integer(12));
    assert_eq!(decode("42"), Decoded::Integer(42));
    assert_eq!(decode("007"), Decoded::Integer(7));
}

#[test]
fn texts_with_a_point_or_an_exponent_are_real() {
    assert_eq!(decode("1.5"), Decoded::Real);
    assert_eq!(decode(".5"), Decoded::Real);
    assert_eq!(decode("1e5"), Decoded::Real);
    assert_eq!(decode("1E5"), Decoded::Real);
    assert_eq!(decode("2.5e-3"), Decoded::Real);
}

#[test]
fn the_largest_integer_is_read_and_the_next_is_too_large() {
    assert_eq!(decode("9223372036854775807"), Decoded::Integer(i64::MAX));
    assert_eq!(decode("9223372036854775808"), Decoded::TooLarge);
    assert_eq!(decode("7fffffffffffffffh"), Decoded::Integer(i64::MAX));
    assert_eq!(decode("8000000000000000h"), Decoded::TooLarge);
    assert_eq!(decode("99999999999999999999999999"), Decoded::TooLarge);
    assert_eq!(
        decode("111111111111111111111111111111111111111111111111111111111111111b"),
        Decoded::Integer(i64::MAX)
    );
    assert_eq!(
        decode("1000000000000000000000000000000000000000000000000000000000000000b"),
        Decoded::TooLarge
    );
}

#[test]
fn digits_outside_the_base_are_malformed() {
    assert_eq!(decode(""), Decoded::Malformed);
    assert_eq!(decode("b"), Decoded::Malformed);
    assert_eq!(decode("12b"), Decoded::Malformed);
    assert_eq!(decode("8o"), Decoded::Malformed);
    assert_eq!(decode("1ad"), Decoded::Malformed);
    assert_eq!(decode("1gh"), Decoded::Malformed);
    assert_eq!(decode("12x"), Decoded::Malformed);
    assert_eq!(decode("1.5b"), Decoded::Malformed);
}

#[test]
fn written_integers_read_back() {
    for x in [0i64, 1, 2, 7, 8, 9, 10, 15, 16, 255, 256, 1000, 65535, 123456789, i64::MAX] {
        assert_eq!(decode(&format!("{:b}b", x)), Decoded::Integer(x));
        assert_eq!(decode(&format!("{:o}o", x)), Decoded::Integer(x));
        assert_eq!(decode(&format!("{}d", x)), Decoded::Integer(x));
        assert_eq!(decode(&format!("{}", x)), Decoded::Integer(x));
        assert_eq!(decode(&format!("{:x}h", x)), Decoded::Integer(x));
        assert_eq!(decode(&format!("{:X}H", x)), Decoded::Integer(x));
    }
}
