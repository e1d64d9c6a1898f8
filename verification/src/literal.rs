//! The value of a numeric literal, from its text.

use vstd::prelude::*;
use crate::lexer::{
    char_at, delimiter_of, is_digit, is_letter, lemma_number_bounds, lemma_skip_bounds,
    next_lexeme, number_start, number_step, scan_number, skip_blank, NumState, NumStep,
    NumberEnd, Scan, Skipped,
};
use crate::tokens::{DigitType, Lexeme};

verus! {

/// What the text of a numeric literal stands for.
#[derive(Debug, Clone, Copy, PartialEq, Eq, Structural)]
pub enum Decoded {
    Integer(i64),
    /// A real number; its value is that of the text read as a decimal
    /// floating-point number.
    Real,
    /// An integer above the largest 64-bit signed one.
    TooLarge,
    /// Not a numeric literal.
    Malformed,
}

/// The value of a digit, hexadecimal letters included.
pub open spec fn digit_value(c: char) -> Option<nat> {
    if '0' <= c <= '9' {
        Some((c as int - '0' as int) as nat)
    } else if 'a' <= c <= 'f' {
        Some((c as int - 'a' as int + 10) as nat)
    } else if 'A' <= c <= 'F' {
        Some((c as int - 'A' as int + 10) as nat)
    } else {
        None
    }
}

/// Whether `c` is a digit of the base.
pub open spec fn is_digit_of(c: char, base: nat) -> bool {
    match digit_value(c) {
        Some(d) => d < base,
        None => false,
    }
}

/// At least one character, and each a digit of the base.
pub open spec fn valid_digits(ds: Seq<char>, base: nat) -> bool {
    ds.len() > 0 && forall|i: int| 0 <= i < ds.len() ==> is_digit_of(#[trigger] ds[i], base)
}

/// The number that the digits write in the base, most significant first.
pub open spec fn number_value(ds: Seq<char>, base: nat) -> nat
    decreases ds.len(),
{
    if ds.len() == 0 {
        0
    } else {
        number_value(ds.drop_last(), base) * base + match digit_value(ds.last()) {
            Some(d) => d,
            None => 0,
        }
    }
}

/// The base that a closing mark names: `b` 2, `o` 8, `d` 10, `h` 16, in
/// either case.
pub open spec fn base_mark(c: char) -> Option<nat> {
    if c == 'B' || c == 'b' {
        Some(2)
    } else if c == 'O' || c == 'o' {
        Some(8)
    } else if c == 'H' || c == 'h' {
        Some(16)
    } else if c == 'D' || c == 'd' {
        Some(10)
    } else {
        None
    }
}

/// The value of digits in a base, as a literal.
pub open spec fn integer_value(ds: Seq<char>, base: nat) -> Decoded {
    if !valid_digits(ds, base) {
        Decoded::Malformed
    } else if number_value(ds, base) > i64::MAX {
        Decoded::TooLarge
    } else {
        Decoded::Integer(number_value(ds, base) as i64)
    }
}

/// Whether a text without closing mark is that of a real number: it holds a
/// point or an exponent mark.
pub open spec fn is_real_text(t: Seq<char>) -> bool {
    t.contains('.') || t.contains('e') || t.contains('E')
}

/// The value of a literal. A closing mark names the base of the digits
/// before it. Without one, a text with a point or an exponent mark is a real
/// number, and any other a decimal integer.
pub open spec fn literal_value(t: Seq<char>) -> Decoded {
    if t.len() == 0 {
        Decoded::Malformed
    } else {
        match base_mark(t.last()) {
            Some(base) => integer_value(t.drop_last(), base),
            None => if is_real_text(t) {
                Decoded::Real
            } else {
                integer_value(t, 10)
            },
        }
    }
}

/// The character of a digit below sixteen, letters in lower case.
pub open spec fn digit_of(d: nat) -> char
    recommends
        d < 16,
{
    if d < 10 {
        ('0' as int + d) as char
    } else {
        ('a' as int + d - 10) as char
    }
}

/// A number written in a base from 2 to 16, without leading zeros.
pub open spec fn numeral(n: nat, base: nat) -> Seq<char>
    recommends
        2 <= base <= 16,
    decreases n,
{
    if n < base || base < 2 {
        seq![digit_of(n)]
    } else {
        proof {
            vstd::arithmetic::div_mod::lemma_div_decreases(n as int, base as int);
        }
        numeral(n / base, base).push(digit_of(n % base))
    }
}

/// The digits of a numeral are digits of its base, and they write the
/// number.
pub proof fn lemma_numeral(n: nat, base: nat)
    requires
        2 <= base <= 16,
    ensures
        valid_digits(numeral(n, base), base),
        number_value(numeral(n, base), base) == n,
    decreases n,
{
    if n < base {
        let ds = numeral(n, base);
        assert(ds.drop_last() =~= Seq::<char>::empty());
        assert(number_value(ds.drop_last(), base) == 0);
        assert(digit_value(digit_of(n)) == Some(n));
        assert(ds.last() == digit_of(n));
        assert(number_value(ds, base) == 0 * base + n);
    } else {
        let q = n / base;
        let d = n % base;
        vstd::arithmetic::div_mod::lemma_div_decreases(n as int, base as int);
        lemma_numeral(q, base);
        let ds = numeral(n, base);
        assert(ds.drop_last() =~= numeral(q, base));
        assert(digit_value(digit_of(d)) == Some(d));
        assert(ds.last() == digit_of(d));
        assert(q * base + d == n) by (nonlinear_arith)
            requires
                q == n / base,
                d == n % base,
                base >= 2,
        ;
        assert forall|i: int| 0 <= i < ds.len() implies is_digit_of(#[trigger] ds[i], base) by {
            if i < ds.len() - 1 {
                assert(ds[i] == numeral(q, base)[i]);
            }
        }
    }
}

/// Reading back a written integer gives the integer: for every `x` that a
/// 64-bit signed integer holds and is not negative, the numeral of `x` in
/// base 2, 8, 10 or 16, closed by the mark of that base, has the value `x`;
/// and so has the decimal numeral without a mark.
pub proof fn written_integers_read_back(x: nat, base: nat, mark: char)
    requires
        x <= i64::MAX,
        base_mark(mark) == Some(base),
    ensures
        literal_value(numeral(x, base).push(mark)) == Decoded::Integer(x as i64),
        literal_value(numeral(x, 10)) == Decoded::Integer(x as i64),
{
    lemma_numeral(x, base);
    lemma_numeral(x, 10);
    let t = numeral(x, base).push(mark);
    assert(t.drop_last() =~= numeral(x, base));
    assert(t.last() == mark);
    let u = numeral(x, 10);
    assert(u.len() > 0);
    assert(is_digit_of(u.last(), 10));
    assert(base_mark(u.last()) is None);
    assert(!is_real_text(u)) by {
        assert forall|i: int| 0 <= i < u.len() implies u[i] != '.' && u[i] != 'e' && u[i]
            != 'E' by {
            assert(is_digit_of(u[i], 10));
        }
    }
}

/// Executable form of [`digit_value`], for digits below `base`.
fn digit_in(c: char, base: u64) -> (r: Option<u64>)
    requires
        base <= 16,
    ensures
        match r {
            Some(d) => is_digit_of(c, base as nat) && digit_value(c) == Some(d as nat),
            None => !is_digit_of(c, base as nat),
        },
{
    let d: u64 = if '0' <= c && c <= '9' {
        (c as u32 - '0' as u32) as u64
    } else if 'a' <= c && c <= 'f' {
        (c as u32 - 'a' as u32) as u64 + 10
    } else if 'A' <= c && c <= 'F' {
        (c as u32 - 'A' as u32) as u64 + 10
    } else {
        return None;
    };
    if d < base {
        Some(d)
    } else {
        None
    }
}

/// Digits that are written before others do not lower the number.
proof fn lemma_prefix_value(ds: Seq<char>, k: int, base: nat)
    requires
        0 <= k <= ds.len(),
        base >= 1,
    ensures
        number_value(ds.subrange(0, k), base) <= number_value(ds, base),
    decreases ds.len() - k,
{
    if k == ds.len() {
        assert(ds.subrange(0, k) =~= ds);
    } else {
        lemma_prefix_value(ds, k + 1, base);
        let longer = ds.subrange(0, k + 1);
        assert(longer.drop_last() =~= ds.subrange(0, k));
        let v = number_value(ds.subrange(0, k), base);
        assert(v * base >= v) by (nonlinear_arith)
            requires
                base >= 1,
                v >= 0,
        ;
    }
}

/// The value of `text` as digits of `base`.
fn decode_integer(text: &Vec<char>, count: usize, base: u64) -> (r: Decoded)
    requires
        2 <= base <= 16,
        count <= text@.len(),
    ensures
        r == integer_value(text@.subrange(0, count as int), base as nat),
{
    let ghost ds = text@.subrange(0, count as int);
    if count == 0 {
        return Decoded::Malformed;
    }
    let mut i: usize = 0;
    while i < count
        invariant
            i <= count <= text@.len(),
            base <= 16,
            ds == text@.subrange(0, count as int),
            forall|j: int| 0 <= j < i ==> is_digit_of(#[trigger] ds[j], base as nat),
        decreases count - i,
    {
        if digit_in(text[i], base).is_none() {
            assert(!is_digit_of(ds[i as int], base as nat));
            return Decoded::Malformed;
        }
        i += 1;
    }
    assert(valid_digits(ds, base as nat));
    let mut value: u64 = 0;
    let limit: u64 = 0x7fff_ffff_ffff_ffff;
    i = 0;
    assert(ds.subrange(0, 0) =~= Seq::<char>::empty());
    while i < count
        invariant
            i <= count <= text@.len(),
            2 <= base <= 16,
            limit == i64::MAX,
            ds == text@.subrange(0, count as int),
            valid_digits(ds, base as nat),
            value <= limit,
            value == number_value(ds.subrange(0, i as int), base as nat),
        decreases count - i,
    {
        assert(is_digit_of(ds[i as int], base as nat));
        let d = digit_in(text[i], base).unwrap();
        proof {
            let longer = ds.subrange(0, i + 1);
            assert(longer.drop_last() =~= ds.subrange(0, i as int));
            assert(longer.last() == ds[i as int]);
            lemma_prefix_value(ds, i + 1, base as nat);
        }
        if value > (limit - d) / base {
            assert(value * base + d > limit) by (nonlinear_arith)
                requires
                    value > (limit - d) / (base as int),
                    base >= 2,
                    d <= limit,
            ;
            return Decoded::TooLarge;
        }
        assert(value * base + d <= limit) by (nonlinear_arith)
            requires
                value <= (limit - d) / (base as int),
                base >= 2,
                d <= limit,
        ;
        value = value * base + d;
        i += 1;
    }
    assert(ds.subrange(0, count as int) =~= ds);
    Decoded::Integer(value as i64)
}

/// Whether the characters hold a point or an exponent mark.
fn real_text(text: &Vec<char>) -> (r: bool)
    ensures
        r == is_real_text(text@),
{
    let mut i: usize = 0;
    while i < text.len()
        invariant
            i <= text.len(),
            forall|j: int| 0 <= j < i ==> text@[j] != '.' && text@[j] != 'e' && text@[j] != 'E',
        decreases text.len() - i,
    {
        let c = text[i];
        if c == '.' || c == 'e' || c == 'E' {
            return true;
        }
        i += 1;
    }
    false
}

/// Executable form of [`base_mark`].
fn mark_base(c: char) -> (r: Option<u64>)
    ensures
        match base_mark(c) {
            Some(b) => r == Some(b as u64) && 2 <= b <= 16,
            None => r.is_none(),
        },
{
    if c == 'B' || c == 'b' {
        Some(2)
    } else if c == 'O' || c == 'o' {
        Some(8)
    } else if c == 'H' || c == 'h' {
        Some(16)
    } else if c == 'D' || c == 'd' {
        Some(10)
    } else {
        None
    }
}

/// The value of the literal that `text` holds.
pub fn decode_literal(text: &Vec<char>) -> (r: Decoded)
    ensures
        r == literal_value(text@),
{
    let n = text.len();
    if n == 0 {
        return Decoded::Malformed;
    }
    assert(text@.subrange(0, n - 1) =~= text@.drop_last());
    assert(text@.subrange(0, n as int) =~= text@);
    match mark_base(text[n - 1]) {
        Some(base) => decode_integer(text, n - 1, base),
        None => {
            if real_text(text) {
                Decoded::Real
            } else {
                decode_integer(text, n, 10)
            }
        },
    }
}

} // verus!

verus! {

/// What the category of a literal that is being read says of the
/// characters read so far: a binary, octal or decimal literal holds digits
/// of its base only, a hexadecimal one hexadecimal digits only, one that
/// may still be a real number or a hexadecimal one holds decimal digits
/// and one exponent mark, and a real number holds a point or an exponent
/// mark.
pub open spec fn fits(st: NumState, text: Seq<char>) -> bool {
    match st.kind {
        DigitType::Binary => !st.exp && forall|k: int|
            0 <= k < text.len() ==> is_digit_of(#[trigger] text[k], 2),
        DigitType::Octal => !st.exp && forall|k: int|
            0 <= k < text.len() ==> is_digit_of(#[trigger] text[k], 8),
        DigitType::Digital => !st.exp && forall|k: int|
            0 <= k < text.len() ==> is_digit_of(#[trigger] text[k], 10),
        DigitType::HexPoint => st.exp && (text.contains('e') || text.contains('E')) && forall|
            k: int,
        |
            0 <= k < text.len() ==> is_digit_of(#[trigger] text[k], 16),
        DigitType::Hex => forall|k: int|
            0 <= k < text.len() ==> is_digit_of(#[trigger] text[k], 16),
        DigitType::Point => is_real_text(text),
    }
}

/// A character keeps what its category says of the text.
proof fn lemma_step_fits(st: NumState, text: Seq<char>, c: char, next: char)
    requires
        fits(st, text),
        text.len() > 0 || is_digit(c) || c == '.',
    ensures
        match number_step(
            st,
            if text.len() > 0 {
                text.last()
            } else {
                ' '
            },
            c,
            next,
        ) {
            NumStep::Continue(st2) => fits(st2, text.push(c)),
            NumStep::Accept(take) => text.len() > 0 && !(literal_value(
                if take {
                    text.push(c)
                } else {
                    text
                },
            ) is Malformed),
            NumStep::Reject(_) => true,
        },
{
    let prev = if text.len() > 0 {
        text.last()
    } else {
        ' '
    };
    let longer = text.push(c);
    match number_step(st, prev, c, next) {
        NumStep::Continue(st2) => {
            assert forall|k: int| 0 <= k < longer.len() implies longer[k] == if k < text.len() {
                text[k]
            } else {
                c
            } by {}
            if text.contains('e') {
                let k = choose|k: int| 0 <= k < text.len() && text[k] == 'e';
                assert(longer[k] == 'e');
            }
            if text.contains('E') {
                let k = choose|k: int| 0 <= k < text.len() && text[k] == 'E';
                assert(longer[k] == 'E');
            }
            if text.contains('.') {
                let k = choose|k: int| 0 <= k < text.len() && text[k] == '.';
                assert(longer[k] == '.');
            }
            assert(longer[text.len() as int] == c);
            if st2.kind == DigitType::Binary || st2.kind == DigitType::Octal || st2.kind
                == DigitType::Digital || st2.kind == DigitType::HexPoint || st2.kind
                == DigitType::Hex {
                let base: nat = if st2.kind == DigitType::Binary {
                    2
                } else if st2.kind == DigitType::Octal {
                    8
                } else if st2.kind == DigitType::Digital {
                    10
                } else {
                    16
                };
                assert forall|k: int| 0 <= k < longer.len() implies is_digit_of(
                    #[trigger] longer[k],
                    base,
                ) by {
                    if k < text.len() {
                        assert(is_digit_of(text[k], base));
                    }
                }
            }
        },
        NumStep::Accept(take) => {
            assert(text.len() > 0);
            if take {
                assert(longer.drop_last() =~= text);
                assert(longer.last() == c);
                let base = base_mark(c)->Some_0;
                assert forall|k: int| 0 <= k < text.len() implies is_digit_of(
                    #[trigger] text[k],
                    base,
                ) by {
                    if st.kind == DigitType::Binary {
                        assert(is_digit_of(text[k], 2));
                    } else if st.kind == DigitType::Octal {
                        assert(is_digit_of(text[k], 8));
                    } else if st.kind == DigitType::Digital {
                        assert(is_digit_of(text[k], 10));
                    } else {
                        assert(is_digit_of(text[k], 16));
                    }
                }
            } else {
                if st.kind.widens_to(DigitType::Digital) {
                    assert forall|k: int| 0 <= k < text.len() implies is_digit_of(
                        #[trigger] text[k],
                        10,
                    ) by {
                        if st.kind == DigitType::Binary {
                            assert(is_digit_of(text[k], 2));
                        } else if st.kind == DigitType::Octal {
                            assert(is_digit_of(text[k], 8));
                        } else {
                            assert(is_digit_of(text[k], 10));
                        }
                    }
                    assert(is_digit_of(text.last(), 10));
                    assert(!is_real_text(text)) by {
                        assert forall|k: int| 0 <= k < text.len() implies text[k] != '.' && text[k]
                            != 'e' && text[k] != 'E' by {
                            assert(is_digit_of(text[k], 10));
                        }
                    }
                } else {
                    assert(is_digit(prev));
                }
            }
        },
        NumStep::Reject(_) => {},
    }
}

/// Every numeric literal that the lexer reads has a value or is an integer
/// too large: run from the first character of a literal, the automaton
/// accepts no text that is malformed.
pub proof fn lemma_scan_readable(s: Seq<char>, start: int, i: int, st: NumState)
    requires
        0 <= start <= i <= s.len(),
        fits(st, s.subrange(start, i)),
        i > start || is_digit(char_at(s, i)) || char_at(s, i) == '.',
    ensures
        scan_number(
            s,
            i,
            st,
            if i > start {
                s[i - 1]
            } else {
                ' '
            },
        ) matches NumberEnd::End(e) ==> start < e <= s.len() && !(literal_value(
            s.subrange(start, e),
        ) is Malformed),
    decreases s.len() - i,
{
    let text = s.subrange(start, i);
    let prev = if i > start {
        s[i - 1]
    } else {
        ' '
    };
    if i > start {
        assert(text.last() == s[i - 1]);
    }
    let c = char_at(s, i);
    lemma_step_fits(st, text, c, char_at(s, i + 1));
    lemma_number_bounds(s, i, st, prev);
    match number_step(st, prev, c, char_at(s, i + 1)) {
        NumStep::Continue(st2) => {
            if i < s.len() {
                assert(text.push(c) =~= s.subrange(start, i + 1));
                lemma_scan_readable(s, start, i + 1, st2);
            }
        },
        NumStep::Accept(take) => {
            if take {
                assert(i < s.len());
                assert(text.push(c) =~= s.subrange(start, i + 1));
            }
        },
        NumStep::Reject(_) => {},
    }
}

/// Decoding is total on the literals of the lexer: every literal that the
/// lexer reads is an integer with its value, an integer too large for 64
/// bits, or a real number.
pub proof fn lexer_literals_are_readable(s: Seq<char>, i: int)
    requires
        0 <= i <= s.len(),
    ensures
        next_lexeme(s, i) matches Scan::Token { lexeme, .. } ==> (lexeme matches Lexeme::Variables(
            text,
        ) ==> !(literal_value(text) is Malformed)),
{
    lemma_skip_bounds(s, i, false);
    match skip_blank(s, i, false) {
        Skipped::At(j) => {
            let c = char_at(s, j);
            if delimiter_of(c, char_at(s, j + 1)) is None && !is_letter(c) && (is_digit(c) || c
                == '.') {
                assert(s.subrange(j, j) =~= Seq::<char>::empty());
                lemma_scan_readable(s, j, j, number_start());
            }
        },
        _ => {},
    }
}

} // verus!
