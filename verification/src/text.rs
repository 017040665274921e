//! Text building blocks of the generated program: hexadecimal and decimal
//! numerals and indentation.

use vstd::prelude::*;
use vstd::string::*;

verus! {

/// The sixteen upper-case hexadecimal digits, in order of value.
pub open spec fn upper_hex_digits() -> Seq<char> {
    "0123456789ABCDEF"@
}

/// The sixteen lower-case hexadecimal digits, in order of value.
pub open spec fn lower_hex_digits() -> Seq<char> {
    "0123456789abcdef"@
}

/// The `k`-th group of four bits of `v`, counted from the least significant.
pub open spec fn nibble(v: u32, k: nat) -> u32 {
    (v >> ((4 * k) as u32)) & 0xF
}

/// The lowest `width` hexadecimal digits of `v`, most significant first,
/// each written with the character that `digits` holds for its value.
pub open spec fn hex_text(v: u32, width: nat, digits: Seq<char>) -> Seq<char> {
    Seq::new(width, |i: int| digits[nibble(v, (width - 1 - i) as nat) as int])
}

/// `v` as eight upper-case hexadecimal digits, zero-padded.
pub open spec fn upper_hex8_text(v: u32) -> Seq<char> {
    hex_text(v, 8, upper_hex_digits())
}

/// The low 24 bits of `v` as six lower-case hexadecimal digits, zero-padded.
pub open spec fn lower_hex6_text(v: u32) -> Seq<char> {
    hex_text(v, 6, lower_hex_digits())
}

/// The character of a decimal digit.
pub open spec fn decimal_digit(d: nat) -> char {
    "0123456789"@[d as int]
}

/// The decimal numeral of a natural number, without leading zeros.
pub open spec fn decimal_nat_text(n: nat) -> Seq<char>
    decreases n,
{
    if n < 10 {
        seq![decimal_digit(n)]
    } else {
        decimal_nat_text(n / 10).push(decimal_digit(n % 10))
    }
}

/// The decimal numeral of an integer: a minus sign for a negative value,
/// then the numeral of its magnitude.
pub open spec fn decimal_text(i: int) -> Seq<char> {
    if i < 0 {
        seq!['-'] + decimal_nat_text((-i) as nat)
    } else {
        decimal_nat_text(i as nat)
    }
}

/// Four spaces for each level of nesting.
pub open spec fn indentation(depth: nat) -> Seq<char> {
    Seq::new(4 * depth, |i: int| ' ')
}

/// The digit tables are ASCII and have one character for each digit.
proof fn lemma_digit_tables()
    ensures
        upper_hex_digits().len() == 16,
        lower_hex_digits().len() == 16,
        is_ascii("0123456789ABCDEF"),
        is_ascii("0123456789abcdef"),
        "0123456789"@.len() == 10,
        is_ascii("0123456789"),
{
    reveal_strlit("0123456789ABCDEF");
    reveal_strlit("0123456789abcdef");
    reveal_strlit("0123456789");
}

/// Appends the lowest `width` hexadecimal digits of `v` to `out`.
fn push_hex(out: &mut String, v: u32, width: u32, digits: &str)
    requires
        width <= 8,
        digits@.len() == 16,
        is_ascii(digits),
    ensures
        final(out)@ == old(out)@ + hex_text(v, width as nat, digits@),
{
    let ghost before = out@;
    let mut i: u32 = 0;
    while i < width
        invariant
            i <= width <= 8,
            digits@.len() == 16,
            is_ascii(digits),
            out@ == before + hex_text(v, width as nat, digits@).take(i as int),
        decreases width - i,
    {
        let shift: u32 = 4 * (width - 1 - i);
        let n: u32 = (v >> shift) & 0xF;
        assert(n < 16) by (bit_vector)
            requires
                n == (v >> shift) & 0xF,
        ;
        let digit = digits.substring_ascii(n as usize, n as usize + 1);
        out.append(digit);
        proof {
            let whole = hex_text(v, width as nat, digits@);
            assert(whole[i as int] == digits@[n as int]);
            assert(whole.take(i + 1) =~= whole.take(i as int) + digit@);
        }
        i += 1;
    }
    proof {
        let whole = hex_text(v, width as nat, digits@);
        assert(whole.take(width as int) =~= whole);
    }
}

/// Writes a packed colour the way the rectangle statement carries it:
/// eight upper-case hexadecimal digits, alpha first.
pub fn upper_hex8(v: u32) -> (s: String)
    ensures
        s@ == upper_hex8_text(v),
{
    proof {
        lemma_digit_tables();
    }
    let mut s = String::new();
    push_hex(&mut s, v, 8, "0123456789ABCDEF");
    s
}

/// Writes the red, green and blue bytes of a packed colour as six
/// lower-case hexadecimal digits; the alpha byte is left out.
pub fn lower_hex6(v: u32) -> (s: String)
    ensures
        s@ == lower_hex6_text(v),
{
    proof {
        lemma_digit_tables();
    }
    let mut s = String::new();
    push_hex(&mut s, v, 6, "0123456789abcdef");
    s
}

/// Appends the decimal numeral of `n` to `out`.
fn push_decimal_nat(out: &mut String, n: u32)
    ensures
        final(out)@ == old(out)@ + decimal_nat_text(n as nat),
    decreases n,
{
    proof {
        lemma_digit_tables();
    }
    if n >= 10 {
        push_decimal_nat(out, n / 10);
    }
    let d: u32 = n % 10;
    let digit = "0123456789".substring_ascii(d as usize, d as usize + 1);
    out.append(digit);
    proof {
        assert(digit@ =~= seq![decimal_digit(d as nat)]);
        if n >= 10 {
            assert(out@ =~= old(out)@ + decimal_nat_text(n as nat));
        } else {
            assert(out@ =~= old(out)@ + decimal_nat_text(n as nat));
        }
    }
}

/// Writes a signed 32-bit integer in decimal.
pub fn decimal_i32(v: i32) -> (s: String)
    ensures
        s@ == decimal_text(v as int),
{
    let mut s = String::new();
    if v < 0 {
        s.append("-");
        proof {
            reveal_strlit("-");
            assert("-"@ =~= seq!['-']);
        }
        let magnitude: u32 = (-(v as i64)) as u32;
        push_decimal_nat(&mut s, magnitude);
    } else {
        push_decimal_nat(&mut s, v as u32);
    }
    s
}

} // verus!
