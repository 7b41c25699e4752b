//! Decimal numerals in ASCII, and scaling by the `bigdecimal` crate.

use crate::u256::{full_range, U256};
use vstd::arithmetic::div_mod::lemma_div_multiples_vanish_quotient;
use vstd::prelude::*;

verus! {

/// The ASCII code of a point.
pub const POINT: u8 = 46;

/// The decimal digits of a number, in ASCII, without leading zeros.
pub open spec fn decimal(n: nat) -> Seq<u8>
    decreases n,
{
    if n < 10 {
        seq![(48 + n) as u8]
    } else {
        decimal(n / 10).push((48 + n % 10) as u8)
    }
}

/// Whether a text is a decimal numeral.
pub open spec fn is_decimal(text: Seq<u8>) -> bool {
    &&& text.len() > 0
    &&& all_digits(text)
}

/// Whether all characters of a text are decimal digits.
pub open spec fn all_digits(text: Seq<u8>) -> bool {
    forall|i: int| 0 <= i < text.len() ==> 48 <= #[trigger] text[i] <= 57
}

/// The number that a decimal numeral stands for.
pub open spec fn decimal_value(text: Seq<u8>) -> nat
    decreases text.len(),
{
    if text.len() == 0 {
        0
    } else {
        decimal_value(text.drop_last()) * 10 + (text.last() - 48) as nat
    }
}

/// The part of a text before its first point, or all of it if it has none.
pub open spec fn before_point(text: Seq<u8>) -> Seq<u8>
    decreases text.len(),
{
    if text.len() == 0 || text[0] == POINT {
        Seq::empty()
    } else {
        seq![text[0]] + before_point(text.drop_first())
    }
}

/// The digits of a number are a numeral that stands for it.
pub proof fn lemma_decimal(n: nat)
    ensures
        is_decimal(decimal(n)),
        decimal_value(decimal(n)) == n,
    decreases n,
{
    let text = decimal(n);
    if n < 10 {
        assert(text.drop_last() =~= Seq::empty());
        assert(decimal_value(text.drop_last()) == 0);
        assert(text.last() - 48 == n);
    } else {
        assert(text.last() - 48 == n % 10);
        lemma_decimal(n / 10);
        assert(text.drop_last() =~= decimal(n / 10));
        assert forall|i: int| 0 <= i < text.len() implies 48 <= #[trigger] text[i] <= 57 by {
            if i < text.len() - 1 {
                assert(text[i] == decimal(n / 10)[i]);
            }
        }
    }
}

/// A numeral stands for at least what its front stands for.
proof fn lemma_decimal_value_grows(text: Seq<u8>, n: int)
    requires
        0 <= n <= text.len(),
        all_digits(text),
    ensures
        decimal_value(text.take(n)) <= decimal_value(text),
    decreases text.len() - n,
{
    if n < text.len() {
        assert(text.take(n + 1).drop_last() =~= text.take(n));
        assert(text.take(n + 1).last() == text[n]);
        lemma_decimal_value_grows(text, n + 1);
    } else {
        assert(text.take(n) =~= text);
    }
}

/// The part of a text behind its first point, or nothing if it has none.
pub open spec fn behind_point(text: Seq<u8>) -> Seq<u8> {
    let n = before_point(text).len() as int;
    if n < text.len() {
        text.skip(n + 1)
    } else {
        Seq::empty()
    }
}

/// Whether a text is a numeral with at most three decimal places, and without a
/// point if it has none.
pub open spec fn is_fixed_point(text: Seq<u8>) -> bool {
    &&& is_decimal(before_point(text))
    &&& before_point(text).len() < text.len() ==> behind_point(text).len() > 0
    &&& all_digits(behind_point(text))
    &&& behind_point(text).len() <= 3
}

/// The number of thousandths that up to three decimal places stand for.
pub open spec fn places_value(places: Seq<u8>) -> nat {
    decimal_value(places) * (if places.len() == 0 {
        1000nat
    } else if places.len() == 1 {
        100nat
    } else if places.len() == 2 {
        10nat
    } else {
        1nat
    })
}

/// The number of thousandths that a numeral with at most three decimal places
/// stands for.
pub open spec fn thousandths(text: Seq<u8>) -> nat {
    decimal_value(before_point(text)) * 1000 + places_value(behind_point(text))
}

/// Three decimal places stand for less than one.
proof fn lemma_places_value(places: Seq<u8>)
    requires
        all_digits(places),
        places.len() <= 3,
    ensures
        places_value(places) < 1000,
{
    reveal_with_fuel(decimal_value, 4);
    if places.len() > 0 {
        let a = places.drop_last();
        assert(48 <= places.last() <= 57);
        if a.len() > 0 {
            let b = a.drop_last();
            assert(a.last() == places[a.len() - 1]);
            if b.len() > 0 {
                assert(b.last() == places[0]);
                assert(b.drop_last() =~= Seq::empty());
            } else {
                assert(b =~= Seq::empty());
            }
        } else {
            assert(a =~= Seq::empty());
        }
    }
}

/// Division of two `BigDecimal`s made of integers, and the text of the quotient.
/// If the divisor divides 1000, the quotient is exact with at most three decimal
/// places, and its text is written without an exponent.
#[verifier::external_body]
fn divide(numerator: i64, denominator: u64) -> (text: Vec<u8>)
    requires
        numerator >= 0,
        denominator > 0,
        1000nat % denominator as nat == 0,
    ensures
        is_fixed_point(text@),
        thousandths(text@) * denominator as nat == 1000 * numerator as nat,
{
    let ratio = bigdecimal::BigDecimal::from(numerator) / bigdecimal::BigDecimal::from(denominator);
    ratio.to_string().into_bytes()
}

/// Multiplication of two `BigDecimal`s that `BigDecimal::parse_bytes` reads, and
/// the text of the product: it is exact and has as many decimal places as the
/// factors together at most, and is written without an exponent if these are few.
#[verifier::external_body]
fn multiply(numeral: &[u8], factor: &[u8]) -> (text: Vec<u8>)
    requires
        is_decimal(numeral@),
        is_fixed_point(factor@),
    ensures
        is_fixed_point(text@),
        thousandths(text@) == decimal_value(numeral@) * thousandths(factor@),
{
    let value = bigdecimal::BigDecimal::parse_bytes(numeral, 10).expect("a numeral");
    let ratio = bigdecimal::BigDecimal::parse_bytes(factor, 10).expect("a numeral");
    (value * ratio).to_string().into_bytes()
}

/// Writes a number in decimal digits.
pub fn to_decimal(value: &U256) -> (text: Vec<u8>)
    ensures
        text@ == decimal(value@),
{
    let mut text: Vec<u8> = Vec::new();
    let mut rest: U256 = *value;
    let ten = U256::from_u64(10);
    while ten.at_most(&rest)
        invariant
            ten@ == 10,
            decimal(value@) == decimal(rest@) + text@,
        decreases rest@,
    {
        let (quotient, digit) = rest.div_ten();
        let ghost before = text@;
        text.insert(0, 48 + digit);
        proof {
            assert(decimal(rest@) == decimal(rest@ / 10).push((48 + rest@ % 10) as u8));
            assert(decimal(rest@) + before =~= decimal(quotient@) + text@);
        }
        rest = quotient;
    }
    let (_, digit) = rest.div_ten();
    let ghost before = text@;
    text.insert(0, 48 + digit);
    assert(decimal(rest@) + before =~= text@);
    text
}

/// Reads a numeral of decimal digits.
pub fn from_decimal(text: &[u8]) -> (r: Option<U256>)
    requires
        is_decimal(text@),
    ensures
        match r {
            Some(v) => v@ == decimal_value(text@),
            None => decimal_value(text@) >= full_range(),
        },
{
    let mut r = U256::zero();
    let mut i: usize = 0;
    assert(text@.take(0) =~= Seq::empty());
    while i < text.len()
        invariant
            i <= text@.len(),
            all_digits(text@),
            r@ == decimal_value(text@.take(i as int)),
        decreases text@.len() - i,
    {
        proof {
            assert(text@.take(i + 1).drop_last() =~= text@.take(i as int));
            lemma_decimal_value_grows(text@, i + 1);
        }
        match r.times_ten_plus(text[i] - 48) {
            Some(v) => {
                r = v;
            },
            None => {
                return None;
            },
        }
        i = i + 1;
    }
    assert(text@.take(i as int) =~= text@);
    Some(r)
}

/// The part of a text before its first point.
fn split_at_point(text: &Vec<u8>) -> (front: Vec<u8>)
    ensures
        front@ == before_point(text@),
{
    let mut front: Vec<u8> = Vec::new();
    let mut i: usize = 0;
    assert(text@.skip(0) =~= text@);
    assert(front@ + before_point(text@.skip(0)) =~= before_point(text@));
    while i < text.len()
        invariant
            i <= text@.len(),
            front@ + before_point(text@.skip(i as int)) == before_point(text@),
        decreases text@.len() - i,
    {
        let ghost before = front@;
        if text[i] == POINT {
            assert(front@ + before_point(text@.skip(i as int)) =~= front@);
            return front;
        }
        front.push(text[i]);
        proof {
            assert(text@.skip(i as int).drop_first() =~= text@.skip(i + 1));
            assert(before + (seq![text@[i as int]] + before_point(text@.skip(i + 1))) =~= front@
                + before_point(text@.skip(i + 1)));
        }
        i = i + 1;
    }
    assert(front@ + before_point(text@.skip(i as int)) =~= front@);
    front
}

/// A number times a fraction, rounded down, if it fits in 256 bits.
pub fn scale(value: &U256, numerator: i64, denominator: u64) -> (r: Option<U256>)
    requires
        numerator >= 0,
        denominator > 0,
        1000nat % denominator as nat == 0,
    ensures
        match r {
            Some(v) => v@ == (value@ * numerator as nat) / denominator as nat,
            None => (value@ * numerator as nat) / denominator as nat >= full_range(),
        },
{
    let numeral = to_decimal(value);
    proof {
        lemma_decimal(value@);
    }
    let ratio = divide(numerator, denominator);
    let product = multiply(numeral.as_slice(), ratio.as_slice());
    let whole = split_at_point(&product);
    proof {
        lemma_places_value(behind_point(product@));
        lemma_scaled(
            value@ as int,
            thousandths(ratio@) as int,
            numerator as int,
            denominator as int,
        );
        let (w, p) = (decimal_value(whole@) as int, places_value(behind_point(product@)) as int);
        assert(w == (w * 1000 + p) / 1000);
    }
    from_decimal(whole.as_slice())
}

/// A number times a ratio in thousandths, rounded down, is the number times the
/// fraction, rounded down.
proof fn lemma_scaled(value: int, ratio: int, numerator: int, denominator: int)
    requires
        value >= 0,
        ratio >= 0,
        numerator >= 0,
        denominator > 0,
        ratio * denominator == 1000 * numerator,
    ensures
        (value * ratio) / 1000 == (value * numerator) / denominator,
{
    let (a, b) = (value * ratio, value * numerator);
    assert(a >= 0 && b >= 0) by (nonlinear_arith)
        requires
            value >= 0,
            ratio >= 0,
            numerator >= 0,
            a == value * ratio,
            b == value * numerator,
    ;
    assert(denominator * a == 1000 * b) by (nonlinear_arith)
        requires
            ratio * denominator == 1000 * numerator,
            a == value * ratio,
            b == value * numerator,
    ;
    lemma_div_multiples_vanish_quotient(denominator, a, 1000);
    lemma_div_multiples_vanish_quotient(1000, b, denominator);
    assert(denominator * 1000 == 1000 * denominator);
}

} // verus!
