//! Exact decimal numbers.
//!
//! A [`Decimal`] is an integer of any size together with a scale: the value
//! `unscaled * 10^(-scale)`. The library holds the integer as two's
//! complement bytes and leaves parsing, printing and arithmetic to the
//! `bigdecimal` crate, each behind a function whose contract is stated here
//! and not proved. The mathematical value of a number is the pair of its
//! bytes and its scale.

use vstd::prelude::*;
use vstd::arithmetic::power::{pow, lemma_pow_positive};
use std::str::FromStr;
use bigdecimal::BigDecimal;
use bigdecimal::num_bigint::BigInt;

verus! {

/// The largest scale, in absolute value, on which arithmetic is offered:
/// sums and differences of such scales, and of the digits of a number within
/// [`LENGTH_LIMIT`], stay within the range of a scale.
pub const SCALE_LIMIT: i64 = 0x1000_0000_0000_0000;

/// The largest number of bytes of an unscaled integer on which arithmetic is
/// offered.
pub const LENGTH_LIMIT: usize = 0x1000_0000;

/// An exact decimal number.
#[derive(Debug, PartialEq, Eq)]
pub struct Decimal {
    /// The unscaled integer: two's complement, most significant byte first.
    pub unscaled: Vec<u8>,
    /// The number of digits after the decimal point; may be negative.
    pub scale: i64,
}

/// The natural number that `bytes` write in base 256, most significant byte first.
pub open spec fn unsigned_value(bytes: Seq<u8>) -> nat
    decreases bytes.len(),
{
    if bytes.len() == 0 {
        0
    } else {
        unsigned_value(bytes.drop_last()) * 256 + bytes.last() as nat
    }
}

/// The integer that `bytes` write in two's complement, most significant byte first.
pub open spec fn signed_value(bytes: Seq<u8>) -> int {
    if bytes.len() > 0 && bytes[0] >= 128 {
        unsigned_value(bytes) - pow(256, bytes.len())
    } else {
        unsigned_value(bytes) as int
    }
}

/// What `BigDecimal::from_str` makes of a text: the bytes of the unscaled
/// integer and the scale, or `None` where it rejects the text.
pub uninterp spec fn decimal_parse(text: Seq<char>) -> Option<(Seq<u8>, int)>;

/// The text that `BigDecimal`'s `Display` writes for a number.
pub uninterp spec fn decimal_text(number: (Seq<u8>, int)) -> Seq<char>;

/// The number that `bigdecimal` computes as `a + b`.
pub uninterp spec fn decimal_sum(a: (Seq<u8>, int), b: (Seq<u8>, int)) -> (Seq<u8>, int);

/// The number that `bigdecimal` computes as `a - b`.
pub uninterp spec fn decimal_difference(a: (Seq<u8>, int), b: (Seq<u8>, int)) -> (Seq<u8>, int);

/// The number that `bigdecimal` computes as `a * b`.
pub uninterp spec fn decimal_product(a: (Seq<u8>, int), b: (Seq<u8>, int)) -> (Seq<u8>, int);

/// The number that `bigdecimal` computes as `a / b`, for `b` other than zero.
pub uninterp spec fn decimal_quotient(a: (Seq<u8>, int), b: (Seq<u8>, int)) -> (Seq<u8>, int);

impl View for Decimal {
    type V = (Seq<u8>, int);

    /// The bytes of the unscaled integer, and the scale.
    open spec fn view(&self) -> (Seq<u8>, int) {
        (self.unscaled@, self.scale as int)
    }
}

/// Whether arithmetic is offered on a number: its scale and the length of
/// its unscaled integer are within the limits.
pub open spec fn within_limits(number: (Seq<u8>, int)) -> bool {
    &&& -SCALE_LIMIT <= number.1 <= SCALE_LIMIT
    &&& number.0.len() <= LENGTH_LIMIT
}

/// Whether a number is zero.
pub open spec fn is_zero_number(number: (Seq<u8>, int)) -> bool {
    signed_value(number.0) == 0
}

/// The sum of two numbers; none where one is beyond the limits.
pub open spec fn sum_of(a: (Seq<u8>, int), b: (Seq<u8>, int)) -> Option<(Seq<u8>, int)> {
    if within_limits(a) && within_limits(b) {
        Some(decimal_sum(a, b))
    } else {
        None
    }
}

/// The difference of two numbers; none where one is beyond the limits.
pub open spec fn difference_of(a: (Seq<u8>, int), b: (Seq<u8>, int)) -> Option<(Seq<u8>, int)> {
    if within_limits(a) && within_limits(b) {
        Some(decimal_difference(a, b))
    } else {
        None
    }
}

/// The product of two numbers; none where one is beyond the limits.
pub open spec fn product_of(a: (Seq<u8>, int), b: (Seq<u8>, int)) -> Option<(Seq<u8>, int)> {
    if within_limits(a) && within_limits(b) {
        Some(decimal_product(a, b))
    } else {
        None
    }
}

/// The quotient of two numbers; none where one is beyond the limits or the
/// divisor is zero.
pub open spec fn quotient_of(a: (Seq<u8>, int), b: (Seq<u8>, int)) -> Option<(Seq<u8>, int)> {
    if within_limits(a) && within_limits(b) && !is_zero_number(b) {
        Some(decimal_quotient(a, b))
    } else {
        None
    }
}

impl Clone for Decimal {
    fn clone(&self) -> (copy: Decimal)
        ensures
            copy.unscaled@ == self.unscaled@,
            copy.scale == self.scale,
            copy@ == self@,
    {
        Decimal { unscaled: self.unscaled.clone(), scale: self.scale }
    }
}

/// `BigDecimal::from_str`, with the number it returns taken apart by
/// `BigDecimal::into_bigint_and_scale` and `BigInt::to_signed_bytes_be`.
/// The contract claims only that the outcome is the one named
/// [`decimal_parse`]: the same text always gives the same outcome.
#[verifier::external_body]
fn outside_parse(text: &str) -> (parsed: Option<Decimal>)
    ensures
        parsed matches Some(d) ==> decimal_parse(text@) == Some(d@),
        parsed is None ==> decimal_parse(text@) is None,
{
    match BigDecimal::from_str(text) {
        Ok(number) => {
            let (digits, scale) = number.into_bigint_and_scale();
            Some(Decimal { unscaled: digits.to_signed_bytes_be(), scale })
        }
        Err(_) => None,
    }
}

/// `BigDecimal`'s `Display`, on the number built by `BigDecimal::new` from
/// `BigInt::from_signed_bytes_be` and the scale. The contract claims only
/// that the text is the one named [`decimal_text`]. The notation depends on
/// thresholds that `bigdecimal` fixes when it is built.
#[verifier::external_body]
fn outside_text(number: &Decimal) -> (text: String)
    ensures
        text@ == decimal_text(number@),
{
    BigDecimal::new(BigInt::from_signed_bytes_be(&number.unscaled), number.scale).to_string()
}

/// `&BigDecimal + &BigDecimal`. The operands must be within the limits, so
/// that no exponent overflows inside `bigdecimal`. The contract claims only
/// that the result is the one named [`decimal_sum`].
#[verifier::external_body]
fn outside_sum(a: &Decimal, b: &Decimal) -> (sum: Decimal)
    requires
        within_limits(a@),
        within_limits(b@),
    ensures
        sum@ == decimal_sum(a@, b@),
{
    let x = BigDecimal::new(BigInt::from_signed_bytes_be(&a.unscaled), a.scale);
    let y = BigDecimal::new(BigInt::from_signed_bytes_be(&b.unscaled), b.scale);
    let (digits, scale) = (&x + &y).into_bigint_and_scale();
    Decimal { unscaled: digits.to_signed_bytes_be(), scale }
}

/// `&BigDecimal - &BigDecimal`. The operands must be within the limits, so
/// that no exponent overflows inside `bigdecimal`. The contract claims only
/// that the result is the one named [`decimal_difference`].
#[verifier::external_body]
fn outside_difference(a: &Decimal, b: &Decimal) -> (difference: Decimal)
    requires
        within_limits(a@),
        within_limits(b@),
    ensures
        difference@ == decimal_difference(a@, b@),
{
    let x = BigDecimal::new(BigInt::from_signed_bytes_be(&a.unscaled), a.scale);
    let y = BigDecimal::new(BigInt::from_signed_bytes_be(&b.unscaled), b.scale);
    let (digits, scale) = (&x - &y).into_bigint_and_scale();
    Decimal { unscaled: digits.to_signed_bytes_be(), scale }
}

/// `&BigDecimal * &BigDecimal`. The operands must be within the limits, so
/// that no exponent overflows inside `bigdecimal`. The contract claims only
/// that the result is the one named [`decimal_product`].
#[verifier::external_body]
fn outside_product(a: &Decimal, b: &Decimal) -> (product: Decimal)
    requires
        within_limits(a@),
        within_limits(b@),
    ensures
        product@ == decimal_product(a@, b@),
{
    let x = BigDecimal::new(BigInt::from_signed_bytes_be(&a.unscaled), a.scale);
    let y = BigDecimal::new(BigInt::from_signed_bytes_be(&b.unscaled), b.scale);
    let (digits, scale) = (&x * &y).into_bigint_and_scale();
    Decimal { unscaled: digits.to_signed_bytes_be(), scale }
}

/// `&BigDecimal / &BigDecimal`, which panics on a zero divisor: the divisor
/// must not be zero, and the operands must be within the limits, so that no
/// exponent overflows inside `bigdecimal`. The contract claims only that the
/// result is the one named [`decimal_quotient`]. Its precision is fixed when
/// `bigdecimal` is built.
#[verifier::external_body]
fn outside_quotient(a: &Decimal, b: &Decimal) -> (quotient: Decimal)
    requires
        within_limits(a@),
        within_limits(b@),
        !is_zero_number(b@),
    ensures
        quotient@ == decimal_quotient(a@, b@),
{
    let x = BigDecimal::new(BigInt::from_signed_bytes_be(&a.unscaled), a.scale);
    let y = BigDecimal::new(BigInt::from_signed_bytes_be(&b.unscaled), b.scale);
    let (digits, scale) = (&x / &y).into_bigint_and_scale();
    Decimal { unscaled: digits.to_signed_bytes_be(), scale }
}

/// A number written with `len` bytes is below `256^len`.
proof fn lemma_unsigned_value_bound(bytes: Seq<u8>)
    ensures
        unsigned_value(bytes) < pow(256, bytes.len()),
    decreases bytes.len(),
{
    reveal(pow);
    if bytes.len() > 0 {
        lemma_unsigned_value_bound(bytes.drop_last());
        lemma_pow_positive(256, (bytes.len() - 1) as nat);
    }
}

/// A number is zero exactly when all of its bytes are.
proof fn lemma_unsigned_value_zero(bytes: Seq<u8>)
    ensures
        unsigned_value(bytes) == 0 <==> forall|i: int| 0 <= i < bytes.len() ==> bytes[i] == 0,
    decreases bytes.len(),
{
    if bytes.len() > 0 {
        let front = bytes.drop_last();
        lemma_unsigned_value_zero(front);
        if unsigned_value(bytes) == 0 {
            assert forall|i: int| 0 <= i < bytes.len() implies bytes[i] == 0 by {
                if i < front.len() {
                    assert(front[i] == bytes[i]);
                }
            }
        } else if unsigned_value(front) != 0 {
            let i = choose|i: int| 0 <= i < front.len() && front[i] != 0;
            assert(bytes[i] == front[i]);
        }
    }
}

impl Decimal {
    /// Parses a number as `bigdecimal` reads it: `None` where it rejects the text.
    pub fn parse(text: &str) -> (parsed: Option<Decimal>)
        ensures
            parsed matches Some(d) ==> decimal_parse(text@) == Some(d@),
            parsed is None ==> decimal_parse(text@) is None,
    {
        outside_parse(text)
    }

    /// The text of the number, as `bigdecimal` prints it.
    pub fn to_string(&self) -> (text: String)
        ensures
            text@ == decimal_text(self@),
    {
        outside_text(self)
    }

    /// Whether the number is zero.
    pub fn is_zero(&self) -> (zero: bool)
        ensures
            zero == is_zero_number(self@),
    {
        let mut i: usize = 0;
        while i < self.unscaled.len()
            invariant
                i <= self.unscaled.len(),
                forall|j: int| 0 <= j < i ==> self.unscaled@[j] == 0,
            decreases self.unscaled.len() - i,
        {
            if self.unscaled[i] != 0 {
                proof {
                    lemma_unsigned_value_zero(self.unscaled@);
                    lemma_unsigned_value_bound(self.unscaled@);
                }
                return false;
            }
            i += 1;
        }
        proof {
            lemma_unsigned_value_zero(self.unscaled@);
        }
        true
    }

    /// Whether arithmetic is offered on this number.
    pub fn is_within_limits(&self) -> (within: bool)
        ensures
            within == within_limits(self@),
    {
        -SCALE_LIMIT <= self.scale && self.scale <= SCALE_LIMIT && self.unscaled.len()
            <= LENGTH_LIMIT
    }

    /// The sum `self + other`; `None` where an operand is beyond the limits.
    pub fn plus(&self, other: &Decimal) -> (sum: Option<Decimal>)
        ensures
            sum is Some <==> sum_of(self@, other@) is Some,
            sum matches Some(s) ==> sum_of(self@, other@) == Some(s@),
    {
        if self.is_within_limits() && other.is_within_limits() {
            Some(outside_sum(self, other))
        } else {
            None
        }
    }

    /// The difference `self - other`; `None` where an operand is beyond the limits.
    pub fn minus(&self, other: &Decimal) -> (difference: Option<Decimal>)
        ensures
            difference is Some <==> difference_of(self@, other@) is Some,
            difference matches Some(d) ==> difference_of(self@, other@) == Some(d@),
    {
        if self.is_within_limits() && other.is_within_limits() {
            Some(outside_difference(self, other))
        } else {
            None
        }
    }

    /// The product `self * other`; `None` where an operand is beyond the limits.
    pub fn times(&self, other: &Decimal) -> (product: Option<Decimal>)
        ensures
            product is Some <==> product_of(self@, other@) is Some,
            product matches Some(p) ==> product_of(self@, other@) == Some(p@),
    {
        if self.is_within_limits() && other.is_within_limits() {
            Some(outside_product(self, other))
        } else {
            None
        }
    }

    /// The quotient `self / other`; `None` where an operand is beyond the
    /// limits or the divisor is zero.
    pub fn divided_by(&self, other: &Decimal) -> (quotient: Option<Decimal>)
        ensures
            quotient is Some <==> quotient_of(self@, other@) is Some,
            quotient matches Some(q) ==> quotient_of(self@, other@) == Some(q@),
    {
        if self.is_within_limits() && other.is_within_limits() && !other.is_zero() {
            Some(outside_quotient(self, other))
        } else {
            None
        }
    }
}

} // verus!
