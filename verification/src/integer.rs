//! Integers of any size, which the template engine uses for integer content
//! and integer arguments. Their arithmetic and their decimal form are those
//! of `num_bigint::BigInt`.
use vstd::prelude::*;
use num_bigint::{BigInt, Sign};
use num_traits::{ToPrimitive, Zero};

verus! {

/// The base of the digits: one more than the largest `u32`.
pub open spec fn digit_base() -> nat {
    0x1_0000_0000
}

/// The natural number written by base-2^32 digits, least significant first.
pub open spec fn digits_value(d: Seq<u32>) -> nat
    decreases d.len(),
{
    if d.len() == 0 {
        0
    } else {
        d[0] as nat + digit_base() * digits_value(d.drop_first())
    }
}

/// The integer with the given sign and magnitude.
pub open spec fn signed_value(negative: bool, magnitude: Seq<u32>) -> int {
    if negative {
        -(digits_value(magnitude) as int)
    } else {
        digits_value(magnitude) as int
    }
}

/// The one way of writing a number: no zero as the most significant digit,
/// and zero (no digits) is not negative.
pub open spec fn canonical_parts(negative: bool, magnitude: Seq<u32>) -> bool {
    &&& magnitude.len() == 0 || magnitude.last() != 0
    &&& negative ==> magnitude.len() > 0
}

/// The decimal digit for `d < 10`.
pub open spec fn digit_char(d: nat) -> char {
    (48 + d) as char
}

/// The decimal digits of `n`, most significant first, without leading zeros.
pub open spec fn decimal_digits(n: nat) -> Seq<char>
    decreases n,
{
    if n < 10 {
        seq![digit_char(n)]
    } else {
        decimal_digits(n / 10).push(digit_char(n % 10))
    }
}

/// The decimal form of `v`, with a leading `-` when it is negative.
pub open spec fn decimal(v: int) -> Seq<char> {
    if v < 0 {
        seq!['-'] + decimal_digits((-v) as nat)
    } else {
        decimal_digits(v as nat)
    }
}

/// The remainder of `a` divided by `b` with the quotient rounded toward
/// zero: its sign is that of `a`.
pub open spec fn truncated_rem(a: int, b: int) -> int {
    let m = if b < 0 {
        -b
    } else {
        b
    };
    if a >= 0 {
        a % m
    } else {
        -((-a) % m)
    }
}

/// An integer of any size: its sign and the base-2^32 digits of its
/// magnitude, least significant first. Every value is kept in its one
/// canonical form, so two values are equal exactly when their integers are.
#[derive(Debug, PartialEq, Eq)]
pub struct Integer {
    negative: bool,
    magnitude: Vec<u32>,
}

impl View for Integer {
    type V = (bool, Seq<u32>);

    closed spec fn view(&self) -> (bool, Seq<u32>) {
        (self.negative, self.magnitude@)
    }
}

/// A zero as the most significant digit adds nothing.
proof fn lemma_drop_leading_zero(d: Seq<u32>)
    requires
        d.len() > 0,
        d.last() == 0,
    ensures
        digits_value(d.drop_last()) == digits_value(d),
    decreases d.len(),
{
    if d.len() > 1 {
        lemma_drop_leading_zero(d.drop_first());
        assert(d.drop_last().drop_first() =~= d.drop_first().drop_last());
    } else {
        assert(digits_value(d.drop_first()) == 0);
        assert(digits_value(d.drop_last()) == 0);
    }
}

/// Digits whose most significant one is not zero write a positive number.
proof fn lemma_leading_digit_positive(d: Seq<u32>)
    requires
        d.len() > 0,
        d.last() != 0,
    ensures
        digits_value(d) > 0,
    decreases d.len(),
{
    if d.len() > 1 {
        lemma_leading_digit_positive(d.drop_first());
    }
}

/// Digits without a zero as the most significant one are determined by the
/// number they write.
proof fn lemma_digits_unique(a: Seq<u32>, b: Seq<u32>)
    requires
        a.len() == 0 || a.last() != 0,
        b.len() == 0 || b.last() != 0,
        digits_value(a) == digits_value(b),
    ensures
        a == b,
    decreases a.len(),
{
    if a.len() > 0 {
        lemma_leading_digit_positive(a);
    }
    if b.len() > 0 {
        lemma_leading_digit_positive(b);
    }
    if a.len() > 0 && b.len() > 0 {
        let v = digits_value(a) as int;
        let base = digit_base() as int;
        vstd::arithmetic::div_mod::lemma_fundamental_div_mod_converse(
            v,
            base,
            digits_value(a.drop_first()) as int,
            a[0] as int,
        );
        vstd::arithmetic::div_mod::lemma_fundamental_div_mod_converse(
            v,
            base,
            digits_value(b.drop_first()) as int,
            b[0] as int,
        );
        lemma_digits_unique(a.drop_first(), b.drop_first());
        assert(a =~= seq![a[0]] + a.drop_first());
        assert(b =~= seq![b[0]] + b.drop_first());
    }
}

impl Integer {
    /// The integer that this value stands for.
    pub open spec fn value(&self) -> int {
        signed_value(self@.0, self@.1)
    }

    /// The value is written in its canonical form.
    pub open spec fn canonical(&self) -> bool {
        canonical_parts(self@.0, self@.1)
    }

    /// The integer with the given sign and magnitude (base-2^32 digits,
    /// least significant first), put in canonical form.
    pub fn from_parts(negative: bool, magnitude: Vec<u32>) -> (r: Integer)
        ensures
            r.value() == signed_value(negative, magnitude@),
            r.canonical(),
    {
        let mut magnitude = magnitude;
        let ghost full = magnitude@;
        while magnitude.len() > 0 && magnitude[magnitude.len() - 1] == 0
            invariant
                digits_value(magnitude@) == digits_value(full),
            decreases magnitude.len(),
        {
            proof {
                lemma_drop_leading_zero(magnitude@);
            }
            magnitude.pop();
        }
        let negative = negative && magnitude.len() > 0;
        Integer { negative, magnitude }
    }

    /// Whether the value is below zero.
    pub fn is_negative(&self) -> (r: bool)
        ensures
            r == self@.0,
    {
        self.negative
    }

    /// The digits of the magnitude, least significant first.
    pub fn magnitude(&self) -> (r: &Vec<u32>)
        ensures
            r@ == self@.1,
    {
        &self.magnitude
    }

    /// The integer `n`.
    pub fn from_i64(n: i64) -> (r: Integer)
        ensures
            r.value() == n,
            r.canonical(),
    {
        let (negative, magnitude) = bigint_from_i64(n);
        Integer::from_parts(negative, magnitude)
    }

    /// The integer `n`.
    pub fn from_usize(n: usize) -> (r: Integer)
        ensures
            r.value() == n,
            r.canonical(),
    {
        let (negative, magnitude) = bigint_from_usize(n);
        Integer::from_parts(negative, magnitude)
    }

    /// The sum of two integers.
    pub fn plus(&self, other: &Integer) -> (r: Integer)
        ensures
            r.value() == self.value() + other.value(),
            r.canonical(),
    {
        let (negative, magnitude) = bigint_add(self, other);
        Integer::from_parts(negative, magnitude)
    }

    /// The remainder of truncated division, as Rust's `%` gives it.
    pub fn rem(&self, divisor: &Integer) -> (r: Integer)
        requires
            divisor.value() != 0,
        ensures
            r.value() == truncated_rem(self.value(), divisor.value()),
            r.canonical(),
    {
        let (negative, magnitude) = bigint_rem(self, divisor);
        Integer::from_parts(negative, magnitude)
    }

    /// Whether the value is zero.
    pub fn is_zero(&self) -> (r: bool)
        ensures
            r == (self.value() == 0),
    {
        bigint_is_zero(self)
    }

    /// The value in decimal, with a leading `-` when it is negative.
    pub fn to_decimal(&self) -> (r: String)
        ensures
            r@ == decimal(self.value()),
    {
        bigint_to_string(self)
    }

    /// The value as an `isize`, when one can hold it.
    pub fn to_isize(&self) -> (r: Option<isize>)
        ensures
            match r {
                Some(v) => v == self.value(),
                None => self.value() < isize::MIN || self.value() > isize::MAX,
            },
    {
        bigint_to_isize(self)
    }
}

/// Two integers in canonical form are written alike exactly when they are
/// the same number, so comparing their signs and digits compares the
/// numbers.
pub proof fn law_canonical_is_unique(a: Integer, b: Integer)
    requires
        a.canonical(),
        b.canonical(),
    ensures
        (a@ == b@) == (a.value() == b.value()),
{
    if a.value() == b.value() {
        if a@.1.len() > 0 {
            lemma_leading_digit_positive(a@.1);
        }
        if b@.1.len() > 0 {
            lemma_leading_digit_positive(b@.1);
        }
        lemma_digits_unique(a@.1, b@.1);
    }
}

impl Clone for Integer {
    fn clone(&self) -> (r: Self)
        ensures
            r@ == self@,
    {
        let mut magnitude: Vec<u32> = Vec::new();
        let mut i: usize = 0;
        while i < self.magnitude.len()
            invariant
                i <= self.magnitude.len(),
                magnitude@ == self.magnitude@.subrange(0, i as int),
            decreases self.magnitude.len() - i,
        {
            magnitude.push(self.magnitude[i]);
            i = i + 1;
        }
        assert(magnitude@ =~= self.magnitude@);
        Integer { negative: self.negative, magnitude }
    }
}

/// `BigInt::from(i64)`, taken apart by `BigInt::to_u32_digits`: the sign
/// (whether it is `Sign::Minus`) and the digits of the magnitude of `n`.
#[verifier::external_body]
fn bigint_from_i64(n: i64) -> (r: (bool, Vec<u32>))
    ensures
        signed_value(r.0, r.1@) == n,
{
    let (sign, digits) = BigInt::from(n).to_u32_digits();
    let negative = match sign {
        Sign::Minus => true,
        Sign::NoSign => false,
        Sign::Plus => false,
    };
    (negative, digits)
}

/// `BigInt::from(usize)`, taken apart by `BigInt::to_u32_digits`.
#[verifier::external_body]
fn bigint_from_usize(n: usize) -> (r: (bool, Vec<u32>))
    ensures
        signed_value(r.0, r.1@) == n,
{
    let (sign, digits) = BigInt::from(n).to_u32_digits();
    let negative = match sign {
        Sign::Minus => true,
        Sign::NoSign => false,
        Sign::Plus => false,
    };
    (negative, digits)
}

/// `&BigInt + &BigInt` on the two values built by `BigInt::from_slice`,
/// taken apart by `BigInt::to_u32_digits`: the sum of the two integers.
#[verifier::external_body]
fn bigint_add(a: &Integer, b: &Integer) -> (r: (bool, Vec<u32>))
    ensures
        signed_value(r.0, r.1@) == a.value() + b.value(),
{
    let a = BigInt::from_slice(if a.negative { Sign::Minus } else { Sign::Plus }, &a.magnitude);
    let b = BigInt::from_slice(if b.negative { Sign::Minus } else { Sign::Plus }, &b.magnitude);
    let (sign, digits) = (a + b).to_u32_digits();
    let negative = match sign {
        Sign::Minus => true,
        Sign::NoSign => false,
        Sign::Plus => false,
    };
    (negative, digits)
}

/// `&BigInt % &BigInt`: the remainder of truncated division, which the
/// crate computes as the second part of `div_rem`. It panics when `b` is
/// zero, so `requires` leaves that out.
#[verifier::external_body]
fn bigint_rem(a: &Integer, b: &Integer) -> (r: (bool, Vec<u32>))
    requires
        b.value() != 0,
    ensures
        signed_value(r.0, r.1@) == truncated_rem(a.value(), b.value()),
{
    let a = BigInt::from_slice(if a.negative { Sign::Minus } else { Sign::Plus }, &a.magnitude);
    let b = BigInt::from_slice(if b.negative { Sign::Minus } else { Sign::Plus }, &b.magnitude);
    let (sign, digits) = (a % b).to_u32_digits();
    let negative = match sign {
        Sign::Minus => true,
        Sign::NoSign => false,
        Sign::Plus => false,
    };
    (negative, digits)
}

/// `num_traits::Zero::is_zero` on the `BigInt` built by `BigInt::from_slice`.
#[verifier::external_body]
fn bigint_is_zero(a: &Integer) -> (r: bool)
    ensures
        r == (a.value() == 0),
{
    BigInt::from_slice(if a.negative { Sign::Minus } else { Sign::Plus }, &a.magnitude).is_zero()
}

/// `ToString::to_string` on the `BigInt` built by `BigInt::from_slice`,
/// which formats it in decimal through its `Display` impl: a `-` for
/// negative values, then the digits.
#[verifier::external_body]
fn bigint_to_string(a: &Integer) -> (r: String)
    ensures
        r@ == decimal(a.value()),
{
    BigInt::from_slice(if a.negative { Sign::Minus } else { Sign::Plus }, &a.magnitude).to_string()
}

/// `num_traits::ToPrimitive::to_isize` on the `BigInt` built by
/// `BigInt::from_slice`: the value when an `isize` can hold it, `None`
/// otherwise.
#[verifier::external_body]
fn bigint_to_isize(a: &Integer) -> (r: Option<isize>)
    ensures
        match r {
            Some(v) => v == a.value(),
            None => a.value() < isize::MIN || a.value() > isize::MAX,
        },
{
    BigInt::from_slice(if a.negative { Sign::Minus } else { Sign::Plus }, &a.magnitude).to_isize()
}

} // verus!
