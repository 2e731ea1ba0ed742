//! Arbitrary-precision signed integers.
//!
//! The language's numbers are unbounded. Their storage and arithmetic come
//! from `num_bigint::BigInt`; every operation's result is pinned down here as
//! a mathematical integer, and the wrapping stack-index conversion used by
//! `pick` is proved correct on top of those operations.

use vstd::prelude::*;
use vstd::arithmetic::div_mod::{
    lemma_fundamental_div_mod_converse,
    lemma_mod_bound,
};

verus! {

#[verifier::external_type_specification]
#[verifier::external_body]
pub struct ExBigInt(num_bigint::BigInt);

/// The mathematical integer held by a `num_bigint::BigInt`.
pub uninterp spec fn big_int_value(b: num_bigint::BigInt) -> int;

/// Quotient of truncated division (rounding toward zero), the rounding used
/// by `num_bigint` and by this language's `/` combinator.
pub open spec fn trunc_div(a: int, b: int) -> int {
    let q = abs(a) / abs(b);
    if (a < 0) != (b < 0) {
        -q
    } else {
        q
    }
}

/// Remainder of truncated division: same sign as the dividend.
pub open spec fn trunc_rem(a: int, b: int) -> int {
    a - b * trunc_div(a, b)
}

pub open spec fn abs(a: int) -> int {
    if a < 0 {
        -a
    } else {
        a
    }
}

pub open spec fn is_decimal_digit(c: char) -> bool {
    '0' <= c && c <= '9'
}

pub open spec fn decimal_digit_value(c: char) -> int {
    c as int - '0' as int
}

/// A run of decimal digits as accepted by `num_bigint`'s base-ten parser:
/// it must open with a digit, and underscores may be interspersed afterwards
/// as visual separators.
pub open spec fn is_digit_run(s: Seq<char>) -> bool {
    &&& s.len() > 0
    &&& is_decimal_digit(s[0])
    &&& forall|i: int| 0 <= i < s.len() ==> is_decimal_digit(s[i]) || s[i] == '_'
}

/// The value of a digit run, ignoring underscore separators.
pub open spec fn digit_run_value(s: Seq<char>) -> int
    decreases s.len(),
{
    if s.len() == 0 {
        0
    } else if s.last() == '_' {
        digit_run_value(s.drop_last())
    } else {
        digit_run_value(s.drop_last()) * 10 + decimal_digit_value(s.last())
    }
}

/// Text accepted as an integer: an optional sign followed by a digit run.
pub open spec fn is_integer_literal(s: Seq<char>) -> bool {
    if s.len() > 0 && (s[0] == '+' || s[0] == '-') {
        is_digit_run(s.subrange(1, s.len() as int))
    } else {
        is_digit_run(s)
    }
}

/// The value denoted by an integer literal.
pub open spec fn integer_literal_value(s: Seq<char>) -> int {
    if s.len() > 0 && s[0] == '-' {
        -digit_run_value(s.subrange(1, s.len() as int))
    } else if s.len() > 0 && s[0] == '+' {
        digit_run_value(s.subrange(1, s.len() as int))
    } else {
        digit_run_value(s)
    }
}

pub open spec fn decimal_digit_char(d: int) -> char {
    ((48 + d) as u8) as char
}

/// The canonical decimal text of a non-negative integer: no leading zeros,
/// a single `'0'` for zero.
pub open spec fn decimal_of_nat(n: int) -> Seq<char>
    decreases n,
{
    if n < 10 {
        seq![decimal_digit_char(if n < 0 { 0 } else { n })]
    } else {
        decimal_of_nat(n / 10) + seq![decimal_digit_char(n % 10)]
    }
}

/// The canonical decimal text of an integer, with a leading `'-'` when
/// negative.
pub open spec fn decimal_of(i: int) -> Seq<char> {
    if i < 0 {
        seq!['-'] + decimal_of_nat(-i)
    } else {
        decimal_of_nat(i)
    }
}

/// Relies on `num_bigint::BigInt`'s `Add` implementation: exact integer
/// addition.
#[verifier::external_body]
fn big_add(a: &num_bigint::BigInt, b: &num_bigint::BigInt) -> (r: num_bigint::BigInt)
    ensures
        big_int_value(r) == big_int_value(*a) + big_int_value(*b),
{
    a + b
}

/// Relies on `num_bigint::BigInt`'s `Sub` implementation: exact integer
/// subtraction.
#[verifier::external_body]
fn big_sub(a: &num_bigint::BigInt, b: &num_bigint::BigInt) -> (r: num_bigint::BigInt)
    ensures
        big_int_value(r) == big_int_value(*a) - big_int_value(*b),
{
    a - b
}

/// Relies on `num_bigint::BigInt`'s `Mul` implementation: exact integer
/// multiplication.
#[verifier::external_body]
fn big_mul(a: &num_bigint::BigInt, b: &num_bigint::BigInt) -> (r: num_bigint::BigInt)
    ensures
        big_int_value(r) == big_int_value(*a) * big_int_value(*b),
{
    a * b
}

/// Relies on `num_bigint::BigInt`'s `Div` implementation: truncated division
/// (it panics on a zero divisor, which the precondition rules out).
#[verifier::external_body]
fn big_div(a: &num_bigint::BigInt, b: &num_bigint::BigInt) -> (r: num_bigint::BigInt)
    requires
        big_int_value(*b) != 0,
    ensures
        big_int_value(r) == trunc_div(big_int_value(*a), big_int_value(*b)),
{
    a / b
}

/// Relies on `num_bigint::BigInt`'s `Rem` implementation: remainder of
/// truncated division, taking the dividend's sign (it panics on a zero
/// divisor, which the precondition rules out).
#[verifier::external_body]
fn big_rem(a: &num_bigint::BigInt, b: &num_bigint::BigInt) -> (r: num_bigint::BigInt)
    requires
        big_int_value(*b) != 0,
    ensures
        big_int_value(r) == trunc_rem(big_int_value(*a), big_int_value(*b)),
{
    a % b
}

/// Relies on `num_bigint::BigInt`'s `PartialEq` implementation: equality of
/// the represented integers.
#[verifier::external_body]
fn big_eq(a: &num_bigint::BigInt, b: &num_bigint::BigInt) -> (r: bool)
    ensures
        r == (big_int_value(*a) == big_int_value(*b)),
{
    a == b
}

/// Relies on `num_bigint::BigInt`'s `PartialOrd` implementation: the order of
/// the represented integers.
#[verifier::external_body]
fn big_lt(a: &num_bigint::BigInt, b: &num_bigint::BigInt) -> (r: bool)
    ensures
        r == (big_int_value(*a) < big_int_value(*b)),
{
    a < b
}

/// Relies on `num_bigint::BigInt`'s `Clone` implementation: the copy
/// represents the same integer.
#[verifier::external_body]
fn big_clone(a: &num_bigint::BigInt) -> (r: num_bigint::BigInt)
    ensures
        big_int_value(r) == big_int_value(*a),
{
    a.clone()
}

/// Relies on `num_bigint::BigInt::from::<u64>`: the result represents the
/// given machine integer.
#[verifier::external_body]
fn big_from_u64(n: u64) -> (r: num_bigint::BigInt)
    ensures
        big_int_value(r) == n,
{
    num_bigint::BigInt::from(n)
}

/// Relies on `<num_bigint::BigInt as core::str::FromStr>::from_str` (base
/// ten): it succeeds exactly on an optional sign followed by a digit run, and
/// returns the denoted integer.
#[verifier::external_body]
fn big_from_str(s: &str) -> (r: Option<num_bigint::BigInt>)
    ensures
        r is Some <==> is_integer_literal(s@),
        r matches Some(b) ==> big_int_value(b) == integer_literal_value(s@),
{
    core::str::FromStr::from_str(s).ok()
}

/// Relies on `num_bigint::BigInt`'s `Display` implementation: canonical
/// decimal text, `'-'`-prefixed when negative.
#[verifier::external_body]
fn big_to_string(a: &num_bigint::BigInt) -> (r: String)
    ensures
        r@ == decimal_of(big_int_value(*a)),
{
    a.to_string()
}

/// Relies on `num_traits::ToPrimitive::to_usize` for `num_bigint::BigInt`:
/// the conversion succeeds exactly when the integer fits in `usize`.
#[verifier::external_body]
fn big_to_usize(a: &num_bigint::BigInt) -> (r: Option<usize>)
    ensures
        r is Some <==> 0 <= big_int_value(*a) <= usize::MAX,
        r matches Some(u) ==> u == big_int_value(*a),
{
    num_traits::ToPrimitive::to_usize(a)
}

/// An arbitrary-precision signed integer value of the language.
pub struct Integer(num_bigint::BigInt);

impl Integer {
    /// The mathematical value of this `Integer`.
    pub closed spec fn value(self) -> int {
        big_int_value(self.0)
    }

    /// Parses an `Integer` from decimal text: an optional sign followed by
    /// digits (with optional underscore separators after the first digit).
    pub fn from_string(string: &str) -> (r: Option<Integer>)
        ensures
            r is Some <==> is_integer_literal(string@),
            r matches Some(i) ==> i.value() == integer_literal_value(string@),
    {
        match big_from_str(string) {
            Some(b) => Some(Integer(b)),
            None => None,
        }
    }

    /// Creates an `Integer` from a `usize`.
    pub fn from_usize(n: usize) -> (r: Integer)
        ensures
            r.value() == n,
    {
        Integer(big_from_u64(n as u64))
    }

    /// Renders this `Integer` as canonical decimal text.
    pub fn to_string(&self) -> (r: String)
        ensures
            r@ == decimal_of(self.value()),
    {
        big_to_string(&self.0)
    }

    /// Copies this `Integer`; the copy has the same value.
    pub fn duplicate(&self) -> (r: Integer)
        ensures
            r.value() == self.value(),
    {
        Integer(big_clone(&self.0))
    }

    pub fn add(&self, other: &Integer) -> (r: Integer)
        ensures
            r.value() == self.value() + other.value(),
    {
        Integer(big_add(&self.0, &other.0))
    }

    pub fn sub(&self, other: &Integer) -> (r: Integer)
        ensures
            r.value() == self.value() - other.value(),
    {
        Integer(big_sub(&self.0, &other.0))
    }

    pub fn mul(&self, other: &Integer) -> (r: Integer)
        ensures
            r.value() == self.value() * other.value(),
    {
        Integer(big_mul(&self.0, &other.0))
    }

    /// Truncated division, as in the underlying big-integer library.
    pub fn div(&self, other: &Integer) -> (r: Integer)
        requires
            other.value() != 0,
        ensures
            r.value() == trunc_div(self.value(), other.value()),
    {
        Integer(big_div(&self.0, &other.0))
    }

    /// Remainder of truncated division; follows the dividend's sign.
    pub fn rem(&self, other: &Integer) -> (r: Integer)
        requires
            other.value() != 0,
        ensures
            r.value() == trunc_rem(self.value(), other.value()),
    {
        Integer(big_rem(&self.0, &other.0))
    }

    pub fn equals(&self, other: &Integer) -> (r: bool)
        ensures
            r == (self.value() == other.value()),
    {
        big_eq(&self.0, &other.0)
    }

    pub fn less_than(&self, other: &Integer) -> (r: bool)
        ensures
            r == (self.value() < other.value()),
    {
        big_lt(&self.0, &other.0)
    }

    pub fn greater_than(&self, other: &Integer) -> (r: bool)
        ensures
            r == (self.value() > other.value()),
    {
        big_lt(&other.0, &self.0)
    }

    /// Whether this `Integer` is zero.
    pub fn is_zero(&self) -> (r: bool)
        ensures
            r == (self.value() == 0),
    {
        let zero = Integer::from_usize(0);
        self.equals(&zero)
    }

    /// Converts this `Integer` into an index into a stack of `stack_size`
    /// items by wrapping it into `[0, stack_size)`; an empty stack has no
    /// valid index, signalled by the sentinel `usize::MAX`.
    pub fn as_wrapping_index(&self, stack_size: usize) -> (r: usize)
        ensures
            stack_size == 0 ==> r == usize::MAX,
            stack_size > 0 ==> 0 <= r < stack_size,
            stack_size > 0 ==> r == (self.value() % (stack_size as int) + stack_size) % (
            stack_size as int),
    {
        if stack_size == 0 {
            return usize::MAX;
        }
        let size = Integer(big_from_u64(stack_size as u64));
        let first = self.rem(&size);
        let shifted = first.add(&size);
        let wrapped = shifted.rem(&size);
        proof {
            lemma_wrapping_index(self.value(), stack_size as int);
        }
        match big_to_usize(&wrapped.0) {
            Some(index) => index,
            None => usize::MAX,
        }
    }
}

/// The wrap-around form of the Euclidean remainder is the remainder itself:
/// for `n > 0`, `((a % n) + n) % n == a % n`.
pub proof fn lemma_wrap_equals_mod(a: int, n: int)
    requires
        n > 0,
    ensures
        (a % n + n) % n == a % n,
{
    lemma_mod_bound(a, n);
    lemma_mod_shift_cancels(a % n, n);
}

/// Truncated remainder agrees with the Euclidean remainder after one
/// wrap-around shift: for `n > 0`,
/// `trunc_rem(trunc_rem(a, n) + n, n) == ((a % n) + n) % n`, and the result
/// lies in `[0, n)`.
proof fn lemma_wrapping_index(a: int, n: int)
    requires
        n > 0,
    ensures
        0 <= trunc_rem(trunc_rem(a, n) + n, n) < n,
        trunc_rem(trunc_rem(a, n) + n, n) == (a % n + n) % n,
{
    lemma_trunc_rem_is_mod_shift(a, n);
    let t = trunc_rem(a, n);
    lemma_mod_bound(a, n);
    assert(0 <= t + n);
    lemma_trunc_rem_nonneg(t + n, n);
    if t != a % n {
        assert(t + n == a % n);
        lemma_mod_small(a % n, n);
    }
    lemma_mod_shift_cancels(a % n, n);
}

/// For a non-negative dividend, truncated remainder is the Euclidean
/// remainder.
proof fn lemma_trunc_rem_nonneg(a: int, n: int)
    requires
        n > 0,
        a >= 0,
    ensures
        trunc_rem(a, n) == a % n,
{
    vstd::arithmetic::div_mod::lemma_fundamental_div_mod(a, n);
    assert(trunc_div(a, n) == a / n);
    assert(trunc_rem(a, n) == a - n * (a / n));
}

/// A value already in `[0, n)` is its own Euclidean remainder.
proof fn lemma_mod_small(x: int, n: int)
    requires
        n > 0,
        0 <= x < n,
    ensures
        x % n == x,
{
    lemma_fundamental_div_mod_converse(x, n, 0, x);
}

/// Shifting by the modulus does not change the Euclidean remainder.
proof fn lemma_mod_shift_cancels(x: int, n: int)
    requires
        n > 0,
        0 <= x < n,
    ensures
        (x + n) % n == x,
{
    lemma_fundamental_div_mod_converse(x + n, n, 1, x);
}

/// The truncated remainder is the Euclidean remainder, possibly shifted down
/// by one modulus when the dividend is negative.
proof fn lemma_trunc_rem_is_mod_shift(a: int, n: int)
    requires
        n > 0,
    ensures
        trunc_rem(a, n) == a % n || trunc_rem(a, n) == a % n - n,
{
    if a >= 0 {
        lemma_trunc_rem_nonneg(a, n);
    } else {
        let m = -a;
        vstd::arithmetic::div_mod::lemma_fundamental_div_mod(m, n);
        lemma_mod_bound(m, n);
        assert(trunc_div(a, n) == -(m / n));
        assert(trunc_rem(a, n) == a - n * -(m / n));
        assert(trunc_rem(a, n) == -(m - n * (m / n))) by {
            assert(n * -(m / n) == -(n * (m / n))) by (nonlinear_arith);
        }
        assert(trunc_rem(a, n) == -(m % n));
        if m % n == 0 {
            lemma_fundamental_div_mod_converse(a, n, -(m / n), 0);
            assert(a % n == 0);
        } else {
            assert(a == n * (-(m / n) - 1) + (n - m % n)) by {
                assert(n * (-(m / n) - 1) == -(n * (m / n)) - n) by (nonlinear_arith);
            }
            lemma_fundamental_div_mod_converse(a, n, -(m / n) - 1, n - m % n);
            assert(a % n == n - m % n);
        }
    }
}

} // verus!
