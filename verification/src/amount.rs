use vstd::prelude::*;
use num256::Uint256;
use num::Integer;
use std::ops::Mul;

verus! {

/// The value of a big-endian byte string.
pub open spec fn be_value(bytes: Seq<u8>) -> nat
    decreases bytes.len(),
{
    if bytes.len() == 0 {
        0
    } else {
        be_value(bytes.drop_last()) * 256 + bytes.last() as nat
    }
}

/// `256` to the power `n`.
pub open spec fn byte_power(n: nat) -> nat
    decreases n,
{
    if n == 0 {
        1
    } else {
        256 * byte_power((n - 1) as nat)
    }
}

/// One past the largest value an unsigned 256-bit integer holds: `2^256`.
pub open spec fn uint256_limit() -> nat {
    byte_power(32)
}

/// An unsigned 256-bit amount of tokens, held as its 32 big-endian bytes.
#[derive(Clone, Copy, Debug, PartialEq, Eq)]
pub struct Amount {
    be: [u8; 32],
}

impl View for Amount {
    type V = nat;

    closed spec fn view(&self) -> nat {
        be_value(self.be@)
    }
}

proof fn lemma_be_value_bound(bytes: Seq<u8>)
    ensures
        be_value(bytes) < byte_power(bytes.len()),
    decreases bytes.len(),
{
    if bytes.len() > 0 {
        lemma_be_value_bound(bytes.drop_last());
        let n = (bytes.len() - 1) as nat;
        assert(byte_power(bytes.len()) == 256 * byte_power(n));
        let v = be_value(bytes.drop_last());
        let b = bytes.last() as nat;
        assert(v * 256 + b < 256 * byte_power(n)) by (nonlinear_arith)
            requires
                v < byte_power(n),
                b < 256,
        ;
    }
}

/// Every amount is below `2^256`.
pub broadcast proof fn lemma_amount_below_limit(a: Amount)
    ensures
        #[trigger] a@ < uint256_limit(),
{
    lemma_be_value_bound(a.be@);
}

/// `2^256` written out.
pub proof fn lemma_uint256_limit_value()
    ensures
        uint256_limit()
            == 115792089237316195423570985008687907853269984665640564039457584007913129639936nat,
{
    reveal_with_fuel(byte_power, 33);
}

/// `Uint256::from(u64)` of num256, written out with `Into<[u8; 32]>`: claimed to
/// give the 32 big-endian bytes of `x`.
#[verifier::external_body]
fn uint256_from_u64(x: u64) -> (r: Amount)
    ensures
        r@ == x as nat,
{
    Amount { be: Uint256::from(x).into() }
}

/// `Uint256 + Uint256` of num256 on values read with `From<[u8; 32]>`: claimed to
/// give the bytes of the sum; it panics when the sum reaches `2^256`, which the
/// precondition rules out.
#[verifier::external_body]
fn uint256_add(a: Amount, b: Amount) -> (r: Amount)
    requires
        a@ + b@ < uint256_limit(),
    ensures
        r@ == a@ + b@,
{
    Amount { be: (Uint256::from(a.be) + Uint256::from(b.be)).into() }
}

/// `Uint256 - Uint256` of num256: claimed to give the bytes of the difference; the
/// underlying `BigUint` subtraction panics below zero, which the precondition
/// rules out.
#[verifier::external_body]
fn uint256_sub(a: Amount, b: Amount) -> (r: Amount)
    requires
        b@ <= a@,
    ensures
        r@ == a@ - b@,
{
    Amount { be: (Uint256::from(a.be) - Uint256::from(b.be)).into() }
}

/// `Uint256 == Uint256` of num256 (the derived equality of the `BigUint` inside):
/// claimed to tell whether the two values are equal.
#[verifier::external_body]
fn uint256_eq(a: Amount, b: Amount) -> (r: bool)
    ensures
        r == (a@ == b@),
{
    Uint256::from(a.be) == Uint256::from(b.be)
}

/// `Uint256 < Uint256` of num256 (the derived order of the `BigUint` inside, which
/// is the order of the values): claimed to tell whether `a` is below `b`.
#[verifier::external_body]
fn uint256_lt(a: Amount, b: Amount) -> (r: bool)
    ensures
        r == (a@ < b@),
{
    Uint256::from(a.be) < Uint256::from(b.be)
}

/// `Integer::div_floor` of num on the `BigUint` inside two `Uint256` values:
/// claimed to give the quotient rounded down; it panics on a zero divisor, which
/// the precondition rules out.
#[verifier::external_body]
fn biguint_div_floor(a: Amount, d: Amount) -> (r: Amount)
    requires
        d@ != 0,
    ensures
        r@ == a@ / d@,
{
    Amount { be: Uint256(Uint256::from(a.be).0.div_floor(&Uint256::from(d.be).0)).into() }
}

/// `BigUint * BigUint` of num on the values inside two `Uint256` values: claimed
/// to give the product; writing it back into 32 bytes panics from `2^256` on,
/// which the precondition rules out.
#[verifier::external_body]
fn biguint_mul(a: Amount, b: Amount) -> (r: Amount)
    requires
        a@ * b@ < uint256_limit(),
    ensures
        r@ == a@ * b@,
{
    Amount { be: Uint256(Uint256::from(a.be).0.mul(Uint256::from(b.be).0)).into() }
}

impl Amount {
    /// The amount `x`.
    pub fn from_u64(x: u64) -> (r: Amount)
        ensures
            r@ == x as nat,
    {
        uint256_from_u64(x)
    }

    /// The amount whose big-endian bytes are `be`.
    pub fn from_be_bytes(be: [u8; 32]) -> (r: Amount)
        ensures
            r@ == be_value(be@),
    {
        Amount { be }
    }

    /// The 32 big-endian bytes of this amount.
    pub fn to_be_bytes(&self) -> (r: [u8; 32])
        ensures
            be_value(r@) == self@,
    {
        self.be
    }

    /// `self + other`; the sum must stay below `2^256`.
    pub fn plus(self, other: Amount) -> (r: Amount)
        requires
            self@ + other@ < uint256_limit(),
        ensures
            r@ == self@ + other@,
    {
        uint256_add(self, other)
    }

    /// `self - other`; `other` must not exceed `self`.
    pub fn minus(self, other: Amount) -> (r: Amount)
        requires
            other@ <= self@,
        ensures
            r@ == self@ - other@,
    {
        uint256_sub(self, other)
    }

    /// `self * other`; the product must stay below `2^256`.
    pub fn times(self, other: Amount) -> (r: Amount)
        requires
            self@ * other@ < uint256_limit(),
        ensures
            r@ == self@ * other@,
    {
        biguint_mul(self, other)
    }

    /// `self / divisor`, rounded down; `divisor` must not be zero.
    pub fn div_floor(self, divisor: Amount) -> (r: Amount)
        requires
            divisor@ != 0,
        ensures
            r@ == self@ / divisor@,
    {
        biguint_div_floor(self, divisor)
    }

    /// Whether the two amounts are equal.
    pub fn same_as(self, other: Amount) -> (r: bool)
        ensures
            r == (self@ == other@),
    {
        uint256_eq(self, other)
    }

    /// Whether this amount is below `other`.
    pub fn less_than(self, other: Amount) -> (r: bool)
        ensures
            r == (self@ < other@),
    {
        uint256_lt(self, other)
    }

    /// Whether this amount is zero.
    pub fn is_zero(self) -> (r: bool)
        ensures
            r == (self@ == 0),
    {
        uint256_eq(self, uint256_from_u64(0))
    }
}

} // verus!
