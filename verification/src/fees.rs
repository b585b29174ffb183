use vstd::prelude::*;
use crate::amount::{Amount, uint256_limit, lemma_uint256_limit_value};
use vstd::arithmetic::div_mod::{lemma_div_is_ordered, lemma_div_multiples_vanish_fancy};

verus! {

/// Fees are stated in basis points of the amount bridged: ten thousandths.
pub const BASIS_POINT_DIVISOR: u64 = 10000;

/// One ether in wei, the amount bridged of each ERC20 token.
pub open spec fn one_eth_spec() -> nat {
    1_000_000_000_000_000_000
}

/// One atom in its smallest unit, the amount bridged of the IBC token.
pub open spec fn one_atom_spec() -> nat {
    1_000_000
}

/// The minimum chain fee for bridging `bridge_amount` at `basis_points`:
/// the amount is first divided down by the divisor, then scaled.
pub open spec fn min_fee_spec(bridge_amount: nat, basis_points: nat) -> nat {
    (bridge_amount / 10000) * basis_points
}

/// The fees that a send at minimum fee `min_fee` is expected to be accepted with.
pub open spec fn success_fees_spec(min_fee: nat) -> Seq<nat> {
    if min_fee == 0 {
        seq![0, 1]
    } else {
        seq![min_fee, min_fee + 10]
    }
}

/// The fees that a send at minimum fee `min_fee` is expected to be refused with.
pub open spec fn fail_fees_spec(min_fee: nat) -> Seq<nat> {
    if min_fee == 0 {
        seq![]
    } else {
        seq![(min_fee - 1) as nat]
    }
}

/// The values of a sequence of amounts.
pub open spec fn amounts_view(v: Seq<Amount>) -> Seq<nat> {
    v.map_values(|a: Amount| a@)
}

/// The largest minimum fee that a bridge of at most one ether at a `u64` number of
/// basis points can call for.
pub open spec fn max_min_fee() -> nat {
    100_000_000_000_000 * 0xffff_ffff_ffff_ffff
}

/// One ether, in wei.
pub fn one_eth() -> (r: Amount)
    ensures
        r@ == one_eth_spec(),
{
    Amount::from_u64(1_000_000_000_000_000_000)
}

/// One atom, in its smallest unit.
pub fn one_atom() -> (r: Amount)
    ensures
        r@ == one_atom_spec(),
{
    Amount::from_u64(1_000_000)
}

/// A minimum fee from a bridge of at most one ether stays within `max_min_fee`,
/// far below `2^256`.
pub proof fn lemma_min_fee_bound(bridge_amount: nat, basis_points: nat)
    requires
        bridge_amount <= one_eth_spec(),
        basis_points <= 0xffff_ffff_ffff_ffff,
    ensures
        min_fee_spec(bridge_amount, basis_points) <= max_min_fee(),
        max_min_fee() + 10 < uint256_limit(),
{
    let q = bridge_amount / 10000;
    assert(q <= 100_000_000_000_000);
    assert(q * basis_points <= 100_000_000_000_000 * 0xffff_ffff_ffff_ffff) by (nonlinear_arith)
        requires
            q <= 100_000_000_000_000,
            basis_points <= 0xffff_ffff_ffff_ffff,
    ;
    lemma_uint256_limit_value();
}

/// The minimum chain fee for bridging `bridge_amount` at `min_fee_basis_points`.
pub fn get_min_fee(bridge_amount: Amount, min_fee_basis_points: Amount) -> (r: Amount)
    requires
        min_fee_spec(bridge_amount@, min_fee_basis_points@) < uint256_limit(),
    ensures
        r@ == min_fee_spec(bridge_amount@, min_fee_basis_points@),
{
    let divisor = Amount::from_u64(BASIS_POINT_DIVISOR);
    let scaled = bridge_amount.div_floor(divisor);
    scaled.times(min_fee_basis_points)
}

/// The fees that a send should succeed with: the minimum fee and ten above it,
/// or zero and one where no fee is required.
pub fn get_success_test_fees(min_fee: Amount) -> (r: Vec<Amount>)
    requires
        min_fee@ + 10 < uint256_limit(),
    ensures
        amounts_view(r@) == success_fees_spec(min_fee@),
{
    let mut r: Vec<Amount> = Vec::new();
    if min_fee.is_zero() {
        r.push(Amount::from_u64(0));
        r.push(Amount::from_u64(1));
    } else {
        r.push(min_fee);
        r.push(min_fee.plus(Amount::from_u64(10)));
    }
    assert(amounts_view(r@) =~= success_fees_spec(min_fee@));
    r
}

/// The fees that a send should fail with: one below the minimum fee, or none
/// where no fee is required.
pub fn get_fail_test_fees(min_fee: Amount) -> (r: Vec<Amount>)
    ensures
        amounts_view(r@) == fail_fees_spec(min_fee@),
{
    let mut r: Vec<Amount> = Vec::new();
    if !min_fee.is_zero() {
        r.push(min_fee.minus(Amount::from_u64(1)));
    }
    assert(amounts_view(r@) =~= fail_fees_spec(min_fee@));
    r
}

/// Every fee meant to succeed meets the minimum fee, every fee meant to fail
/// falls short of it, and there is always a fee meant to succeed.
pub proof fn lemma_test_fees_straddle_min_fee(min_fee: nat)
    ensures
        success_fees_spec(min_fee).len() > 0,
        forall|i: int|
            0 <= i < success_fees_spec(min_fee).len() ==> #[trigger] success_fees_spec(min_fee)[i]
                >= min_fee,
        forall|i: int|
            0 <= i < fail_fees_spec(min_fee).len() ==> #[trigger] fail_fees_spec(min_fee)[i]
                < min_fee,
{
}

/// The minimum fee grows with the amount bridged and with the basis points.
pub proof fn lemma_min_fee_monotone(
    bridge_amount1: nat,
    bridge_amount2: nat,
    basis_points1: nat,
    basis_points2: nat,
)
    requires
        bridge_amount1 <= bridge_amount2,
        basis_points1 <= basis_points2,
    ensures
        min_fee_spec(bridge_amount1, basis_points1) <= min_fee_spec(bridge_amount2, basis_points2),
{
    lemma_div_is_ordered(bridge_amount1 as int, bridge_amount2 as int, 10000);
    let q1 = bridge_amount1 / 10000;
    let q2 = bridge_amount2 / 10000;
    assert(q1 * basis_points1 <= q2 * basis_points2) by (nonlinear_arith)
        requires
            q1 <= q2,
            basis_points1 <= basis_points2,
    ;
}


/// Bridging `10000 * k + r` units, with `r` below the divisor, calls for exactly
/// `k` times the basis points, however large the amount: the minimum fee is
/// linear in the amount bridged, per ten thousand units.
pub proof fn lemma_min_fee_per_ten_thousand(k: nat, r: nat, basis_points: nat)
    requires
        r < 10000,
    ensures
        min_fee_spec(10000 * k + r, basis_points) == k * basis_points,
{
    lemma_div_multiples_vanish_fancy(k as int, r as int, 10000);
}


/// The test fees probe the boundary: where a fee is required, the succeeding
/// fees are the minimum fee itself and ten above it, and the one failing fee
/// misses it by exactly one unit; where none is required, zero and one succeed
/// and nothing is meant to fail.
pub proof fn lemma_test_fees_probe_boundary(min_fee: nat)
    ensures
        success_fees_spec(min_fee).len() == 2,
        min_fee > 0 ==> success_fees_spec(min_fee)[0] == min_fee && success_fees_spec(min_fee)[1]
            == min_fee + 10 && fail_fees_spec(min_fee).len() == 1 && fail_fees_spec(min_fee)[0] + 1
            == min_fee,
        min_fee == 0 ==> success_fees_spec(min_fee)[0] == 0 && success_fees_spec(min_fee)[1] == 1
            && fail_fees_spec(min_fee).len() == 0,
{
}

} // verus!
