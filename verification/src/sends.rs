use vstd::prelude::*;
use crate::amount::{Amount, lemma_uint256_limit_value, uint256_limit};
use crate::coin::{Coin, coins_view};
use crate::fees::{
    amounts_view, fail_fees_spec, get_fail_test_fees, get_min_fee, get_success_test_fees,
    lemma_min_fee_bound, max_min_fee, min_fee_spec, one_atom, one_atom_spec, one_eth, one_eth_spec,
    success_fees_spec,
};
use crate::model::{
    bridge_coins, fee_coins, lemma_partial_repeat_sum, lemma_sum_concat, lemma_tally_with_push,
    lemma_repeat_each_len, lemma_repeat_each_sum, lemma_tally_with_repeat, queued_tally, repeat_each,
    seq_sum, tally_with,
};
use crate::tally::{FeeTally, lookup};

verus! {

/// Queues `tests_per_fee_amount` sends of `bridge_amount` of `denom` at each of
/// the `fee_amounts` in turn, and counts each fee in `fee_tally` and in
/// `total_fee_tally`.
#[allow(clippy::too_many_arguments)]
pub fn queue_sends_to_eth(
    tests_per_fee_amount: usize,
    denom: String,
    bridge_amount: Amount,
    fee_amounts: Vec<Amount>,
    bridge_collection: &mut Vec<Coin>,
    fee_collection: &mut Vec<Coin>,
    fee_tally: &mut FeeTally,
    total_fee_tally: &mut FeeTally,
)
    requires
        lookup(old(fee_tally)@, denom@) + tests_per_fee_amount * seq_sum(amounts_view(fee_amounts@))
            < uint256_limit(),
        lookup(old(total_fee_tally)@, denom@) + tests_per_fee_amount * seq_sum(
            amounts_view(fee_amounts@),
        ) < uint256_limit(),
    ensures
        coins_view(final(bridge_collection)@) == coins_view(old(bridge_collection)@) + bridge_coins(
            denom@,
            bridge_amount@,
            repeat_each(amounts_view(fee_amounts@), tests_per_fee_amount as nat),
        ),
        coins_view(final(fee_collection)@) == coins_view(old(fee_collection)@) + fee_coins(
            denom@,
            repeat_each(amounts_view(fee_amounts@), tests_per_fee_amount as nat),
        ),
        final(fee_tally)@ == queued_tally(
            old(fee_tally)@,
            denom@,
            tests_per_fee_amount as nat,
            amounts_view(fee_amounts@),
        ),
        final(total_fee_tally)@ == queued_tally(
            old(total_fee_tally)@,
            denom@,
            tests_per_fee_amount as nat,
            amounts_view(fee_amounts@),
        ),
{
    let ghost fees = amounts_view(fee_amounts@);
    let ghost n = tests_per_fee_amount as nat;
    let ghost d = denom@;
    let ghost b = bridge_amount@;
    let ghost bridge0 = coins_view(bridge_collection@);
    let ghost fee0 = coins_view(fee_collection@);
    let ghost tally0 = fee_tally@;
    let ghost total0 = total_fee_tally@;
    let mut i: usize = 0;
    assert(repeat_each(fees.take(0), n) =~= Seq::<nat>::empty());
    assert(bridge_coins(d, b, Seq::<nat>::empty()) =~= Seq::empty());
    assert(fee_coins(d, Seq::<nat>::empty()) =~= Seq::empty());
    assert(bridge0 + Seq::<(Seq<char>, nat)>::empty() =~= bridge0);
    assert(fee0 + Seq::<(Seq<char>, nat)>::empty() =~= fee0);
    while i < fee_amounts.len()
        invariant
            i <= fee_amounts.len(),
            fees == amounts_view(fee_amounts@),
            n == tests_per_fee_amount as nat,
            d == denom@,
            b == bridge_amount@,
            lookup(tally0, d) + n * seq_sum(fees) < uint256_limit(),
            lookup(total0, d) + n * seq_sum(fees) < uint256_limit(),
            coins_view(bridge_collection@) == bridge0 + bridge_coins(
                d,
                b,
                repeat_each(fees.take(i as int), n),
            ),
            coins_view(fee_collection@) == fee0 + fee_coins(d, repeat_each(fees.take(i as int), n)),
            fee_tally@ == tally_with(tally0, d, repeat_each(fees.take(i as int), n)),
            total_fee_tally@ == tally_with(total0, d, repeat_each(fees.take(i as int), n)),
        decreases fee_amounts.len() - i,
    {
        let fee = fee_amounts[i];
        assert(fees[i as int] == fee@);
        let ghost before = repeat_each(fees.take(i as int), n);
        let mut j: usize = 0;
        assert(before + Seq::new(0, |k: int| fees[i as int]) =~= before);
        while j < tests_per_fee_amount
            invariant
                i < fee_amounts.len(),
                j <= tests_per_fee_amount,
                fees == amounts_view(fee_amounts@),
                n == tests_per_fee_amount as nat,
                d == denom@,
                b == bridge_amount@,
                fees[i as int] == fee@,
                before == repeat_each(fees.take(i as int), n),
                lookup(tally0, d) + n * seq_sum(fees) < uint256_limit(),
                lookup(total0, d) + n * seq_sum(fees) < uint256_limit(),
                coins_view(bridge_collection@) == bridge0 + bridge_coins(
                    d,
                    b,
                    before + Seq::new(j as nat, |k: int| fees[i as int]),
                ),
                coins_view(fee_collection@) == fee0 + fee_coins(
                    d,
                    before + Seq::new(j as nat, |k: int| fees[i as int]),
                ),
                fee_tally@ == tally_with(tally0, d, before + Seq::new(j as nat, |k: int| fees[i as int])),
                total_fee_tally@ == tally_with(
                    total0,
                    d,
                    before + Seq::new(j as nat, |k: int| fees[i as int]),
                ),
            decreases tests_per_fee_amount - j,
        {
            let ghost done = before + Seq::new(j as nat, |k: int| fees[i as int]);
            let ghost next = before + Seq::new((j + 1) as nat, |k: int| fees[i as int]);
            assert(next =~= done.push(fee@));
            proof {
                lemma_tally_with_push(tally0, d, done, fee@);
                lemma_tally_with_push(total0, d, done, fee@);
                lemma_partial_repeat_sum(fees, n, i as int, (j + 1) as nat);
                lemma_sum_concat(done, seq![fee@]);
                assert(done + seq![fee@] =~= next);
            }
            let ghost bridge_before = bridge_collection@;
            let ghost fee_before = fee_collection@;
            bridge_collection.push(Coin::new(denom.clone(), bridge_amount));
            fee_collection.push(Coin::new(denom.clone(), fee));
            assert(coins_view(bridge_collection@) =~= coins_view(bridge_before).push((d, b)));
            assert(coins_view(fee_collection@) =~= coins_view(fee_before).push((d, fee@)));
            assert(bridge_coins(d, b, next) =~= bridge_coins(d, b, done).push((d, b)));
            assert(fee_coins(d, next) =~= fee_coins(d, done).push((d, fee@)));
            let counted = fee_tally.get(&denom);
            fee_tally.insert(denom.clone(), counted.plus(fee));
            let counted_total = total_fee_tally.get(&denom);
            total_fee_tally.insert(denom.clone(), counted_total.plus(fee));
            j = j + 1;
        }
        assert(fees.take(i + 1).drop_last() =~= fees.take(i as int));
        assert(repeat_each(fees.take(i + 1), n) == before + Seq::new(n, |k: int| fees[i as int]));
        i = i + 1;
    }
    assert(fees.take(i as int) =~= fees);
    proof {
        lemma_tally_with_repeat(tally0, d, fees, n);
        lemma_tally_with_repeat(total0, d, fees, n);
    }
}

/// The views of a sequence of strings.
pub open spec fn strings_view(v: Seq<String>) -> Seq<Seq<char>> {
    v.map_values(|s: String| s@)
}

/// The fees a send of one ether of an ERC20 token should succeed with at
/// `basis_points`.
pub open spec fn erc20_success_fees_at(basis_points: nat) -> Seq<nat> {
    success_fees_spec(min_fee_spec(one_eth_spec(), basis_points))
}

/// The fees a send of one ether of an ERC20 token should fail with.
pub open spec fn erc20_fail_fees_at(basis_points: nat) -> Seq<nat> {
    fail_fees_spec(min_fee_spec(one_eth_spec(), basis_points))
}

/// The fees a send of one atom of the IBC token should succeed with.
pub open spec fn ibc_success_fees_at(basis_points: nat) -> Seq<nat> {
    success_fees_spec(min_fee_spec(one_atom_spec(), basis_points))
}

/// The fees a send of one atom of the IBC token should fail with.
pub open spec fn ibc_fail_fees_at(basis_points: nat) -> Seq<nat> {
    fail_fees_spec(min_fee_spec(one_atom_spec(), basis_points))
}

/// The sends of a run, as bridge coins and fee coins side by side: first the IBC
/// token at its succeeding then its failing fees, then each ERC20 token in turn
/// the same way, every fee `n` times.
pub open spec fn setup_sends(basis_points: nat, erc20_denoms: Seq<Seq<char>>, ibc_denom: Seq<char>, n: nat) -> (
    Seq<(Seq<char>, nat)>,
    Seq<(Seq<char>, nat)>,
)
    decreases erc20_denoms.len(),
{
    if erc20_denoms.len() == 0 {
        let s = repeat_each(ibc_success_fees_at(basis_points), n);
        let f = repeat_each(ibc_fail_fees_at(basis_points), n);
        (
            bridge_coins(ibc_denom, one_atom_spec(), s) + bridge_coins(ibc_denom, one_atom_spec(), f),
            fee_coins(ibc_denom, s) + fee_coins(ibc_denom, f),
        )
    } else {
        let prev = setup_sends(basis_points, erc20_denoms.drop_last(), ibc_denom, n);
        let e = erc20_denoms.last();
        let s = repeat_each(erc20_success_fees_at(basis_points), n);
        let f = repeat_each(erc20_fail_fees_at(basis_points), n);
        (
            prev.0 + bridge_coins(e, one_eth_spec(), s) + bridge_coins(e, one_eth_spec(), f),
            prev.1 + fee_coins(e, s) + fee_coins(e, f),
        )
    }
}

/// The tallies of a run: what the sends meant to succeed pay, what the sends
/// meant to fail offer, and what all of them offer.
pub open spec fn setup_tallies(basis_points: nat, erc20_denoms: Seq<Seq<char>>, ibc_denom: Seq<char>, n: nat) -> (
    Map<Seq<char>, nat>,
    Map<Seq<char>, nat>,
    Map<Seq<char>, nat>,
)
    decreases erc20_denoms.len(),
{
    if erc20_denoms.len() == 0 {
        let s = ibc_success_fees_at(basis_points);
        let f = ibc_fail_fees_at(basis_points);
        let empty = Map::<Seq<char>, nat>::empty();
        (
            queued_tally(empty, ibc_denom, n, s),
            queued_tally(empty, ibc_denom, n, f),
            queued_tally(queued_tally(empty, ibc_denom, n, s), ibc_denom, n, f),
        )
    } else {
        let prev = setup_tallies(basis_points, erc20_denoms.drop_last(), ibc_denom, n);
        let e = erc20_denoms.last();
        let s = erc20_success_fees_at(basis_points);
        let f = erc20_fail_fees_at(basis_points);
        (
            queued_tally(prev.0, e, n, s),
            queued_tally(prev.1, e, n, f),
            queued_tally(queued_tally(prev.2, e, n, s), e, n, f),
        )
    }
}

/// Every amount in the tally is at most `bound`.
pub open spec fn tally_bounded(m: Map<Seq<char>, nat>, bound: nat) -> bool {
    forall|d: Seq<char>| #[trigger] m.dom().contains(d) ==> m[d] <= bound
}

/// A bound on what one send pattern of a run sums to.
spec fn fee_sum_bound() -> nat {
    2 * max_min_fee() + 10
}

proof fn lemma_fee_sums_bounded(min_fee: nat)
    requires
        min_fee <= max_min_fee(),
    ensures
        seq_sum(success_fees_spec(min_fee)) <= fee_sum_bound(),
        seq_sum(fail_fees_spec(min_fee)) <= fee_sum_bound(),
{
    reveal_with_fuel(seq_sum, 3);
    let s = success_fees_spec(min_fee);
    let f = fail_fees_spec(min_fee);
    assert(s.drop_last().drop_last() =~= Seq::<nat>::empty());
    if min_fee > 0 {
        assert(f.drop_last() =~= Seq::<nat>::empty());
    }
}

proof fn lemma_queued_bounded(
    m: Map<Seq<char>, nat>,
    denom: Seq<char>,
    n: nat,
    fees: Seq<nat>,
    bound: nat,
    unit: nat,
)
    requires
        tally_bounded(m, bound),
        seq_sum(fees) <= fee_sum_bound(),
        unit == n * fee_sum_bound(),
    ensures
        lookup(m, denom) + n * seq_sum(fees) <= bound + unit,
        tally_bounded(queued_tally(m, denom, n, fees), bound + unit),
{
    let s = seq_sum(fees);
    assert(n * s <= n * fee_sum_bound()) by (nonlinear_arith)
        requires
            s <= fee_sum_bound(),
    ;
}

/// A bound on every amount that a run's tallies hold; twice it is still below
/// `2^256`.
pub open spec fn setup_tally_bound() -> nat {
    0x3_0000_0000_0000_0000 * 0xffff_ffff_ffff_ffff * 3_700_000_000_000_000_000_000_000_000_000_000
}

proof fn lemma_round_below_limit(rounds: nat, n: nat, unit: nat)
    requires
        rounds <= 0x3_0000_0000_0000_0000,
        n <= 0xffff_ffff_ffff_ffff,
        unit == n * fee_sum_bound(),
    ensures
        rounds * unit <= setup_tally_bound(),
        rounds * unit < uint256_limit(),
        2 * setup_tally_bound() < uint256_limit(),
{
    lemma_min_fee_bound(0, 0);
    lemma_uint256_limit_value();
    let c = fee_sum_bound();
    assert(c <= 3_700_000_000_000_000_000_000_000_000_000_000);
    assert(rounds * n <= 0x3_0000_0000_0000_0000 * 0xffff_ffff_ffff_ffff) by (nonlinear_arith)
        requires
            rounds <= 0x3_0000_0000_0000_0000,
            n <= 0xffff_ffff_ffff_ffff,
    ;
    let rn = rounds * n;
    assert(rn * c <= 0x3_0000_0000_0000_0000 * 0xffff_ffff_ffff_ffff
        * 3_700_000_000_000_000_000_000_000_000_000_000) by (nonlinear_arith)
        requires
            rn <= 0x3_0000_0000_0000_0000 * 0xffff_ffff_ffff_ffff,
            c <= 3_700_000_000_000_000_000_000_000_000_000_000,
    ;
    assert(rounds * unit == rn * c) by (nonlinear_arith)
        requires
            unit == n * c,
            rn == rounds * n,
    ;
}

/// Twice the bound on a run's tallies is below `2^256`.
pub proof fn lemma_setup_tally_bound_fits()
    ensures
        2 * setup_tally_bound() < uint256_limit(),
{
    lemma_round_below_limit(0, 0, 0);
}

proof fn lemma_next_round(k: nat, unit: nat)
    ensures
        k * unit + unit == (k + 1) * unit,
{
    assert(k * unit + unit == (k + 1) * unit) by (nonlinear_arith);
}

/// The sends of a run at `min_fee_basis_points`: for the IBC token and then for
/// each ERC20 token, sends at fees that meet the minimum fee and sends at a fee
/// below it, each fee `tests_per_fee_amount` times; with the tallies of what the
/// succeeding sends pay, what the failing sends offer, and what all of them offer.
pub fn setup_transactions(
    min_fee_basis_points: u64,
    erc20_denoms: Vec<String>,
    ibc_denom: String,
    tests_per_fee_amount: usize,
) -> (r: (Vec<Coin>, Vec<Coin>, FeeTally, FeeTally, FeeTally))
    ensures
        coins_view(r.0@) == setup_sends(
            min_fee_basis_points as nat,
            strings_view(erc20_denoms@),
            ibc_denom@,
            tests_per_fee_amount as nat,
        ).0,
        coins_view(r.1@) == setup_sends(
            min_fee_basis_points as nat,
            strings_view(erc20_denoms@),
            ibc_denom@,
            tests_per_fee_amount as nat,
        ).1,
        r.2@ == setup_tallies(
            min_fee_basis_points as nat,
            strings_view(erc20_denoms@),
            ibc_denom@,
            tests_per_fee_amount as nat,
        ).0,
        r.3@ == setup_tallies(
            min_fee_basis_points as nat,
            strings_view(erc20_denoms@),
            ibc_denom@,
            tests_per_fee_amount as nat,
        ).1,
        r.4@ == setup_tallies(
            min_fee_basis_points as nat,
            strings_view(erc20_denoms@),
            ibc_denom@,
            tests_per_fee_amount as nat,
        ).2,
        tally_bounded(r.2@, setup_tally_bound()),
        tally_bounded(r.3@, setup_tally_bound()),
        tally_bounded(r.4@, setup_tally_bound()),
{
    let ghost bp = min_fee_basis_points as nat;
    let ghost n = tests_per_fee_amount as nat;
    let ghost denoms = strings_view(erc20_denoms@);
    let ghost unit = n * fee_sum_bound();
    let mut success_fee_tally = FeeTally::new();
    let mut failure_fee_tally = FeeTally::new();
    let mut total_fee_tally = FeeTally::new();

    let curr_fee_basis_points = Amount::from_u64(min_fee_basis_points);
    let erc20_bridge_amount = one_eth();
    proof {
        lemma_min_fee_bound(one_eth_spec(), bp);
        lemma_min_fee_bound(one_atom_spec(), bp);
        lemma_fee_sums_bounded(min_fee_spec(one_eth_spec(), bp));
        lemma_fee_sums_bounded(min_fee_spec(one_atom_spec(), bp));
    }
    let erc20_min_fee = get_min_fee(erc20_bridge_amount, curr_fee_basis_points);
    let erc20_success_fees = get_success_test_fees(erc20_min_fee);
    let erc20_fail_fees = get_fail_test_fees(erc20_min_fee);

    let ibc_bridge_amount = one_atom();
    let ibc_min_fee = get_min_fee(ibc_bridge_amount, curr_fee_basis_points);
    let ibc_success_fees = get_success_test_fees(ibc_min_fee);
    let ibc_fail_fees = get_fail_test_fees(ibc_min_fee);

    let mut coins_to_send: Vec<Coin> = Vec::new();
    let mut fees_for_send: Vec<Coin> = Vec::new();

    proof {
        lemma_round_below_limit(2, n, unit);
        lemma_next_round(0, unit);
        lemma_next_round(1, unit);
        lemma_queued_bounded(success_fee_tally@, ibc_denom@, n, ibc_success_fees_at(bp), 0, unit);
        lemma_queued_bounded(total_fee_tally@, ibc_denom@, n, ibc_success_fees_at(bp), 0, unit);
    }
    queue_sends_to_eth(
        tests_per_fee_amount,
        ibc_denom.clone(),
        ibc_bridge_amount,
        ibc_success_fees,
        &mut coins_to_send,
        &mut fees_for_send,
        &mut success_fee_tally,
        &mut total_fee_tally,
    );
    proof {
        lemma_queued_bounded(failure_fee_tally@, ibc_denom@, n, ibc_fail_fees_at(bp), 0, unit);
        lemma_queued_bounded(total_fee_tally@, ibc_denom@, n, ibc_fail_fees_at(bp), unit, unit);
    }
    queue_sends_to_eth(
        tests_per_fee_amount,
        ibc_denom.clone(),
        ibc_bridge_amount,
        ibc_fail_fees,
        &mut coins_to_send,
        &mut fees_for_send,
        &mut failure_fee_tally,
        &mut total_fee_tally,
    );
    proof {
        assert(denoms.take(0) =~= Seq::<Seq<char>>::empty());
    }
    let mut i: usize = 0;
    while i < erc20_denoms.len()
        invariant
            i <= erc20_denoms.len(),
            bp == min_fee_basis_points as nat,
            n == tests_per_fee_amount as nat,
            unit == n * fee_sum_bound(),
            denoms == strings_view(erc20_denoms@),
            erc20_bridge_amount@ == one_eth_spec(),
            amounts_view(erc20_success_fees@) == erc20_success_fees_at(bp),
            amounts_view(erc20_fail_fees@) == erc20_fail_fees_at(bp),
            seq_sum(erc20_success_fees_at(bp)) <= fee_sum_bound(),
            seq_sum(erc20_fail_fees_at(bp)) <= fee_sum_bound(),
            coins_view(coins_to_send@) == setup_sends(bp, denoms.take(i as int), ibc_denom@, n).0,
            coins_view(fees_for_send@) == setup_sends(bp, denoms.take(i as int), ibc_denom@, n).1,
            success_fee_tally@ == setup_tallies(bp, denoms.take(i as int), ibc_denom@, n).0,
            failure_fee_tally@ == setup_tallies(bp, denoms.take(i as int), ibc_denom@, n).1,
            total_fee_tally@ == setup_tallies(bp, denoms.take(i as int), ibc_denom@, n).2,
            tally_bounded(success_fee_tally@, ((2 * i + 2) as nat) * unit),
            tally_bounded(failure_fee_tally@, ((2 * i + 2) as nat) * unit),
            tally_bounded(total_fee_tally@, ((2 * i + 2) as nat) * unit),
        decreases erc20_denoms.len() - i,
    {
        let e = erc20_denoms[i].clone();
        let ghost k = (2 * i + 2) as nat;
        proof {
            lemma_round_below_limit(k + 2, n, unit);
            lemma_next_round(k, unit);
            lemma_next_round(k + 1, unit);
            lemma_queued_bounded(success_fee_tally@, e@, n, erc20_success_fees_at(bp), k * unit, unit);
            lemma_queued_bounded(total_fee_tally@, e@, n, erc20_success_fees_at(bp), k * unit, unit);
        }
        let succeed = erc20_success_fees.clone();
        assert(amounts_view(succeed@) =~= amounts_view(erc20_success_fees@));
        queue_sends_to_eth(
            tests_per_fee_amount,
            e.clone(),
            erc20_bridge_amount,
            succeed,
            &mut coins_to_send,
            &mut fees_for_send,
            &mut success_fee_tally,
            &mut total_fee_tally,
        );
        proof {
            lemma_queued_bounded(failure_fee_tally@, e@, n, erc20_fail_fees_at(bp), k * unit, unit);
            lemma_queued_bounded(total_fee_tally@, e@, n, erc20_fail_fees_at(bp), (k + 1) * unit, unit);
        }
        let fail = erc20_fail_fees.clone();
        assert(amounts_view(fail@) =~= amounts_view(erc20_fail_fees@));
        queue_sends_to_eth(
            tests_per_fee_amount,
            e.clone(),
            erc20_bridge_amount,
            fail,
            &mut coins_to_send,
            &mut fees_for_send,
            &mut failure_fee_tally,
            &mut total_fee_tally,
        );
        proof {
            assert(denoms.take(i + 1).drop_last() =~= denoms.take(i as int));
            assert(denoms.take(i + 1).last() == e@);
            assert(tally_bounded(success_fee_tally@, (k + 2) * unit)) by {
                assert((k + 1) * unit <= (k + 2) * unit) by (nonlinear_arith);
            }
            assert(tally_bounded(failure_fee_tally@, (k + 2) * unit)) by {
                assert((k + 1) * unit <= (k + 2) * unit) by (nonlinear_arith);
            }
        }
        i = i + 1;
    }
    proof {
        assert(denoms.take(i as int) =~= denoms);
        lemma_round_below_limit((2 * i + 2) as nat, n, unit);
    }
    (coins_to_send, fees_for_send, success_fee_tally, failure_fee_tally, total_fee_tally)
}

/// The sum of the amounts of `denom` among `coins`.
pub open spec fn denom_total(coins: Seq<(Seq<char>, nat)>, denom: Seq<char>) -> nat
    decreases coins.len(),
{
    if coins.len() == 0 {
        0
    } else {
        denom_total(coins.drop_last(), denom) + if coins.last().0 == denom {
            coins.last().1
        } else {
            0
        }
    }
}

/// How many of `coins` are of `denom`.
pub open spec fn denom_count(coins: Seq<(Seq<char>, nat)>, denom: Seq<char>) -> nat
    decreases coins.len(),
{
    if coins.len() == 0 {
        0
    } else {
        denom_count(coins.drop_last(), denom) + if coins.last().0 == denom {
            1nat
        } else {
            0nat
        }
    }
}

pub proof fn lemma_denom_concat(a: Seq<(Seq<char>, nat)>, b: Seq<(Seq<char>, nat)>, denom: Seq<char>)
    ensures
        denom_total(a + b, denom) == denom_total(a, denom) + denom_total(b, denom),
        denom_count(a + b, denom) == denom_count(a, denom) + denom_count(b, denom),
    decreases b.len(),
{
    if b.len() == 0 {
        assert(a + b =~= a);
    } else {
        lemma_denom_concat(a, b.drop_last(), denom);
        assert((a + b).drop_last() =~= a + b.drop_last());
    }
}

proof fn lemma_denom_fee_coins(e: Seq<char>, fees: Seq<nat>, denom: Seq<char>)
    ensures
        denom_total(fee_coins(e, fees), denom) == if e == denom {
            seq_sum(fees)
        } else {
            0
        },
        denom_count(fee_coins(e, fees), denom) == if e == denom {
            fees.len()
        } else {
            0
        },
    decreases fees.len(),
{
    if fees.len() > 0 {
        lemma_denom_fee_coins(e, fees.drop_last(), denom);
        assert(fee_coins(e, fees).drop_last() =~= fee_coins(e, fees.drop_last()));
    }
}

proof fn lemma_queued_lookup(m: Map<Seq<char>, nat>, e: Seq<char>, n: nat, fees: Seq<nat>, denom: Seq<char>)
    ensures
        lookup(queued_tally(m, e, n, fees), denom) == lookup(m, denom) + denom_total(
            fee_coins(e, repeat_each(fees, n)),
            denom,
        ),
        queued_tally(m, e, n, fees).dom().contains(denom) == (m.dom().contains(denom)
            || denom_count(fee_coins(e, repeat_each(fees, n)), denom) > 0),
{
    lemma_denom_fee_coins(e, repeat_each(fees, n), denom);
    lemma_repeat_each_sum(fees, n);
    lemma_repeat_each_len(fees, n);
    if n == 0 || fees.len() == 0 {
        assert(seq_sum(repeat_each(fees, n)) == 0);
    }
}

/// Bridge coins and fee coins pair up: as many of each, and each fee in the
/// denomination of the coin it goes with.
pub proof fn lemma_sends_aligned(
    basis_points: nat,
    erc20_denoms: Seq<Seq<char>>,
    ibc_denom: Seq<char>,
    n: nat,
)
    ensures
        setup_sends(basis_points, erc20_denoms, ibc_denom, n).0.len() == setup_sends(
            basis_points,
            erc20_denoms,
            ibc_denom,
            n,
        ).1.len(),
        forall|i: int|
            0 <= i < setup_sends(basis_points, erc20_denoms, ibc_denom, n).0.len() ==> (
            #[trigger] setup_sends(basis_points, erc20_denoms, ibc_denom, n).0[i]).0 == setup_sends(
                basis_points,
                erc20_denoms,
                ibc_denom,
                n,
            ).1[i].0,
    decreases erc20_denoms.len(),
{
    if erc20_denoms.len() > 0 {
        lemma_sends_aligned(basis_points, erc20_denoms.drop_last(), ibc_denom, n);
    }
}

/// What all the sends of a run offer of a denomination is what its tally of all
/// fees holds, and the tally holds a denomination exactly when some send is of it.
pub proof fn lemma_total_tally_sums_all_fees(
    basis_points: nat,
    erc20_denoms: Seq<Seq<char>>,
    ibc_denom: Seq<char>,
    n: nat,
    denom: Seq<char>,
)
    ensures
        lookup(setup_tallies(basis_points, erc20_denoms, ibc_denom, n).2, denom) == denom_total(
            setup_sends(basis_points, erc20_denoms, ibc_denom, n).1,
            denom,
        ),
        setup_tallies(basis_points, erc20_denoms, ibc_denom, n).2.dom().contains(denom) == (
        denom_count(setup_sends(basis_points, erc20_denoms, ibc_denom, n).1, denom) > 0),
    decreases erc20_denoms.len(),
{
    let t = setup_tallies(basis_points, erc20_denoms, ibc_denom, n);
    let sends = setup_sends(basis_points, erc20_denoms, ibc_denom, n);
    if erc20_denoms.len() == 0 {
        let sf = ibc_success_fees_at(basis_points);
        let ff = ibc_fail_fees_at(basis_points);
        let empty = Map::<Seq<char>, nat>::empty();
        lemma_queued_lookup(empty, ibc_denom, n, sf, denom);
        lemma_queued_lookup(queued_tally(empty, ibc_denom, n, sf), ibc_denom, n, ff, denom);
        lemma_denom_concat(
            fee_coins(ibc_denom, repeat_each(sf, n)),
            fee_coins(ibc_denom, repeat_each(ff, n)),
            denom,
        );
    } else {
        let init = erc20_denoms.drop_last();
        let e = erc20_denoms.last();
        let prev = setup_tallies(basis_points, init, ibc_denom, n);
        let prev_sends = setup_sends(basis_points, init, ibc_denom, n);
        lemma_total_tally_sums_all_fees(basis_points, init, ibc_denom, n, denom);
        let sf = erc20_success_fees_at(basis_points);
        let ff = erc20_fail_fees_at(basis_points);
        lemma_queued_lookup(prev.2, e, n, sf, denom);
        lemma_queued_lookup(queued_tally(prev.2, e, n, sf), e, n, ff, denom);
        let a = fee_coins(e, repeat_each(sf, n));
        let b = fee_coins(e, repeat_each(ff, n));
        lemma_denom_concat(prev_sends.1, a, denom);
        lemma_denom_concat(prev_sends.1 + a, b, denom);
    }
}

/// What all the sends of a run offer of a denomination is what the succeeding
/// sends pay of it plus what the failing sends offer of it, and the tally of all
/// fees holds a denomination exactly when one of the other two does.
pub proof fn lemma_total_is_success_plus_failure(
    basis_points: nat,
    erc20_denoms: Seq<Seq<char>>,
    ibc_denom: Seq<char>,
    n: nat,
    denom: Seq<char>,
)
    ensures
        lookup(setup_tallies(basis_points, erc20_denoms, ibc_denom, n).2, denom) == lookup(
            setup_tallies(basis_points, erc20_denoms, ibc_denom, n).0,
            denom,
        ) + lookup(setup_tallies(basis_points, erc20_denoms, ibc_denom, n).1, denom),
        setup_tallies(basis_points, erc20_denoms, ibc_denom, n).2.dom().contains(denom) == (
        setup_tallies(basis_points, erc20_denoms, ibc_denom, n).0.dom().contains(denom)
            || setup_tallies(basis_points, erc20_denoms, ibc_denom, n).1.dom().contains(denom)),
    decreases erc20_denoms.len(),
{
    if erc20_denoms.len() > 0 {
        lemma_total_is_success_plus_failure(
            basis_points,
            erc20_denoms.drop_last(),
            ibc_denom,
            n,
            denom,
        );
    }
}

/// Every coin that a run bridges is one ether or one atom.
pub proof fn lemma_sends_bridge_amounts(
    basis_points: nat,
    erc20_denoms: Seq<Seq<char>>,
    ibc_denom: Seq<char>,
    n: nat,
)
    ensures
        forall|i: int|
            0 <= i < setup_sends(basis_points, erc20_denoms, ibc_denom, n).0.len() ==> (
            #[trigger] setup_sends(basis_points, erc20_denoms, ibc_denom, n).0[i]).1 == one_eth_spec()
                || setup_sends(basis_points, erc20_denoms, ibc_denom, n).0[i].1 == one_atom_spec(),
    decreases erc20_denoms.len(),
{
    let sends = setup_sends(basis_points, erc20_denoms, ibc_denom, n);
    if erc20_denoms.len() == 0 {
        let a = bridge_coins(ibc_denom, one_atom_spec(), repeat_each(ibc_success_fees_at(basis_points), n));
        let b = bridge_coins(ibc_denom, one_atom_spec(), repeat_each(ibc_fail_fees_at(basis_points), n));
        assert forall|i: int| 0 <= i < sends.0.len() implies (#[trigger] sends.0[i]).1 == one_atom_spec() by {
            if i < a.len() {
                assert(sends.0[i] == a[i]);
            } else {
                assert(sends.0[i] == b[i - a.len()]);
            }
        }
    } else {
        let init = erc20_denoms.drop_last();
        let e = erc20_denoms.last();
        lemma_sends_bridge_amounts(basis_points, init, ibc_denom, n);
        let prev = setup_sends(basis_points, init, ibc_denom, n).0;
        let a = bridge_coins(e, one_eth_spec(), repeat_each(erc20_success_fees_at(basis_points), n));
        let b = bridge_coins(e, one_eth_spec(), repeat_each(erc20_fail_fees_at(basis_points), n));
        assert(sends.0 == prev + a + b);
        assert forall|i: int| 0 <= i < sends.0.len() implies (#[trigger] sends.0[i]).1 == one_eth_spec()
            || sends.0[i].1 == one_atom_spec() by {
            if i < prev.len() {
                assert(sends.0[i] == prev[i]);
            } else if i < prev.len() + a.len() {
                assert(sends.0[i] == a[i - prev.len()]);
            } else {
                assert(sends.0[i] == b[i - prev.len() - a.len()]);
            }
        }
    }
}


/// How often `denom` occurs in the list.
pub open spec fn occurrences(denoms: Seq<Seq<char>>, denom: Seq<char>) -> nat
    decreases denoms.len(),
{
    if denoms.len() == 0 {
        0
    } else {
        occurrences(denoms.drop_last(), denom) + if denoms.last() == denom {
            1nat
        } else {
            0nat
        }
    }
}

proof fn lemma_denom_bridge_coins(e: Seq<char>, amount: nat, fees: Seq<nat>, denom: Seq<char>)
    ensures
        denom_count(bridge_coins(e, amount, fees), denom) == if e == denom {
            fees.len()
        } else {
            0
        },
    decreases fees.len(),
{
    if fees.len() > 0 {
        lemma_denom_bridge_coins(e, amount, fees.drop_last(), denom);
        assert(bridge_coins(e, amount, fees).drop_last() =~= bridge_coins(e, amount, fees.drop_last()));
    }
}

proof fn lemma_test_fee_shape(min_fee: nat)
    ensures
        success_fees_spec(min_fee).len() == 2,
        fail_fees_spec(min_fee).len() == if min_fee == 0 {
            0nat
        } else {
            1nat
        },
        seq_sum(success_fees_spec(min_fee)) == if min_fee == 0 {
            1
        } else {
            2 * min_fee + 10
        },
        seq_sum(fail_fees_spec(min_fee)) == if min_fee == 0 {
            0
        } else {
            min_fee - 1
        },
{
    reveal_with_fuel(seq_sum, 3);
    let s = success_fees_spec(min_fee);
    let f = fail_fees_spec(min_fee);
    assert(s.drop_last().drop_last() =~= Seq::<nat>::empty());
    if min_fee > 0 {
        assert(f.drop_last() =~= Seq::<nat>::empty());
    }
}

proof fn lemma_scale(o: nat, x: nat, n: nat, k: nat)
    ensures
        (o + x) * n * k == o * n * k + x * n * k,
        (o + x) * n == o * n + x * n,
{
    assert((o + x) * n * k == o * n * k + x * n * k) by (nonlinear_arith);
    assert((o + x) * n == o * n + x * n) by (nonlinear_arith);
}

/// The sends and tallies of one round of a denomination `e`, as seen from `denom`.
proof fn lemma_round_per_denom(
    m0: Map<Seq<char>, nat>,
    m1: Map<Seq<char>, nat>,
    e: Seq<char>,
    amount: nat,
    min_fee: nat,
    n: nat,
    denom: Seq<char>,
)
    ensures
        ({
            let s = repeat_each(success_fees_spec(min_fee), n);
            let f = repeat_each(fail_fees_spec(min_fee), n);
            let x: nat = if e == denom {
                1nat
            } else {
                0nat
            };
            let k: nat = if min_fee == 0 {
                2nat
            } else {
                3nat
            };
            &&& denom_count(bridge_coins(e, amount, s) + bridge_coins(e, amount, f), denom) == x * n * k
            &&& denom_count(fee_coins(e, s) + fee_coins(e, f), denom) == x * n * k
            &&& lookup(queued_tally(m0, e, n, success_fees_spec(min_fee)), denom) == lookup(m0, denom)
                + x * n * (if min_fee == 0 {
                1
            } else {
                2 * min_fee + 10
            })
            &&& lookup(queued_tally(m1, e, n, fail_fees_spec(min_fee)), denom) == lookup(m1, denom)
                + x * n * (if min_fee == 0 {
                0
            } else {
                min_fee - 1
            })
        }),
{
    let sf = success_fees_spec(min_fee);
    let ff = fail_fees_spec(min_fee);
    let s = repeat_each(sf, n);
    let f = repeat_each(ff, n);
    let k: nat = if min_fee == 0 {
        2nat
    } else {
        3nat
    };
    lemma_test_fee_shape(min_fee);
    lemma_repeat_each_len(sf, n);
    lemma_repeat_each_len(ff, n);
    lemma_denom_bridge_coins(e, amount, s, denom);
    lemma_denom_bridge_coins(e, amount, f, denom);
    lemma_denom_fee_coins(e, s, denom);
    lemma_denom_fee_coins(e, f, denom);
    lemma_denom_concat(bridge_coins(e, amount, s), bridge_coins(e, amount, f), denom);
    lemma_denom_concat(fee_coins(e, s), fee_coins(e, f), denom);
    lemma_queued_lookup(m0, e, n, sf, denom);
    lemma_queued_lookup(m1, e, n, ff, denom);
    lemma_repeat_each_sum(sf, n);
    lemma_repeat_each_sum(ff, n);
    let fl = ff.len();
    assert(n * 2 + n * fl == 1 * n * k) by (nonlinear_arith)
        requires
            k == 2 + fl,
    ;
    assert(0 * n * k == 0) by (nonlinear_arith);
    let ss = seq_sum(sf);
    let fs = seq_sum(ff);
    assert(1 * n * ss == n * ss && 0 * n * ss == 0) by (nonlinear_arith);
    assert(1 * n * fs == n * fs && 0 * n * fs == 0) by (nonlinear_arith);
}

/// Per denomination, a run at `basis_points` holds what the sends of it call
/// for: every listed ERC20 token is bridged under its own denomination, once per
/// time it is listed, and the IBC token once more; each such round is `n` sends at
/// each of the two succeeding fees and, where a fee is required, `n` at the
/// failing one. The minimum fee is `10^14 * basis_points` for one ether and
/// `100 * basis_points` for one atom, so the tally of succeeding fees gains
/// `n * (2 * min + 10)` (or `n` where no fee is required) and the tally of failing
/// fees `n * (min - 1)` (or nothing) per round.
pub proof fn lemma_setup_per_denom(
    basis_points: nat,
    erc20_denoms: Seq<Seq<char>>,
    ibc_denom: Seq<char>,
    n: nat,
    denom: Seq<char>,
)
    ensures
        ({
            let sends = setup_sends(basis_points, erc20_denoms, ibc_denom, n);
            let k: nat = if basis_points == 0 {
                2nat
            } else {
                3nat
            };
            let c: nat = occurrences(erc20_denoms, denom) + if denom == ibc_denom {
                1nat
            } else {
                0nat
            };
            &&& denom_count(sends.0, denom) == c * n * k
            &&& denom_count(sends.1, denom) == c * n * k
        }),
        lookup(setup_tallies(basis_points, erc20_denoms, ibc_denom, n).0, denom) == occurrences(
            erc20_denoms,
            denom,
        ) * n * (if basis_points == 0 {
            1
        } else {
            200_000_000_000_000 * basis_points + 10
        }) + if denom == ibc_denom {
            n * (if basis_points == 0 {
                1
            } else {
                200 * basis_points + 10
            })
        } else {
            0
        },
        lookup(setup_tallies(basis_points, erc20_denoms, ibc_denom, n).1, denom) == occurrences(
            erc20_denoms,
            denom,
        ) * n * (if basis_points == 0 {
            0
        } else {
            100_000_000_000_000 * basis_points - 1
        }) + if denom == ibc_denom {
            n * (if basis_points == 0 {
                0
            } else {
                100 * basis_points - 1
            })
        } else {
            0
        },
    decreases erc20_denoms.len(),
{
    let bp = basis_points;
    assert(one_atom_spec() / 10000 == 100);
    assert(one_eth_spec() / 10000 == 100_000_000_000_000);
    let ibc_min = min_fee_spec(one_atom_spec(), bp);
    let eth_min = min_fee_spec(one_eth_spec(), bp);
    assert(ibc_min == 100 * bp);
    assert(eth_min == 100_000_000_000_000 * bp);
    let k: nat = if bp == 0 {
        2nat
    } else {
        3nat
    };
    let sends = setup_sends(bp, erc20_denoms, ibc_denom, n);
    let t = setup_tallies(bp, erc20_denoms, ibc_denom, n);
    let xi: nat = if denom == ibc_denom {
        1nat
    } else {
        0nat
    };
    let empty = Map::<Seq<char>, nat>::empty();
    if erc20_denoms.len() == 0 {
        lemma_round_per_denom(empty, empty, ibc_denom, one_atom_spec(), ibc_min, n, denom);
        assert(xi * n * (if ibc_min == 0 {
            1
        } else {
            2 * ibc_min + 10
        }) == if denom == ibc_denom {
            n * (if bp == 0 {
                1
            } else {
                200 * bp + 10
            })
        } else {
            0
        }) by (nonlinear_arith)
            requires
                xi == 0 || xi == 1,
                (xi == 1) == (denom == ibc_denom),
                ibc_min == 100 * bp,
        ;
        assert(xi * n * (if ibc_min == 0 {
            0
        } else {
            ibc_min - 1
        }) == if denom == ibc_denom {
            n * (if bp == 0 {
                0
            } else {
                100 * bp - 1
            })
        } else {
            0
        }) by (nonlinear_arith)
            requires
                xi == 0 || xi == 1,
                (xi == 1) == (denom == ibc_denom),
                ibc_min == 100 * bp,
        ;
        assert(0 * n * (if bp == 0 {
            1
        } else {
            200_000_000_000_000 * bp + 10
        }) == 0) by (nonlinear_arith);
        assert(0 * n * (if bp == 0 {
            0
        } else {
            100_000_000_000_000 * bp - 1
        }) == 0) by (nonlinear_arith);
    } else {
        let init = erc20_denoms.drop_last();
        let e = erc20_denoms.last();
        lemma_setup_per_denom(bp, init, ibc_denom, n, denom);
        let prev = setup_sends(bp, init, ibc_denom, n);
        let pt = setup_tallies(bp, init, ibc_denom, n);
        lemma_round_per_denom(pt.0, pt.1, e, one_eth_spec(), eth_min, n, denom);
        let s = repeat_each(erc20_success_fees_at(bp), n);
        let f = repeat_each(erc20_fail_fees_at(bp), n);
        assert(sends.0 == prev.0 + (bridge_coins(e, one_eth_spec(), s) + bridge_coins(e, one_eth_spec(), f)))
            by {
            assert(prev.0 + bridge_coins(e, one_eth_spec(), s) + bridge_coins(e, one_eth_spec(), f)
                =~= prev.0 + (bridge_coins(e, one_eth_spec(), s) + bridge_coins(e, one_eth_spec(), f)));
        }
        assert(sends.1 == prev.1 + (fee_coins(e, s) + fee_coins(e, f))) by {
            assert(prev.1 + fee_coins(e, s) + fee_coins(e, f) =~= prev.1 + (fee_coins(e, s) + fee_coins(e, f)));
        }
        lemma_denom_concat(prev.0, bridge_coins(e, one_eth_spec(), s) + bridge_coins(e, one_eth_spec(), f), denom);
        lemma_denom_concat(prev.1, fee_coins(e, s) + fee_coins(e, f), denom);
        let o = occurrences(init, denom);
        let x: nat = if e == denom {
            1nat
        } else {
            0nat
        };
        assert(occurrences(erc20_denoms, denom) == o + x);
        lemma_scale(o + xi, x, n, k);
        assert(o + x + xi == (o + xi) + x);
        let sv: nat = if bp == 0 {
            1nat
        } else {
            (200_000_000_000_000 * bp + 10) as nat
        };
        let fv: nat = if bp == 0 {
            0nat
        } else {
            (100_000_000_000_000 * bp - 1) as nat
        };
        assert(sv == if eth_min == 0 {
            1
        } else {
            2 * eth_min + 10
        });
        assert(fv == if eth_min == 0 {
            0
        } else {
            eth_min - 1
        });
        lemma_scale(o, x, n, sv);
        lemma_scale(o, x, n, fv);
    }
}

} // verus!
