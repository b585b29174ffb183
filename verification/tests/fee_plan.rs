use send_to_eth_fees::amount::Amount;
use send_to_eth_fees::coin::Coin;
use send_to_eth_fees::fees::{get_fail_test_fees, get_min_fee, get_success_test_fees, one_atom, one_eth};
use send_to_eth_fees::msgs::{build_send_to_eth_msgs, SendToEthMsg};
use send_to_eth_fees::plan::{
    plan_changing_params_txs, plan_multi_msg_txs, plan_one_msg_txs, sequence_txs,
};
use send_to_eth_fees::proposal::{decimal_string, erc20_denom, fees_proposal, raise_fees_proposal};
use send_to_eth_fees::sends::{queue_sends_to_eth, setup_transactions};
use send_to_eth_fees::tally::{fee_tally_to_coins, FeeTally};
use send_to_eth_fees::txs::group_into_txs;

fn amt(x: u64) -> Amount {
    Amount::from_u64(x)
}

fn coin(denom: &str, x: u64) -> Coin {
    Coin::new(denom.to_string(), amt(x))
}

fn sorted(mut coins: Vec<Coin>) -> Vec<(String, [u8; 32])> {
    coins.sort_by(|a, b| a.denom.cmp(&b.denom));
    coins.into_iter().map(|c| (c.denom, c.amount.to_be_bytes())).collect()
}

fn pairs(v: &[(&str, u64)]) -> Vec<(String, [u8; 32])> {
    let mut r: Vec<(String, [u8; 32])> =
        v.iter().map(|(d, x)| (d.to_string(), amt(*x).to_be_bytes())).collect();
    r.sort_by(|a, b| a.0.cmp(&b.0));
    r
}

fn coin_pairs(coins: &[Coin]) -> Vec<(String, [u8; 32])> {
    coins.iter().map(|c| (c.denom.clone(), c.amount.to_be_bytes())).collect()
}

fn unsorted(v: &[(&str, u64)]) -> Vec<(String, [u8; 32])> {
    v.iter().map(|(d, x)| (d.to_string(), amt(*x).to_be_bytes())).collect()
}

#[test]
fn amount_bytes_are_big_endian() {
    let b = amt(1024).to_be_bytes();
    let mut expected = [0u8; 32];
    expected[30] = 4;
    assert_eq!(b, expected);
    assert_eq!(Amount::from_be_bytes(expected), amt(1024));
}

#[test]
fn amount_arithmetic() {
    assert_eq!(amt(7).plus(amt(5)), amt(12));
    assert_eq!(amt(7).minus(amt(5)), amt(2));
    assert_eq!(amt(7).times(amt(5)), amt(35));
    assert_eq!(amt(17).div_floor(amt(5)), amt(3));
    assert!(amt(0).is_zero());
    assert!(!amt(3).is_zero());
    assert!(amt(3).same_as(amt(3)));
    assert!(!amt(3).same_as(amt(4)));
    assert!(amt(3).less_than(amt(4)));
    assert!(!amt(4).less_than(amt(4)));
    assert!(!amt(5).less_than(amt(4)));
}

#[test]
fn amount_beyond_u64() {
    let big = amt(u64::MAX).times(amt(u64::MAX));
    let mut expected = [0u8; 32];
    // (2^64 - 1)^2 = 2^128 - 2^65 + 1
    expected[16..24].copy_from_slice(&[0xff, 0xff, 0xff, 0xff, 0xff, 0xff, 0xff, 0xfe]);
    expected[31] = 1;
    assert_eq!(big.to_be_bytes(), expected);
}

#[test]
fn units() {
    assert_eq!(one_eth(), amt(1_000_000_000_000_000_000));
    assert_eq!(one_atom(), amt(1_000_000));
}

#[test]
fn min_fee_is_bridge_over_divisor_times_basis_points() {
    assert_eq!(get_min_fee(one_eth(), amt(2)), amt(200_000_000_000_000));
    assert_eq!(get_min_fee(one_atom(), amt(2)), amt(200));
    assert_eq!(get_min_fee(amt(12_345), amt(7)), amt(7));
    assert_eq!(get_min_fee(amt(9_999), amt(50)), amt(0));
    assert_eq!(get_min_fee(one_eth(), amt(0)), amt(0));
}

#[test]
fn success_and_fail_fees() {
    assert_eq!(get_success_test_fees(amt(0)), vec![amt(0), amt(1)]);
    assert_eq!(get_success_test_fees(amt(200)), vec![amt(200), amt(210)]);
    assert_eq!(get_fail_test_fees(amt(0)), Vec::<Amount>::new());
    assert_eq!(get_fail_test_fees(amt(200)), vec![amt(199)]);
}

#[test]
fn test_fees_straddle_min_fee() {
    for m in [0u64, 1, 200, 1_000_000] {
        for f in get_success_test_fees(amt(m)) {
            assert!(f.to_be_bytes() >= amt(m).to_be_bytes());
        }
        for f in get_fail_test_fees(amt(m)) {
            assert!(f.to_be_bytes() < amt(m).to_be_bytes());
        }
    }
}

#[test]
fn tally_counts_per_denom() {
    let mut t = FeeTally::new();
    assert_eq!(t.len(), 0);
    let a = "a".to_string();
    let b = "b".to_string();
    assert_eq!(t.get(&a), amt(0));
    t.insert(a.clone(), amt(5));
    t.insert(b.clone(), amt(3));
    t.insert(a.clone(), amt(9));
    assert_eq!(t.get(&a), amt(9));
    assert_eq!(t.get(&b), amt(3));
    assert_eq!(t.len(), 2);
    assert_eq!(sorted(fee_tally_to_coins(t)), pairs(&[("a", 9), ("b", 3)]));
}

#[test]
fn queue_repeats_each_fee() {
    let mut bridges = Vec::new();
    let mut fees = Vec::new();
    let mut tally = FeeTally::new();
    let mut total = FeeTally::new();
    total.insert("x".to_string(), amt(4));
    queue_sends_to_eth(
        2,
        "x".to_string(),
        amt(100),
        vec![amt(5), amt(15)],
        &mut bridges,
        &mut fees,
        &mut tally,
        &mut total,
    );
    assert_eq!(coin_pairs(&bridges), unsorted(&[("x", 100); 4]));
    assert_eq!(coin_pairs(&fees), unsorted(&[("x", 5), ("x", 5), ("x", 15), ("x", 15)]));
    assert_eq!(sorted(fee_tally_to_coins(tally)), pairs(&[("x", 40)]));
    assert_eq!(sorted(fee_tally_to_coins(total)), pairs(&[("x", 44)]));
}

#[test]
fn queue_with_no_repetitions_counts_nothing() {
    let mut bridges = Vec::new();
    let mut fees = Vec::new();
    let mut tally = FeeTally::new();
    let mut total = FeeTally::new();
    queue_sends_to_eth(
        0,
        "x".to_string(),
        amt(100),
        vec![amt(5)],
        &mut bridges,
        &mut fees,
        &mut tally,
        &mut total,
    );
    assert!(bridges.is_empty() && fees.is_empty());
    assert_eq!(tally.len(), 0);
    assert_eq!(total.len(), 0);
}

#[test]
fn setup_orders_ibc_first_then_each_erc20() {
    let (coins, fees, success, failure, total) =
        setup_transactions(2, vec!["gravity0xE".to_string()], "ibc/F".to_string(), 1);
    let e = 200_000_000_000_000u64;
    assert_eq!(
        coin_pairs(&coins),
        unsorted(&[
            ("ibc/F", 1_000_000),
            ("ibc/F", 1_000_000),
            ("ibc/F", 1_000_000),
            ("gravity0xE", 1_000_000_000_000_000_000),
            ("gravity0xE", 1_000_000_000_000_000_000),
            ("gravity0xE", 1_000_000_000_000_000_000),
        ])
    );
    assert_eq!(
        coin_pairs(&fees),
        unsorted(&[
            ("ibc/F", 200),
            ("ibc/F", 210),
            ("ibc/F", 199),
            ("gravity0xE", e),
            ("gravity0xE", e + 10),
            ("gravity0xE", e - 1),
        ])
    );
    assert_eq!(sorted(fee_tally_to_coins(success)), pairs(&[("ibc/F", 410), ("gravity0xE", 2 * e + 10)]));
    assert_eq!(sorted(fee_tally_to_coins(failure)), pairs(&[("ibc/F", 199), ("gravity0xE", e - 1)]));
    assert_eq!(
        sorted(fee_tally_to_coins(total)),
        pairs(&[("ibc/F", 609), ("gravity0xE", 3 * e + 9)])
    );
}

#[test]
fn setup_without_fee_has_no_failing_sends() {
    let (coins, fees, success, failure, total) =
        setup_transactions(0, vec!["gravity0xE".to_string()], "ibc/F".to_string(), 3);
    assert_eq!(coins.len(), 12);
    assert_eq!(fees.len(), 12);
    assert_eq!(sorted(fee_tally_to_coins(success)), pairs(&[("ibc/F", 3), ("gravity0xE", 3)]));
    assert_eq!(failure.len(), 0);
    assert_eq!(sorted(fee_tally_to_coins(total)), pairs(&[("ibc/F", 3), ("gravity0xE", 3)]));
}

#[test]
fn setup_total_is_success_plus_failure() {
    let denoms = vec!["a".to_string(), "b".to_string(), "a".to_string()];
    let (_, _, success, failure, total) = setup_transactions(7, denoms, "a".to_string(), 2);
    for d in ["a", "b"] {
        let d = d.to_string();
        assert_eq!(total.get(&d), success.get(&d).plus(failure.get(&d)));
    }
}

#[test]
fn grouping_follows_sizes_and_drops_short_tail() {
    let msgs: Vec<u32> = (0..10).collect();
    assert_eq!(group_into_txs(msgs, &vec![3, 10]), vec![vec![0, 1, 2]]);
    let msgs: Vec<u32> = (0..10).collect();
    assert_eq!(
        group_into_txs(msgs, &vec![2, 3]),
        vec![vec![0, 1], vec![2, 3, 4], vec![5, 6, 7]]
    );
    let msgs: Vec<u32> = (0..3).collect();
    assert_eq!(group_into_txs(msgs, &vec![0]), vec![vec![0], vec![1], vec![2]]);
    assert_eq!(group_into_txs(Vec::<u32>::new(), &vec![]), Vec::<Vec<u32>>::new());
}

#[test]
fn messages_pay_one_unit_to_the_relayer() {
    let msgs = build_send_to_eth_msgs(
        &"cosmos1s".to_string(),
        &"0xR".to_string(),
        &vec![coin("x", 100), coin("y", 50)],
        &vec![coin("x", 3), coin("y", 4), coin("z", 1)],
    );
    assert_eq!(msgs.len(), 2);
    let SendToEthMsg { sender, eth_dest, amount, bridge_fee, chain_fee } = &msgs[1];
    assert_eq!(sender, "cosmos1s");
    assert_eq!(eth_dest, "0xR");
    assert_eq!((amount.denom.as_str(), amount.amount), ("y", amt(50)));
    assert_eq!((bridge_fee.denom.as_str(), bridge_fee.amount), ("y", amt(1)));
    assert_eq!((chain_fee.denom.as_str(), chain_fee.amount), ("y", amt(4)));
}

#[test]
fn one_msg_plan_sends_each_message_alone() {
    let (txs, exp) = plan_one_msg_txs(
        2,
        vec!["gravity0xE".to_string()],
        "ibc/F".to_string(),
        "s".to_string(),
        "r".to_string(),
    );
    assert_eq!(txs.len(), 6);
    assert!(txs.iter().all(|t| t.len() == 1));
    assert_eq!(txs[2][0].chain_fee.amount, amt(199));
    assert_eq!(
        sorted(exp.expected_collected_fees),
        pairs(&[("ibc/F", 410), ("gravity0xE", 400_000_000_000_010)])
    );
    assert_eq!(
        sorted(exp.expected_failed_fees),
        pairs(&[("ibc/F", 199), ("gravity0xE", 199_999_999_999_999)])
    );
    assert_eq!(
        sorted(exp.total_attempted_fees),
        pairs(&[("ibc/F", 609), ("gravity0xE", 600_000_000_000_009)])
    );
}

#[test]
fn multi_msg_plan_packs_growing_txs() {
    let (txs, exp) = plan_multi_msg_txs(
        2,
        vec!["gravity0xE".to_string()],
        "ibc/F".to_string(),
        "s".to_string(),
        "r".to_string(),
    );
    // 42 messages: 3 + 10 + 20 fill three transactions, 9 are too few for 30.
    assert_eq!(txs.iter().map(|t| t.len()).collect::<Vec<_>>(), vec![3, 10, 20]);
    assert_eq!(txs[0][0].chain_fee.amount, amt(200));
    assert_eq!(txs[0][2].chain_fee.amount, amt(200));
    // The 33 messages sent: all 21 of the IBC token, and of the ERC20 token seven
    // at the minimum fee and five at ten above it.
    let e = 200_000_000_000_000u64;
    assert_eq!(
        sorted(exp.expected_collected_fees),
        pairs(&[("ibc/F", 7 * 410), ("gravity0xE", 12 * e + 50)])
    );
    assert_eq!(sorted(exp.expected_failed_fees), pairs(&[("ibc/F", 7 * 199)]));
    assert_eq!(
        sorted(exp.total_attempted_fees),
        pairs(&[("ibc/F", 7 * 609), ("gravity0xE", 12 * e + 50)])
    );
}

#[test]
fn multi_msg_expectations_split_the_total() {
    let (_, exp) = plan_multi_msg_txs(
        5,
        vec!["gravity0xA".to_string(), "gravity0xB".to_string()],
        "ibc/F".to_string(),
        "s".to_string(),
        "r".to_string(),
    );
    let mut collected = FeeTally::new();
    for c in exp.expected_collected_fees {
        collected.insert(c.denom, c.amount);
    }
    let mut failed = FeeTally::new();
    for c in exp.expected_failed_fees {
        failed.insert(c.denom, c.amount);
    }
    for c in exp.total_attempted_fees {
        assert_eq!(c.amount, collected.get(&c.denom).plus(failed.get(&c.denom)));
    }
}

#[test]
fn changing_params_plan_appends_raised_fees() {
    let (txs, exp) = plan_changing_params_txs(
        2,
        vec!["gravity0xE".to_string()],
        "ibc/F".to_string(),
        "s".to_string(),
        "r".to_string(),
    );
    let sizes: Vec<usize> = txs.iter().map(|t| t.len()).collect();
    let mut expected = vec![2, 4, 6, 5, 8, 3, 1, 3, 5, 4, 9, 12, 9];
    expected.extend(std::iter::repeat(1).take(13));
    assert_eq!(sizes, expected);
    let last = &txs[txs.len() - 1][0];
    assert_eq!((last.chain_fee.denom.as_str(), last.chain_fee.amount), ("gravity0xE", amt(1_999_999_999_999_999)));
    assert_eq!(
        sorted(exp.expected_collected_fees),
        pairs(&[("ibc/F", 7 * 4010), ("gravity0xE", 7 * 4_000_000_000_000_010)])
    );
    assert_eq!(
        sorted(exp.expected_failed_fees),
        pairs(&[("ibc/F", 7 * 1999), ("gravity0xE", 7 * 1_999_999_999_999_999)])
    );
    assert_eq!(
        sorted(exp.total_attempted_fees),
        pairs(&[("ibc/F", 7 * 6618), ("gravity0xE", 46_200_000_000_000_126)])
    );
}

#[test]
fn changing_params_expectations_leave_out_unsent_tail() {
    // 42 messages of the IBC token: 41 fill ten transactions, the last raised
    // failing send is too few for the next transaction of 9 and is not sent.
    let (txs, exp) = plan_changing_params_txs(
        1,
        vec![],
        "ibc/F".to_string(),
        "s".to_string(),
        "r".to_string(),
    );
    assert_eq!(txs.iter().map(|t| t.len()).sum::<usize>(), 41);
    assert_eq!(sorted(exp.expected_collected_fees), pairs(&[("ibc/F", 7 * 2010)]));
    assert_eq!(sorted(exp.expected_failed_fees), pairs(&[("ibc/F", 6 * 999)]));
    assert_eq!(
        sorted(exp.total_attempted_fees),
        pairs(&[("ibc/F", 7 * 309 + 7 * 2010 + 6 * 999)])
    );
}

#[test]
fn sequenced_txs_count_up_and_pay_less() {
    let (txs, _) = plan_changing_params_txs(
        1,
        vec![],
        "ibc/F".to_string(),
        "s".to_string(),
        "r".to_string(),
    );
    let n = txs.len();
    let seq = sequence_txs(txs, 41, amt(100));
    assert_eq!(seq.len(), n);
    for (i, tx) in seq.iter().enumerate() {
        assert_eq!(tx.sequence, 41 + i as u64);
        assert_eq!(tx.fee_amount, amt(100 - i as u64));
    }
}

#[test]
fn decimal_and_proposals() {
    assert_eq!(decimal_string(0), "0");
    assert_eq!(decimal_string(7), "7");
    assert_eq!(decimal_string(1204), "1204");
    assert_eq!(decimal_string(u64::MAX), u64::MAX.to_string());
    let p = fees_proposal(25);
    assert_eq!(p.title, "Set MinChainFeeBasisPoints to 25");
    assert_eq!(p.description, "MinChainFeeBasisPoints!");
    assert_eq!(p.min_chain_fee_basis_points, 25);
    let q = raise_fees_proposal(3);
    assert_eq!(q.title, "Send to eth fees");
    assert_eq!(q.description, "send to eth fees");
    assert_eq!(q.min_chain_fee_basis_points, 30);
    assert_eq!(erc20_denom("0xAbC"), "gravity0xAbC");
}
