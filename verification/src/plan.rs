use vstd::prelude::*;
use crate::amount::Amount;
use crate::coin::{Coin, coins_view};
use crate::msgs::{
    SendToEthMsg, build_send_to_eth_msgs, msg_spec, msgs_view, pack_msgs, send_msgs_spec, txs_view,
};
use crate::amount::uint256_limit;
use crate::expect::{
    chain_fees, coin_tally, fees_where, lemma_send_msgs_parts, lemma_sent_within, sent_msgs,
    tail_from, tally_sent_fees,
};
use crate::fees::one_eth_spec;
use crate::sends::{
    denom_total, lemma_denom_concat, lemma_sends_aligned, lemma_sends_bridge_amounts,
    lemma_setup_tally_bound_fits, lemma_total_tally_sums_all_fees, setup_sends, setup_tallies,
    setup_transactions, strings_view,
};
use crate::tally::{distinct_denoms, entries_map, fee_tally_to_coins};
use crate::txs::{
    batch_size, group, lemma_group_by_one, lemma_group_follows_sizes, lemma_group_laws,
    lemma_flatten_len, lemma_total_len_step, lemma_total_len_take, reversed, size_index_after,
    total_len,
};

verus! {

/// Helpful data for verifying that fee tests execute as expected.
#[derive(Debug)]
pub struct SendToEthFeeExpectations {
    /// Fees to collect on expected successful txs.
    pub expected_collected_fees: Vec<Coin>,
    /// Fees to fail to collect due to insufficient fees.
    pub expected_failed_fees: Vec<Coin>,
    /// Total fees on all attempted txs.
    pub total_attempted_fees: Vec<Coin>,
}

/// The coins list one coin per denomination, and together they are the tally `m`.
pub open spec fn coins_match_tally(coins: Seq<Coin>, m: Map<Seq<char>, nat>) -> bool {
    &&& distinct_denoms(coins_view(coins))
    &&& entries_map(coins_view(coins)) == m
}

/// The sizes of the transactions of the multi-message run.
pub open spec fn multi_msg_tx_sizes() -> Seq<usize> {
    seq![3, 10, 20, 30, 40, 60]
}

/// The sizes of the transactions of the run during the change of the fee.
pub open spec fn changing_params_tx_sizes() -> Seq<usize> {
    seq![2, 4, 6, 5, 8, 3, 1, 3, 5, 4, 9, 12, 9, 1]
}

/// How often each fee is sent in the multi-message runs.
pub const SENDS_PER_FEE: usize = 7;

fn multi_msg_sizes() -> (r: Vec<usize>)
    ensures
        r@ == multi_msg_tx_sizes(),
{
    let mut r: Vec<usize> = Vec::new();
    r.push(3);
    r.push(10);
    r.push(20);
    r.push(30);
    r.push(40);
    r.push(60);
    assert(r@ =~= multi_msg_tx_sizes());
    r
}

fn changing_params_sizes() -> (r: Vec<usize>)
    ensures
        r@ == changing_params_tx_sizes(),
{
    let mut r: Vec<usize> = Vec::new();
    r.push(2);
    r.push(4);
    r.push(6);
    r.push(5);
    r.push(8);
    r.push(3);
    r.push(1);
    r.push(3);
    r.push(5);
    r.push(4);
    r.push(9);
    r.push(12);
    r.push(9);
    r.push(1);
    assert(r@ =~= changing_params_tx_sizes());
    r
}

fn single_sizes() -> (r: Vec<usize>)
    ensures
        r@ == seq![1usize],
{
    let mut r: Vec<usize> = Vec::new();
    r.push(1);
    assert(r@ =~= seq![1usize]);
    r
}

/// The transactions of the single-message run at `min_fee_basis_points`: every
/// fee sent once, each message in a transaction of its own; with the fees the
/// run is expected to collect, to fail to collect, and to attempt in all.
pub fn plan_one_msg_txs(
    min_fee_basis_points: u64,
    erc20_denoms: Vec<String>,
    ibc_denom: String,
    sender: String,
    receiver: String,
) -> (r: (Vec<Vec<SendToEthMsg>>, SendToEthFeeExpectations))
    ensures
        txs_view(r.0@) == group(
            send_msgs_spec(
                sender@,
                receiver@,
                setup_sends(min_fee_basis_points as nat, strings_view(erc20_denoms@), ibc_denom@, 1).0,
                setup_sends(min_fee_basis_points as nat, strings_view(erc20_denoms@), ibc_denom@, 1).1,
            ),
            seq![1usize],
            0,
        ),
        coins_match_tally(
            r.1.expected_collected_fees@,
            setup_tallies(min_fee_basis_points as nat, strings_view(erc20_denoms@), ibc_denom@, 1).0,
        ),
        coins_match_tally(
            r.1.expected_failed_fees@,
            setup_tallies(min_fee_basis_points as nat, strings_view(erc20_denoms@), ibc_denom@, 1).1,
        ),
        coins_match_tally(
            r.1.total_attempted_fees@,
            setup_tallies(min_fee_basis_points as nat, strings_view(erc20_denoms@), ibc_denom@, 1).2,
        ),
{
    let (coins_to_send, fees_for_send, success_fee_tally, failure_fee_tally, total_fee_tally) =
        setup_transactions(min_fee_basis_points, erc20_denoms, ibc_denom, 1);
    let msgs = build_send_to_eth_msgs(&sender, &receiver, &coins_to_send, &fees_for_send);
    let sizes = single_sizes();
    let txs = pack_msgs(msgs, &sizes);
    let expectations = SendToEthFeeExpectations {
        expected_collected_fees: fee_tally_to_coins(success_fee_tally),
        expected_failed_fees: fee_tally_to_coins(failure_fee_tally),
        total_attempted_fees: fee_tally_to_coins(total_fee_tally),
    };
    (txs, expectations)
}

/// The transactions of the multi-message run at `min_fee_basis_points`: every
/// fee sent seven times, the messages packed into transactions of 3, 10, 20, 30,
/// 40 and then 60 messages, messages too few to fill the next transaction left
/// unsent. The expectations cover the messages sent: the chain fees of those
/// that meet the minimum fee for the amount they bridge, of those that miss it,
/// and of all of them.
pub fn plan_multi_msg_txs(
    min_fee_basis_points: u64,
    erc20_denoms: Vec<String>,
    ibc_denom: String,
    sender: String,
    receiver: String,
) -> (r: (Vec<Vec<SendToEthMsg>>, SendToEthFeeExpectations))
    ensures
        txs_view(r.0@) == group(
            send_msgs_spec(
                sender@,
                receiver@,
                setup_sends(min_fee_basis_points as nat, strings_view(erc20_denoms@), ibc_denom@, 7).0,
                setup_sends(min_fee_basis_points as nat, strings_view(erc20_denoms@), ibc_denom@, 7).1,
            ),
            multi_msg_tx_sizes(),
            0,
        ),
        coins_match_tally(
            r.1.expected_collected_fees@,
            coin_tally(fees_where(sent_msgs(r.0@), min_fee_basis_points as nat, true)),
        ),
        coins_match_tally(
            r.1.expected_failed_fees@,
            coin_tally(fees_where(sent_msgs(r.0@), min_fee_basis_points as nat, false)),
        ),
        coins_match_tally(r.1.total_attempted_fees@, coin_tally(chain_fees(sent_msgs(r.0@)))),
{
    let ghost denoms = strings_view(erc20_denoms@);
    let ghost ibc = ibc_denom@;
    let ghost bp = min_fee_basis_points as nat;
    let (coins_to_send, fees_for_send, _, _, total_fee_tally) =
        setup_transactions(min_fee_basis_points, erc20_denoms, ibc_denom, SENDS_PER_FEE);
    let msgs = build_send_to_eth_msgs(&sender, &receiver, &coins_to_send, &fees_for_send);
    let ghost mv = msgs_view(msgs@);
    proof {
        let sends = setup_sends(bp, denoms, ibc, 7);
        lemma_sends_aligned(bp, denoms, ibc, 7);
        lemma_send_msgs_parts(sender@, receiver@, sends.0, sends.1);
        lemma_sends_bridge_amounts(bp, denoms, ibc, 7);
        lemma_setup_tally_bound_fits();
        assert forall|d: Seq<char>| #[trigger] denom_total(chain_fees(mv), d) < uint256_limit() by {
            lemma_total_tally_sums_all_fees(bp, denoms, ibc, 7, d);
        }
        assert forall|i: int| 0 <= i < mv.len() implies (#[trigger] mv[i]).2.1 <= one_eth_spec() by {
            assert(mv[i].2 == sends.0[i]);
        }
    }
    let sizes = multi_msg_sizes();
    let txs = pack_msgs(msgs, &sizes);
    proof {
        lemma_sent_within(txs@, mv, sizes@, bp);
    }
    let (met, missed, all) = tally_sent_fees(&txs, min_fee_basis_points, 0);
    proof {
        assert(tail_from(sent_msgs(txs@), 0) =~= sent_msgs(txs@));
    }
    let expectations = SendToEthFeeExpectations {
        expected_collected_fees: fee_tally_to_coins(met),
        expected_failed_fees: fee_tally_to_coins(missed),
        total_attempted_fees: fee_tally_to_coins(all),
    };
    (txs, expectations)
}

/// The transactions of the run during which the minimum fee is raised tenfold:
/// every fee at the current minimum fee and then every fee at ten times it, each
/// sent seven times, packed into transactions of 2, 4, 6, 5, 8, 3, 1, 3, 5, 4, 9,
/// 12, 9 and then 1 messages, messages too few to fill the next transaction left
/// unsent. The expectations cover the messages sent: of those meant for the
/// raised fee, the chain fees of those that meet and of those that miss the
/// raised minimum fee for the amount they bridge; and the chain fees of all of
/// them, at both fees. The current minimum fee must be set, and ten times it must
/// fit in a `u64`.
pub fn plan_changing_params_txs(
    current_fee_basis_points: u64,
    erc20_denoms: Vec<String>,
    ibc_denom: String,
    sender: String,
    receiver: String,
) -> (r: (Vec<Vec<SendToEthMsg>>, SendToEthFeeExpectations))
    requires
        current_fee_basis_points != 0,
        current_fee_basis_points * 10 <= u64::MAX,
    ensures
        txs_view(r.0@) == group(
            send_msgs_spec(
                sender@,
                receiver@,
                setup_sends(current_fee_basis_points as nat, strings_view(erc20_denoms@), ibc_denom@, 7).0
                    + setup_sends(
                    current_fee_basis_points as nat * 10,
                    strings_view(erc20_denoms@),
                    ibc_denom@,
                    7,
                ).0,
                setup_sends(current_fee_basis_points as nat, strings_view(erc20_denoms@), ibc_denom@, 7).1
                    + setup_sends(
                    current_fee_basis_points as nat * 10,
                    strings_view(erc20_denoms@),
                    ibc_denom@,
                    7,
                ).1,
            ),
            changing_params_tx_sizes(),
            0,
        ),
        coins_match_tally(
            r.1.expected_collected_fees@,
            coin_tally(
                fees_where(
                    tail_from(
                        sent_msgs(r.0@),
                        setup_sends(
                            current_fee_basis_points as nat,
                            strings_view(erc20_denoms@),
                            ibc_denom@,
                            7,
                        ).0.len(),
                    ),
                    current_fee_basis_points as nat * 10,
                    true,
                ),
            ),
        ),
        coins_match_tally(
            r.1.expected_failed_fees@,
            coin_tally(
                fees_where(
                    tail_from(
                        sent_msgs(r.0@),
                        setup_sends(
                            current_fee_basis_points as nat,
                            strings_view(erc20_denoms@),
                            ibc_denom@,
                            7,
                        ).0.len(),
                    ),
                    current_fee_basis_points as nat * 10,
                    false,
                ),
            ),
        ),
        coins_match_tally(r.1.total_attempted_fees@, coin_tally(chain_fees(sent_msgs(r.0@)))),
{
    let ghost denoms = strings_view(erc20_denoms@);
    let ghost ibc = ibc_denom@;
    let ghost bp = current_fee_basis_points as nat;
    let raised = current_fee_basis_points * 10;
    let (mut coins_to_send, mut fees_for_send, _, _, total1) = setup_transactions(
        current_fee_basis_points,
        erc20_denoms.clone(),
        ibc_denom.clone(),
        SENDS_PER_FEE,
    );
    let (mut coins_to_send2, mut fees_for_send2, _, _, total2) =
        setup_transactions(raised, erc20_denoms, ibc_denom, SENDS_PER_FEE);
    let first_level = coins_to_send.len();
    let ghost c1 = coins_view(coins_to_send@);
    let ghost f1 = coins_view(fees_for_send@);
    let ghost c2 = coins_view(coins_to_send2@);
    let ghost f2 = coins_view(fees_for_send2@);
    coins_to_send.append(&mut coins_to_send2);
    fees_for_send.append(&mut fees_for_send2);
    assert(coins_view(coins_to_send@) =~= c1 + c2);
    assert(coins_view(fees_for_send@) =~= f1 + f2);
    let msgs = build_send_to_eth_msgs(&sender, &receiver, &coins_to_send, &fees_for_send);
    let ghost mv = msgs_view(msgs@);
    proof {
        lemma_sends_aligned(bp, denoms, ibc, 7);
        lemma_sends_aligned(bp * 10, denoms, ibc, 7);
        lemma_send_msgs_parts(sender@, receiver@, c1 + c2, f1 + f2);
        lemma_sends_bridge_amounts(bp, denoms, ibc, 7);
        lemma_sends_bridge_amounts(bp * 10, denoms, ibc, 7);
        lemma_setup_tally_bound_fits();
        assert forall|d: Seq<char>| #[trigger] denom_total(chain_fees(mv), d) < uint256_limit() by {
            lemma_total_tally_sums_all_fees(bp, denoms, ibc, 7, d);
            lemma_total_tally_sums_all_fees(bp * 10, denoms, ibc, 7, d);
            lemma_denom_concat(f1, f2, d);
        }
        assert forall|i: int| 0 <= i < mv.len() implies (#[trigger] mv[i]).2.1 <= one_eth_spec() by {
            assert(mv[i].2 == (c1 + c2)[i]);
            if i < c1.len() {
                assert((c1 + c2)[i] == c1[i]);
            } else {
                assert((c1 + c2)[i] == c2[i - c1.len()]);
            }
        }
    }
    let sizes = changing_params_sizes();
    let txs = pack_msgs(msgs, &sizes);
    proof {
        lemma_sent_within(txs@, mv, sizes@, raised as nat);
    }
    let (met, missed, all) = tally_sent_fees(&txs, raised, first_level);
    let expectations = SendToEthFeeExpectations {
        expected_collected_fees: fee_tally_to_coins(met),
        expected_failed_fees: fee_tally_to_coins(missed),
        total_attempted_fees: fee_tally_to_coins(all),
    };
    (txs, expectations)
}

/// A transaction of the run during the change of the fee, with the sequence
/// number it is signed with and the amount of its transaction fee.
#[derive(Debug)]
pub struct SequencedTx {
    pub sequence: u64,
    pub fee_amount: Amount,
    pub msgs: Vec<SendToEthMsg>,
}

/// Numbers the transactions in order: the `i`-th is signed with sequence
/// `base_sequence + i` and pays `i` less than `base_fee`, so that the chain
/// prefers them in order.
pub fn sequence_txs(txs: Vec<Vec<SendToEthMsg>>, base_sequence: u64, base_fee: Amount) -> (r: Vec<
    SequencedTx,
>)
    requires
        txs@.len() == 0 || base_sequence + (txs@.len() - 1) <= u64::MAX,
        txs@.len() == 0 || txs@.len() - 1 <= base_fee@,
    ensures
        r@.len() == txs@.len(),
        forall|i: int|
            0 <= i < r@.len() ==> {
                &&& (#[trigger] r@[i]).sequence == base_sequence + i
                &&& r@[i].fee_amount@ == base_fee@ - i
                &&& r@[i].msgs@ == txs@[i]@
            },
{
    let ghost orig = txs@;
    let ghost n = orig.len();
    let mut rev = reversed(txs);
    let mut r: Vec<SequencedTx> = Vec::new();
    while rev.len() > 0
        invariant
            n == orig.len(),
            r@.len() + rev@.len() == n,
            forall|k: int| 0 <= k < rev@.len() ==> #[trigger] rev@[k] == orig[n - 1 - k],
            n == 0 || base_sequence + (n - 1) <= u64::MAX,
            n == 0 || n - 1 <= base_fee@,
            forall|i: int|
                0 <= i < r@.len() ==> {
                    &&& (#[trigger] r@[i]).sequence == base_sequence + i
                    &&& r@[i].fee_amount@ == base_fee@ - i
                    &&& r@[i].msgs@ == orig[i]@
                },
        decreases rev@.len(),
    {
        let tx_num = r.len();
        let msgs = rev.pop().unwrap();
        assert(msgs == orig[tx_num as int]);
        let offset = tx_num as u64;
        let fee_amount = base_fee.minus(Amount::from_u64(offset));
        let ghost before = r@;
        r.push(SequencedTx { sequence: base_sequence + offset, fee_amount, msgs });
        assert forall|i: int| 0 <= i < r@.len() implies {
            &&& (#[trigger] r@[i]).sequence == base_sequence + i
            &&& r@[i].fee_amount@ == base_fee@ - i
            &&& r@[i].msgs@ == orig[i]@
        } by {
            if i < before.len() {
                assert(r@[i] == before[i]);
            }
        }
    }
    r
}

/// In the single-message run every queued send goes out, in a transaction of its
/// own, in the order the sends were queued.
pub proof fn lemma_one_msg_plan_sends_every_send(
    basis_points: nat,
    erc20_denoms: Seq<Seq<char>>,
    ibc_denom: Seq<char>,
    sender: Seq<char>,
    receiver: Seq<char>,
)
    ensures
        group(
            send_msgs_spec(
                sender,
                receiver,
                setup_sends(basis_points, erc20_denoms, ibc_denom, 1).0,
                setup_sends(basis_points, erc20_denoms, ibc_denom, 1).1,
            ),
            seq![1usize],
            0,
        ).len() == setup_sends(basis_points, erc20_denoms, ibc_denom, 1).0.len(),
        forall|i: int|
            0 <= i < setup_sends(basis_points, erc20_denoms, ibc_denom, 1).0.len() ==> #[trigger] group(
                send_msgs_spec(
                    sender,
                    receiver,
                    setup_sends(basis_points, erc20_denoms, ibc_denom, 1).0,
                    setup_sends(basis_points, erc20_denoms, ibc_denom, 1).1,
                ),
                seq![1usize],
                0,
            )[i] == seq![
                msg_spec(
                    sender,
                    receiver,
                    setup_sends(basis_points, erc20_denoms, ibc_denom, 1).0[i],
                    setup_sends(basis_points, erc20_denoms, ibc_denom, 1).1[i],
                ),
            ],
{
    let sends = setup_sends(basis_points, erc20_denoms, ibc_denom, 1);
    lemma_sends_aligned(basis_points, erc20_denoms, ibc_denom, 1);
    let msgs = send_msgs_spec(sender, receiver, sends.0, sends.1);
    lemma_group_by_one(msgs);
}


/// The multi-message run packs by the schedule 3, 10, 20, 30, 40 and then 60:
/// the `i`-th transaction holds that many messages; so 63 messages go out
/// entirely, in transactions of 3, 10, 20 and 30.
pub proof fn lemma_multi_msg_schedule<T>(msgs: Seq<T>)
    ensures
        forall|i: int|
            0 <= i < group(msgs, multi_msg_tx_sizes(), 0).len() ==> (#[trigger] group(
                msgs,
                multi_msg_tx_sizes(),
                0,
            )[i]).len() == seq![3int, 10, 20, 30, 40, 60][if i < 6 {
                i
            } else {
                5
            }],
        msgs.len() == 63 ==> group(msgs, multi_msg_tx_sizes(), 0).len() == 4 && group(
            msgs,
            multi_msg_tx_sizes(),
            0,
        ).flatten() == msgs,
{
    let sizes = multi_msg_tx_sizes();
    lemma_group_follows_sizes(msgs, sizes);
    let g = group(msgs, sizes, 0);
    if msgs.len() == 63 {
        lemma_group_laws(msgs, sizes, 0);
        let l = g.flatten().len();
        assert(l <= 63);
        assert(63 - l < batch_size(sizes, size_index_after(sizes, 0, g.len())));
        lemma_flatten_len(g);
        assert(g.take(0) =~= Seq::<Seq<T>>::empty());
        let k = if g.len() < 5 { g.len() as int } else { 5 };
        let lens = seq![3int, 10, 20, 30, 40, 60];
        let sums = seq![0int, 3, 13, 33, 63, 103];
        assert forall|c: int| 0 <= c <= k implies #[trigger] total_len(g.take(c)) == sums[c] by {
            lemma_total_len_prefix_sums(g, c, lens, sums);
        }
        lemma_total_len_take(g, k);
        assert(g.take(g.len() as int) =~= g);
        if g.len() == 4 {
            assert(msgs.take(63) =~= msgs);
        }
    }
}

proof fn lemma_total_len_prefix_sums<T>(g: Seq<Seq<T>>, c: int, lens: Seq<int>, sums: Seq<int>)
    requires
        0 <= c <= g.len(),
        c <= 5,
        lens == seq![3int, 10, 20, 30, 40, 60],
        sums == seq![0int, 3, 13, 33, 63, 103],
        forall|i: int| 0 <= i < g.len() ==> (#[trigger] g[i]).len() == lens[if i < 6 { i } else { 5 }],
    ensures
        total_len(g.take(c)) == sums[c],
    decreases c,
{
    if c == 0 {
        assert(g.take(0) =~= Seq::<Seq<T>>::empty());
    } else {
        lemma_total_len_prefix_sums(g, c - 1, lens, sums);
        lemma_total_len_step(g, c - 1);
    }
}

/// The run during the change of the fee packs by the schedule 2, 4, 6, 5, 8, 3,
/// 1, 3, 5, 4, 9, 12, 9 and then 1.
pub proof fn lemma_changing_params_schedule<T>(msgs: Seq<T>)
    ensures
        forall|i: int|
            0 <= i < group(msgs, changing_params_tx_sizes(), 0).len() ==> (#[trigger] group(
                msgs,
                changing_params_tx_sizes(),
                0,
            )[i]).len() == seq![2int, 4, 6, 5, 8, 3, 1, 3, 5, 4, 9, 12, 9, 1][if i < 14 {
                i
            } else {
                13
            }],
{
    lemma_group_follows_sizes(msgs, changing_params_tx_sizes());
}

} // verus!
