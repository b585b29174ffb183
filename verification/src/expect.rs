use vstd::prelude::*;
use vstd::seq_lib::lemma_flatten_alt_concat;
use crate::amount::{Amount, uint256_limit};
use crate::fees::{get_min_fee, min_fee_spec};
use crate::msgs::{SendToEthMsg, msgs_view, send_msgs_spec, txs_view};
use crate::txs::{group, lemma_group_laws};
use crate::fees::{lemma_min_fee_bound, one_eth_spec};
use crate::sends::{denom_count, denom_total, lemma_denom_concat};
use crate::tally::{FeeTally, lookup};

verus! {

/// The view of a message: sender, destination, bridged coin, relayer fee, chain fee.
pub type MsgView = (Seq<char>, Seq<char>, (Seq<char>, nat), (Seq<char>, nat), (Seq<char>, nat));

/// The tally of a list of coins: per denomination, the sum of its coins; a
/// denomination is held exactly when some coin is of it.
pub open spec fn coin_tally(coins: Seq<(Seq<char>, nat)>) -> Map<Seq<char>, nat>
    decreases coins.len(),
{
    if coins.len() == 0 {
        Map::empty()
    } else {
        let p = coin_tally(coins.drop_last());
        p.insert(coins.last().0, lookup(p, coins.last().0) + coins.last().1)
    }
}

/// The chain fees of the messages, in order.
pub open spec fn chain_fees(msgs: Seq<MsgView>) -> Seq<(Seq<char>, nat)> {
    msgs.map_values(|m: MsgView| m.4)
}

/// The message's chain fee meets the minimum fee, at `basis_points`, of the
/// amount it bridges: the chain is expected to accept it.
pub open spec fn meets_min_fee(m: MsgView, basis_points: nat) -> bool {
    m.4.1 >= min_fee_spec(m.2.1, basis_points)
}

/// The chain fees of those messages that meet (`meets`) or miss (`!meets`) the
/// minimum fee at `basis_points`, in order.
pub open spec fn fees_where(msgs: Seq<MsgView>, basis_points: nat, meets: bool) -> Seq<
    (Seq<char>, nat),
>
    decreases msgs.len(),
{
    if msgs.len() == 0 {
        seq![]
    } else {
        let p = fees_where(msgs.drop_last(), basis_points, meets);
        if meets_min_fee(msgs.last(), basis_points) == meets {
            p.push(msgs.last().4)
        } else {
            p
        }
    }
}

/// The items of `s` from position `k` on; none when `s` is shorter.
pub open spec fn tail_from<T>(s: Seq<T>, k: nat) -> Seq<T> {
    if k <= s.len() {
        s.skip(k as int)
    } else {
        seq![]
    }
}

/// The messages that the transactions carry, in the order they are sent.
pub open spec fn sent_msgs(txs: Seq<Vec<SendToEthMsg>>) -> Seq<MsgView> {
    txs_view(txs).flatten()
}

/// The tally of a list of coins holds, per denomination, the sum of its coins, and
/// holds it exactly when some coin is of it.
pub proof fn lemma_coin_tally_lookup(coins: Seq<(Seq<char>, nat)>, denom: Seq<char>)
    ensures
        lookup(coin_tally(coins), denom) == denom_total(coins, denom),
        coin_tally(coins).dom().contains(denom) == (denom_count(coins, denom) > 0),
    decreases coins.len(),
{
    if coins.len() > 0 {
        lemma_coin_tally_lookup(coins.drop_last(), denom);
    }
}

proof fn lemma_chain_fees_concat(a: Seq<MsgView>, b: Seq<MsgView>)
    ensures
        chain_fees(a + b) == chain_fees(a) + chain_fees(b),
{
    assert(chain_fees(a + b) =~= chain_fees(a) + chain_fees(b));
}

proof fn lemma_fees_where_bounded(msgs: Seq<MsgView>, basis_points: nat, meets: bool, denom: Seq<char>)
    ensures
        denom_total(fees_where(msgs, basis_points, meets), denom) <= denom_total(
            chain_fees(msgs),
            denom,
        ),
    decreases msgs.len(),
{
    if msgs.len() > 0 {
        lemma_fees_where_bounded(msgs.drop_last(), basis_points, meets, denom);
        assert(chain_fees(msgs).drop_last() =~= chain_fees(msgs.drop_last()));
        let p = fees_where(msgs.drop_last(), basis_points, meets);
        assert(p.push(msgs.last().4).drop_last() =~= p);
    }
}

proof fn lemma_tail_from_push<T>(done: Seq<T>, m: T, from: nat)
    ensures
        tail_from(done.push(m), from) == if done.len() >= from {
            tail_from(done, from).push(m)
        } else {
            seq![]
        },
{
    if done.len() >= from {
        assert(done.push(m).skip(from as int) =~= done.skip(from as int).push(m));
    } else if done.len() + 1 == from {
        assert(done.push(m).skip(from as int) =~= Seq::<T>::empty());
    }
}

proof fn lemma_tail_bounded(done: Seq<MsgView>, from: nat, basis_points: nat, meets: bool, denom: Seq<char>)
    ensures
        denom_total(fees_where(tail_from(done, from), basis_points, meets), denom) <= denom_total(
            chain_fees(done),
            denom,
        ),
{
    let t = tail_from(done, from);
    lemma_fees_where_bounded(t, basis_points, meets, denom);
    if from <= done.len() {
        assert(done =~= done.take(from as int) + t);
        lemma_chain_fees_concat(done.take(from as int), t);
        lemma_denom_concat(chain_fees(done.take(from as int)), chain_fees(t), denom);
    } else {
        assert(chain_fees(t) =~= Seq::<(Seq<char>, nat)>::empty());
    }
}

proof fn lemma_coin_tally_push(coins: Seq<(Seq<char>, nat)>, c: (Seq<char>, nat))
    ensures
        coin_tally(coins.push(c)) == coin_tally(coins).insert(
            c.0,
            lookup(coin_tally(coins), c.0) + c.1,
        ),
{
    assert(coins.push(c).drop_last() =~= coins);
}

/// Counts `fee` of its denomination in `tally`.
fn count_fee(tally: &mut FeeTally, fee: &crate::coin::Coin)
    requires
        lookup(old(tally)@, fee.denom@) + fee.amount@ < uint256_limit(),
    ensures
        final(tally)@ == old(tally)@.insert(fee.denom@, lookup(old(tally)@, fee.denom@) + fee.amount@),
{
    let counted = tally.get(&fee.denom);
    tally.insert(fee.denom.clone(), counted.plus(fee.amount));
}

/// Tallies the chain fees the transactions carry: all of them, and, among the
/// messages from position `from` on, those that meet and those that miss the
/// minimum fee at `basis_points` for the amount they bridge.
pub fn tally_sent_fees(txs: &Vec<Vec<SendToEthMsg>>, basis_points: u64, from: usize) -> (r: (
    FeeTally,
    FeeTally,
    FeeTally,
))
    requires
        forall|d: Seq<char>| #[trigger]
            denom_total(chain_fees(sent_msgs(txs@)), d) < uint256_limit(),
        forall|i: int|
            0 <= i < sent_msgs(txs@).len() ==> min_fee_spec(
                #[trigger] sent_msgs(txs@)[i].2.1,
                basis_points as nat,
            ) < uint256_limit(),
    ensures
        r.0@ == coin_tally(fees_where(tail_from(sent_msgs(txs@), from as nat), basis_points as nat, true)),
        r.1@ == coin_tally(fees_where(tail_from(sent_msgs(txs@), from as nat), basis_points as nat, false)),
        r.2@ == coin_tally(chain_fees(sent_msgs(txs@))),
{
    let ghost t = txs_view(txs@);
    let ghost bp = basis_points as nat;
    let ghost all = t.flatten_alt();
    proof {
        t.lemma_flatten_and_flatten_alt_are_equivalent();
    }
    let bp_amount = Amount::from_u64(basis_points);
    let mut met = FeeTally::new();
    let mut missed = FeeTally::new();
    let mut total = FeeTally::new();
    let mut k: usize = 0;
    let mut i: usize = 0;
    assert(t.take(0).flatten_alt() =~= Seq::<MsgView>::empty());
    assert(coin_tally(Seq::<(Seq<char>, nat)>::empty()) =~= Map::<Seq<char>, nat>::empty());
    assert(fees_where(tail_from(Seq::<MsgView>::empty(), from as nat), bp, true) =~= Seq::empty());
    assert(fees_where(tail_from(Seq::<MsgView>::empty(), from as nat), bp, false) =~= Seq::empty());
    assert(chain_fees(Seq::<MsgView>::empty()) =~= Seq::empty());
    while i < txs.len()
        invariant
            i <= txs@.len(),
            t == txs_view(txs@),
            bp == basis_points as nat,
            bp_amount@ == bp,
            all == t.flatten_alt(),
            all == sent_msgs(txs@),
            forall|d: Seq<char>| #[trigger] denom_total(chain_fees(all), d) < uint256_limit(),
            forall|x: int| 0 <= x < all.len() ==> min_fee_spec(#[trigger] all[x].2.1, bp) < uint256_limit(),
            k as nat == if t.take(i as int).flatten_alt().len() < from {
                t.take(i as int).flatten_alt().len()
            } else {
                from as nat
            },
            met@ == coin_tally(fees_where(tail_from(t.take(i as int).flatten_alt(), from as nat), bp, true)),
            missed@ == coin_tally(fees_where(tail_from(t.take(i as int).flatten_alt(), from as nat), bp, false)),
            total@ == coin_tally(chain_fees(t.take(i as int).flatten_alt())),
        decreases txs@.len() - i,
    {
        let tx = &txs[i];
        let ghost before = t.take(i as int).flatten_alt();
        assert(t[i as int] == msgs_view(tx@));
        let mut j: usize = 0;
        assert(before + msgs_view(tx@).take(0) =~= before);
        while j < tx.len()
            invariant
                i < txs@.len(),
                j <= tx@.len(),
                *tx == txs@[i as int],
                t == txs_view(txs@),
                t[i as int] == msgs_view(tx@),
                bp == basis_points as nat,
                bp_amount@ == bp,
                all == t.flatten_alt(),
                before == t.take(i as int).flatten_alt(),
                forall|d: Seq<char>| #[trigger] denom_total(chain_fees(all), d) < uint256_limit(),
                forall|x: int| 0 <= x < all.len() ==> min_fee_spec(#[trigger] all[x].2.1, bp) < uint256_limit(),
                k as nat == if (before + msgs_view(tx@).take(j as int)).len() < from {
                    (before + msgs_view(tx@).take(j as int)).len()
                } else {
                    from as nat
                },
                met@ == coin_tally(fees_where(tail_from(before + msgs_view(tx@).take(j as int), from as nat), bp, true)),
                missed@ == coin_tally(fees_where(tail_from(before + msgs_view(tx@).take(j as int), from as nat), bp, false)),
                total@ == coin_tally(chain_fees(before + msgs_view(tx@).take(j as int))),
            decreases tx@.len() - j,
        {
            let msg = &tx[j];
            let ghost done = before + msgs_view(tx@).take(j as int);
            let ghost next = before + msgs_view(tx@).take(j + 1);
            let ghost mv = msg@;
            proof {
                assert(msgs_view(tx@)[j as int] == mv);
                assert(next =~= done.push(mv));
                // `next` is a prefix of everything sent
                let rest_tx = msgs_view(tx@).skip(j + 1);
                let rest = rest_tx + t.skip(i + 1).flatten_alt();
                lemma_flatten_alt_concat(t.take(i + 1), t.skip(i + 1));
                assert(t =~= t.take(i + 1) + t.skip(i + 1));
                assert(t.take(i + 1).drop_last() =~= t.take(i as int));
                assert(t.take(i + 1).flatten_alt() == before + t[i as int]);
                assert(msgs_view(tx@) =~= msgs_view(tx@).take(j + 1) + rest_tx);
                assert(all =~= next + rest);
                assert(all[done.len() as int] == mv);
                lemma_chain_fees_concat(next, rest);
                assert(chain_fees(next) =~= chain_fees(done).push(mv.4));
                assert(chain_fees(next).drop_last() =~= chain_fees(done));
                assert forall|d: Seq<char>| denom_total(chain_fees(next), d) < uint256_limit() by {
                    lemma_denom_concat(chain_fees(next), chain_fees(rest), d);
                    assert(denom_total(chain_fees(all), d) < uint256_limit());
                }
                lemma_tail_from_push(done, mv, from as nat);
                lemma_coin_tally_push(chain_fees(done), mv.4);
                lemma_coin_tally_lookup(chain_fees(done), mv.4.0);
                lemma_tail_bounded(next, from as nat, bp, true, mv.4.0);
                lemma_tail_bounded(next, from as nat, bp, false, mv.4.0);
                assert(denom_total(chain_fees(next), mv.4.0) < uint256_limit());
            }
            let fee = &msg.chain_fee;
            assert(fee.denom@ == mv.4.0 && fee.amount@ == mv.4.1);
            count_fee(&mut total, fee);
            if k >= from {
                let min_fee = get_min_fee(msg.amount.amount, bp_amount);
                let ghost tail = tail_from(done, from as nat);
                proof {
                    lemma_coin_tally_lookup(fees_where(tail, bp, true), mv.4.0);
                    lemma_coin_tally_lookup(fees_where(tail, bp, false), mv.4.0);
                    lemma_coin_tally_lookup(fees_where(tail.push(mv), bp, true), mv.4.0);
                    lemma_coin_tally_lookup(fees_where(tail.push(mv), bp, false), mv.4.0);
                    assert(tail.push(mv).drop_last() =~= tail);
                    lemma_coin_tally_push(fees_where(tail, bp, true), mv.4);
                    lemma_coin_tally_push(fees_where(tail, bp, false), mv.4);
                }
                if fee.amount.less_than(min_fee) {
                    count_fee(&mut missed, fee);
                } else {
                    count_fee(&mut met, fee);
                }
            } else {
                proof {
                    assert(tail_from(done, from as nat) =~= Seq::<MsgView>::empty());
                }
            }
            if k < from {
                k = k + 1;
            }
            j = j + 1;
        }
        proof {
            assert(msgs_view(tx@).take(tx@.len() as int) =~= msgs_view(tx@));
            assert(t.take(i + 1).drop_last() =~= t.take(i as int));
        }
        i = i + 1;
    }
    proof {
        assert(t.take(i as int) =~= t);
    }
    (met, missed, total)
}

/// The messages for paired coins and fees carry the fees as chain fees and the
/// coins as bridged coins.
pub proof fn lemma_send_msgs_parts(
    sender: Seq<char>,
    eth_dest: Seq<char>,
    bridges: Seq<(Seq<char>, nat)>,
    fees: Seq<(Seq<char>, nat)>,
)
    requires
        bridges.len() == fees.len(),
    ensures
        chain_fees(send_msgs_spec(sender, eth_dest, bridges, fees)) == fees,
        forall|i: int|
            0 <= i < bridges.len() ==> #[trigger] send_msgs_spec(sender, eth_dest, bridges, fees)[i].2
                == bridges[i],
{
    assert(chain_fees(send_msgs_spec(sender, eth_dest, bridges, fees)) =~= fees);
}

/// What packed transactions carry is a prefix of the messages; so it offers no
/// more fee of any denomination than all the messages do, and bridges only what
/// they bridge.
pub proof fn lemma_sent_within(
    txs: Seq<Vec<SendToEthMsg>>,
    msgs: Seq<MsgView>,
    tx_sizes: Seq<usize>,
    basis_points: nat,
)
    requires
        txs_view(txs) == group(msgs, tx_sizes, 0),
        tx_sizes.len() > 0,
        forall|d: Seq<char>| #[trigger] denom_total(chain_fees(msgs), d) < uint256_limit(),
        forall|i: int| 0 <= i < msgs.len() ==> (#[trigger] msgs[i]).2.1 <= one_eth_spec(),
        basis_points <= 0xffff_ffff_ffff_ffff,
    ensures
        forall|d: Seq<char>| #[trigger]
            denom_total(chain_fees(sent_msgs(txs)), d) < uint256_limit(),
        forall|i: int|
            0 <= i < sent_msgs(txs).len() ==> min_fee_spec(
                #[trigger] sent_msgs(txs)[i].2.1,
                basis_points,
            ) < uint256_limit(),
{
    lemma_group_laws(msgs, tx_sizes, 0);
    let sent = sent_msgs(txs);
    let l = sent.len();
    assert(sent == msgs.take(l as int));
    assert(msgs =~= msgs.take(l as int) + msgs.skip(l as int));
    lemma_chain_fees_concat(msgs.take(l as int), msgs.skip(l as int));
    assert forall|d: Seq<char>| #[trigger] denom_total(chain_fees(sent), d) < uint256_limit() by {
        lemma_denom_concat(chain_fees(msgs.take(l as int)), chain_fees(msgs.skip(l as int)), d);
        assert(denom_total(chain_fees(msgs), d) < uint256_limit());
    }
    assert forall|i: int| 0 <= i < sent.len() implies min_fee_spec(
        #[trigger] sent[i].2.1,
        basis_points,
    ) < uint256_limit() by {
        assert(sent[i] == msgs[i]);
        lemma_min_fee_bound(msgs[i].2.1, basis_points);
    }
}

/// Among any messages, the fees that meet the minimum fee and the fees that
/// miss it together are all the chain fees, per denomination.
pub proof fn lemma_met_plus_missed_is_all(msgs: Seq<MsgView>, basis_points: nat, denom: Seq<char>)
    ensures
        denom_total(fees_where(msgs, basis_points, true), denom) + denom_total(
            fees_where(msgs, basis_points, false),
            denom,
        ) == denom_total(chain_fees(msgs), denom),
    decreases msgs.len(),
{
    if msgs.len() > 0 {
        lemma_met_plus_missed_is_all(msgs.drop_last(), basis_points, denom);
        assert(chain_fees(msgs).drop_last() =~= chain_fees(msgs.drop_last()));
        let a = fees_where(msgs.drop_last(), basis_points, true);
        let b = fees_where(msgs.drop_last(), basis_points, false);
        assert(a.push(msgs.last().4).drop_last() =~= a);
        assert(b.push(msgs.last().4).drop_last() =~= b);
    }
}

} // verus!
