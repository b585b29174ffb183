use vstd::prelude::*;
use crate::amount::Amount;
use crate::coin::{Coin, coins_view};
use crate::txs::{batch_size, group, group_into_txs, next_size_index, vecs_view};

verus! {

/// A request to bridge `amount` to `eth_dest`, paying `bridge_fee` to the relayer
/// and `chain_fee` to the chain.
#[derive(Debug)]
pub struct SendToEthMsg {
    pub sender: String,
    pub eth_dest: String,
    pub amount: Coin,
    pub bridge_fee: Coin,
    pub chain_fee: Coin,
}

impl View for SendToEthMsg {
    type V = (Seq<char>, Seq<char>, (Seq<char>, nat), (Seq<char>, nat), (Seq<char>, nat));

    open spec fn view(&self) -> Self::V {
        (self.sender@, self.eth_dest@, self.amount@, self.bridge_fee@, self.chain_fee@)
    }
}

/// The message that bridges `bridge` at chain fee `fee`: the relayer is paid one
/// unit of the bridged denomination.
pub open spec fn msg_spec(
    sender: Seq<char>,
    eth_dest: Seq<char>,
    bridge: (Seq<char>, nat),
    fee: (Seq<char>, nat),
) -> (Seq<char>, Seq<char>, (Seq<char>, nat), (Seq<char>, nat), (Seq<char>, nat)) {
    (sender, eth_dest, bridge, (bridge.0, 1), fee)
}

/// The views of a sequence of messages.
pub open spec fn msgs_view(s: Seq<SendToEthMsg>) -> Seq<
    (Seq<char>, Seq<char>, (Seq<char>, nat), (Seq<char>, nat), (Seq<char>, nat)),
> {
    s.map_values(|m: SendToEthMsg| m@)
}

/// The views of a sequence of transactions.
pub open spec fn txs_view(s: Seq<Vec<SendToEthMsg>>) -> Seq<
    Seq<(Seq<char>, Seq<char>, (Seq<char>, nat), (Seq<char>, nat), (Seq<char>, nat))>,
> {
    s.map_values(|t: Vec<SendToEthMsg>| msgs_view(t@))
}

/// The messages for bridge coins and chain fees paired up in order, as far as
/// both lists reach.
pub open spec fn send_msgs_spec(
    sender: Seq<char>,
    eth_dest: Seq<char>,
    bridges: Seq<(Seq<char>, nat)>,
    fees: Seq<(Seq<char>, nat)>,
) -> Seq<(Seq<char>, Seq<char>, (Seq<char>, nat), (Seq<char>, nat), (Seq<char>, nat))> {
    let n = if bridges.len() <= fees.len() {
        bridges.len()
    } else {
        fees.len()
    };
    Seq::new(n, |i: int| msg_spec(sender, eth_dest, bridges[i], fees[i]))
}

/// One message from `sender` to `receiver` per pair of bridge coin and chain fee,
/// in order; a coin without a fee, or a fee without a coin, gives none.
pub fn build_send_to_eth_msgs(
    sender: &String,
    receiver: &String,
    coins_to_send: &Vec<Coin>,
    fees_for_send: &Vec<Coin>,
) -> (r: Vec<SendToEthMsg>)
    ensures
        msgs_view(r@) == send_msgs_spec(
            sender@,
            receiver@,
            coins_view(coins_to_send@),
            coins_view(fees_for_send@),
        ),
{
    let n = if coins_to_send.len() <= fees_for_send.len() {
        coins_to_send.len()
    } else {
        fees_for_send.len()
    };
    let ghost target = send_msgs_spec(
        sender@,
        receiver@,
        coins_view(coins_to_send@),
        coins_view(fees_for_send@),
    );
    let mut r: Vec<SendToEthMsg> = Vec::new();
    let mut i: usize = 0;
    while i < n
        invariant
            i <= n,
            n <= coins_to_send@.len(),
            n <= fees_for_send@.len(),
            target.len() == n,
            target == send_msgs_spec(
                sender@,
                receiver@,
                coins_view(coins_to_send@),
                coins_view(fees_for_send@),
            ),
            msgs_view(r@) == target.take(i as int),
        decreases n - i,
    {
        let bridge = coins_to_send[i].clone();
        let fee = fees_for_send[i].clone();
        let fee_for_relayer = Coin::new(bridge.denom.clone(), Amount::from_u64(1));
        let msg = SendToEthMsg {
            sender: sender.clone(),
            eth_dest: receiver.clone(),
            amount: bridge,
            bridge_fee: fee_for_relayer,
            chain_fee: fee,
        };
        let ghost before = r@;
        r.push(msg);
        assert(coins_view(coins_to_send@)[i as int] == coins_to_send@[i as int]@);
        assert(coins_view(fees_for_send@)[i as int] == fees_for_send@[i as int]@);
        assert(msgs_view(r@) =~= msgs_view(before).push(target[i as int]));
        assert(target.take(i + 1) =~= target.take(i as int).push(target[i as int]));
        i = i + 1;
    }
    assert(target.take(n as int) =~= target);
    r
}

/// Packing commutes with looking at each message through `f`.
pub proof fn lemma_group_map<A, B>(s: Seq<A>, f: spec_fn(A) -> B, tx_sizes: Seq<usize>, idx: nat)
    ensures
        group(s.map_values(f), tx_sizes, idx) == group(s, tx_sizes, idx).map_values(
            |g: Seq<A>| g.map_values(f),
        ),
    decreases s.len(),
{
    let k = batch_size(tx_sizes, idx);
    let t = s.map_values(f);
    if s.len() < k {
        assert(group(t, tx_sizes, idx) =~= group(s, tx_sizes, idx).map_values(
            |g: Seq<A>| g.map_values(f),
        ));
    } else {
        let next = next_size_index(tx_sizes, idx);
        lemma_group_map(s.skip(k as int), f, tx_sizes, next);
        assert(t.skip(k as int) =~= s.skip(k as int).map_values(f));
        assert(t.take(k as int) =~= s.take(k as int).map_values(f));
        assert(group(t, tx_sizes, idx) =~= group(s, tx_sizes, idx).map_values(
            |g: Seq<A>| g.map_values(f),
        ));
    }
}

/// Packs messages into transactions as `group_into_txs` does, stated over the
/// messages' views.
pub fn pack_msgs(msgs: Vec<SendToEthMsg>, tx_sizes: &Vec<usize>) -> (r: Vec<Vec<SendToEthMsg>>)
    requires
        tx_sizes@.len() > 0 || msgs@.len() == 0,
    ensures
        txs_view(r@) == group(msgs_view(msgs@), tx_sizes@, 0),
{
    let ghost s = msgs@;
    let r = group_into_txs(msgs, tx_sizes);
    proof {
        let f = |m: SendToEthMsg| m@;
        lemma_group_map(s, f, tx_sizes@, 0);
        let g = group(s, tx_sizes@, 0);
        assert(msgs_view(s) =~= s.map_values(f));
        assert forall|i: int| 0 <= i < r@.len() implies #[trigger] txs_view(r@)[i] == g.map_values(
            |x: Seq<SendToEthMsg>| x.map_values(f),
        )[i] by {
            assert(vecs_view(r@)[i] == r@[i]@);
            assert(msgs_view(r@[i]@) =~= r@[i]@.map_values(f));
        }
        assert(txs_view(r@) =~= g.map_values(|x: Seq<SendToEthMsg>| x.map_values(f)));
    }
    r
}


/// Message `i` comes from `sender`, goes to `eth_dest`, bridges the `i`-th coin,
/// pays the relayer exactly one unit of that coin's denomination, whatever the
/// chain fee, and pays the `i`-th fee to the chain; there is one message per pair.
pub proof fn lemma_send_msgs_fields(
    sender: Seq<char>,
    eth_dest: Seq<char>,
    bridges: Seq<(Seq<char>, nat)>,
    fees: Seq<(Seq<char>, nat)>,
)
    ensures
        send_msgs_spec(sender, eth_dest, bridges, fees).len() == if bridges.len() <= fees.len() {
            bridges.len()
        } else {
            fees.len()
        },
        forall|i: int|
            0 <= i < send_msgs_spec(sender, eth_dest, bridges, fees).len() ==> {
                let m = #[trigger] send_msgs_spec(sender, eth_dest, bridges, fees)[i];
                &&& m.0 == sender
                &&& m.1 == eth_dest
                &&& m.2 == bridges[i]
                &&& m.3 == (bridges[i].0, 1nat)
                &&& m.4 == fees[i]
            },
{
}

} // verus!
