use vstd::prelude::*;

verus! {

/// How many messages the transaction at position `idx` of the size list takes:
/// its size, and at least one.
pub open spec fn batch_size(tx_sizes: Seq<usize>, idx: nat) -> nat {
    if tx_sizes[idx as int] == 0 {
        1
    } else {
        tx_sizes[idx as int] as nat
    }
}

/// The next position in the size list; the last size is used from then on.
pub open spec fn next_size_index(tx_sizes: Seq<usize>, idx: nat) -> nat {
    if idx + 1 < tx_sizes.len() {
        idx + 1
    } else {
        idx
    }
}

/// The position in the size list of the transaction `i` places after position `idx`.
pub open spec fn size_index_after(tx_sizes: Seq<usize>, idx: nat, i: nat) -> nat {
    if idx + i < tx_sizes.len() {
        idx + i
    } else {
        (tx_sizes.len() - 1) as nat
    }
}

/// The transactions that `msgs` are packed into, starting at position `idx` of
/// the size list: each takes the next messages in order as soon as there are as
/// many as its size, and messages too few to fill the next transaction are left
/// over.
pub open spec fn group<T>(msgs: Seq<T>, tx_sizes: Seq<usize>, idx: nat) -> Seq<Seq<T>>
    decreases msgs.len(),
{
    let k = batch_size(tx_sizes, idx);
    if msgs.len() < k {
        seq![]
    } else {
        seq![msgs.take(k as int)] + group(msgs.skip(k as int), tx_sizes, next_size_index(tx_sizes, idx))
    }
}

/// The contents of a list of vectors.
pub open spec fn vecs_view<T>(v: Seq<Vec<T>>) -> Seq<Seq<T>> {
    v.map_values(|x: Vec<T>| x@)
}

/// The items of `v` in reverse order.
pub(crate) fn reversed<T>(v: Vec<T>) -> (r: Vec<T>)
    ensures
        r@.len() == v@.len(),
        forall|k: int| 0 <= k < v@.len() ==> #[trigger] r@[k] == v@[v@.len() - 1 - k],
{
    let ghost orig = v@;
    let mut v = v;
    let mut r: Vec<T> = Vec::new();
    while v.len() > 0
        invariant
            v@.len() + r@.len() == orig.len(),
            v@ == orig.take(v@.len() as int),
            forall|k: int| 0 <= k < r@.len() ==> #[trigger] r@[k] == orig[orig.len() - 1 - k],
        decreases v@.len(),
    {
        let x = v.pop().unwrap();
        r.push(x);
        assert(v@ =~= orig.take(v@.len() as int));
    }
    r
}

/// Packs `msgs`, in order, into transactions whose sizes follow `tx_sizes`: a
/// transaction is closed as soon as it holds as many messages as its size (at
/// least one), the next one takes the next size, and after the last size that
/// size is kept. Messages too few to fill the next transaction are dropped.
pub fn group_into_txs<T>(msgs: Vec<T>, tx_sizes: &Vec<usize>) -> (r: Vec<Vec<T>>)
    requires
        tx_sizes@.len() > 0 || msgs@.len() == 0,
    ensures
        vecs_view(r@) == group(msgs@, tx_sizes@, 0),
{
    let ghost orig = msgs@;
    let ghost n = orig.len();
    if tx_sizes.len() == 0 {
        assert(vecs_view(Seq::<Vec<T>>::empty()) =~= group(orig, tx_sizes@, 0));
        return Vec::new();
    }
    let mut rev = reversed(msgs);
    let mut txs: Vec<Vec<T>> = Vec::new();
    let mut buffer: Vec<T> = Vec::new();
    let mut idx: usize = 0;
    let ghost mut start: int = 0;
    assert(orig.skip(0) =~= orig);
    assert(vecs_view(txs@) + group(orig, tx_sizes@, 0) =~= group(orig, tx_sizes@, 0));
    while rev.len() > 0
        invariant
            tx_sizes@.len() > 0,
            n == orig.len(),
            rev@.len() <= n,
            forall|k: int| 0 <= k < rev@.len() ==> #[trigger] rev@[k] == orig[n - 1 - k],
            idx < tx_sizes@.len(),
            0 <= start <= n - rev@.len(),
            buffer@ == orig.subrange(start, n - rev@.len()),
            buffer@.len() < batch_size(tx_sizes@, idx as nat),
            vecs_view(txs@) + group(orig.skip(start), tx_sizes@, idx as nat) == group(
                orig,
                tx_sizes@,
                0,
            ),
        decreases rev@.len(),
    {
        let ghost pos = n - rev@.len();
        let m = rev.pop().unwrap();
        assert(m == orig[pos]);
        buffer.push(m);
        assert(buffer@ =~= orig.subrange(start, pos + 1));
        if buffer.len() >= tx_sizes[idx] {
            let ghost k = batch_size(tx_sizes@, idx as nat);
            let ghost rest = orig.skip(start);
            assert(buffer@.len() == k);
            assert(rest.take(k as int) =~= buffer@);
            assert(rest.skip(k as int) =~= orig.skip(start + k));
            let ghost old_txs = txs@;
            let ghost old_idx = idx as nat;
            let mut full: Vec<T> = Vec::new();
            std::mem::swap(&mut full, &mut buffer);
            txs.push(full);
            if idx < tx_sizes.len() - 1 {
                idx = idx + 1;
            }
            proof {
                assert(idx as nat == next_size_index(tx_sizes@, old_idx));
                assert(vecs_view(txs@) =~= vecs_view(old_txs).push(rest.take(k as int)));
                assert(group(rest, tx_sizes@, old_idx) == seq![rest.take(k as int)] + group(
                    orig.skip(start + k),
                    tx_sizes@,
                    idx as nat,
                ));
                assert(vecs_view(txs@) + group(orig.skip(start + k), tx_sizes@, idx as nat)
                    =~= vecs_view(old_txs) + group(rest, tx_sizes@, old_idx));
                start = start + k;
            }
            assert(buffer@ =~= orig.subrange(start, pos + 1));
        }
    }
    proof {
        assert(orig.skip(start) =~= buffer@);
        assert(group(orig.skip(start), tx_sizes@, idx as nat) =~= Seq::<Seq<T>>::empty());
        assert(vecs_view(txs@) + Seq::<Seq<T>>::empty() =~= vecs_view(txs@));
    }
    txs
}

/// Packing keeps the messages in their order and leaves over only a tail too
/// short to fill the next transaction; each transaction holds as many messages
/// as its position in the size list calls for.
pub proof fn lemma_group_laws<T>(msgs: Seq<T>, tx_sizes: Seq<usize>, idx: nat)
    requires
        idx < tx_sizes.len(),
    ensures
        group(msgs, tx_sizes, idx).flatten().len() <= msgs.len(),
        group(msgs, tx_sizes, idx).flatten() == msgs.take(
            group(msgs, tx_sizes, idx).flatten().len() as int,
        ),
        msgs.len() - group(msgs, tx_sizes, idx).flatten().len() < batch_size(
            tx_sizes,
            size_index_after(tx_sizes, idx, group(msgs, tx_sizes, idx).len()),
        ),
        forall|i: int|
            0 <= i < group(msgs, tx_sizes, idx).len() ==> #[trigger] group(msgs, tx_sizes, idx)[i].len()
                == batch_size(tx_sizes, size_index_after(tx_sizes, idx, i as nat)),
    decreases msgs.len(),
{
    let g = group(msgs, tx_sizes, idx);
    let k = batch_size(tx_sizes, idx);
    if msgs.len() < k {
        assert(g.flatten() =~= Seq::<T>::empty());
        assert(msgs.take(0) =~= Seq::<T>::empty());
    } else {
        let next = next_size_index(tx_sizes, idx);
        let rest = msgs.skip(k as int);
        let h = group(rest, tx_sizes, next);
        lemma_group_laws(rest, tx_sizes, next);
        assert(g == seq![msgs.take(k as int)] + h);
        assert(g.drop_first() =~= h);
        assert(g.first() == msgs.take(k as int));
        assert(g.flatten() == msgs.take(k as int) + h.flatten());
        let l = h.flatten().len();
        assert(msgs.take(k as int) + rest.take(l as int) =~= msgs.take((k + l) as int));
        assert(size_index_after(tx_sizes, idx, h.len() + 1) == size_index_after(tx_sizes, next, h.len()));
        assert forall|i: int| 0 <= i < g.len() implies #[trigger] g[i].len() == batch_size(
            tx_sizes,
            size_index_after(tx_sizes, idx, i as nat),
        ) by {
            if i > 0 {
                assert(g[i] == h[i - 1]);
                assert(size_index_after(tx_sizes, idx, i as nat) == size_index_after(
                    tx_sizes,
                    next,
                    (i - 1) as nat,
                ));
            }
        }
    }
}

/// With transactions of size one, every message goes out alone, in order, and
/// none is left over.
pub proof fn lemma_group_by_one<T>(msgs: Seq<T>)
    ensures
        group(msgs, seq![1usize], 0) == msgs.map_values(|m: T| seq![m]),
    decreases msgs.len(),
{
    let sizes = seq![1usize];
    assert(batch_size(sizes, 0) == 1);
    assert(next_size_index(sizes, 0) == 0);
    if msgs.len() == 0 {
        assert(group(msgs, sizes, 0) =~= msgs.map_values(|m: T| seq![m]));
    } else {
        lemma_group_by_one(msgs.skip(1));
        assert(msgs.take(1) =~= seq![msgs[0]]);
        assert(group(msgs, sizes, 0) =~= msgs.map_values(|m: T| seq![m]));
    }
}


/// Each transaction holds as many messages as the size list gives at its
/// position (the last size from then on; a size of zero taking one message),
/// the transactions carry the messages in order, and what is left over is fewer
/// than the next transaction would take. In particular, when at least
/// `tx_sizes[0] >= 1` messages are given, the first transaction is exactly the
/// first `tx_sizes[0]` of them.
pub proof fn lemma_group_follows_sizes<T>(msgs: Seq<T>, tx_sizes: Seq<usize>)
    requires
        tx_sizes.len() > 0,
    ensures
        forall|i: int|
            #![trigger group(msgs, tx_sizes, 0)[i]]
            0 <= i < group(msgs, tx_sizes, 0).len() ==> {
                let j = if i < tx_sizes.len() {
                    i
                } else {
                    tx_sizes.len() - 1
                };
                group(msgs, tx_sizes, 0)[i].len() == if tx_sizes[j] == 0 {
                    1
                } else {
                    tx_sizes[j] as int
                }
            },
        group(msgs, tx_sizes, 0).flatten() == msgs.take(group(msgs, tx_sizes, 0).flatten().len() as int),
        ({
            let g = group(msgs, tx_sizes, 0);
            let j = if g.len() < tx_sizes.len() {
                g.len() as int
            } else {
                tx_sizes.len() - 1
            };
            msgs.len() - g.flatten().len() < if tx_sizes[j] == 0 {
                1
            } else {
                tx_sizes[j] as int
            }
        }),
        msgs.len() >= tx_sizes[0] >= 1 ==> group(msgs, tx_sizes, 0).len() >= 1 && group(
            msgs,
            tx_sizes,
            0,
        )[0] == msgs.take(tx_sizes[0] as int),
{
    lemma_group_laws(msgs, tx_sizes, 0);
    let g = group(msgs, tx_sizes, 0);
    assert forall|i: int| 0 <= i < g.len() implies {
        let j = if i < tx_sizes.len() {
            i
        } else {
            tx_sizes.len() - 1
        };
        #[trigger] g[i].len() == if tx_sizes[j] == 0 {
            1
        } else {
            tx_sizes[j] as int
        }
    } by {
        assert(g[i].len() == batch_size(tx_sizes, size_index_after(tx_sizes, 0, i as nat)));
    }
    assert(batch_size(tx_sizes, size_index_after(tx_sizes, 0, g.len())) > 0);
}


/// The number of messages in a list of transactions.
pub open spec fn total_len<T>(g: Seq<Seq<T>>) -> nat
    decreases g.len(),
{
    if g.len() == 0 {
        0
    } else {
        total_len(g.drop_last()) + g.last().len()
    }
}

/// Flattening keeps every message.
pub proof fn lemma_flatten_len<T>(g: Seq<Seq<T>>)
    ensures
        g.flatten().len() == total_len(g),
    decreases g.len(),
{
    g.lemma_flatten_and_flatten_alt_are_equivalent();
    if g.len() > 0 {
        lemma_flatten_len(g.drop_last());
        g.drop_last().lemma_flatten_and_flatten_alt_are_equivalent();
    }
}

/// The messages of the first `k + 1` transactions are those of the first `k` and
/// those of the `k`-th.
pub proof fn lemma_total_len_step<T>(g: Seq<Seq<T>>, k: int)
    requires
        0 <= k < g.len(),
    ensures
        total_len(g.take(k + 1)) == total_len(g.take(k)) + g[k].len(),
{
    assert(g.take(k + 1).drop_last() =~= g.take(k));
}

/// The first `k` transactions hold no more messages than all of them.
pub proof fn lemma_total_len_take<T>(g: Seq<Seq<T>>, k: int)
    requires
        0 <= k <= g.len(),
    ensures
        total_len(g.take(k)) <= total_len(g),
    decreases g.len() - k,
{
    if k < g.len() {
        lemma_total_len_take(g, k + 1);
        lemma_total_len_step(g, k);
    } else {
        assert(g.take(k) =~= g);
    }
}

} // verus!
