use vstd::prelude::*;
use crate::tally::lookup;

verus! {

/// The sum of a sequence of amounts.
pub open spec fn seq_sum(s: Seq<nat>) -> nat
    decreases s.len(),
{
    if s.len() == 0 {
        0
    } else {
        seq_sum(s.drop_last()) + s.last()
    }
}

/// `fees` with each fee repeated `n` times in place, in order.
pub open spec fn repeat_each(fees: Seq<nat>, n: nat) -> Seq<nat>
    decreases fees.len(),
{
    if fees.len() == 0 {
        seq![]
    } else {
        repeat_each(fees.drop_last(), n) + Seq::new(n, |k: int| fees.last())
    }
}

/// A tally after `n` sends of `denom` at each of the `fees` were counted in it:
/// the denomination is entered only when at least one send was counted.
pub open spec fn queued_tally(
    m: Map<Seq<char>, nat>,
    denom: Seq<char>,
    n: nat,
    fees: Seq<nat>,
) -> Map<Seq<char>, nat> {
    if n == 0 || fees.len() == 0 {
        m
    } else {
        m.insert(denom, lookup(m, denom) + n * seq_sum(fees))
    }
}

/// Summing a concatenation sums its parts.
pub proof fn lemma_sum_concat(a: Seq<nat>, b: Seq<nat>)
    ensures
        seq_sum(a + b) == seq_sum(a) + seq_sum(b),
    decreases b.len(),
{
    if b.len() == 0 {
        assert(a + b =~= a);
    } else {
        lemma_sum_concat(a, b.drop_last());
        assert((a + b).drop_last() =~= a + b.drop_last());
    }
}

/// `k` copies of `f` sum to `k * f`.
pub proof fn lemma_sum_constant(k: nat, f: nat)
    ensures
        seq_sum(Seq::new(k, |i: int| f)) == k * f,
    decreases k,
{
    let s = Seq::new(k, |i: int| f);
    if k > 0 {
        lemma_sum_constant((k - 1) as nat, f);
        assert(s.drop_last() =~= Seq::new((k - 1) as nat, |i: int| f));
        assert(s.last() == f);
        assert(seq_sum(s) == seq_sum(s.drop_last()) + f);
        assert((k - 1) * f + f == k * f) by (nonlinear_arith);
    } else {
        assert(s.len() == 0);
        assert(k * f == 0);
    }
}

/// Repeating each fee `n` times multiplies the sum by `n`.
pub proof fn lemma_repeat_each_sum(fees: Seq<nat>, n: nat)
    ensures
        seq_sum(repeat_each(fees, n)) == n * seq_sum(fees),
    decreases fees.len(),
{
    if fees.len() > 0 {
        let init = fees.drop_last();
        lemma_repeat_each_sum(init, n);
        lemma_sum_concat(repeat_each(init, n), Seq::new(n, |k: int| fees.last()));
        lemma_sum_constant(n, fees.last());
        let a = seq_sum(init);
        let b = fees.last();
        assert(repeat_each(fees, n) == repeat_each(init, n) + Seq::new(n, |k: int| fees.last()));
        assert(seq_sum(fees) == a + b);
        assert(n * a + n * b == n * (a + b)) by (nonlinear_arith);
    } else {
        assert(seq_sum(fees) == 0);
        assert(n * 0 == 0) by (nonlinear_arith);
    }
}

/// Repeating each fee `n` times gives `n * fees.len()` items, none exactly when
/// `n` is zero or there are no fees.
pub proof fn lemma_repeat_each_len(fees: Seq<nat>, n: nat)
    ensures
        repeat_each(fees, n).len() == n * fees.len(),
        (repeat_each(fees, n).len() == 0) == (n == 0 || fees.len() == 0),
    decreases fees.len(),
{
    if fees.len() > 0 {
        lemma_repeat_each_len(fees.drop_last(), n);
        let m = (fees.len() - 1) as nat;
        assert(n * m + n == n * fees.len()) by (nonlinear_arith)
            requires
                m + 1 == fees.len(),
        ;
        if n > 0 {
            assert(n * fees.len() > 0) by (nonlinear_arith)
                requires
                    n > 0,
                    fees.len() > 0,
            ;
        }
    }
}

/// Repeating each fee of a concatenation repeats each part.
pub proof fn lemma_repeat_each_concat(a: Seq<nat>, b: Seq<nat>, n: nat)
    ensures
        repeat_each(a + b, n) == repeat_each(a, n) + repeat_each(b, n),
    decreases b.len(),
{
    if b.len() == 0 {
        assert(a + b =~= a);
        assert(repeat_each(a, n) + repeat_each(b, n) =~= repeat_each(a, n));
    } else {
        lemma_repeat_each_concat(a, b.drop_last(), n);
        assert((a + b).drop_last() =~= a + b.drop_last());
        assert(repeat_each(a + b, n) =~= repeat_each(a, n) + repeat_each(b, n));
    }
}

/// A prefix sums to no more than the whole.
pub proof fn lemma_sum_prefix(a: Seq<nat>, b: Seq<nat>)
    ensures
        seq_sum(a) <= seq_sum(a + b),
{
    lemma_sum_concat(a, b);
}

/// A tally after the fees `done` of `denom` were counted in it one by one.
pub open spec fn tally_with(m: Map<Seq<char>, nat>, denom: Seq<char>, done: Seq<nat>) -> Map<
    Seq<char>,
    nat,
> {
    if done.len() == 0 {
        m
    } else {
        m.insert(denom, lookup(m, denom) + seq_sum(done))
    }
}

/// The bridge coins of a run of sends of `denom`, one per fee in `fees`.
pub open spec fn bridge_coins(denom: Seq<char>, bridge_amount: nat, fees: Seq<nat>) -> Seq<
    (Seq<char>, nat),
> {
    fees.map_values(|f: nat| (denom, bridge_amount))
}

/// The fee coins of a run of sends of `denom`, one per fee in `fees`.
pub open spec fn fee_coins(denom: Seq<char>, fees: Seq<nat>) -> Seq<(Seq<char>, nat)> {
    fees.map_values(|f: nat| (denom, f))
}

/// Counting every fee of `n` repetitions of `fees` one by one is counting
/// `n` sends at each fee at once.
pub proof fn lemma_tally_with_repeat(m: Map<Seq<char>, nat>, denom: Seq<char>, fees: Seq<nat>, n: nat)
    ensures
        tally_with(m, denom, repeat_each(fees, n)) == queued_tally(m, denom, n, fees),
{
    lemma_repeat_each_len(fees, n);
    lemma_repeat_each_sum(fees, n);
}

/// Counting one more fee `f` after `done`.
pub proof fn lemma_tally_with_push(m: Map<Seq<char>, nat>, denom: Seq<char>, done: Seq<nat>, f: nat)
    ensures
        lookup(tally_with(m, denom, done), denom) == lookup(m, denom) + seq_sum(done),
        tally_with(m, denom, done.push(f)) == tally_with(m, denom, done).insert(
            denom,
            lookup(tally_with(m, denom, done), denom) + f,
        ),
{
    assert(done.push(f).drop_last() =~= done);
    assert(tally_with(m, denom, done.push(f)) =~= tally_with(m, denom, done).insert(
        denom,
        lookup(tally_with(m, denom, done), denom) + f,
    ));
}

/// A run partway through the `i`-th fee sums to no more than the whole run.
pub proof fn lemma_partial_repeat_sum(fees: Seq<nat>, n: nat, i: int, j: nat)
    requires
        0 <= i < fees.len(),
        j <= n,
    ensures
        seq_sum(repeat_each(fees.take(i), n) + Seq::new(j, |k: int| fees[i])) <= n * seq_sum(
            fees,
        ),
{
    let head = fees.take(i + 1);
    let tail = fees.skip(i + 1);
    assert(fees =~= head + tail);
    lemma_repeat_each_concat(head, tail, n);
    lemma_repeat_each_sum(fees, n);
    lemma_sum_prefix(repeat_each(head, n), repeat_each(tail, n));
    assert(head.drop_last() =~= fees.take(i));
    assert(head.last() == fees[i]);
    let before = repeat_each(fees.take(i), n);
    lemma_sum_concat(before, Seq::new(j, |k: int| fees[i]));
    lemma_sum_concat(before, Seq::new(n, |k: int| fees[i]));
    lemma_sum_constant(j, fees[i]);
    lemma_sum_constant(n, fees[i]);
    let f = fees[i];
    assert(j * f <= n * f) by (nonlinear_arith)
        requires
            j <= n,
    ;
}

} // verus!
