use vstd::prelude::*;
use crate::amount::{Amount, uint256_limit};
use crate::coin::{Coin, coins_view};

verus! {

/// What a tally holds of `denom`: its amount, or zero when it holds none.
pub open spec fn lookup(m: Map<Seq<char>, nat>, denom: Seq<char>) -> nat {
    if m.dom().contains(denom) {
        m[denom]
    } else {
        0
    }
}

/// The map that a list of (denomination, amount) entries stands for.
pub open spec fn entries_map(s: Seq<(Seq<char>, nat)>) -> Map<Seq<char>, nat>
    decreases s.len(),
{
    if s.len() == 0 {
        Map::empty()
    } else {
        entries_map(s.drop_last()).insert(s.last().0, s.last().1)
    }
}

/// No denomination occurs twice among the entries.
pub open spec fn distinct_denoms(s: Seq<(Seq<char>, nat)>) -> bool {
    forall|i: int, j: int| 0 <= i < j < s.len() ==> s[i].0 != s[j].0
}

/// The entries hold `denom` at index `i`, with the amount that the map gives it;
/// a denomination held by no entry is not in the map.
pub proof fn lemma_entries_map_lookup(s: Seq<(Seq<char>, nat)>, denom: Seq<char>)
    requires
        distinct_denoms(s),
    ensures
        forall|i: int|
            0 <= i < s.len() && s[i].0 == denom ==> #[trigger] entries_map(s).dom().contains(
                denom,
            ) && entries_map(s)[denom] == s[i].1,
        (forall|i: int| 0 <= i < s.len() ==> s[i].0 != denom) ==> !entries_map(
            s,
        ).dom().contains(denom),
    decreases s.len(),
{
    if s.len() > 0 {
        let t = s.drop_last();
        assert(distinct_denoms(t));
        lemma_entries_map_lookup(t, denom);
        if s.last().0 != denom {
            assert forall|i: int| 0 <= i < t.len() && t[i].0 == denom implies s[i] == t[i] by {}
            if forall|i: int| 0 <= i < s.len() ==> s[i].0 != denom {
                assert forall|i: int| 0 <= i < t.len() implies t[i].0 != denom by {
                    assert(t[i] == s[i]);
                }
            }
        } else {
            assert forall|i: int| 0 <= i < s.len() && s[i].0 == denom implies i == s.len() - 1 by {
                if i < s.len() - 1 {
                    assert(s[i].0 != s[s.len() - 1].0);
                }
            }
        }
    }
}

/// Replacing the amount of the entry for `denom` replaces it in the map.
pub proof fn lemma_entries_map_update(s: Seq<(Seq<char>, nat)>, i: int, amount: nat)
    requires
        distinct_denoms(s),
        0 <= i < s.len(),
    ensures
        entries_map(s.update(i, (s[i].0, amount))) == entries_map(s).insert(s[i].0, amount),
    decreases s.len(),
{
    let u = s.update(i, (s[i].0, amount));
    if i == s.len() - 1 {
        assert(u.drop_last() == s.drop_last());
        assert(entries_map(u) =~= entries_map(s).insert(s[i].0, amount));
    } else {
        let t = s.drop_last();
        assert(distinct_denoms(t));
        lemma_entries_map_update(t, i, amount);
        assert(u.drop_last() == t.update(i, (t[i].0, amount)));
        assert(s[i].0 != s.last().0);
        assert(entries_map(u) =~= entries_map(s).insert(s[i].0, amount));
    }
}

/// Under distinct denominations the map has one key per entry.
pub proof fn lemma_entries_map_len(s: Seq<(Seq<char>, nat)>)
    requires
        distinct_denoms(s),
    ensures
        entries_map(s).dom().finite(),
        entries_map(s).dom().len() == s.len(),
    decreases s.len(),
{
    if s.len() > 0 {
        let t = s.drop_last();
        assert(distinct_denoms(t));
        lemma_entries_map_len(t);
        lemma_entries_map_lookup(t, s.last().0);
        assert forall|i: int| 0 <= i < t.len() implies t[i].0 != s.last().0 by {
            assert(s[i].0 != s[s.len() - 1].0);
        }
    }
}

/// Amounts of fees counted per denomination.
pub struct FeeTally {
    entries: Vec<Coin>,
}

impl View for FeeTally {
    type V = Map<Seq<char>, nat>;

    closed spec fn view(&self) -> Map<Seq<char>, nat> {
        entries_map(coins_view(self.entries@))
    }
}

impl FeeTally {
    #[verifier::type_invariant]
    spec fn well_formed(self) -> bool {
        distinct_denoms(coins_view(self.entries@))
    }

    /// A tally that holds nothing.
    pub fn new() -> (r: FeeTally)
        ensures
            r@ == Map::<Seq<char>, nat>::empty(),
    {
        let r = FeeTally { entries: Vec::new() };
        assert(coins_view(r.entries@) =~= Seq::<(Seq<char>, nat)>::empty());
        r
    }

    /// The index of the entry for `denom`, if there is one.
    fn position(&self, denom: &String) -> (r: Option<usize>)
        ensures
            match r {
                Some(i) => i < self.entries@.len() && self.entries@[i as int].denom@ == denom@,
                None => forall|i: int|
                    0 <= i < self.entries@.len() ==> self.entries@[i].denom@ != denom@,
            },
    {
        let mut i: usize = 0;
        while i < self.entries.len()
            invariant
                i <= self.entries@.len(),
                forall|j: int| 0 <= j < i ==> self.entries@[j].denom@ != denom@,
            decreases self.entries@.len() - i,
        {
            if self.entries[i].denom == *denom {
                return Some(i);
            }
            i = i + 1;
        }
        None
    }

    /// The amount counted of `denom`, zero when none was.
    pub fn get(&self, denom: &String) -> (r: Amount)
        ensures
            r@ == lookup(self@, denom@),
    {
        proof {
            use_type_invariant(self);
            lemma_entries_map_lookup(coins_view(self.entries@), denom@);
        }
        match self.position(denom) {
            Some(i) => {
                assert(coins_view(self.entries@)[i as int] == self.entries@[i as int]@);
                self.entries[i].amount
            },
            None => {
                assert forall|j: int| 0 <= j < coins_view(self.entries@).len() implies coins_view(
                    self.entries@,
                )[j].0 != denom@ by {
                    assert(coins_view(self.entries@)[j] == self.entries@[j]@);
                }
                Amount::from_u64(0)
            },
        }
    }

    /// Counts `amount` more of `denom`.
    pub fn insert(&mut self, denom: String, amount: Amount)
        ensures
            final(self)@ == old(self)@.insert(denom@, amount@),
    {
        proof {
            use_type_invariant(&*self);
            lemma_entries_map_lookup(coins_view(self.entries@), denom@);
        }
        let ghost s = coins_view(self.entries@);
        let found = self.position(&denom);
        let mut entries: Vec<Coin> = Vec::new();
        std::mem::swap(&mut entries, &mut self.entries);
        assert(coins_view(entries@) == s);
        match found {
            Some(i) => {
                proof {
                    lemma_entries_map_update(s, i as int, amount@);
                }
                let ghost target = s.update(i as int, (s[i as int].0, amount@));
                entries.set(i, Coin { denom, amount });
                assert(coins_view(entries@) =~= target);
                assert(distinct_denoms(target)) by {
                    assert forall|a: int, b: int| 0 <= a < b < target.len() implies target[a].0
                        != target[b].0 by {
                        assert(target[a].0 == s[a].0 && target[b].0 == s[b].0);
                    }
                }
            },
            None => {
                assert forall|j: int| 0 <= j < s.len() implies s[j].0 != denom@ by {
                    assert(s[j] == entries@[j]@);
                }
                entries.push(Coin { denom, amount });
                let ghost t = coins_view(entries@);
                assert(t.drop_last() =~= s);
                assert(distinct_denoms(t)) by {
                    assert forall|a: int, b: int| 0 <= a < b < t.len() implies t[a].0
                        != t[b].0 by {
                        assert(t[a] == s[a]);
                        if b < s.len() {
                            assert(t[b] == s[b]);
                        }
                    }
                }
            },
        }
        self.entries = entries;
    }

    /// The number of denominations counted.
    pub fn len(&self) -> (r: usize)
        ensures
            r == self@.dom().len(),
            self@.dom().finite(),
    {
        proof {
            use_type_invariant(self);
            lemma_entries_map_len(coins_view(self.entries@));
        }
        self.entries.len()
    }
}

/// The coins of a tally, one per denomination counted, each with the amount
/// counted of it.
pub fn fee_tally_to_coins(fee_tally: FeeTally) -> (r: Vec<Coin>)
    ensures
        distinct_denoms(coins_view(r@)),
        entries_map(coins_view(r@)) == fee_tally@,
{
    proof {
        use_type_invariant(&fee_tally);
    }
    fee_tally.entries
}

} // verus!
