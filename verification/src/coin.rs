use vstd::prelude::*;
use crate::amount::Amount;

verus! {

/// A denomination and an amount of it, as the chain counts tokens.
#[derive(Debug)]
pub struct Coin {
    pub denom: String,
    pub amount: Amount,
}

impl View for Coin {
    type V = (Seq<char>, nat);

    open spec fn view(&self) -> (Seq<char>, nat) {
        (self.denom@, self.amount@)
    }
}

impl Clone for Coin {
    fn clone(&self) -> (r: Coin)
        ensures
            r@ == self@,
    {
        Coin { denom: self.denom.clone(), amount: self.amount }
    }
}

impl Coin {
    /// The coin `amount` of `denom`.
    pub fn new(denom: String, amount: Amount) -> (r: Coin)
        ensures
            r@ == (denom@, amount@),
    {
        Coin { denom, amount }
    }
}

/// The views of a sequence of coins.
pub open spec fn coins_view(coins: Seq<Coin>) -> Seq<(Seq<char>, nat)> {
    coins.map_values(|c: Coin| c@)
}

} // verus!
