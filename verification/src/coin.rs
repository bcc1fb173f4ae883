//! Amounts of tokens.

use vstd::prelude::*;

verus! {

/// The mathematical value of a coin: its denomination and its amount.
pub type CoinView = (Seq<char>, u128);

/// An amount of one denomination.
#[derive(Clone, Debug, PartialEq, Eq)]
pub struct Coin {
    pub denom: String,
    pub amount: u128,
}

impl View for Coin {
    type V = CoinView;

    open spec fn view(&self) -> CoinView {
        (self.denom@, self.amount)
    }
}

impl Coin {
    /// A copy of this coin.
    pub fn duplicate(&self) -> (r: Coin)
        ensures
            r@ == self@,
    {
        Coin { denom: self.denom.clone(), amount: self.amount }
    }
}

/// The values of a sequence of coins, in order.
pub open spec fn coins_view(coins: Seq<Coin>) -> Seq<CoinView> {
    coins.map_values(|c: Coin| c@)
}

/// An ordered list of coins.
#[derive(Clone, Debug, PartialEq, Eq)]
pub struct Coins {
    pub coins: Vec<Coin>,
}

impl View for Coins {
    type V = Seq<CoinView>;

    open spec fn view(&self) -> Seq<CoinView> {
        coins_view(self.coins@)
    }
}

impl Coins {
    /// No coins at all.
    pub fn empty() -> (r: Coins)
        ensures
            r@ == Seq::<CoinView>::empty(),
    {
        let r = Coins { coins: Vec::new() };
        assert(r@ =~= Seq::<CoinView>::empty());
        r
    }

    /// A single coin.
    pub fn one(denom: &String, amount: u128) -> (r: Coins)
        ensures
            r@ == seq![(denom@, amount)],
    {
        let mut coins: Vec<Coin> = Vec::new();
        coins.push(Coin { denom: denom.clone(), amount });
        let r = Coins { coins };
        assert(r@ =~= seq![(denom@, amount)]);
        r
    }

    /// A copy of the coins of `list` from position `from` on.
    pub fn suffix(list: &Vec<Coin>, from: usize) -> (r: Coins)
        requires
            from <= list@.len(),
        ensures
            r@ == coins_view(list@).subrange(from as int, list@.len() as int),
    {
        let mut coins: Vec<Coin> = Vec::new();
        let mut i: usize = from;
        while i < list.len()
            invariant
                from <= i <= list@.len(),
                coins_view(coins@) == coins_view(list@).subrange(from as int, i as int),
            decreases list@.len() - i,
        {
            let ghost before = coins@;
            let coin = list[i].duplicate();
            coins.push(coin);
            i = i + 1;
            assert(coins_view(coins@) =~= coins_view(before).push(coin@));
            assert(coins_view(coins@) =~= coins_view(list@).subrange(from as int, i as int));
        }
        Coins { coins }
    }
}

} // verus!
