//! Hands of hidden items and the dealing of them.
use vstd::prelude::*;

verus! {

/// Anything that can make up a hand.
pub trait Holdable: Sized {
    fn get_random() -> Self;
}

/// Anything that can deal holdable items.
pub trait Dealer<T: Holdable> {
    fn deal(&self) -> T;

    fn deal_n(&self, n: u32) -> (r: Vec<T>)
        ensures
            r@.len() == n,
    ;
}

/// A dealer that hands out random items.
pub struct RandomDealer {}

impl RandomDealer {
    pub fn new() -> (r: Self) {
        RandomDealer {  }
    }
}

impl<T: Holdable> Dealer<T> for RandomDealer {
    fn deal(&self) -> T {
        T::get_random()
    }

    fn deal_n(&self, n: u32) -> (r: Vec<T>) {
        let mut r: Vec<T> = Vec::new();
        let mut i: u32 = 0;
        while i < n
            invariant
                i <= n,
                r@.len() == i,
            decreases n - i,
        {
            r.push(self.deal());
            i = i + 1;
        }
        r
    }
}

/// A single player's hand.
#[derive(Debug, Clone)]
pub struct Hand<T: Holdable> {
    pub items: Vec<T>,
}

impl<T: Holdable> Hand<T> {
    /// A freshly dealt hand of `n` random items.
    pub fn new(n: u32) -> (r: Self)
        ensures
            r.items@.len() == n,
    {
        let dealer = RandomDealer::new();
        Hand { items: dealer.deal_n(n) }
    }
}

} // verus!
