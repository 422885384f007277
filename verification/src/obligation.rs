//! A user's cross-asset position within one market.
//!
//! An obligation holds at most one position per asset; a position whose
//! two share balances are both zero is removed at once, keeping the list
//! dense and bounded.

use vstd::prelude::*;

use crate::lookup::{
    lemma_find_index_of_no_witness, lemma_find_index_of_witness, spec_find_index,
};

verus! {

/// Shares one obligation holds in one asset.
#[derive(Clone, Copy, Debug, PartialEq, Eq, Structural)]
pub struct Position {
    /// Asset (token mint) of the position.
    pub mint: u64,
    /// Deposit shares, Q60.
    pub deposit_shares_q60: u128,
    /// Borrow shares, Q60.
    pub borrow_shares_q60: u128,
}

/// One user's aggregate position in one market.
#[derive(Clone, Debug)]
pub struct Obligation {
    /// Market the obligation belongs to.
    pub market: u64,
    /// Owner, an opaque account identifier.
    pub owner: u64,
    /// Positions, at most one per mint, none with both balances zero.
    pub positions: Vec<Position>,
}

/// Predicate naming positions of one mint.
pub open spec fn position_mint_pred(mint: u64) -> spec_fn(Position) -> bool {
    |p: Position| p.mint == mint
}

/// Index of the first position for `mint`, or -1.
pub open spec fn spec_position_index(positions: Seq<Position>, mint: u64) -> int {
    spec_find_index(positions, position_mint_pred(mint))
}

/// Position of the first entry for `mint` in a position list.
pub fn find_position_in(positions: &Vec<Position>, mint: u64) -> (r: Option<usize>)
    ensures
        match r {
            Some(i) => spec_position_index(positions@, mint) == i as int && i < positions@.len()
                && positions@[i as int].mint == mint,
            None => spec_position_index(positions@, mint) == -1,
        },
{
    let mut i: usize = 0;
    while i < positions.len()
        invariant
            i <= positions@.len(),
            forall|k: int| 0 <= k < i ==> (#[trigger] positions@[k]).mint != mint,
        decreases positions@.len() - i,
    {
        if positions[i].mint == mint {
            proof {
                lemma_find_index_of_witness(positions@, position_mint_pred(mint), i as int);
            }
            return Some(i);
        }
        i = i + 1;
    }
    proof {
        lemma_find_index_of_no_witness(positions@, position_mint_pred(mint));
    }
    None
}

impl Obligation {
    /// A fresh obligation of `owner` in `market`, with no positions.
    pub fn new(market: u64, owner: u64) -> (r: Obligation)
        ensures
            r.market == market,
            r.owner == owner,
            r.positions@ == Seq::<Position>::empty(),
    {
        Obligation { market, owner, positions: Vec::new() }
    }

    /// Position of the first entry for `mint`, if the obligation holds
    /// one.
    pub fn find_position(&self, mint: u64) -> (r: Option<usize>)
        ensures
            match r {
                Some(i) => spec_position_index(self.positions@, mint) == i as int && i
                    < self.positions@.len() && self.positions@[i as int].mint == mint,
                None => spec_position_index(self.positions@, mint) == -1,
            },
    {
        find_position_in(&self.positions, mint)
    }
}

} // verus!
