//! Data carried across the wager's asynchronous call boundary.

use vstd::prelude::*;

verus! {

/// A coin-flip choice: Heads or Tails. The remote draw is compared by
/// value, not by variant identity: a draw of zero stands for Heads and
/// any other value for Tails.
#[derive(Clone, Copy, Debug, PartialEq, Eq, Structural)]
pub enum CoinSide {
    Heads,
    Tails,
}

/// The structured payload returned by the remote compute service on
/// success.
#[derive(Clone, Copy, Debug, PartialEq, Eq, Structural)]
pub struct RandomResponse {
    pub random_number: u32,
}

} // verus!
