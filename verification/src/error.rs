//! Why the engine turned an action down.

use vstd::prelude::*;

verus! {

/// The reasons for which a bid, a declaration of intent or a play is
/// refused. A refused action leaves the state as it was; the caller may try
/// another.
#[derive(Copy, Clone, Debug, PartialEq, Eq, Hash, Structural)]
pub enum LegalityError {
    /// The bid is not among the bids that are open.
    IllegalBid,
    /// The card is not held by the player to act, or the rules forbid it.
    IllegalPlay,
    /// Nobody is to take this action now.
    OutOfTurn,
    /// A card was played before a contract was set.
    NotReady,
    /// A card was played after the last trick.
    AlreadyOver,
}

} // verus!
