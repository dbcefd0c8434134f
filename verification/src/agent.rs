//! The players of a match: whoever can declare an intent, make a bid and
//! choose a card.

use vstd::prelude::*;
use rand::rngs::ThreadRng;
use crate::auction::{Auction, valid_bids_for};
use crate::card::Card;
use crate::contract::Contract;
use crate::game::{PlayerGameState, cards_of};
use crate::random::{gen_ratio, pick, thread_rng};

verus! {

/// A player, human or not. The engine asks it for each decision of its seat
/// and checks the answer; nothing is taken on trust from an agent.
pub trait Agent {
    /// Whether the player wants to bid at all.
    fn get_intent(&mut self, state: &PlayerGameState, auction: &Auction) -> (intent: bool);

    /// The bid of the player. It is asked for only while some bid can be made
    /// with the player's hand.
    fn get_bid(&mut self, state: &PlayerGameState, auction: &Auction) -> (bid: Contract)
        requires
            valid_bids_for(auction.highest_bid, Some(state.hand.cards@)).len() > 0,
    ;

    /// The card that the player plays, to be taken from `legal_plays`, which
    /// is never empty.
    fn get_play(&mut self, state: &PlayerGameState, legal_plays: Vec<&Card>) -> (card: Card)
        requires
            legal_plays@.len() > 0,
    ;
}

/// A player that decides by chance: it wants to bid every other time, and
/// picks any of the bids and cards that it may choose from.
pub struct RandomAgent {
    rng: ThreadRng,
}

impl RandomAgent {
    /// A random player that draws from the thread-local random generator.
    pub fn new() -> RandomAgent {
        RandomAgent { rng: thread_rng() }
    }
}

impl Agent for RandomAgent {
    fn get_intent(&mut self, state: &PlayerGameState, auction: &Auction) -> (intent: bool) {
        gen_ratio(&mut self.rng, 1, 2)
    }

    fn get_bid(&mut self, state: &PlayerGameState, auction: &Auction) -> (bid: Contract)
        ensures
            valid_bids_for(auction.highest_bid, Some(state.hand.cards@)).contains(bid),
    {
        let valid_contracts = auction.valid_bids(Some(state.hand));
        match pick(&valid_contracts, &mut self.rng) {
            Some(bid) => *bid,
            None => Contract::Undecided,
        }
    }

    fn get_play(&mut self, state: &PlayerGameState, legal_plays: Vec<&Card>) -> (card: Card)
        ensures
            cards_of(legal_plays@).contains(card),
    {
        match pick(&legal_plays, &mut self.rng) {
            Some(card) => {
                proof {
                    let i = choose|i: int| 0 <= i < legal_plays@.len() && legal_plays@[i] == *card;
                    assert(cards_of(legal_plays@)[i] == **card);
                }
                **card
            },
            None => Card { suit: crate::card::Suit::Bells, value: crate::card::Value::Seven },
        }
    }
}

} // verus!
