//! Dealing: eight cards at a time off the top of a shuffled deck.

use vstd::prelude::*;
use vstd::seq_lib::*;
use crate::card::{Card, is_full_deck};
use crate::hand::Hand;

verus! {

/// Holds the cards that have not been dealt yet. The top of the deck is its
/// last card.
#[derive(Debug)]
pub struct Dealer {
    pub deck: Vec<Card>,
}

/// The deck as it was before `hand` was dealt off it: the hand's cards put
/// back on top, the card dealt first on top of all.
pub open spec fn undealt(deck: Seq<Card>, hand: Seq<Card>) -> Seq<Card> {
    deck + hand.reverse()
}

/// Dealing neither adds nor loses a card.
pub proof fn lemma_undealt_cards(deck: Seq<Card>, hand: Seq<Card>)
    ensures
        undealt(deck, hand).to_multiset() == deck.to_multiset().add(hand.to_multiset()),
{
    lemma_multiset_commutative(deck, hand.reverse());
    hand.lemma_reverse_to_multiset();
}

impl Dealer {
    /// A dealer with a freshly shuffled full deck.
    pub fn new() -> (dealer: Dealer)
        ensures
            is_full_deck(dealer.deck@),
    {
        Dealer { deck: Card::deck() }
    }

    /// Deals a hand of eight cards off the top of the deck. A deck that is
    /// short of eight cards is replaced by a freshly shuffled full deck first.
    pub fn deal(&mut self) -> (hand: Hand)
        ensures
            hand.played@.len() == 0,
            hand.cards@.len() == 8,
            old(self).deck@.len() >= 8 ==> undealt(final(self).deck@, hand.cards@) == old(
                self,
            ).deck@,
            old(self).deck@.len() < 8 ==> is_full_deck(undealt(final(self).deck@, hand.cards@)),
    {
        if self.deck.len() < 8 {
            self.reset();
            proof {
                crate::card::lemma_full_deck_properties(self.deck@);
            }
        }
        let ghost before = self.deck@;
        let mut cards: Vec<Card> = Vec::new();
        let mut k: usize = 0;
        while k < 8
            invariant
                k <= 8,
                before.len() >= 8,
                self.deck@ == before.take(before.len() - k),
                cards@.len() == k,
                forall|i: int| 0 <= i < k ==> cards@[i] == before[before.len() - 1 - i],
            decreases 8 - k,
        {
            let top = self.deck.pop();
            match top {
                Some(card) => {
                    cards.push(card);
                },
                None => {},
            }
            proof {
                assert(self.deck@ =~= before.take(before.len() - k - 1));
            }
            k += 1;
        }
        proof {
            assert(undealt(self.deck@, cards@) =~= before);
        }
        Hand { cards, played: Vec::new() }
    }

    /// Replaces the deck by a freshly shuffled full deck.
    pub fn reset(&mut self)
        ensures
            is_full_deck(final(self).deck@),
    {
        self.deck = Card::deck();
    }
}

} // verus!
