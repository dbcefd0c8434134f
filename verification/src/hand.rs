//! A player's hand, and the questions the rules ask of it.

use vstd::prelude::*;
use crate::card::{Card, Suit, Value};
use crate::contract::{Contract, is_trump};

verus! {

/// The cards of one player: those still held, in no particular order, and
/// those already played, in the order in which they were played.
#[derive(Clone, Debug)]
pub struct Hand {
    pub cards: Vec<Card>,
    pub played: Vec<Card>,
}

/// Some card of `cards` is of suit `suit`.
pub open spec fn has_suit(cards: Seq<Card>, suit: Suit) -> bool {
    exists|i: int| 0 <= i < cards.len() && (#[trigger] cards[i]).suit == suit
}

/// Some card of `cards` is trump under `contract`.
pub open spec fn has_trump(cards: Seq<Card>, contract: Contract) -> bool {
    exists|i: int| 0 <= i < cards.len() && is_trump(&#[trigger] cards[i], &contract)
}

/// Some card of `cards` is of suit `suit` and would not be trump if `suit`
/// were called.
pub open spec fn has_plain(cards: Seq<Card>, suit: Suit) -> bool {
    exists|i: int|
        0 <= i < cards.len() && (#[trigger] cards[i]).suit == suit && !is_trump(
            &cards[i],
            &Contract::Call(suit),
        )
}

/// Number of cards of suit `suit` in `cards`.
pub open spec fn suit_count(cards: Seq<Card>, suit: Suit) -> nat
    decreases cards.len(),
{
    if cards.len() == 0 {
        0
    } else {
        suit_count(cards.drop_last(), suit) + if cards.last().suit == suit {
            1nat
        } else {
            0nat
        }
    }
}

/// The count of a suit is at most the number of cards, and reaches it only
/// if every card is of that suit.
pub proof fn lemma_suit_count_bound(cards: Seq<Card>, suit: Suit)
    ensures
        suit_count(cards, suit) <= cards.len(),
        suit_count(cards, suit) == cards.len() <==> forall|i: int|
            0 <= i < cards.len() ==> (#[trigger] cards[i]).suit == suit,
    decreases cards.len(),
{
    if cards.len() > 0 {
        let rest = cards.drop_last();
        lemma_suit_count_bound(rest, suit);
        if suit_count(cards, suit) == cards.len() {
            assert forall|i: int| 0 <= i < cards.len() implies (#[trigger] cards[i]).suit
                == suit by {
                if i < cards.len() - 1 {
                    assert(rest[i] == cards[i]);
                }
            }
        }
        if forall|i: int| 0 <= i < cards.len() ==> (#[trigger] cards[i]).suit == suit {
            assert forall|i: int| 0 <= i < rest.len() implies (#[trigger] rest[i]).suit
                == suit by {
                assert(rest[i] == cards[i]);
            }
        }
    }
}

impl Hand {
    /// A hand that holds `cards` and has played nothing.
    pub fn new(cards: Vec<Card>) -> (hand: Hand)
        ensures
            hand.cards@ == cards@,
            hand.played@.len() == 0,
    {
        Hand { cards, played: Vec::new() }
    }

    /// Where `card` lies among the held cards: the first position that holds
    /// it, or `None` if it is not held.
    pub fn find(&self, card: &Card) -> (at: Option<usize>)
        ensures
            at is None <==> !self.cards@.contains(*card),
            at matches Some(i) ==> i < self.cards@.len() && self.cards@[i as int] == *card
                && forall|j: int| 0 <= j < i ==> self.cards@[j] != *card,
    {
        let mut i: usize = 0;
        while i < self.cards.len()
            invariant
                i <= self.cards@.len(),
                forall|j: int| 0 <= j < i ==> self.cards@[j] != *card,
            decreases self.cards@.len() - i,
        {
            if self.cards[i] == *card {
                return Some(i);
            }
            i += 1;
        }
        None
    }

    /// Whether `card` is among the held cards.
    pub fn holds(&self, card: &Card) -> (held: bool)
        ensures
            held == self.cards@.contains(*card),
    {
        self.find(card).is_some()
    }

    /// Whether `card` is among the cards that the hand has played.
    pub fn has_played(&self, card: &Card) -> (gone: bool)
        ensures
            gone == self.played@.contains(*card),
    {
        let mut i: usize = 0;
        while i < self.played.len()
            invariant
                i <= self.played@.len(),
                forall|j: int| 0 <= j < i ==> self.played@[j] != *card,
            decreases self.played@.len() - i,
        {
            if self.played[i] == *card {
                return true;
            }
            i += 1;
        }
        false
    }

    /// Whether a card of suit `suit` is held.
    pub fn has_suit(&self, suit: Suit) -> (any: bool)
        ensures
            any == has_suit(self.cards@, suit),
    {
        let mut i: usize = 0;
        while i < self.cards.len()
            invariant
                i <= self.cards@.len(),
                forall|j: int| 0 <= j < i ==> (#[trigger] self.cards@[j]).suit != suit,
            decreases self.cards@.len() - i,
        {
            if self.cards[i].suit == suit {
                return true;
            }
            i += 1;
        }
        false
    }

    /// Whether a trump of `contract` is held.
    pub fn has_trump(&self, contract: &Contract) -> (any: bool)
        ensures
            any == has_trump(self.cards@, *contract),
    {
        let mut i: usize = 0;
        while i < self.cards.len()
            invariant
                i <= self.cards@.len(),
                forall|j: int| 0 <= j < i ==> !is_trump(&#[trigger] self.cards@[j], contract),
            decreases self.cards@.len() - i,
        {
            if is_trump(&self.cards[i], contract) {
                return true;
            }
            i += 1;
        }
        false
    }

    /// Whether a card of suit `suit` is held that would not be trump if
    /// `suit` were called.
    pub fn has_plain(&self, suit: Suit) -> (any: bool)
        ensures
            any == has_plain(self.cards@, suit),
    {
        let called = Contract::Call(suit);
        let mut i: usize = 0;
        while i < self.cards.len()
            invariant
                i <= self.cards@.len(),
                called == Contract::Call(suit),
                forall|j: int|
                    0 <= j < i ==> !((#[trigger] self.cards@[j]).suit == suit && !is_trump(
                        &self.cards@[j],
                        &called,
                    )),
            decreases self.cards@.len() - i,
        {
            if self.cards[i].suit == suit && !is_trump(&self.cards[i], &called) {
                return true;
            }
            i += 1;
        }
        false
    }

    /// Whether the Ace of `suit` is held.
    pub fn holds_ace(&self, suit: Suit) -> (held: bool)
        ensures
            held == self.cards@.contains(Card { suit, value: Value::Ace }),
    {
        let ace = Card { suit, value: Value::Ace };
        self.holds(&ace)
    }

    /// Whether at least `wanted` cards of suit `suit` are held.
    pub fn has_suit_count(&self, suit: Suit, wanted: usize) -> (enough: bool)
        ensures
            enough == (suit_count(self.cards@, suit) >= wanted),
    {
        let mut found: usize = 0;
        let mut i: usize = 0;
        while i < self.cards.len()
            invariant
                i <= self.cards@.len(),
                found == suit_count(self.cards@.take(i as int), suit),
                found <= i,
            decreases self.cards@.len() - i,
        {
            proof {
                assert(self.cards@.take(i + 1).drop_last() =~= self.cards@.take(i as int));
            }
            if self.cards[i].suit == suit {
                found += 1;
            }
            i += 1;
        }
        proof {
            assert(self.cards@.take(i as int) =~= self.cards@);
        }
        found >= wanted
    }
}

} // verus!
