//! Cards and hands as text.

use vstd::prelude::*;
use vstd::seq_lib::*;
use vstd::string::StringExecFns;
use crate::card::{Card, Suit, Value};
use crate::hand::Hand;

verus! {

impl Suit {
    /// The sign of the suit.
    pub open spec fn spec_symbol(&self) -> Seq<char> {
        match self {
            Suit::Acorns => "🌰"@,
            Suit::Leaves => "🍀"@,
            Suit::Hearts => "❤️"@,
            Suit::Bells => "🔔"@,
        }
    }

    /// The sign of the suit.
    pub fn symbol(&self) -> (sign: &'static str)
        ensures
            sign@ == self.spec_symbol(),
    {
        match self {
            Suit::Acorns => "🌰",
            Suit::Leaves => "🍀",
            Suit::Hearts => "❤️",
            Suit::Bells => "🔔",
        }
    }
}

impl Value {
    /// The short name of the rank: the number of a number card, the initial
    /// of a court card.
    pub open spec fn spec_symbol(&self) -> Seq<char> {
        match self {
            Value::Seven => "7"@,
            Value::Eight => "8"@,
            Value::Nine => "9"@,
            Value::Ten => "10"@,
            Value::Under => "U"@,
            Value::Ober => "O"@,
            Value::King => "K"@,
            Value::Ace => "A"@,
        }
    }

    /// The short name of the rank.
    pub fn symbol(&self) -> (name: &'static str)
        ensures
            name@ == self.spec_symbol(),
    {
        match self {
            Value::Seven => "7",
            Value::Eight => "8",
            Value::Nine => "9",
            Value::Ten => "10",
            Value::Under => "U",
            Value::Ober => "O",
            Value::King => "K",
            Value::Ace => "A",
        }
    }
}

impl Card {
    /// The card as text: the sign of its suit, a blank, the name of its rank.
    pub open spec fn spec_text(&self) -> Seq<char> {
        self.suit.spec_symbol() + " "@ + self.value.spec_symbol()
    }

    /// The card as text: the sign of its suit, a blank, the name of its rank.
    pub fn to_string(&self) -> (text: String)
        ensures
            text@ == self.spec_text(),
    {
        let mut text = String::from_str(self.suit.symbol());
        text.append(" ");
        text.append(self.value.symbol());
        text
    }
}

/// No card of `s` stands before a card that comes later in the ordered deck.
pub open spec fn highest_first(s: Seq<Card>) -> bool {
    forall|i: int, j: int| 0 <= i < j < s.len() ==> s[i].code() >= s[j].code()
}

/// The texts of the cards, one per line.
pub open spec fn lines(cards: Seq<Card>) -> Seq<char>
    decreases cards.len(),
{
    if cards.len() == 0 {
        Seq::empty()
    } else if cards.len() == 1 {
        cards[0].spec_text()
    } else {
        lines(cards.drop_last()) + "\n"@ + cards.last().spec_text()
    }
}

/// The texts of `cards`, one per line, in the order given.
pub fn cards_to_string(cards: &Vec<Card>) -> (text: String)
    ensures
        text@ == lines(cards@),
{
    let mut text = String::new();
    let mut i: usize = 0;
    while i < cards.len()
        invariant
            i <= cards@.len(),
            text@ == lines(cards@.take(i as int)),
        decreases cards@.len() - i,
    {
        proof {
            assert(cards@.take(i + 1).drop_last() =~= cards@.take(i as int));
            assert(cards@.take(i + 1).last() == cards@[i as int]);
            if i == 0 {
                assert(lines(cards@.take(0)) =~= Seq::<char>::empty());
            }
        }
        if i > 0 {
            text.append("\n");
        }
        let card = cards[i].to_string();
        text.append(card.as_str());
        proof {
            assert(text@ =~= lines(cards@.take(i + 1)));
        }
        i += 1;
    }
    proof {
        assert(cards@.take(i as int) =~= cards@);
    }
    text
}

impl Hand {
    /// The held cards, highest first: by suit from Acorns down to Bells, and
    /// within a suit by rank from the Ace down.
    pub fn sorted(&self) -> (sorted: Vec<Card>)
        ensures
            sorted@.to_multiset() == self.cards@.to_multiset(),
            highest_first(sorted@),
    {
        let mut sorted: Vec<Card> = Vec::new();
        let mut i: usize = 0;
        assert(sorted@ =~= self.cards@.take(0));
        while i < self.cards.len()
            invariant
                i <= self.cards@.len(),
                sorted@.to_multiset() == self.cards@.take(i as int).to_multiset(),
                highest_first(sorted@),
            decreases self.cards@.len() - i,
        {
            let card = self.cards[i];
            let mut at: usize = 0;
            while at < sorted.len() && sorted[at].code() >= card.code()
                invariant
                    at <= sorted@.len(),
                    forall|k: int| 0 <= k < at ==> sorted@[k].code() >= card.code(),
                decreases sorted@.len() - at,
            {
                at += 1;
            }
            proof {
                to_multiset_insert(sorted@, at as int, card);
                self.cards@.lemma_take_succ_push(i as int);
                to_multiset_build(self.cards@.take(i as int), card);
            }
            sorted.insert(at, card);
            i += 1;
        }
        proof {
            assert(self.cards@.take(i as int) =~= self.cards@);
        }
        sorted
    }

    /// The held cards as text, one per line, highest first.
    pub fn to_string(&self) -> (text: String)
        ensures
            exists|sorted: Seq<Card>|
                sorted.to_multiset() == self.cards@.to_multiset() && highest_first(sorted)
                    && text@ == lines(sorted),
    {
        let sorted = self.sorted();
        cards_to_string(&sorted)
    }
}

} // verus!
