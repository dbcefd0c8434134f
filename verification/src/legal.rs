//! Legality of a play: what may be led, and what may follow a lead.
//!
//! The rules speak of the acting player's held cards. An observer who does
//! not know them passes no hand; every question about the hand is then
//! answered with "no", and nothing is forbidden on the hand's account.
//!
//! Under a Call the holder of the called Ace has to keep it for the trick in
//! which the called suit is led. Holding four or more cards of that suit, the
//! player may run away instead: open a trick with another card of the suit.
//! From that play on the deal counts the player as having run away, and the
//! Ace is free.

use vstd::prelude::*;
use crate::card::{Card, Suit, Value};
use crate::contract::{Contract, is_trump};
use crate::hand::{Hand, has_suit, has_trump, suit_count, lemma_suit_count_bound};

verus! {

/// The suit that a Call contract calls.
pub open spec fn called_suit(contract: Contract) -> Option<Suit> {
    match contract {
        Contract::Call(suit) => Some(suit),
        _ => None,
    }
}

/// The acting player holds the called Ace, and the card in question is of the
/// called suit.
pub open spec fn player_is_called(contract: Contract, hand: Option<Seq<Card>>, action: Card) -> bool {
    match (contract, hand) {
        (Contract::Call(suit), Some(cards)) => action.suit == suit && cards.contains(
            Card { suit, value: Value::Ace },
        ),
        _ => false,
    }
}

/// The card in question is of the called suit and the acting player holds at
/// least four cards of that suit, enough to run.
pub open spec fn can_run(contract: Contract, hand: Option<Seq<Card>>, action: Card) -> bool {
    match (contract, hand) {
        (Contract::Call(suit), Some(cards)) => action.suit == suit && suit_count(cards, suit) >= 4,
        _ => false,
    }
}

/// Whether `action` may open a trick.
///
/// The holder of the called Ace who has not run away may not lead that Ace,
/// and may lead another card of the called suit only when able to run. Every
/// other lead is legal.
pub open spec fn legal_lead(
    contract: Contract,
    ran_away: bool,
    hand: Option<Seq<Card>>,
    action: Card,
) -> bool {
    !(player_is_called(contract, hand, action) && !ran_away && (action.value == Value::Ace
        || !can_run(contract, hand, action)))
}

/// Whether `action` may follow the card `lead`. The first rule that applies
/// decides:
///
/// 1. a trump was led and the hand holds a trump: a trump must be played;
/// 2. the called suit was led, the player holds the called Ace, would play
///    that suit and has not run away: the called Ace must be played;
/// 3. the hand holds a card of the suit led: that suit must be played;
/// 4. otherwise any card may be played.
pub open spec fn legal_follow(
    contract: Contract,
    lead: Card,
    ran_away: bool,
    hand: Option<Seq<Card>>,
    action: Card,
) -> bool {
    if is_trump(&lead, &contract) && hand is Some && has_trump(hand->0, contract) {
        is_trump(&action, &contract)
    } else if called_suit(contract) == Some(lead.suit) && player_is_called(contract, hand, action)
        && !ran_away {
        action.suit == lead.suit && action.value == Value::Ace
    } else if hand is Some && has_suit(hand->0, lead.suit) {
        action.suit == lead.suit
    } else {
        true
    }
}

/// Whether `action` may be played when `lead` opened the current trick, or
/// when no card of it has been played yet.
pub open spec fn legal_play(
    contract: Contract,
    lead: Option<Card>,
    ran_away: bool,
    hand: Option<Seq<Card>>,
    action: Card,
) -> bool {
    match lead {
        None => legal_lead(contract, ran_away, hand, action),
        Some(first) => legal_follow(contract, first, ran_away, hand, action),
    }
}

/// The held cards of an optional hand.
pub open spec fn held(hand: Option<&Hand>) -> Option<Seq<Card>> {
    match hand {
        Some(h) => Some(h.cards@),
        None => None,
    }
}

/// Whether `action` may be played under `contract` when `lead` opened the
/// current trick (`None`: the trick is still empty). `hand` is the acting
/// player's hand, or `None` where it is not known. Whether the card is held
/// is not asked here.
pub fn play_is_legal(
    contract: &Contract,
    lead: Option<Card>,
    ran_away: bool,
    action: &Card,
    hand: Option<&Hand>,
) -> (legal: bool)
    ensures
        legal == legal_play(*contract, lead, ran_away, held(hand), *action),
        hand is None ==> legal,
{
    let is_called: bool = match (*contract, hand) {
        (Contract::Call(suit), Some(h)) => action.suit == suit && h.holds_ace(suit),
        _ => false,
    };
    let runs: bool = match (*contract, hand) {
        (Contract::Call(suit), Some(h)) => action.suit == suit && h.has_suit_count(suit, 4),
        _ => false,
    };
    match lead {
        None => !(is_called && !ran_away && (action.value == Value::Ace || !runs)),
        Some(first) => {
            let lead_is_trump: bool = is_trump(&first, contract);
            let holds_trump: bool = match hand {
                Some(h) => h.has_trump(contract),
                None => false,
            };
            let holds_lead_suit: bool = match hand {
                Some(h) => h.has_suit(first.suit),
                None => false,
            };
            let lead_is_called: bool = match *contract {
                Contract::Call(suit) => first.suit == suit,
                _ => false,
            };
            if lead_is_trump && holds_trump {
                is_trump(action, contract)
            } else if lead_is_called && is_called && !ran_away {
                action.suit == first.suit && action.value == Value::Ace
            } else if holds_lead_suit {
                action.suit == first.suit
            } else {
                true
            }
        },
    }
}

/// The play by which the holder of the called Ace runs away: a player who
/// holds `cards`, the called Ace among them, opens a trick with another card
/// of the called suit.
pub open spec fn runs_away(
    contract: Contract,
    lead: Option<Card>,
    cards: Seq<Card>,
    action: Card,
) -> bool {
    lead is None && player_is_called(contract, Some(cards), action) && action.value
        != Value::Ace
}

/// Whether playing `action` from `hand` is the play by which the holder of
/// the called Ace runs away: opening a trick (`lead` is `None`) with another
/// card of the called suit.
pub fn play_runs_away(contract: &Contract, lead: Option<Card>, action: &Card, hand: &Hand) -> (runs:
    bool)
    ensures
        runs == runs_away(*contract, lead, hand.cards@, *action),
{
    match (*contract, lead) {
        (Contract::Call(suit), None) => action.suit == suit && action.value != Value::Ace
            && hand.holds_ace(suit),
        _ => false,
    }
}

/// The one kind of hand that cannot open a trick: the holder of the called
/// Ace who has not run away, holds cards of the called suit only, and fewer
/// than four of them.
pub open spec fn lead_is_blocked(contract: Contract, ran_away: bool, cards: Seq<Card>) -> bool {
    contract matches Contract::Call(suit) && !ran_away && cards.contains(
        Card { suit, value: Value::Ace },
    ) && cards.len() < 4 && forall|i: int| 0 <= i < cards.len() ==> (#[trigger] cards[i]).suit
        == suit
}

/// A player who is to lead can always lead something: a hand that is not
/// empty, holds no card twice and is not blocked holds a card that may open
/// the trick. A hand of four or more cards is never blocked, so this holds
/// of every hand of eight.
pub proof fn lemma_some_lead_is_legal(contract: Contract, ran_away: bool, cards: Seq<Card>)
    requires
        cards.len() > 0,
        cards.no_duplicates(),
        cards.len() >= 4 || !lead_is_blocked(contract, ran_away, cards),
    ensures
        exists|i: int|
            0 <= i < cards.len() && legal_lead(contract, ran_away, Some(cards), #[trigger] cards[i]),
{
    match contract {
        Contract::Call(suit) => {
            let ace = Card { suit, value: Value::Ace };
            if !ran_away && cards.contains(ace) {
                lemma_suit_count_bound(cards, suit);
                if exists|i: int| 0 <= i < cards.len() && (#[trigger] cards[i]).suit != suit {
                    let i = choose|i: int| 0 <= i < cards.len() && (#[trigger] cards[i]).suit != suit;
                    assert(legal_lead(contract, ran_away, Some(cards), cards[i]));
                } else {
                    assert(suit_count(cards, suit) >= 4);
                    let a = choose|a: int| 0 <= a < cards.len() && cards[a] == ace;
                    let i = if a == 0 {
                        1int
                    } else {
                        0int
                    };
                    assert(cards[i] != cards[a]);
                    assert(cards[i].suit == suit);
                    assert(cards[i].value != Value::Ace);
                    assert(legal_lead(contract, ran_away, Some(cards), cards[i]));
                }
            } else {
                assert(legal_lead(contract, ran_away, Some(cards), cards[0]));
            }
        },
        _ => {
            assert(legal_lead(contract, ran_away, Some(cards), cards[0]));
        },
    }
}

/// A player who has to follow can always follow: every hand that is not
/// empty holds a card that may be played on the card led.
pub proof fn lemma_some_follow_is_legal(
    contract: Contract,
    lead: Card,
    ran_away: bool,
    cards: Seq<Card>,
)
    requires
        cards.len() > 0,
    ensures
        exists|i: int|
            0 <= i < cards.len() && legal_follow(
                contract,
                lead,
                ran_away,
                Some(cards),
                #[trigger] cards[i],
            ),
{
    let hand = Some(cards);
    let ace = Card { suit: lead.suit, value: Value::Ace };
    if is_trump(&lead, &contract) && has_trump(cards, contract) {
        let i = choose|i: int| 0 <= i < cards.len() && is_trump(&#[trigger] cards[i], &contract);
        assert(legal_follow(contract, lead, ran_away, hand, cards[i]));
    } else if called_suit(contract) == Some(lead.suit) && cards.contains(ace) && !ran_away {
        let i = choose|i: int| 0 <= i < cards.len() && cards[i] == ace;
        assert(player_is_called(contract, hand, cards[i]));
        assert(legal_follow(contract, lead, ran_away, hand, cards[i]));
    } else if has_suit(cards, lead.suit) {
        let i = choose|i: int| 0 <= i < cards.len() && (#[trigger] cards[i]).suit == lead.suit;
        assert(legal_follow(contract, lead, ran_away, hand, cards[i]));
    } else {
        if player_is_called(contract, hand, cards[0]) && called_suit(contract) == Some(
            lead.suit,
        ) {
            assert(cards[0].suit == lead.suit);
        }
        assert(legal_follow(contract, lead, ran_away, hand, cards[0]));
    }
}

} // verus!
