//! Starting a deal and moving it forward: dealing, setting the contract,
//! playing a card, and counting the points.

use vstd::prelude::*;
use vstd::seq_lib::*;
use crate::card::{Card, Suit, Value, deck_is_full, is_full_deck, lemma_full_deck_properties};
use crate::contract::Contract;
use crate::deal_laws::{
    lemma_all_cards,
    lemma_every_card_was_dealt,
    lemma_log_of_deal,
    lemma_no_cards,
    lemma_run_recorded,
    lemma_turn_kept,
};
use crate::dealer::{Dealer, lemma_undealt_cards};
use crate::error::LegalityError;
use crate::game::{Game, all_cards, cards_played_by, lead_card, next_to_act, was_dealt};
use crate::hand::Hand;
use crate::legal::{legal_play, play_runs_away, runs_away};
use crate::trick::{
    PlayedCard,
    points_won,
    seats_valid,
    tally_points,
    trick_cards,
    winner_of_trick,
};

verus! {

/// The hands hold what was dealt off `deck`: seat 0 the top eight cards with
/// the top card first, seat 1 the next eight, and so on.
pub open spec fn dealt_in_order(hands: Seq<Hand>, deck: Seq<Card>) -> bool {
    forall|p: int, i: int|
        0 <= p < 4 && 0 <= i < 8 ==> (#[trigger] hands[p].cards@[i]) == deck[31 - 8 * p - i]
}

impl Game {
    /// The state of a deal before the auction: nothing played, no contract,
    /// `forehand` to act first.
    pub open spec fn is_fresh(&self, forehand: usize) -> bool {
        &&& self.trick == 0
        &&& !self.ran_away
        &&& self.next_player == forehand
        &&& self.declarer == 0
        &&& self.played@.len() == 0
        &&& self.contract == Contract::Undecided
        &&& forall|p: int|
            0 <= p < 4 ==> (#[trigger] self.hands@[p]).cards@.len() == 8 && self.hands@[p].played@.len()
                == 0
    }

    fn deal_from(forehand: usize, dealer: Dealer) -> (game: Game)
        requires
            forehand < 4,
            is_full_deck(dealer.deck@),
        ensures
            game.wf(),
            game.is_fresh(forehand),
            dealt_in_order(game.hands@, dealer.deck@),
    {
        broadcast use vstd::multiset::group_multiset_axioms;

        let mut dealer = dealer;
        let ghost d0 = dealer.deck@;
        proof {
            lemma_full_deck_properties(d0);
        }
        let h0 = dealer.deal();
        let ghost d1 = dealer.deck@;
        assert(d1.len() == 24 && d0 == d1 + h0.cards@.reverse());
        let h1 = dealer.deal();
        let ghost d2 = dealer.deck@;
        assert(d2.len() == 16 && d1 == d2 + h1.cards@.reverse());
        let h2 = dealer.deal();
        let ghost d3 = dealer.deck@;
        assert(d3.len() == 8 && d2 == d3 + h2.cards@.reverse());
        let h3 = dealer.deal();
        let ghost d4 = dealer.deck@;
        assert(d4.len() == 0 && d3 == d4 + h3.cards@.reverse());
        let game = Game {
            trick: 0,
            ran_away: false,
            next_player: forehand,
            declarer: 0,
            played: Vec::new(),
            hands: [h0, h1, h2, h3],
            contract: Contract::Undecided,
        };
        proof {
            let hands = game.hands@;
            assert(hands[0] == h0 && hands[1] == h1 && hands[2] == h2 && hands[3] == h3);
            lemma_undealt_cards(d1, h0.cards@);
            lemma_undealt_cards(d2, h1.cards@);
            lemma_undealt_cards(d3, h2.cards@);
            lemma_undealt_cards(d4, h3.cards@);
            lemma_all_cards(hands);
            lemma_no_cards(d4);
            lemma_no_cards(h0.played@);
            lemma_no_cards(h1.played@);
            lemma_no_cards(h2.played@);
            lemma_no_cards(h3.played@);
            assert(all_cards(hands).to_multiset() =~= d0.to_multiset());
            assert(h0.played@ =~= cards_played_by(game.played@, 0));
            assert(h1.played@ =~= cards_played_by(game.played@, 1));
            assert(h2.played@ =~= cards_played_by(game.played@, 2));
            assert(h3.played@ =~= cards_played_by(game.played@, 3));
            assert(is_full_deck(all_cards(hands)));
            assert(dealt_in_order(hands, d0)) by {
                assert forall|p: int, i: int| 0 <= p < 4 && 0 <= i < 8 implies (
                #[trigger] hands[p].cards@[i]) == d0[31 - 8 * p - i] by {
                    assert(h0.cards@.reverse()[7 - i] == h0.cards@[i]);
                    assert(h1.cards@.reverse()[7 - i] == h1.cards@[i]);
                    assert(h2.cards@.reverse()[7 - i] == h2.cards@[i]);
                    assert(h3.cards@.reverse()[7 - i] == h3.cards@[i]);
                    assert(d0[24 + (7 - i)] == h0.cards@.reverse()[7 - i]);
                    assert(d1[16 + (7 - i)] == h1.cards@.reverse()[7 - i]);
                    assert(d2[8 + (7 - i)] == h2.cards@.reverse()[7 - i]);
                    assert(d3[7 - i] == h3.cards@.reverse()[7 - i]);
                }
            }
        }
        game
    }

    /// A new deal: a freshly shuffled deck dealt out, eight cards to each
    /// seat, with `forehand` to act first and the contract still undecided.
    pub fn new(forehand_player: usize) -> (game: Game)
        requires
            forehand_player < 4,
        ensures
            game.wf(),
            game.is_fresh(forehand_player),
    {
        let dealer = Dealer::new();
        Game::deal_from(forehand_player, dealer)
    }

    /// A new deal from a given deck, whose last card is dealt first. Returns
    /// `None` unless `forehand` is a seat and `deck` holds every card exactly
    /// once.
    pub fn with_deck(forehand_player: usize, deck: Vec<Card>) -> (dealt: Option<Game>)
        ensures
            dealt is Some <==> forehand_player < 4 && is_full_deck(deck@),
            dealt matches Some(game) ==> game.wf() && game.is_fresh(forehand_player)
                && dealt_in_order(game.hands@, deck@),
    {
        if forehand_player >= 4 || !deck_is_full(&deck) {
            return None;
        }
        Some(Game::deal_from(forehand_player, Dealer { deck }))
    }

    /// Sets the contract and the declarer of a deal that has none yet.
    /// Returns whether it did; a deal that has a contract, the undecided
    /// contract and a declarer that is no seat are turned down, and the deal
    /// stays as it was.
    pub fn assign_contract(&mut self, contract: Contract, declarer: usize) -> (assigned: bool)
        requires
            old(self).wf(),
        ensures
            final(self).wf(),
            assigned <==> old(self).contract == Contract::Undecided && contract
                != Contract::Undecided && declarer < 4,
            assigned ==> final(self).contract == contract && final(self).declarer == declarer,
            !assigned ==> final(self).contract == old(self).contract && final(self).declarer
                == old(self).declarer,
            final(self).trick == old(self).trick,
            final(self).ran_away == old(self).ran_away,
            final(self).next_player == old(self).next_player,
            final(self).played == old(self).played,
            final(self).hands == old(self).hands,
    {
        if self.contract != Contract::Undecided || contract == Contract::Undecided || declarer
            >= 4 {
            return false;
        }
        self.contract = contract;
        self.declarer = declarer;
        true
    }

    /// Card points won by each seat so far: every complete trick credits the
    /// points of its four cards to its winner. Once the deal is over the
    /// four seats hold 120 points between them.
    pub fn get_points(&self) -> (points: [u32; 4])
        ensures
            forall|p: usize|
                p < 4 ==> points@[p as int] == points_won(self.played@, self.contract, p, 8),
            self.wf() && self.is_over() ==> points@[0] + points@[1] + points@[2] + points@[3]
                == 120,
    {
        proof {
            if self.wf() {
                lemma_log_of_deal(self);
            }
        }
        tally_points(&self.played, &self.contract)
    }
}

impl Game {
    /// Why `card` cannot be played now, or `None` if it can: the deal is
    /// over, no contract is set, or the card is not held by the seat to act
    /// or is forbidden by the rules of play.
    pub open spec fn play_refusal(&self, card: Card) -> Option<LegalityError> {
        let cards = self.hands@[self.next_player as int].cards@;
        if self.played@.len() == 32 {
            Some(LegalityError::AlreadyOver)
        } else if self.contract == Contract::Undecided {
            Some(LegalityError::NotReady)
        } else if !cards.contains(card) || !legal_play(
            self.contract,
            lead_card(self.played@, self.trick as int),
            self.ran_away,
            Some(cards),
            card,
        ) {
            Some(LegalityError::IllegalPlay)
        } else {
            None
        }
    }

    /// Passes the turn on after a play: to the winner of the trick if the
    /// play completed one, to the next seat otherwise.
    pub fn update_next_player(&mut self)
        requires
            old(self).next_player < 4,
            old(self).played@.len() <= 32,
        ensures
            final(self).next_player == next_to_act(
                old(self).played@,
                old(self).contract,
                old(self).next_player,
            ),
            seats_valid(old(self).played@) ==> final(self).next_player < 4,
            final(self).trick == old(self).trick,
            final(self).ran_away == old(self).ran_away,
            final(self).declarer == old(self).declarer,
            final(self).played == old(self).played,
            final(self).hands == old(self).hands,
            final(self).contract == old(self).contract,
    {
        let count: usize = self.played.len();
        if count > 0 && count % 4 == 0 {
            let trick: u8 = (count / 4 - 1) as u8;
            proof {
                if seats_valid(self.played@) {
                    crate::trick::lemma_winning_index(
                        trick_cards(self.played@, trick as int),
                        self.contract,
                        4,
                    );
                }
            }
            match winner_of_trick(&self.played, trick, &self.contract) {
                Some(winner) => {
                    self.next_player = winner;
                },
                None => {},
            }
        } else {
            self.next_player = (self.next_player + 1) % 4;
        }
    }

    /// Plays `card` for the seat to act.
    ///
    /// On success the card moves from the held to the played cards of that
    /// seat, the play is appended to the log, the trick count follows the
    /// log, and the turn passes on. Where the holder of the called Ace
    /// opens a trick with another card of the called suit, the deal records
    /// that the player has run away, for good. A refused play changes
    /// nothing.
    pub fn play_card(&mut self, card: Card) -> (done: Result<(), LegalityError>)
        requires
            old(self).wf(),
        ensures
            final(self).wf(),
            old(self).play_refusal(card) matches Some(e) ==> done == Err::<(), LegalityError>(e)
                && *final(self) == *old(self),
            old(self).play_refusal(card) is None ==> {
                let seat = old(self).next_player as int;
                &&& done is Ok
                &&& final(self).played@ == old(self).played@.push(
                    PlayedCard(card, old(self).next_player),
                )
                &&& final(self).hands@[seat].played@ == old(self).hands@[seat].played@.push(card)
                &&& final(self).hands@[seat].cards@ == old(self).hands@[seat].cards@.remove_value(
                    card,
                )
                &&& forall|p: int|
                    0 <= p < 4 && p != seat ==> final(self).hands@[p] == old(self).hands@[p]
                &&& final(self).trick as int == final(self).played@.len() / 4
                &&& final(self).next_player == next_to_act(
                    final(self).played@,
                    old(self).contract,
                    old(self).next_player,
                )
                &&& final(self).contract == old(self).contract
                &&& final(self).declarer == old(self).declarer
                &&& final(self).ran_away == (old(self).ran_away || runs_away(
                    old(self).contract,
                    lead_card(old(self).played@, old(self).trick as int),
                    old(self).hands@[seat].cards@,
                    card,
                ))
            },
    {
        broadcast use vstd::multiset::group_multiset_axioms;

        proof {
            lemma_log_of_deal(self);
        }
        if self.is_over() {
            return Err(LegalityError::AlreadyOver);
        }
        if self.contract == Contract::Undecided {
            return Err(LegalityError::NotReady);
        }
        let seat: usize = self.next_player;
        let at: usize = match self.hands[seat].find(&card) {
            Some(i) => i,
            None => {
                return Err(LegalityError::IllegalPlay);
            },
        };
        if !self.action_is_valid(&card, Some(&self.hands[seat])) {
            return Err(LegalityError::IllegalPlay);
        }
        let runs: bool = play_runs_away(&self.contract, self.lead(), &card, &self.hands[seat]);
        let ghost before = *self;
        let ghost held = before.hands@[seat as int].cards@;
        let ghost gone = before.hands@[seat as int].played@;
        proof {
            held.index_of_first_ensures(card);
            assert(held.remove_value(card) == held.remove(at as int));
            lemma_all_cards(before.hands@);
            to_multiset_remove(held, at as int);
            to_multiset_build(gone, card);
            to_multiset_contains(held, card);
        }
        self.played.push(PlayedCard(card, seat));
        self.hands[seat].played.push(card);
        self.hands[seat].cards.remove(at);
        if runs {
            self.ran_away = true;
        }
        self.update_trick();
        self.update_next_player();
        proof {
            let log = self.played@;
            lemma_turn_kept(before.played@, before.contract, PlayedCard(card, seat));
            assert(log.drop_last() =~= before.played@);
            assert(log.last() == PlayedCard(card, seat));
            assert(seats_valid(log));
            lemma_all_cards(self.hands@);
            assert(all_cards(self.hands@).to_multiset() =~= all_cards(
                before.hands@,
            ).to_multiset());
            assert forall|p: int| 0 <= p < 4 && p != seat implies self.hands@[p]
                == before.hands@[p] by {}
            lemma_run_recorded(&before, card, self.hands@);
        }
        Ok(())
    }
}

impl Game {
    /// The declarer's partner under a Call: the first seat that was dealt the
    /// Ace of the called suit. `None` under every other contract, and where
    /// no seat was dealt that Ace, which does not happen in a consistent
    /// deal.
    pub fn called_player(&self) -> (seat: Option<usize>)
        ensures
            !(self.contract is Call) ==> seat is None,
            self.contract matches Contract::Call(suit) ==> match seat {
                Some(p) => p < 4 && was_dealt(self.hands@[p as int], Card { suit, value: Value::Ace })
                    && forall|q: int|
                    0 <= q < p ==> !was_dealt(
                        #[trigger] self.hands@[q],
                        Card { suit, value: Value::Ace },
                    ),
                None => forall|q: int|
                    0 <= q < 4 ==> !was_dealt(
                        #[trigger] self.hands@[q],
                        Card { suit, value: Value::Ace },
                    ),
            },
            self.wf() && self.contract is Call ==> seat is Some,
    {
        let suit: Suit = match self.contract {
            Contract::Call(suit) => suit,
            _ => {
                return None;
            },
        };
        let ace = Card { suit, value: Value::Ace };
        proof {
            if self.wf() {
                lemma_every_card_was_dealt(self, ace);
            }
        }
        let mut p: usize = 0;
        while p < 4
            invariant
                p <= 4,
                self.contract == Contract::Call(suit),
                ace == (Card { suit, value: Value::Ace }),
                forall|q: int| 0 <= q < p ==> !was_dealt(#[trigger] self.hands@[q], ace),
            decreases 4 - p,
        {
            if self.hands[p].holds(&ace) || self.hands[p].has_played(&ace) {
                return Some(p);
            }
            p += 1;
        }
        None
    }
}

} // verus!
