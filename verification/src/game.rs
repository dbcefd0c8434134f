//! One deal: four hands, the contract, the log of plays and whose turn it is.

use vstd::prelude::*;
use crate::card::{Card, Suit, Value, is_full_deck};
use crate::contract::Contract;
use crate::hand::Hand;
use crate::legal::{
    held,
    lead_is_blocked,
    legal_follow,
    legal_lead,
    legal_play,
    lemma_some_follow_is_legal,
    lemma_some_lead_is_legal,
    play_is_legal,
};
use crate::trick::{
    PlayedCard,
    seats_valid,
    trick_complete,
    trick_winner,
    winner_of_trick,
};

verus! {

/// The state of one deal.
///
/// `played` is the log of all plays in order; every four plays form a trick
/// and `trick` counts the complete ones. `next_player` is the seat to act,
/// `declarer` the seat whose bid won the auction. `ran_away` records that
/// the holder of the called Ace has run away, which releases the player from
/// the duty to keep the Ace. A fresh deal starts with it unset; `play_card`
/// sets it with the play that runs away, and nothing unsets it, so that in
/// a consistent deal it can be read off the log.
#[derive(Debug)]
pub struct Game {
    pub trick: u8,
    pub ran_away: bool,
    pub next_player: usize,
    pub declarer: usize,
    pub played: Vec<PlayedCard>,
    pub hands: [Hand; 4],
    pub contract: Contract,
}

/// What one player may see of a deal: the own hand, the contract, the trick
/// count and the log of plays.
#[derive(Debug)]
pub struct PlayerGameState<'a> {
    pub hand: &'a Hand,
    pub contract: Contract,
    pub player_nr: usize,
    pub trick: &'a u8,
    pub played: &'a Vec<PlayedCard>,
}

/// The cards that seat `p` has played according to the log, in order.
pub open spec fn cards_played_by(log: Seq<PlayedCard>, p: usize) -> Seq<Card>
    decreases log.len(),
{
    if log.len() == 0 {
        Seq::empty()
    } else if log.last().1 == p {
        cards_played_by(log.drop_last(), p).push(log.last().0)
    } else {
        cards_played_by(log.drop_last(), p)
    }
}

/// All cards of a hand: those held, followed by those played.
pub open spec fn hand_cards(hand: Hand) -> Seq<Card> {
    hand.cards@ + hand.played@
}

/// All cards of the four hands, seat by seat.
pub open spec fn all_cards(hands: Seq<Hand>) -> Seq<Card> {
    hand_cards(hands[0]) + hand_cards(hands[1]) + hand_cards(hands[2]) + hand_cards(hands[3])
}

/// The hand of seat `p` agrees with the log: it has played exactly what the
/// log says, and held and played cards are eight in all.
pub open spec fn hand_agrees(hand: Hand, log: Seq<PlayedCard>, p: usize) -> bool {
    &&& hand.cards@.len() + hand.played@.len() == 8
    &&& hand.played@ == cards_played_by(log, p)
}

/// The card that opened trick `trick`, if the log has reached that trick.
pub open spec fn lead_card(log: Seq<PlayedCard>, trick: int) -> Option<Card> {
    if 0 <= 4 * trick < log.len() {
        Some(log[4 * trick].0)
    } else {
        None
    }
}

/// The seat to act after the play that made the log `log`, when `player`
/// made that play: the winner of the trick if the play completed one, the
/// seat to the left otherwise.
pub open spec fn next_to_act(log: Seq<PlayedCard>, contract: Contract, player: usize) -> usize {
    if log.len() > 0 && log.len() % 4 == 0 {
        trick_winner(log, log.len() / 4 - 1, contract)
    } else {
        ((player + 1) % 4) as usize
    }
}

/// The seat whose turn it is at position `i` of the log, `i` being at least
/// one: the winner of the trick before if a trick starts there, the seat to
/// the left of the seat before otherwise.
pub open spec fn seat_after(log: Seq<PlayedCard>, i: int, contract: Contract) -> usize {
    if i % 4 == 0 {
        trick_winner(log, i / 4 - 1, contract)
    } else {
        ((log[i - 1].1 + 1) % 4) as usize
    }
}

/// The play at position `i` of the log was made by the seat whose turn it
/// was.
pub open spec fn in_turn(log: Seq<PlayedCard>, i: int, contract: Contract) -> bool {
    log[i].1 == seat_after(log, i, contract)
}

/// Every play but the first was made by the seat whose turn it was.
pub open spec fn turns_kept(log: Seq<PlayedCard>, contract: Contract) -> bool {
    forall|i: int| 1 <= i < log.len() ==> #[trigger] in_turn(log, i, contract)
}

/// Whether `card` was dealt to `hand`: the hand holds it or has played it.
pub open spec fn was_dealt(hand: Hand, card: Card) -> bool {
    hand.cards@.contains(card) || hand.played@.contains(card)
}

/// The play at position `i` of the log ran away with the Ace of `suit`: it
/// opened a trick with another card of that suit, and its seat was dealt the
/// Ace and had not played it yet.
pub open spec fn ran_at(log: Seq<PlayedCard>, hands: Seq<Hand>, suit: Suit, i: int) -> bool {
    let ace = Card { suit, value: Value::Ace };
    &&& 0 <= i < log.len()
    &&& i % 4 == 0
    &&& log[i].0.suit == suit
    &&& log[i].0.value != Value::Ace
    &&& log[i].1 < 4
    &&& was_dealt(hands[log[i].1 as int], ace)
    &&& forall|j: int| 0 <= j < i ==> (#[trigger] log[j]).0 != ace
}

/// Some play of the log ran away with the called Ace.
pub open spec fn has_run(log: Seq<PlayedCard>, hands: Seq<Hand>, contract: Contract) -> bool {
    match contract {
        Contract::Call(suit) => exists|i: int| #[trigger] ran_at(log, hands, suit, i),
        _ => false,
    }
}

/// The cards behind a sequence of card references.
pub open spec fn cards_of(refs: Seq<&Card>) -> Seq<Card> {
    Seq::new(refs.len(), |i: int| *refs[i])
}

/// The test "may be played now" as a function of the card, for a player who
/// holds `cards`.
pub open spec fn legal_now(
    contract: Contract,
    lead: Option<Card>,
    ran_away: bool,
    cards: Seq<Card>,
) -> spec_fn(Card) -> bool {
    |c: Card| legal_play(contract, lead, ran_away, Some(cards), c)
}

impl Game {
    /// The deal is consistent: seats are in range, the trick count follows
    /// the log, nothing has been played without a contract, every play was
    /// made in turn and the seat to act is the one whose turn it is, the
    /// flag for running away is set exactly if some play of the log ran
    /// away, the four hands hold every card of the deck exactly once between
    /// held and played cards, and each hand has played what the log says.
    pub open spec fn wf(&self) -> bool {
        &&& self.next_player < 4
        &&& self.declarer < 4
        &&& self.trick as int == self.played@.len() / 4
        &&& (self.contract == Contract::Undecided ==> self.played@.len() == 0)
        &&& seats_valid(self.played@)
        &&& turns_kept(self.played@, self.contract)
        &&& (self.played@.len() > 0 ==> self.next_player == seat_after(
            self.played@,
            self.played@.len() as int,
            self.contract,
        ))
        &&& self.ran_away == has_run(self.played@, self.hands@, self.contract)
        &&& is_full_deck(all_cards(self.hands@))
        &&& hand_agrees(self.hands@[0], self.played@, 0)
        &&& hand_agrees(self.hands@[1], self.played@, 1)
        &&& hand_agrees(self.hands@[2], self.played@, 2)
        &&& hand_agrees(self.hands@[3], self.played@, 3)
    }

    /// All 32 cards have been played.
    pub open spec fn spec_is_over(&self) -> bool {
        self.played@.len() == 32
    }

    /// Whether all 32 cards have been played.
    #[verifier::when_used_as_spec(spec_is_over)]
    pub fn is_over(&self) -> (over: bool)
        ensures
            over == self.spec_is_over(),
    {
        self.played.len() == 32
    }

    /// A contract is set, nothing has been played, and every hand holds its
    /// eight cards.
    pub open spec fn spec_is_ready_to_play(&self) -> bool {
        &&& self.played@.len() == 0
        &&& self.contract != Contract::Undecided
        &&& self.trick == 0
        &&& forall|p: int|
            0 <= p < 4 ==> (#[trigger] self.hands@[p]).cards@.len() == 8 && self.hands@[p].played@.len()
                == 0
    }

    /// Whether the deal is about to start: a contract is set, nothing has
    /// been played, and every hand holds its eight cards.
    #[verifier::when_used_as_spec(spec_is_ready_to_play)]
    pub fn is_ready_to_play(&self) -> (ready: bool)
        ensures
            ready == self.spec_is_ready_to_play(),
    {
        if !(self.played.len() == 0 && self.contract != Contract::Undecided && self.trick == 0) {
            return false;
        }
        let mut p: usize = 0;
        while p < 4
            invariant
                p <= 4,
                forall|q: int|
                    0 <= q < p ==> (#[trigger] self.hands@[q]).cards@.len() == 8
                        && self.hands@[q].played@.len() == 0,
            decreases 4 - p,
        {
            if !(self.hands[p].cards.len() == 8 && self.hands[p].played.len() == 0) {
                return false;
            }
            p += 1;
        }
        true
    }

    /// What seat `player_nr` may see of the deal.
    pub fn get_player_game_state(&self, player_nr: usize) -> (state: PlayerGameState<'_>)
        requires
            player_nr < 4,
        ensures
            *state.hand == self.hands@[player_nr as int],
            state.contract == self.contract,
            state.player_nr == player_nr,
            *state.trick == self.trick,
            *state.played == self.played,
    {
        PlayerGameState {
            hand: &self.hands[player_nr],
            contract: self.contract,
            player_nr,
            trick: &self.trick,
            played: &self.played,
        }
    }

    /// Replaces the stored trick count by the number of complete tricks in
    /// the log.
    pub fn update_trick(&mut self)
        requires
            old(self).played@.len() <= 32,
        ensures
            final(self).trick as int == old(self).played@.len() / 4,
            final(self).ran_away == old(self).ran_away,
            final(self).next_player == old(self).next_player,
            final(self).declarer == old(self).declarer,
            final(self).played == old(self).played,
            final(self).hands == old(self).hands,
            final(self).contract == old(self).contract,
    {
        self.trick = (self.played.len() / 4) as u8;
    }

    /// The seat that won trick `trick`, or `None` while that trick is
    /// incomplete.
    pub fn determine_trick_winner(&self, trick: u8) -> (winner: Option<usize>)
        ensures
            winner is Some <==> trick_complete(self.played@, trick as int),
            winner matches Some(w) ==> w == trick_winner(self.played@, trick as int, self.contract),
            self.wf() ==> (winner matches Some(w) ==> w < 4),
    {
        let winner = winner_of_trick(&self.played, trick, &self.contract);
        proof {
            if self.wf() && winner is Some {
                crate::trick::lemma_winning_index(
                    crate::trick::trick_cards(self.played@, trick as int),
                    self.contract,
                    4,
                );
            }
        }
        winner
    }

    /// The card that opened the current trick, if any card of it has been
    /// played.
    pub fn lead(&self) -> (lead: Option<Card>)
        ensures
            lead == lead_card(self.played@, self.trick as int),
    {
        let start: usize = (self.trick as usize) * 4;
        if start < self.played.len() {
            Some(self.played[start].0)
        } else {
            None
        }
    }

    /// Whether `action` may be played now by a player whose hand is `hand`;
    /// pass `None` where the hand is not known, and nothing is forbidden on
    /// its account. Whether the card is held is not asked here.
    pub fn action_is_valid(&self, action: &Card, hand: Option<&Hand>) -> (valid: bool)
        ensures
            valid == legal_play(
                self.contract,
                lead_card(self.played@, self.trick as int),
                self.ran_away,
                held(hand),
                *action,
            ),
            hand is None ==> valid,
    {
        play_is_legal(&self.contract, self.lead(), self.ran_away, action, hand)
    }

    /// The held cards of `hand` that may be played now, in the order in which
    /// the hand holds them.
    ///
    /// A hand that holds a card always finds one here, unless it is to lead
    /// and is blocked on the called suit.
    pub fn get_legal_actions<'a>(&'a self, hand: &'a Hand) -> (actions: Vec<&'a Card>)
        ensures
            cards_of(actions@) == hand.cards@.filter(
                legal_now(
                    self.contract,
                    lead_card(self.played@, self.trick as int),
                    self.ran_away,
                    hand.cards@,
                ),
            ),
            lead_card(self.played@, self.trick as int) is None && hand.cards@.len() > 0
                && hand.cards@.no_duplicates() && !lead_is_blocked(
                self.contract,
                self.ran_away,
                hand.cards@,
            ) ==> actions@.len() > 0,
            lead_card(self.played@, self.trick as int) is Some && hand.cards@.len() > 0
                ==> actions@.len() > 0,
    {
        let ghost test = legal_now(
            self.contract,
            lead_card(self.played@, self.trick as int),
            self.ran_away,
            hand.cards@,
        );
        let mut actions: Vec<&Card> = Vec::new();
        let mut i: usize = 0;
        while i < hand.cards.len()
            invariant
                i <= hand.cards@.len(),
                test == legal_now(
                    self.contract,
                    lead_card(self.played@, self.trick as int),
                    self.ran_away,
                    hand.cards@,
                ),
                cards_of(actions@) == hand.cards@.take(i as int).filter(test),
            decreases hand.cards@.len() - i,
        {
            let card = &hand.cards[i];
            let ghost before = cards_of(actions@);
            proof {
                hand.cards@.lemma_take_succ_push(i as int);
                hand.cards@.take(i as int).lemma_filter_push(*card, test);
            }
            if self.action_is_valid(card, Some(hand)) {
                actions.push(card);
                proof {
                    assert(cards_of(actions@) =~= before.push(*card));
                }
            }
            i += 1;
        }
        proof {
            assert(hand.cards@.take(i as int) =~= hand.cards@);
            if lead_card(self.played@, self.trick as int) is None && hand.cards@.len() > 0
                && hand.cards@.no_duplicates() && !lead_is_blocked(
                self.contract,
                self.ran_away,
                hand.cards@,
            ) {
                lemma_some_lead_is_legal(self.contract, self.ran_away, hand.cards@);
                let k = choose|k: int|
                    0 <= k < hand.cards@.len() && legal_lead(
                        self.contract,
                        self.ran_away,
                        Some(hand.cards@),
                        #[trigger] hand.cards@[k],
                    );
                hand.cards@.lemma_filter_contains(test, k);
            }
            if lead_card(self.played@, self.trick as int) is Some && hand.cards@.len() > 0 {
                let first = lead_card(self.played@, self.trick as int)->0;
                lemma_some_follow_is_legal(self.contract, first, self.ran_away, hand.cards@);
                let k = choose|k: int|
                    0 <= k < hand.cards@.len() && legal_follow(
                        self.contract,
                        first,
                        self.ran_away,
                        Some(hand.cards@),
                        #[trigger] hand.cards@[k],
                    );
                hand.cards@.lemma_filter_contains(test, k);
            }
        }
        actions
    }

    /// The held cards of `hand` that may be played now; another name for
    /// `get_legal_actions`.
    pub fn get_valid_actions<'a>(&'a self, hand: &'a Hand) -> (actions: Vec<&'a Card>)
        ensures
            cards_of(actions@) == hand.cards@.filter(
                legal_now(
                    self.contract,
                    lead_card(self.played@, self.trick as int),
                    self.ran_away,
                    hand.cards@,
                ),
            ),
    {
        self.get_legal_actions(hand)
    }
}

} // verus!
