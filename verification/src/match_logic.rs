//! A match: four players at a table, and the deals they have played.

use vstd::prelude::*;
use crate::agent::Agent;
use crate::auction::{Auction, bid_level, bidders, biddable_with, lemma_bids_rise, open_bids, valid_bids_for};
use crate::card::{Card, Suit};
use crate::contract::Contract;
use crate::error::LegalityError;
use crate::game::Game;
use crate::deal_laws::lemma_log_of_deal;

verus! {

/// Four players and the deals they have played. `score` is kept for the
/// stakes of the match; playing a deal does not change it.
///
/// The players are of one type `A`; a table of different kinds of players
/// takes an `A` that tells them apart.
pub struct Match<A: Agent> {
    pub score: [u32; 4],
    pub games: Vec<Game>,
    pub players: Vec<A>,
    pub stopped: bool,
    pub next_forehand: usize,
}

/// Whatever the highest bid short of a Solo, a Solo can still be bid with
/// any hand: a player who is asked for a bid always has one to make.
pub proof fn lemma_some_bid_is_valid(highest: Contract, cards: Seq<Card>)
    requires
        open_bids(highest).len() > 0,
    ensures
        valid_bids_for(highest, Some(cards)).len() > 0,
{
    let open = open_bids(highest);
    let solo = Contract::Solo(Suit::Acorns);
    let at: int = match highest {
        Contract::Call(_) | Contract::Wenz => 0,
        _ => 4,
    };
    assert(open[at] == solo);
    open.lemma_filter_contains(biddable_with(cards), at);
}

impl<A: Agent> Match<A> {
    /// At most four players sit at the table, and the forehand is a seat.
    pub open spec fn wf(&self) -> bool {
        self.players@.len() <= 4 && self.next_forehand < 4
    }

    /// A match without players and without deals, seat 0 being forehand.
    pub fn new() -> (m: Match<A>)
        ensures
            m.wf(),
            m.players@.len() == 0,
            !m.stopped,
            m.next_forehand == 0,
            m.games@.len() == 0,
            m.score@ == seq![0u32, 0u32, 0u32, 0u32],
    {
        let m = Match {
            score: [0; 4],
            games: Vec::new(),
            players: Vec::new(),
            stopped: false,
            next_forehand: 0,
        };
        assert(m.score@ =~= seq![0u32, 0u32, 0u32, 0u32]);
        m
    }

    /// Seats `player` at the table if a seat is free. Returns whether it
    /// did.
    pub fn register_player(&mut self, player: A) -> (seated: bool)
        requires
            old(self).wf(),
        ensures
            final(self).wf(),
            seated <==> old(self).players@.len() < 4,
            seated ==> final(self).players@ == old(self).players@.push(player),
            !seated ==> final(self).players@ == old(self).players@,
            final(self).stopped == old(self).stopped,
            final(self).next_forehand == old(self).next_forehand,
            final(self).games == old(self).games,
            final(self).score == old(self).score,
    {
        if self.players.len() >= 4 {
            return false;
        }
        self.players.push(player);
        true
    }

    /// Gives the seat `index` to `player` if that seat is taken. Returns
    /// whether it did.
    pub fn replace_player(&mut self, player: A, index: usize) -> (replaced: bool)
        requires
            old(self).wf(),
        ensures
            final(self).wf(),
            replaced <==> index < old(self).players@.len(),
            replaced ==> final(self).players@ == old(self).players@.update(index as int, player),
            !replaced ==> final(self).players@ == old(self).players@,
            final(self).stopped == old(self).stopped,
            final(self).next_forehand == old(self).next_forehand,
            final(self).games == old(self).games,
            final(self).score == old(self).score,
    {
        if index >= self.players.len() {
            return false;
        }
        self.players[index] = player;
        true
    }

    /// Whether all four seats are taken.
    pub fn is_ready(&self) -> (ready: bool)
        ensures
            ready == (self.players@.len() == 4),
    {
        self.players.len() == 4
    }

    /// Plays one deal: deals the cards, runs the auction by asking each seat
    /// in turn, sets the contract, and has the seats play until all cards are
    /// out. The finished deal is appended to `games`.
    ///
    /// A match that is stopped or short of players refuses with `NotReady`,
    /// and nothing else does. Every player is asked in turn, so a deal never
    /// ends out of turn or after its last trick: the first bid that is not
    /// open ends it with `IllegalBid`, the first card that may not be played
    /// with `IllegalPlay`, as does a player who has no card to play. Nothing
    /// is appended to `games` in these cases.
    pub fn play_game(&mut self) -> (done: Result<(), LegalityError>)
        requires
            old(self).wf(),
        ensures
            final(self).wf(),
            final(self).players@.len() == old(self).players@.len(),
            final(self).stopped == old(self).stopped,
            final(self).next_forehand == old(self).next_forehand,
            final(self).score == old(self).score,
            done == Err::<(), LegalityError>(LegalityError::NotReady) <==> old(self).players@.len()
                != 4 || old(self).stopped,
            done != Err::<(), LegalityError>(LegalityError::OutOfTurn),
            done != Err::<(), LegalityError>(LegalityError::AlreadyOver),
            done is Err ==> final(self).games@ == old(self).games@,
            done is Ok ==> {
                let games = final(self).games@;
                &&& games.len() == old(self).games@.len() + 1
                &&& games.drop_last() == old(self).games@
                &&& games.last().wf()
                &&& games.last().is_over()
                &&& games.last().contract != Contract::Undecided
                &&& games.last().played@[0].1 == old(self).next_forehand
            },
    {
        if !self.is_ready() || self.stopped {
            return Err(LegalityError::NotReady);
        }
        let mut game = Game::new(self.next_forehand);
        let mut auction = Auction::new(self.next_forehand);
        while !auction.bidding_phase_started()
            invariant
                auction@.wf(),
                game.wf(),
                game.contract == Contract::Undecided,
                game.next_player == self.next_forehand,
                self.players@.len() == 4,
                old(self).players@.len() == 4,
                !old(self).stopped,
                old(self).next_forehand < 4,
                self.next_forehand == old(self).next_forehand,
                self.stopped == old(self).stopped,
                self.score == old(self).score,
                self.games@ == old(self).games@,
            decreases 4 - auction.intent_count,
        {
            let seat: usize = match auction.next_bidder {
                Some(seat) => seat,
                None => {
                    return Err(LegalityError::OutOfTurn);
                },
            };
            let state = game.get_player_game_state(seat);
            let intent: bool = self.players[seat].get_intent(&state, &auction);
            match auction.announce_intent(intent) {
                Ok(()) => {},
                Err(e) => {
                    return Err(e);
                },
            }
        }
        while !auction.is_finished()
            invariant
                auction@.wf(),
                auction.intent_count == 4,
                game.wf(),
                game.contract == Contract::Undecided,
                self.players@.len() == 4,
                old(self).players@.len() == 4,
                !old(self).stopped,
                old(self).next_forehand < 4,
                self.next_forehand == old(self).next_forehand,
                self.stopped == old(self).stopped,
                self.score == old(self).score,
                self.games@ == old(self).games@,
            decreases 5 * (3 - bid_level(auction.highest_bid)) + bidders(auction.intent@),
        {
            let seat: usize = match auction.next_bidder {
                Some(seat) => seat,
                None => {
                    return Err(LegalityError::OutOfTurn);
                },
            };
            let state = game.get_player_game_state(seat);
            proof {
                lemma_some_bid_is_valid(auction.highest_bid, state.hand.cards@);
            }
            let bid: Contract = self.players[seat].get_bid(&state, &auction);
            proof {
                if auction@.bid_refusal(bid) is None {
                    lemma_bids_rise(auction@, bid);
                }
            }
            match auction.bid(bid) {
                Ok(()) => {},
                Err(e) => {
                    return Err(e);
                },
            }
        }
        if !game.assign_contract(auction.winning_contract(), auction.highest_bidder) {
            return Err(LegalityError::NotReady);
        }
        while !game.is_over()
            invariant
                game.wf(),
                game.contract != Contract::Undecided,
                game.played@.len() == 0 ==> game.next_player == self.next_forehand,
                game.played@.len() > 0 ==> game.played@[0].1 == self.next_forehand,
                self.players@.len() == 4,
                old(self).players@.len() == 4,
                !old(self).stopped,
                old(self).next_forehand < 4,
                self.next_forehand == old(self).next_forehand,
                self.stopped == old(self).stopped,
                self.score == old(self).score,
                self.games@ == old(self).games@,
            decreases 32 - game.played@.len(),
        {
            proof {
                lemma_log_of_deal(&game);
            }
            let seat: usize = game.next_player;
            let state = game.get_player_game_state(seat);
            let legal_plays = game.get_legal_actions(&game.hands[seat]);
            if legal_plays.len() == 0 {
                return Err(LegalityError::IllegalPlay);
            }
            let card: Card = self.players[seat].get_play(&state, legal_plays);
            match game.play_card(card) {
                Ok(()) => {},
                Err(e) => {
                    return Err(e);
                },
            }
        }
        self.games.push(game);
        proof {
            assert(self.games@.drop_last() =~= old(self).games@);
        }
        Ok(())
    }
}

} // verus!
