//! The auction: four declarations of intent, then bids among those who want
//! to play, until one contract stands.

use vstd::prelude::*;
use crate::card::{Card, Suit, Value};
use crate::contract::Contract;
use crate::error::LegalityError;
use crate::hand::{Hand, has_plain};
use crate::legal::held;

verus! {

/// The auction of one deal.
///
/// `next_bidder` is the seat to declare or to bid, `None` once nobody is
/// left to act. `intent` holds, for each seat, whether it still wants to
/// bid; `intent_count` counts the declarations made, four at most.
#[derive(Debug)]
pub struct Auction {
    pub highest_bid: Contract,
    pub highest_bidder: usize,
    pub next_bidder: Option<usize>,
    pub intent: [bool; 4],
    pub intent_count: u8,
}

/// The auction as a value of its own, with the intents as a sequence.
pub struct AuctionState {
    pub highest_bid: Contract,
    pub highest_bidder: usize,
    pub next_bidder: Option<usize>,
    pub intent: Seq<bool>,
    pub intent_count: u8,
}

impl View for Auction {
    type V = AuctionState;

    open spec fn view(&self) -> AuctionState {
        AuctionState {
            highest_bid: self.highest_bid,
            highest_bidder: self.highest_bidder,
            next_bidder: self.next_bidder,
            intent: self.intent@,
            intent_count: self.intent_count,
        }
    }
}

/// The bids that can be made over `highest`, before any hand is looked at.
///
/// With no bid yet: the four Calls, the four Solos and Wenz, and no pass.
/// Over a Call: the Solos, Wenz and the pass. Over Wenz: the Solos and the
/// pass. Over a Solo: nothing. The pass is written as the undecided contract.
pub open spec fn open_bids(highest: Contract) -> Seq<Contract> {
    match highest {
        Contract::Call(_) => seq![
            Contract::Solo(Suit::Acorns),
            Contract::Solo(Suit::Bells),
            Contract::Solo(Suit::Leaves),
            Contract::Solo(Suit::Hearts),
            Contract::Wenz,
            Contract::Undecided,
        ],
        Contract::Solo(_) => Seq::empty(),
        Contract::Wenz => seq![
            Contract::Solo(Suit::Acorns),
            Contract::Solo(Suit::Bells),
            Contract::Solo(Suit::Leaves),
            Contract::Solo(Suit::Hearts),
            Contract::Undecided,
        ],
        _ => seq![
            Contract::Call(Suit::Acorns),
            Contract::Call(Suit::Bells),
            Contract::Call(Suit::Leaves),
            Contract::Call(Suit::Hearts),
            Contract::Solo(Suit::Acorns),
            Contract::Solo(Suit::Bells),
            Contract::Solo(Suit::Leaves),
            Contract::Solo(Suit::Hearts),
            Contract::Wenz,
        ],
    }
}

/// Whether a player who holds `cards` can make the bid: a suit can be called
/// only by a hand that lacks its Ace and holds a card of it that would not be
/// trump. Every other bid can be made with any hand.
pub open spec fn biddable(cards: Seq<Card>, bid: Contract) -> bool {
    match bid {
        Contract::Call(suit) => !cards.contains(Card { suit, value: Value::Ace }) && has_plain(
            cards,
            suit,
        ),
        _ => true,
    }
}

/// `biddable` as a function of the bid.
pub open spec fn biddable_with(cards: Seq<Card>) -> spec_fn(Contract) -> bool {
    |bid: Contract| biddable(cards, bid)
}

/// The bids that can be made over `highest` by a player who holds `hand`, or
/// by anyone if no hand is given, in their fixed order.
pub open spec fn valid_bids_for(highest: Contract, hand: Option<Seq<Card>>) -> Seq<Contract> {
    match hand {
        None => open_bids(highest),
        Some(cards) => open_bids(highest).filter(biddable_with(cards)),
    }
}

/// Number of seats that want to bid.
pub open spec fn bidders(intent: Seq<bool>) -> int {
    (if intent[0] {
        1int
    } else {
        0int
    }) + (if intent[1] {
        1int
    } else {
        0int
    }) + (if intent[2] {
        1int
    } else {
        0int
    }) + (if intent[3] {
        1int
    } else {
        0int
    })
}

/// The first seat after `from`, in table order, that wants to bid; `from`
/// itself if no other seat does.
pub open spec fn next_with_intent(intent: Seq<bool>, from: usize) -> usize {
    if intent[(from + 1) % 4] {
        ((from + 1) % 4) as usize
    } else if intent[(from + 2) % 4] {
        ((from + 2) % 4) as usize
    } else if intent[(from + 3) % 4] {
        ((from + 3) % 4) as usize
    } else {
        from
    }
}

/// Who acts after `current` has acted: nobody once the auction is finished;
/// the next seat while intents are being declared; afterwards the next seat
/// that wants to bid, and nobody if no seat does or if a single seat is left
/// and a bid stands.
pub open spec fn bidder_after(
    highest: Contract,
    intent: Seq<bool>,
    intent_count: u8,
    current: Option<usize>,
) -> Option<usize> {
    if open_bids(highest).len() == 0 || current is None {
        None
    } else if intent_count < 4 {
        Some(((current->0 + 1) % 4) as usize)
    } else if bidders(intent) == 0 {
        None
    } else if bidders(intent) == 1 && highest != Contract::Undecided {
        None
    } else {
        Some(next_with_intent(intent, current->0))
    }
}

impl AuctionState {
    /// The auction before the first declaration, with `starting_bidder` to
    /// declare first.
    pub open spec fn start(starting_bidder: usize) -> AuctionState {
        AuctionState {
            highest_bid: Contract::Undecided,
            highest_bidder: starting_bidder,
            next_bidder: Some(starting_bidder),
            intent: seq![false, false, false, false],
            intent_count: 0,
        }
    }

    /// Seats are in range, declarations come before bids, a seat that is to
    /// bid wants to bid, and Ramsch is never a bid.
    pub open spec fn wf(self) -> bool {
        &&& self.highest_bidder < 4
        &&& self.intent_count <= 4
        &&& self.intent.len() == 4
        &&& (self.next_bidder matches Some(b) ==> b < 4)
        &&& (self.intent_count < 4 ==> self.next_bidder is Some && self.highest_bid
            == Contract::Undecided)
        &&& (self.intent_count == 4 && self.next_bidder is Some ==> self.intent[self.next_bidder->0 as int])
        &&& self.highest_bid != Contract::Ramsch
    }

    /// No higher bid can be made, or nobody is left to act.
    pub open spec fn finished(self) -> bool {
        open_bids(self.highest_bid).len() == 0 || self.next_bidder is None
    }

    /// The contract that the auction has produced: Ramsch if it finished
    /// without a bid, the highest bid if it finished with one, and the
    /// undecided contract while it is running.
    pub open spec fn winning_contract(self) -> Contract {
        if self.finished() {
            if self.highest_bid == Contract::Undecided {
                Contract::Ramsch
            } else {
                self.highest_bid
            }
        } else {
            Contract::Undecided
        }
    }

    /// Why a declaration of intent is refused now, if it is: all four have
    /// been made.
    pub open spec fn intent_refusal(self) -> Option<LegalityError> {
        if self.intent_count >= 4 || self.next_bidder is None {
            Some(LegalityError::OutOfTurn)
        } else {
            None
        }
    }

    /// The auction after the seat to act has declared `intent`.
    pub open spec fn after_intent(self, intent: bool) -> AuctionState {
        let declared = self.intent.update(self.next_bidder->0 as int, intent);
        let count = (self.intent_count + 1) as u8;
        AuctionState {
            highest_bid: self.highest_bid,
            highest_bidder: self.highest_bidder,
            next_bidder: bidder_after(self.highest_bid, declared, count, self.next_bidder),
            intent: declared,
            intent_count: count,
        }
    }

    /// Why `bid` is refused now, if it is. The bid is looked at first: one
    /// that is not open over the highest bid is illegal, whoever makes it and
    /// whenever. A bid that is open is out of turn while intents are still
    /// being declared and once nobody is left to bid.
    pub open spec fn bid_refusal(self, bid: Contract) -> Option<LegalityError> {
        if !open_bids(self.highest_bid).contains(bid) {
            Some(LegalityError::IllegalBid)
        } else if self.intent_count < 4 || self.next_bidder is None {
            Some(LegalityError::OutOfTurn)
        } else {
            None
        }
    }

    /// The auction after the seat to act has made `bid`. A pass takes the
    /// seat out of the auction; any other bid becomes the highest.
    pub open spec fn after_bid(self, bid: Contract) -> AuctionState {
        let seat = self.next_bidder->0;
        let intent = if bid == Contract::Undecided {
            self.intent.update(seat as int, false)
        } else {
            self.intent
        };
        let highest = if bid == Contract::Undecided {
            self.highest_bid
        } else {
            bid
        };
        AuctionState {
            highest_bid: highest,
            highest_bidder: if bid == Contract::Undecided {
                self.highest_bidder
            } else {
                seat
            },
            next_bidder: bidder_after(highest, intent, self.intent_count, self.next_bidder),
            intent,
            intent_count: self.intent_count,
        }
    }
}

/// Whether `bid` is among `bids`.
pub fn contains_bid(bids: &Vec<Contract>, bid: Contract) -> (found: bool)
    ensures
        found == bids@.contains(bid),
{
    let mut i: usize = 0;
    while i < bids.len()
        invariant
            i <= bids@.len(),
            forall|j: int| 0 <= j < i ==> bids@[j] != bid,
        decreases bids@.len() - i,
    {
        if bids[i] == bid {
            return true;
        }
        i += 1;
    }
    false
}

impl Auction {
    /// An auction in which `starting_bidder` declares first.
    pub fn new(starting_bidder: usize) -> (auction: Auction)
        requires
            starting_bidder < 4,
        ensures
            auction@ == AuctionState::start(starting_bidder),
            auction@.wf(),
    {
        let auction = Auction {
            highest_bid: Contract::Undecided,
            highest_bidder: starting_bidder,
            next_bidder: Some(starting_bidder),
            intent: [false; 4],
            intent_count: 0,
        };
        assert(auction.intent@ =~= seq![false, false, false, false]);
        auction
    }

    /// The bids that can be made now by a player whose hand is `hand`, in
    /// their fixed order; with no hand, every bid that is open over the
    /// highest bid.
    pub fn valid_bids(&self, hand: Option<&Hand>) -> (bids: Vec<Contract>)
        ensures
            bids@ == valid_bids_for(self.highest_bid, held(hand)),
    {
        let mut open: Vec<Contract> = Vec::new();
        match self.highest_bid {
            Contract::Solo(_) => {},
            Contract::Call(_) => {
                open.push(Contract::Solo(Suit::Acorns));
                open.push(Contract::Solo(Suit::Bells));
                open.push(Contract::Solo(Suit::Leaves));
                open.push(Contract::Solo(Suit::Hearts));
                open.push(Contract::Wenz);
                open.push(Contract::Undecided);
            },
            Contract::Wenz => {
                open.push(Contract::Solo(Suit::Acorns));
                open.push(Contract::Solo(Suit::Bells));
                open.push(Contract::Solo(Suit::Leaves));
                open.push(Contract::Solo(Suit::Hearts));
                open.push(Contract::Undecided);
            },
            _ => {
                open.push(Contract::Call(Suit::Acorns));
                open.push(Contract::Call(Suit::Bells));
                open.push(Contract::Call(Suit::Leaves));
                open.push(Contract::Call(Suit::Hearts));
                open.push(Contract::Solo(Suit::Acorns));
                open.push(Contract::Solo(Suit::Bells));
                open.push(Contract::Solo(Suit::Leaves));
                open.push(Contract::Solo(Suit::Hearts));
                open.push(Contract::Wenz);
            },
        }
        assert(open@ =~= open_bids(self.highest_bid));
        let hand = match hand {
            None => {
                return open;
            },
            Some(hand) => hand,
        };
        let ghost test = biddable_with(hand.cards@);
        let mut bids: Vec<Contract> = Vec::new();
        let mut i: usize = 0;
        while i < open.len()
            invariant
                i <= open@.len(),
                test == biddable_with(hand.cards@),
                bids@ == open@.take(i as int).filter(test),
            decreases open@.len() - i,
        {
            let bid = open[i];
            proof {
                open@.lemma_take_succ_push(i as int);
                open@.take(i as int).lemma_filter_push(bid, test);
            }
            let keep: bool = match bid {
                Contract::Call(suit) => !hand.holds_ace(suit) && hand.has_plain(suit),
                _ => true,
            };
            if keep {
                bids.push(bid);
            }
            i += 1;
        }
        assert(open@.take(i as int) =~= open@);
        bids
    }

    /// Whether all four declarations of intent have been made.
    pub fn bidding_phase_started(&self) -> (started: bool)
        ensures
            started == (self.intent_count == 4),
    {
        self.intent_count == 4
    }

    /// Whether the auction is finished: no higher bid can be made, or nobody
    /// is left to act.
    pub fn is_finished(&self) -> (finished: bool)
        ensures
            finished == self@.finished(),
    {
        let none_open: bool = match self.highest_bid {
            Contract::Solo(_) => true,
            _ => false,
        };
        none_open || self.next_bidder.is_none()
    }

    /// The contract that the auction has produced: Ramsch if it finished
    /// without a bid, the highest bid if it finished with one, and the
    /// undecided contract while it is running.
    pub fn winning_contract(&self) -> (contract: Contract)
        ensures
            contract == self@.winning_contract(),
    {
        if self.is_finished() {
            if self.highest_bid == Contract::Undecided {
                Contract::Ramsch
            } else {
                self.highest_bid
            }
        } else {
            Contract::Undecided
        }
    }

    /// Number of seats that want to bid.
    pub fn count_bidders(&self) -> (n: usize)
        ensures
            n == bidders(self.intent@),
    {
        let mut n: usize = 0;
        if self.intent[0] {
            n += 1;
        }
        if self.intent[1] {
            n += 1;
        }
        if self.intent[2] {
            n += 1;
        }
        if self.intent[3] {
            n += 1;
        }
        n
    }

    /// Passes the turn on after a declaration or a bid.
    pub fn update_next_bidder(&mut self)
        requires
            old(self).next_bidder is Some ==> old(self).next_bidder->0 < 4,
        ensures
            final(self).next_bidder == bidder_after(
                old(self).highest_bid,
                old(self).intent@,
                old(self).intent_count,
                old(self).next_bidder,
            ),
            final(self).highest_bid == old(self).highest_bid,
            final(self).highest_bidder == old(self).highest_bidder,
            final(self).intent == old(self).intent,
            final(self).intent_count == old(self).intent_count,
    {
        let current: usize = match self.next_bidder {
            Some(b) => b,
            None => {
                return ;
            },
        };
        if self.is_finished() {
            self.next_bidder = None;
        } else if self.intent_count < 4 {
            self.next_bidder = Some((current + 1) % 4);
        } else {
            let wanting: usize = self.count_bidders();
            if wanting == 0 {
                self.next_bidder = None;
                return ;
            }
            if wanting == 1 && self.highest_bid != Contract::Undecided {
                self.next_bidder = None;
                return ;
            }
            let first: usize = (current + 1) % 4;
            let second: usize = (current + 2) % 4;
            let third: usize = (current + 3) % 4;
            let next: usize = if self.intent[first] {
                first
            } else if self.intent[second] {
                second
            } else if self.intent[third] {
                third
            } else {
                current
            };
            self.next_bidder = Some(next);
        }
    }

    /// Records the intent of the seat to act and passes the turn on. Refused
    /// once all four seats have declared; the auction is then unchanged.
    pub fn announce_intent(&mut self, intent: bool) -> (done: Result<(), LegalityError>)
        requires
            old(self)@.wf(),
        ensures
            final(self)@.wf(),
            old(self)@.intent_refusal() matches Some(e) ==> done == Err::<(), LegalityError>(e)
                && *final(self) == *old(self),
            old(self)@.intent_refusal() is None ==> done is Ok && final(self)@ == old(
                self,
            )@.after_intent(intent),
    {
        if self.intent_count >= 4 {
            return Err(LegalityError::OutOfTurn);
        }
        let seat: usize = match self.next_bidder {
            Some(b) => b,
            None => {
                return Err(LegalityError::OutOfTurn);
            },
        };
        self.intent[seat] = intent;
        self.intent_count += 1;
        self.update_next_bidder();
        Ok(())
    }

    /// Makes `bid` for the seat to act and passes the turn on. A pass, which
    /// is written as the undecided contract, takes the seat out of the
    /// auction; any other bid becomes the highest. A bid that is not open is
    /// refused as illegal, an open bid that nobody is to make as out of turn;
    /// a refused bid changes nothing.
    pub fn bid(&mut self, bid: Contract) -> (done: Result<(), LegalityError>)
        requires
            old(self)@.wf(),
        ensures
            final(self)@.wf(),
            old(self)@.bid_refusal(bid) matches Some(e) ==> done == Err::<(), LegalityError>(e)
                && *final(self) == *old(self),
            old(self)@.bid_refusal(bid) is None ==> done is Ok && final(self)@ == old(
                self,
            )@.after_bid(bid),
    {
        let open = self.valid_bids(None);
        if !contains_bid(&open, bid) {
            return Err(LegalityError::IllegalBid);
        }
        if self.intent_count < 4 {
            return Err(LegalityError::OutOfTurn);
        }
        let seat: usize = match self.next_bidder {
            Some(b) => b,
            None => {
                return Err(LegalityError::OutOfTurn);
            },
        };
        if bid == Contract::Undecided {
            self.intent[seat] = false;
        } else {
            self.highest_bid = bid;
            self.highest_bidder = seat;
        }
        self.update_next_bidder();
        Ok(())
    }
}

/// An auction in which nobody wants to bid ends with the fourth
/// declaration: no bidder is left, the deal falls to Ramsch, and the seat
/// that opened the auction is still recorded as the highest bidder.
pub proof fn lemma_nobody_bids(starting_bidder: usize)
    requires
        starting_bidder < 4,
    ensures
        ({
            let end = AuctionState::start(starting_bidder).after_intent(false).after_intent(
                false,
            ).after_intent(false).after_intent(false);
            &&& end.finished()
            &&& end.next_bidder is None
            &&& end.winning_contract() == Contract::Ramsch
            &&& end.highest_bidder == starting_bidder
        }),
{
    let s0 = AuctionState::start(starting_bidder);
    let s1 = s0.after_intent(false);
    let s2 = s1.after_intent(false);
    let s3 = s2.after_intent(false);
    let s4 = s3.after_intent(false);
    assert(s1.next_bidder == Some(((starting_bidder + 1) % 4) as usize));
    assert(s2.next_bidder == Some(((starting_bidder + 2) % 4) as usize));
    assert(s3.next_bidder == Some(((starting_bidder + 3) % 4) as usize));
    assert(s4.intent =~= seq![false, false, false, false]);
}

/// The auction after the four seats, starting with `starting_bidder`, have
/// declared `first`, `second`, `third` and `fourth` in turn.
pub open spec fn after_intents(
    starting_bidder: usize,
    first: bool,
    second: bool,
    third: bool,
    fourth: bool,
) -> AuctionState {
    AuctionState::start(starting_bidder).after_intent(first).after_intent(second).after_intent(
        third,
    ).after_intent(fourth)
}

/// Once the four seats have declared, each seat's intent is what it
/// declared, and the first seat in table order that wants to bid is to bid.
pub proof fn lemma_after_intents(
    starting_bidder: usize,
    first: bool,
    second: bool,
    third: bool,
    fourth: bool,
)
    requires
        starting_bidder < 4,
    ensures
        ({
            let s = after_intents(starting_bidder, first, second, third, fourth);
            &&& s.wf()
            &&& s.intent_count == 4
            &&& s.highest_bid == Contract::Undecided
            &&& s.highest_bidder == starting_bidder
            &&& s.intent[starting_bidder as int] == first
            &&& s.intent[(starting_bidder + 1) % 4] == second
            &&& s.intent[(starting_bidder + 2) % 4] == third
            &&& s.intent[(starting_bidder + 3) % 4] == fourth
            &&& s.next_bidder == if first {
                Some(starting_bidder)
            } else if second {
                Some(((starting_bidder + 1) % 4) as usize)
            } else if third {
                Some(((starting_bidder + 2) % 4) as usize)
            } else if fourth {
                Some(((starting_bidder + 3) % 4) as usize)
            } else {
                None
            }
        }),
{
    let s0 = AuctionState::start(starting_bidder);
    let s1 = s0.after_intent(first);
    let s2 = s1.after_intent(second);
    let s3 = s2.after_intent(third);
    let s4 = s3.after_intent(fourth);
    assert(s1.next_bidder == Some(((starting_bidder + 1) % 4) as usize));
    assert(s2.next_bidder == Some(((starting_bidder + 2) % 4) as usize));
    assert(s3.next_bidder == Some(((starting_bidder + 3) % 4) as usize));
}

/// A single seat that wants to bid wins the auction with its first bid: the
/// bid is accepted if it is open, it stands as the winning contract, and the
/// auction is finished.
pub proof fn lemma_single_bidder_wins(s: AuctionState, bid: Contract)
    requires
        s.wf(),
        s.intent_count == 4,
        s.next_bidder is Some,
        s.highest_bid == Contract::Undecided,
        bidders(s.intent) == 1,
        open_bids(Contract::Undecided).contains(bid),
    ensures
        s.bid_refusal(bid) is None,
        s.after_bid(bid).finished(),
        s.after_bid(bid).winning_contract() == bid,
        s.after_bid(bid).highest_bidder == s.next_bidder->0,
{
    let open = open_bids(Contract::Undecided);
    let i = choose|i: int| 0 <= i < open.len() && open[i] == bid;
    assert(bid != Contract::Undecided);
}

/// After a Call has been bid, exactly the four Solos, Wenz and the pass are
/// open, in this order.
pub proof fn lemma_bids_over_call(s: AuctionState, suit: Suit)
    requires
        s.wf(),
        s.bid_refusal(Contract::Call(suit)) is None,
    ensures
        valid_bids_for(s.after_bid(Contract::Call(suit)).highest_bid, None) == seq![
            Contract::Solo(Suit::Acorns),
            Contract::Solo(Suit::Bells),
            Contract::Solo(Suit::Leaves),
            Contract::Solo(Suit::Hearts),
            Contract::Wenz,
            Contract::Undecided,
        ],
{
}

/// A Solo ends the auction: once it has been bid no bid is open, nobody is
/// left to act, and the Solo is the winning contract.
pub proof fn lemma_solo_ends_auction(s: AuctionState, suit: Suit)
    requires
        s.wf(),
        s.bid_refusal(Contract::Solo(suit)) is None,
    ensures
        valid_bids_for(s.after_bid(Contract::Solo(suit)).highest_bid, None).len() == 0,
        s.after_bid(Contract::Solo(suit)).finished(),
        s.after_bid(Contract::Solo(suit)).next_bidder is None,
        s.after_bid(Contract::Solo(suit)).winning_contract() == Contract::Solo(suit),
{
}

/// Every accepted bid other than a pass is stronger than the bid it
/// replaces, so the highest bid can change at most three times: from nothing
/// to a Call, to Wenz, to a Solo.
pub open spec fn bid_level(bid: Contract) -> int {
    match bid {
        Contract::Undecided | Contract::Ramsch => 0,
        Contract::Call(_) => 1,
        Contract::Wenz => 2,
        Contract::Solo(_) => 3,
    }
}

/// An accepted bid never lowers the highest bid, and raises it unless it is
/// a pass; a pass leaves one seat fewer in the auction.
pub proof fn lemma_bids_rise(s: AuctionState, bid: Contract)
    requires
        s.wf(),
        s.bid_refusal(bid) is None,
    ensures
        bid != Contract::Undecided ==> bid_level(s.after_bid(bid).highest_bid) > bid_level(
            s.highest_bid,
        ),
        bid == Contract::Undecided ==> s.after_bid(bid).highest_bid == s.highest_bid && bidders(
            s.after_bid(bid).intent,
        ) == bidders(s.intent) - 1,
{
    let open = open_bids(s.highest_bid);
    let i = choose|i: int| 0 <= i < open.len() && open[i] == bid;
    assert(open[i] == bid);
}

/// A declaration or a bid that is accepted leaves the auction consistent.
pub proof fn lemma_auction_stays_consistent(s: AuctionState, intent: bool, bid: Contract)
    requires
        s.wf(),
    ensures
        s.intent_refusal() is None ==> s.after_intent(intent).wf(),
        s.bid_refusal(bid) is None ==> s.after_bid(bid).wf(),
{
    if s.bid_refusal(bid) is None {
        let open = open_bids(s.highest_bid);
        let i = choose|i: int| 0 <= i < open.len() && open[i] == bid;
        assert(open[i] == bid);
    }
}

} // verus!
