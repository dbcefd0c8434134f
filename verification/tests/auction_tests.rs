use schafkopf::auction::Auction;
use schafkopf::card::Suit;
use schafkopf::contract::Contract;
use schafkopf::error::LegalityError;

#[test]
fn game_logic_test_call_matches_any() {
    let contract = Contract::Call(Suit::Acorns);
    assert!(matches!(contract, Contract::Call(_)));
}

#[test]
fn game_logic_test_auction_one_bidder() {
    let mut auction = Auction::new(0);
    auction.announce_intent(false).unwrap();
    auction.announce_intent(false).unwrap();
    auction.announce_intent(false).unwrap();
    auction.announce_intent(true).unwrap();
    assert!(!auction.is_finished());
    auction.bid(Contract::Call(Suit::Acorns)).unwrap();
    assert_eq!(auction.winning_contract(), Contract::Call(Suit::Acorns));
    assert_eq!(auction.highest_bidder, 3);
}

#[test]
fn game_logic_test_auction_options_after_call_bid() {
    let mut auction = Auction::new(0);
    auction.announce_intent(false).unwrap();
    auction.announce_intent(false).unwrap();
    auction.announce_intent(true).unwrap();
    auction.announce_intent(true).unwrap();
    auction.bid(Contract::Call(Suit::Acorns)).unwrap();
    assert_eq!(
        auction.valid_bids(None),
        vec![
            Contract::Solo(Suit::Acorns),
            Contract::Solo(Suit::Bells),
            Contract::Solo(Suit::Leaves),
            Contract::Solo(Suit::Hearts),
            Contract::Wenz,
            Contract::Undecided,
        ]
    );
}

#[test]
fn game_logic_test_auction_options_after_solo_bid() {
    let mut auction = Auction::new(0);
    auction.announce_intent(false).unwrap();
    auction.announce_intent(false).unwrap();
    auction.announce_intent(true).unwrap();
    auction.announce_intent(true).unwrap();
    auction.bid(Contract::Call(Suit::Acorns)).unwrap();
    auction.bid(Contract::Solo(Suit::Acorns)).unwrap();
    assert!(auction.valid_bids(None).is_empty(),);
    assert!(auction.is_finished());
}

#[test]
fn test_auction_no_bids() {
    for sb in 0..4usize {
        let mut auction = Auction::new(sb);
        auction.announce_intent(false).unwrap();
        auction.announce_intent(false).unwrap();
        auction.announce_intent(false).unwrap();
        auction.announce_intent(false).unwrap();
        assert!(auction.is_finished());
        assert_eq!(auction.winning_contract(), Contract::Ramsch);
        assert_eq!(auction.highest_bidder, sb);
    }
}

#[test]
fn fifth_intent_is_out_of_turn() {
    let mut auction = Auction::new(1);
    for _ in 0..4 {
        auction.announce_intent(true).unwrap();
    }
    assert_eq!(auction.announce_intent(true), Err(LegalityError::OutOfTurn));
}

#[test]
fn game_state_test_auction_one_bidder() {
    let mut auction = Auction::new(0);
    auction.announce_intent(false).unwrap();
    auction.announce_intent(false).unwrap();
    auction.announce_intent(false).unwrap();
    auction.announce_intent(true).unwrap();
    assert!(!auction.is_finished());
    auction.bid(Contract::Call(Suit::Acorns)).unwrap();
    assert_eq!(auction.winning_contract(), Contract::Call(Suit::Acorns));
    assert_eq!(auction.highest_bidder, 3);
}

#[test]
fn game_state_test_auction_options_after_call_bid() {
    let mut auction = Auction::new(0);
    auction.announce_intent(false).unwrap();
    auction.announce_intent(false).unwrap();
    auction.announce_intent(true).unwrap();
    auction.announce_intent(true).unwrap();
    auction.bid(Contract::Call(Suit::Acorns)).unwrap();
    assert_eq!(
        auction.valid_bids(None),
        vec![
            Contract::Solo(Suit::Acorns),
            Contract::Solo(Suit::Bells),
            Contract::Solo(Suit::Leaves),
            Contract::Solo(Suit::Hearts),
            Contract::Wenz,
            Contract::Undecided,
        ]
    );
}

#[test]
fn game_state_test_auction_options_after_solo_bid() {
    let mut auction = Auction::new(0);
    auction.announce_intent(false).unwrap();
    auction.announce_intent(false).unwrap();
    auction.announce_intent(true).unwrap();
    auction.announce_intent(true).unwrap();
    auction.bid(Contract::Call(Suit::Acorns)).unwrap();
    auction.bid(Contract::Solo(Suit::Acorns)).unwrap();
    assert!(auction.valid_bids(None).is_empty(),);
}

#[test]
fn no_bids_from_seat_two_gives_ramsch() {
    let mut auction = Auction::new(2);
    assert_eq!(auction.next_bidder, Some(2));
    auction.announce_intent(false).unwrap();
    assert_eq!(auction.next_bidder, Some(3));
    auction.announce_intent(false).unwrap();
    assert_eq!(auction.next_bidder, Some(0));
    auction.announce_intent(false).unwrap();
    assert_eq!(auction.next_bidder, Some(1));
    assert_eq!(auction.winning_contract(), Contract::Undecided);
    auction.announce_intent(false).unwrap();
    assert_eq!(auction.next_bidder, None);
    assert!(auction.is_finished());
    assert_eq!(auction.winning_contract(), Contract::Ramsch);
    assert_eq!(auction.highest_bidder, 2);
}

#[test]
fn bids_before_the_intents_are_out_of_turn() {
    let mut auction = Auction::new(0);
    assert!(!auction.bidding_phase_started());
    assert_eq!(auction.bid(Contract::Wenz), Err(LegalityError::OutOfTurn));
    assert_eq!(auction.highest_bid, Contract::Undecided);
    assert_eq!(auction.next_bidder, Some(0));
    for _ in 0..4 {
        auction.announce_intent(true).unwrap();
    }
    assert!(auction.bidding_phase_started());
    assert_eq!(auction.next_bidder, Some(0));
}

#[test]
fn illegal_bids_are_refused_and_change_nothing() {
    let mut auction = Auction::new(0);
    for _ in 0..4 {
        auction.announce_intent(true).unwrap();
    }
    assert_eq!(auction.bid(Contract::Undecided), Err(LegalityError::IllegalBid));
    assert_eq!(auction.bid(Contract::Ramsch), Err(LegalityError::IllegalBid));
    assert_eq!(auction.next_bidder, Some(0));
    auction.bid(Contract::Wenz).unwrap();
    assert_eq!(auction.highest_bidder, 0);
    assert_eq!(auction.next_bidder, Some(1));
    assert_eq!(auction.bid(Contract::Call(Suit::Bells)), Err(LegalityError::IllegalBid));
    assert_eq!(auction.bid(Contract::Wenz), Err(LegalityError::IllegalBid));
    assert_eq!(
        auction.valid_bids(None),
        vec![
            Contract::Solo(Suit::Acorns),
            Contract::Solo(Suit::Bells),
            Contract::Solo(Suit::Leaves),
            Contract::Solo(Suit::Hearts),
            Contract::Undecided,
        ]
    );
    assert_eq!(auction.highest_bid, Contract::Wenz);
}

#[test]
fn passes_take_seats_out_until_one_is_left() {
    let mut auction = Auction::new(1);
    auction.announce_intent(true).unwrap();
    auction.announce_intent(false).unwrap();
    auction.announce_intent(true).unwrap();
    auction.announce_intent(true).unwrap();
    assert_eq!(auction.intent, [true, true, false, true]);
    assert_eq!(auction.next_bidder, Some(1));
    auction.bid(Contract::Call(Suit::Leaves)).unwrap();
    assert_eq!(auction.next_bidder, Some(3));
    auction.bid(Contract::Undecided).unwrap();
    assert_eq!(auction.intent, [true, true, false, false]);
    assert_eq!(auction.next_bidder, Some(0));
    assert!(!auction.is_finished());
    auction.bid(Contract::Wenz).unwrap();
    assert_eq!(auction.next_bidder, Some(1));
    auction.bid(Contract::Undecided).unwrap();
    assert!(auction.is_finished());
    assert_eq!(auction.next_bidder, None);
    assert_eq!(auction.winning_contract(), Contract::Wenz);
    assert_eq!(auction.highest_bidder, 0);
    assert_eq!(auction.bid(Contract::Solo(Suit::Bells)), Err(LegalityError::OutOfTurn));
}

#[test]
fn full_universe_is_open_before_the_first_bid() {
    let auction = Auction::new(3);
    assert_eq!(
        auction.valid_bids(None),
        vec![
            Contract::Call(Suit::Acorns),
            Contract::Call(Suit::Bells),
            Contract::Call(Suit::Leaves),
            Contract::Call(Suit::Hearts),
            Contract::Solo(Suit::Acorns),
            Contract::Solo(Suit::Bells),
            Contract::Solo(Suit::Leaves),
            Contract::Solo(Suit::Hearts),
            Contract::Wenz,
        ]
    );
}

#[test]
fn bids_that_are_not_open_are_illegal_at_any_time() {
    let mut fresh = Auction::new(0);
    assert_eq!(fresh.bid(Contract::Ramsch), Err(LegalityError::IllegalBid));
    assert_eq!(fresh.bid(Contract::Undecided), Err(LegalityError::IllegalBid));
    assert_eq!(fresh.bid(Contract::Solo(Suit::Bells)), Err(LegalityError::OutOfTurn));
    assert_eq!(fresh.next_bidder, Some(0));
    assert_eq!(fresh.highest_bid, Contract::Undecided);
    assert_eq!(fresh.intent_count, 0);

    let mut auction = Auction::new(0);
    auction.announce_intent(false).unwrap();
    auction.announce_intent(false).unwrap();
    auction.announce_intent(true).unwrap();
    auction.announce_intent(true).unwrap();
    auction.bid(Contract::Call(Suit::Acorns)).unwrap();
    auction.bid(Contract::Solo(Suit::Acorns)).unwrap();
    assert!(auction.is_finished());
    assert_eq!(auction.bid(Contract::Wenz), Err(LegalityError::IllegalBid));
    assert_eq!(auction.bid(Contract::Solo(Suit::Hearts)), Err(LegalityError::IllegalBid));
    assert_eq!(auction.bid(Contract::Undecided), Err(LegalityError::IllegalBid));
    assert_eq!(auction.highest_bid, Contract::Solo(Suit::Acorns));
    assert_eq!(auction.highest_bidder, 3);
    assert_eq!(auction.next_bidder, None);
    assert_eq!(auction.intent, [false, false, true, true]);

    let mut alone = Auction::new(0);
    alone.announce_intent(false).unwrap();
    alone.announce_intent(false).unwrap();
    alone.announce_intent(false).unwrap();
    alone.announce_intent(true).unwrap();
    alone.bid(Contract::Call(Suit::Bells)).unwrap();
    assert_eq!(alone.bid(Contract::Call(Suit::Leaves)), Err(LegalityError::IllegalBid));
    assert_eq!(alone.bid(Contract::Wenz), Err(LegalityError::OutOfTurn));
    assert_eq!(alone.highest_bid, Contract::Call(Suit::Bells));
}
