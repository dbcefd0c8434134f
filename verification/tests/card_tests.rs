use schafkopf::card::{deck_is_full, Card, Suit, Value};
use schafkopf::contract::{get_trump_order, is_trump, Contract};
use schafkopf::dealer::Dealer;

fn card(suit: Suit, value: Value) -> Card {
    Card { suit, value }
}

#[test]
fn game_logic_test_deck() {
    let deck = Card::deck();
    assert_eq!(deck.len(), 32);
    assert_eq!(deck.iter().filter(|c| c.suit == Suit::Acorns).count(), 8);
    assert_eq!(deck.iter().filter(|c| c.suit == Suit::Bells).count(), 8);
    assert_eq!(deck.iter().filter(|c| c.suit == Suit::Leaves).count(), 8);
    assert_eq!(deck.iter().filter(|c| c.suit == Suit::Hearts).count(), 8);
}

#[test]
fn game_state_test_deck() {
    let deck = Card::deck();
    assert_eq!(deck.len(), 32);
    assert_eq!(deck.iter().filter(|c| c.suit == Suit::Acorns).count(), 8);
    assert_eq!(deck.iter().filter(|c| c.suit == Suit::Bells).count(), 8);
    assert_eq!(deck.iter().filter(|c| c.suit == Suit::Leaves).count(), 8);
    assert_eq!(deck.iter().filter(|c| c.suit == Suit::Hearts).count(), 8);
}

#[test]
fn game_logic_test_deal() {
    let mut dealer = Dealer::new();
    let hand = dealer.deal();
    assert_eq!(hand.cards.len(), 8);
    assert_eq!(hand.played.len(), 0);
}

#[test]
fn game_state_test_deal() {
    let mut dealer = Dealer::new();
    let hand = dealer.deal();
    assert_eq!(hand.cards.len(), 8);
    assert_eq!(hand.played.len(), 0);
}

#[test]
fn game_logic_test_deal_all() {
    let mut dealer = Dealer::new();
    for _ in 0..4 {
        dealer.deal();
    }
    assert_eq!(dealer.deck.len(), 0);
}

#[test]
fn game_state_test_deal_all() {
    let mut dealer = Dealer::new();
    for _ in 0..4 {
        dealer.deal();
    }
    assert_eq!(dealer.deck.len(), 0);
}

#[test]
fn game_logic_test_deal_reset() {
    let mut dealer = Dealer::new();
    for _ in 0..4 {
        dealer.deal();
    }
    assert_eq!(dealer.deck.len(), 0);
    dealer.reset();
    assert_eq!(dealer.deck.len(), 32);
}

#[test]
fn game_state_test_deal_reset() {
    let mut dealer = Dealer::new();
    for _ in 0..4 {
        dealer.deal();
    }
    assert_eq!(dealer.deck.len(), 0);
    dealer.reset();
    assert_eq!(dealer.deck.len(), 32);
}

#[test]
fn game_state_test_call_matches_any() {
    let contract = Contract::Call(Suit::Acorns);
    assert!(matches!(contract, Contract::Call(_)));
}

#[test]
fn ordered_deck_goes_by_suit_and_rank() {
    let all = Card::all();
    assert_eq!(all.len(), 32);
    assert_eq!(all[0], card(Suit::Bells, Value::Seven));
    assert_eq!(all[3], card(Suit::Bells, Value::King));
    assert_eq!(all[4], card(Suit::Bells, Value::Ten));
    assert_eq!(all[7], card(Suit::Bells, Value::Ace));
    assert_eq!(all[8], card(Suit::Hearts, Value::Seven));
    assert_eq!(all[21], card(Suit::Leaves, Value::Under));
    assert_eq!(all[31], card(Suit::Acorns, Value::Ace));
    for (k, c) in all.iter().enumerate() {
        assert_eq!(c.code() as usize, k);
    }
}

#[test]
fn card_points_follow_the_table() {
    assert_eq!(card(Suit::Bells, Value::Seven).points(), 0);
    assert_eq!(card(Suit::Bells, Value::Eight).points(), 0);
    assert_eq!(card(Suit::Bells, Value::Nine).points(), 0);
    assert_eq!(card(Suit::Hearts, Value::King).points(), 4);
    assert_eq!(card(Suit::Hearts, Value::Ten).points(), 10);
    assert_eq!(card(Suit::Leaves, Value::Under).points(), 2);
    assert_eq!(card(Suit::Leaves, Value::Ober).points(), 3);
    assert_eq!(card(Suit::Acorns, Value::Ace).points(), 11);
    let total: u32 = Card::all().iter().map(|c| c.points() as u32).sum();
    assert_eq!(total, 120);
}

#[test]
fn suits_and_ranks_are_ordered() {
    assert!(Suit::Bells < Suit::Hearts && Suit::Hearts < Suit::Leaves && Suit::Leaves < Suit::Acorns);
    assert!(Value::Nine < Value::King && Value::King < Value::Ten && Value::Ten < Value::Under);
    assert!(Value::Under < Value::Ober && Value::Ober < Value::Ace);
    for i in 0..4u8 {
        assert_eq!(Suit::from_index(i).index(), i);
    }
    for i in 0..8u8 {
        assert_eq!(Value::from_index(i).index(), i);
    }
}

#[test]
fn shuffled_deck_is_full_and_shuffled() {
    let ordered = Card::all();
    assert!(deck_is_full(&ordered));
    let mut moved = false;
    for _ in 0..8 {
        let deck = Card::deck();
        assert!(deck_is_full(&deck));
        if deck != ordered {
            moved = true;
        }
    }
    assert!(moved);
}

#[test]
fn deck_check_refuses_short_and_repeated_decks() {
    let mut short = Card::all();
    short.pop();
    assert!(!deck_is_full(&short));
    let mut twice = Card::all();
    twice[5] = twice[6];
    assert!(!deck_is_full(&twice));
    let mut long = Card::all();
    long.push(card(Suit::Bells, Value::Seven));
    assert!(!deck_is_full(&long));
    let mut reversed = Card::all();
    reversed.reverse();
    assert!(deck_is_full(&reversed));
}

#[test]
fn dealer_deals_from_the_top() {
    let mut dealer = Dealer { deck: Card::all() };
    let hand = dealer.deal();
    assert_eq!(dealer.deck.len(), 24);
    assert_eq!(hand.cards[0], card(Suit::Acorns, Value::Ace));
    assert_eq!(hand.cards[7], card(Suit::Acorns, Value::Seven));
    assert_eq!(dealer.deck[23], card(Suit::Leaves, Value::Ace));
}

#[test]
fn dealer_reshuffles_a_short_deck() {
    let mut dealer = Dealer { deck: vec![card(Suit::Bells, Value::Seven); 3] };
    let hand = dealer.deal();
    assert_eq!(hand.cards.len(), 8);
    assert_eq!(dealer.deck.len(), 24);
    let mut all = dealer.deck.clone();
    all.extend(hand.cards.iter().rev().copied());
    assert!(deck_is_full(&all));
}

#[test]
fn trump_sets_have_their_sizes() {
    for suit in [Suit::Bells, Suit::Hearts, Suit::Leaves, Suit::Acorns] {
        assert_eq!(get_trump_order(&Contract::Call(suit)).len(), 14);
        assert_eq!(get_trump_order(&Contract::Solo(suit)).len(), 14);
    }
    assert_eq!(get_trump_order(&Contract::Ramsch).len(), 14);
    assert_eq!(get_trump_order(&Contract::Wenz).len(), 4);
    assert_eq!(get_trump_order(&Contract::Undecided).len(), 0);
    for contract in [Contract::Call(Suit::Bells), Contract::Solo(Suit::Leaves), Contract::Wenz, Contract::Ramsch] {
        let trumps = get_trump_order(&contract);
        let counted = Card::all().iter().filter(|c| is_trump(c, &contract)).count();
        assert_eq!(trumps.len(), counted);
        assert!(trumps.iter().all(|c| is_trump(c, &contract)));
    }
}

#[test]
fn trump_order_is_weakest_first() {
    assert_eq!(
        get_trump_order(&Contract::Wenz),
        vec![
            card(Suit::Bells, Value::Under),
            card(Suit::Hearts, Value::Under),
            card(Suit::Leaves, Value::Under),
            card(Suit::Acorns, Value::Under),
        ]
    );
    let solo = get_trump_order(&Contract::Solo(Suit::Bells));
    assert_eq!(solo[0], card(Suit::Bells, Value::Seven));
    assert_eq!(solo[4], card(Suit::Bells, Value::Ten));
    assert_eq!(solo[5], card(Suit::Bells, Value::Under));
    assert_eq!(solo[8], card(Suit::Acorns, Value::Under));
    assert_eq!(solo[9], card(Suit::Bells, Value::Ober));
    assert_eq!(solo[12], card(Suit::Acorns, Value::Ober));
    assert_eq!(solo[13], card(Suit::Bells, Value::Ace));
}

#[test]
fn trump_rules_per_contract() {
    let heart_seven = card(Suit::Hearts, Value::Seven);
    let bell_ober = card(Suit::Bells, Value::Ober);
    let bell_under = card(Suit::Bells, Value::Under);
    let bell_ace = card(Suit::Bells, Value::Ace);
    assert!(is_trump(&heart_seven, &Contract::Call(Suit::Acorns)));
    assert!(is_trump(&heart_seven, &Contract::Ramsch));
    assert!(!is_trump(&heart_seven, &Contract::Solo(Suit::Bells)));
    assert!(!is_trump(&heart_seven, &Contract::Wenz));
    assert!(is_trump(&bell_ober, &Contract::Call(Suit::Acorns)));
    assert!(is_trump(&bell_ober, &Contract::Solo(Suit::Leaves)));
    assert!(!is_trump(&bell_ober, &Contract::Wenz));
    assert!(is_trump(&bell_under, &Contract::Wenz));
    assert!(is_trump(&bell_ace, &Contract::Solo(Suit::Bells)));
    assert!(!is_trump(&bell_ace, &Contract::Ramsch));
    assert!(!is_trump(&bell_under, &Contract::Undecided));
    assert!(!is_trump(&heart_seven, &Contract::Undecided));
}
