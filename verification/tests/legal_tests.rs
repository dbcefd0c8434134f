use schafkopf::auction::Auction;
use schafkopf::card::{Card, Suit, Value};
use schafkopf::contract::Contract;
use schafkopf::game::Game;
use schafkopf::hand::Hand;
use schafkopf::legal::{play_is_legal, play_runs_away};

fn card(suit: Suit, value: Value) -> Card {
    Card { suit, value }
}

fn partner_hand() -> Hand {
    Hand::new(vec![
        card(Suit::Acorns, Value::Ace),
        card(Suit::Acorns, Value::Seven),
        card(Suit::Acorns, Value::King),
        card(Suit::Bells, Value::King),
        card(Suit::Hearts, Value::Nine),
        card(Suit::Leaves, Value::Ober),
    ])
}

#[test]
fn called_partner_may_not_lead_the_called_suit() {
    let call = Contract::Call(Suit::Acorns);
    let hand = partner_hand();
    let ace = card(Suit::Acorns, Value::Ace);
    let seven = card(Suit::Acorns, Value::Seven);
    let bell = card(Suit::Bells, Value::King);
    assert!(!play_is_legal(&call, None, false, &ace, Some(&hand)));
    assert!(!play_is_legal(&call, None, false, &seven, Some(&hand)));
    assert!(play_is_legal(&call, None, false, &bell, Some(&hand)));
    assert!(play_is_legal(&call, None, false, &card(Suit::Hearts, Value::Nine), Some(&hand)));
    assert!(play_is_legal(&call, None, true, &ace, Some(&hand)));
    assert!(play_is_legal(&call, None, true, &seven, Some(&hand)));
    assert!(play_is_legal(&call, None, false, &ace, None));
    assert!(play_is_legal(&Contract::Solo(Suit::Acorns), None, false, &ace, Some(&hand)));
    assert!(play_is_legal(&Contract::Call(Suit::Bells), None, false, &ace, Some(&hand)));
}

#[test]
fn called_partner_with_four_of_the_suit_may_run() {
    let call = Contract::Call(Suit::Acorns);
    let mut hand = partner_hand();
    hand.cards.push(card(Suit::Acorns, Value::Ober));
    assert!(hand.has_suit_count(Suit::Acorns, 4));
    assert!(!hand.has_suit_count(Suit::Acorns, 5));
    assert!(play_is_legal(&call, None, false, &card(Suit::Acorns, Value::Seven), Some(&hand)));
    assert!(play_is_legal(&call, None, false, &card(Suit::Acorns, Value::Ober), Some(&hand)));
    assert!(!play_is_legal(&call, None, false, &card(Suit::Acorns, Value::Ace), Some(&hand)));
}

#[test]
fn called_partner_must_follow_with_the_ace() {
    let call = Contract::Call(Suit::Acorns);
    let hand = partner_hand();
    let lead = Some(card(Suit::Acorns, Value::Ten));
    assert!(play_is_legal(&call, lead, false, &card(Suit::Acorns, Value::Ace), Some(&hand)));
    assert!(!play_is_legal(&call, lead, false, &card(Suit::Acorns, Value::Seven), Some(&hand)));
    assert!(!play_is_legal(&call, lead, false, &card(Suit::Bells, Value::King), Some(&hand)));
    assert!(play_is_legal(&call, lead, true, &card(Suit::Acorns, Value::Seven), Some(&hand)));
    assert!(play_is_legal(&call, lead, true, &card(Suit::Acorns, Value::Ace), Some(&hand)));
    assert!(!play_is_legal(&call, lead, true, &card(Suit::Bells, Value::King), Some(&hand)));
    assert!(play_is_legal(&call, lead, false, &card(Suit::Bells, Value::King), None));
}

#[test]
fn trump_lead_asks_for_trump() {
    let call = Contract::Call(Suit::Acorns);
    let hand = partner_hand();
    let lead = Some(card(Suit::Bells, Value::Under));
    assert!(play_is_legal(&call, lead, false, &card(Suit::Hearts, Value::Nine), Some(&hand)));
    assert!(play_is_legal(&call, lead, false, &card(Suit::Leaves, Value::Ober), Some(&hand)));
    assert!(!play_is_legal(&call, lead, false, &card(Suit::Bells, Value::King), Some(&hand)));
    assert!(!play_is_legal(&call, lead, false, &card(Suit::Acorns, Value::Ace), Some(&hand)));
    let plain = Hand::new(vec![card(Suit::Bells, Value::Seven), card(Suit::Leaves, Value::Ten)]);
    assert!(!plain.has_trump(&call));
    assert!(play_is_legal(&call, lead, false, &card(Suit::Bells, Value::Seven), Some(&plain)));
    assert!(!play_is_legal(&call, lead, false, &card(Suit::Leaves, Value::Ten), Some(&plain)));
    let void = Hand::new(vec![card(Suit::Acorns, Value::Seven), card(Suit::Leaves, Value::Ten)]);
    assert!(play_is_legal(&call, lead, false, &card(Suit::Leaves, Value::Ten), Some(&void)));
    assert!(play_is_legal(&call, lead, false, &card(Suit::Acorns, Value::Seven), Some(&void)));
}

#[test]
fn suit_must_be_followed_when_held() {
    let wenz = Contract::Wenz;
    let hand = Hand::new(vec![
        card(Suit::Leaves, Value::Ten),
        card(Suit::Bells, Value::Ober),
        card(Suit::Hearts, Value::Under),
    ]);
    let lead = Some(card(Suit::Bells, Value::Ace));
    assert!(hand.has_suit(Suit::Bells));
    assert!(!hand.has_suit(Suit::Acorns));
    assert!(play_is_legal(&wenz, lead, false, &card(Suit::Bells, Value::Ober), Some(&hand)));
    assert!(!play_is_legal(&wenz, lead, false, &card(Suit::Leaves, Value::Ten), Some(&hand)));
    assert!(!play_is_legal(&wenz, lead, false, &card(Suit::Hearts, Value::Under), Some(&hand)));
    let off = Some(card(Suit::Acorns, Value::Ace));
    assert!(play_is_legal(&wenz, off, false, &card(Suit::Leaves, Value::Ten), Some(&hand)));
    assert!(play_is_legal(&wenz, off, false, &card(Suit::Hearts, Value::Under), Some(&hand)));
}

#[test]
fn hand_lookups() {
    let hand = partner_hand();
    assert!(hand.holds(&card(Suit::Bells, Value::King)));
    assert!(!hand.holds(&card(Suit::Bells, Value::Ace)));
    assert_eq!(hand.find(&card(Suit::Acorns, Value::King)), Some(2));
    assert_eq!(hand.find(&card(Suit::Leaves, Value::Seven)), None);
    assert!(hand.holds_ace(Suit::Acorns));
    assert!(!hand.holds_ace(Suit::Bells));
    assert!(hand.has_plain(Suit::Bells));
    assert!(!hand.has_plain(Suit::Leaves));
    assert!(!hand.has_plain(Suit::Hearts));
    assert!(hand.has_suit_count(Suit::Acorns, 3));
    assert!(!hand.has_suit_count(Suit::Acorns, 4));
    assert!(hand.has_suit_count(Suit::Bells, 0));
}

#[test]
fn blocked_partner_has_no_lead() {
    let mut game = Game::with_deck(0, Card::all()).unwrap();
    assert!(game.assign_contract(Contract::Call(Suit::Acorns), 1));
    let lone_ace = Hand::new(vec![card(Suit::Acorns, Value::Ace)]);
    assert!(game.get_legal_actions(&lone_ace).is_empty());
    let two = Hand::new(vec![card(Suit::Acorns, Value::Ace), card(Suit::Acorns, Value::Ten)]);
    assert!(game.get_legal_actions(&two).is_empty());
    let free = Hand::new(vec![card(Suit::Acorns, Value::Ace), card(Suit::Bells, Value::Ten)]);
    let legal: Vec<Card> = game.get_legal_actions(&free).into_iter().copied().collect();
    assert_eq!(legal, vec![card(Suit::Bells, Value::Ten)]);
    let own: Vec<Card> = game
        .get_legal_actions(&game.hands[0])
        .into_iter()
        .copied()
        .collect();
    assert_eq!(own.len(), 7);
    assert!(!own.contains(&card(Suit::Acorns, Value::Ace)));
    game.ran_away = true;
    assert_eq!(game.get_legal_actions(&lone_ace).len(), 1);
    assert_eq!(game.get_legal_actions(&game.hands[0]).len(), 8);
}

#[test]
fn hand_restricts_the_calls() {
    let auction = Auction::new(0);
    let hand = partner_hand();
    assert_eq!(
        auction.valid_bids(Some(&hand)),
        vec![
            Contract::Call(Suit::Bells),
            Contract::Solo(Suit::Acorns),
            Contract::Solo(Suit::Bells),
            Contract::Solo(Suit::Leaves),
            Contract::Solo(Suit::Hearts),
            Contract::Wenz,
        ]
    );
    let other = Hand::new(vec![
        card(Suit::Acorns, Value::Ten),
        card(Suit::Leaves, Value::Seven),
        card(Suit::Leaves, Value::Ace),
        card(Suit::Hearts, Value::Ace),
        card(Suit::Bells, Value::Under),
    ]);
    assert_eq!(
        auction.valid_bids(Some(&other)),
        vec![
            Contract::Call(Suit::Acorns),
            Contract::Solo(Suit::Acorns),
            Contract::Solo(Suit::Bells),
            Contract::Solo(Suit::Leaves),
            Contract::Solo(Suit::Hearts),
            Contract::Wenz,
        ]
    );
}

#[test]
fn running_away_is_a_lead_in_the_called_suit_below_the_ace() {
    let call = Contract::Call(Suit::Acorns);
    let mut hand = partner_hand();
    hand.cards.push(card(Suit::Acorns, Value::Ober));
    let seven = card(Suit::Acorns, Value::Seven);
    let ace = card(Suit::Acorns, Value::Ace);
    let bell = card(Suit::Bells, Value::King);
    assert!(play_runs_away(&call, None, &seven, &hand));
    assert!(play_runs_away(&call, None, &card(Suit::Acorns, Value::Ober), &hand));
    assert!(!play_runs_away(&call, None, &ace, &hand));
    assert!(!play_runs_away(&call, None, &bell, &hand));
    assert!(!play_runs_away(&call, Some(bell), &seven, &hand));
    assert!(!play_runs_away(&Contract::Solo(Suit::Acorns), None, &seven, &hand));
    assert!(!play_runs_away(&Contract::Call(Suit::Bells), None, &seven, &hand));
    let stranger = Hand::new(vec![seven, bell]);
    assert!(!play_runs_away(&call, None, &seven, &stranger));
}
