use schafkopf::card::{deck_is_full, Card, Suit, Value};
use schafkopf::contract::Contract;
use schafkopf::error::LegalityError;
use schafkopf::game::Game;
use schafkopf::trick::{beats, tally_points, winner_of_trick, PlayedCard};

fn card(suit: Suit, value: Value) -> Card {
    Card { suit, value }
}

fn all_cards_of(game: &Game) -> Vec<Card> {
    let mut all = Vec::new();
    for hand in game.hands.iter() {
        all.extend(hand.cards.iter().copied());
        all.extend(hand.played.iter().copied());
    }
    all
}

fn ordered_game(forehand: usize, contract: Contract, declarer: usize) -> Game {
    let mut game = Game::with_deck(forehand, Card::all()).unwrap();
    assert!(game.assign_contract(contract, declarer));
    game
}

fn play_first_legal_to_the_end(game: &mut Game) {
    for count in 0..32 {
        assert!(!game.is_over());
        assert_eq!(game.played.len(), count);
        assert_eq!(game.trick as usize, count / 4);
        let seat = game.next_player;
        let choice = {
            let legal = game.get_legal_actions(&game.hands[seat]);
            assert!(!legal.is_empty());
            *legal[0]
        };
        assert!(game.action_is_valid(&choice, Some(&game.hands[seat])));
        assert_eq!(game.play_card(choice), Ok(()));
        assert_eq!(game.played[count].0, choice);
        assert_eq!(game.played[count].1, seat);
        assert!(deck_is_full(&all_cards_of(game)));
        for hand in game.hands.iter() {
            assert_eq!(hand.cards.len() + hand.played.len(), 8);
        }
    }
    assert!(game.is_over());
}

#[test]
fn game_logic_test_game_new() {
    let game = Game::new(0);
    assert_eq!(game.trick, 0);
    assert_eq!(game.next_player, 0);
    assert_eq!(game.played.len(), 0);
    assert_eq!(game.hands.len(), 4);
    assert_eq!(game.hands[0].cards.len(), 8);
    assert_eq!(game.hands[1].cards.len(), 8);
    assert_eq!(game.hands[2].cards.len(), 8);
    assert_eq!(game.hands[3].cards.len(), 8);
}

#[test]
fn game_state_test_game_new() {
    let game = Game::new(0);
    assert_eq!(game.trick, 0);
    assert_eq!(game.next_player, 0);
    assert_eq!(game.played.len(), 0);
    assert_eq!(game.hands.len(), 4);
    assert_eq!(game.hands[0].cards.len(), 8);
    assert_eq!(game.hands[1].cards.len(), 8);
    assert_eq!(game.hands[2].cards.len(), 8);
    assert_eq!(game.hands[3].cards.len(), 8);
}

#[test]
fn new_game_deals_the_whole_deck() {
    for forehand in 0..4 {
        let game = Game::new(forehand);
        assert_eq!(game.next_player, forehand);
        assert_eq!(game.contract, Contract::Undecided);
        assert_eq!(game.declarer, 0);
        assert!(!game.ran_away);
        assert!(!game.is_ready_to_play());
        assert!(!game.is_over());
        let all = all_cards_of(&game);
        assert_eq!(all.len(), 32);
        assert!(deck_is_full(&all));
    }
}

#[test]
fn with_deck_deals_from_the_top() {
    let game = Game::with_deck(2, Card::all()).unwrap();
    assert_eq!(game.next_player, 2);
    assert_eq!(game.hands[0].cards[0], card(Suit::Acorns, Value::Ace));
    assert_eq!(game.hands[0].cards[7], card(Suit::Acorns, Value::Seven));
    assert_eq!(game.hands[1].cards[0], card(Suit::Leaves, Value::Ace));
    assert_eq!(game.hands[2].cards[2], card(Suit::Hearts, Value::Under));
    assert_eq!(game.hands[3].cards[7], card(Suit::Bells, Value::Seven));
    assert!(game.hands.iter().all(|h| h.played.is_empty() && h.cards.len() == 8));
}

#[test]
fn with_deck_refuses_bad_input() {
    assert!(Game::with_deck(4, Card::all()).is_none());
    let mut short = Card::all();
    short.pop();
    assert!(Game::with_deck(0, short).is_none());
    let mut twice = Card::all();
    twice[0] = twice[1];
    assert!(Game::with_deck(0, twice).is_none());
}

#[test]
fn contract_is_assigned_once() {
    let mut game = Game::with_deck(1, Card::all()).unwrap();
    assert!(!game.assign_contract(Contract::Undecided, 0));
    assert!(!game.assign_contract(Contract::Wenz, 4));
    assert_eq!(game.contract, Contract::Undecided);
    assert!(game.assign_contract(Contract::Wenz, 3));
    assert_eq!(game.contract, Contract::Wenz);
    assert_eq!(game.declarer, 3);
    assert!(game.is_ready_to_play());
    assert!(!game.assign_contract(Contract::Ramsch, 2));
    assert_eq!(game.contract, Contract::Wenz);
    assert_eq!(game.declarer, 3);
}

#[test]
fn play_before_contract_is_not_ready() {
    let mut game = Game::with_deck(0, Card::all()).unwrap();
    let held = game.hands[0].cards[0];
    assert_eq!(game.play_card(held), Err(LegalityError::NotReady));
    assert_eq!(game.played.len(), 0);
    assert_eq!(game.hands[0].cards.len(), 8);
    assert_eq!(game.next_player, 0);
}

#[test]
fn card_that_is_not_held_is_illegal() {
    let mut game = ordered_game(0, Contract::Ramsch, 0);
    assert_eq!(
        game.play_card(card(Suit::Bells, Value::Seven)),
        Err(LegalityError::IllegalPlay)
    );
    assert_eq!(game.played.len(), 0);
    assert_eq!(game.next_player, 0);
    assert!(game.is_ready_to_play());
}

#[test]
fn first_trick_of_ordered_ramsch() {
    let mut game = ordered_game(0, Contract::Ramsch, 0);
    assert_eq!(game.lead(), None);
    assert_eq!(game.determine_trick_winner(0), None);
    assert_eq!(game.play_card(card(Suit::Acorns, Value::Ace)), Ok(()));
    assert!(!game.is_ready_to_play());
    assert_eq!(game.lead(), Some(card(Suit::Acorns, Value::Ace)));
    assert_eq!(game.next_player, 1);
    assert_eq!(game.hands[0].cards.len(), 7);
    assert_eq!(game.hands[0].played, vec![card(Suit::Acorns, Value::Ace)]);
    assert!(!game.hands[0].cards.contains(&card(Suit::Acorns, Value::Ace)));
    assert_eq!(game.play_card(card(Suit::Leaves, Value::Ace)), Ok(()));
    assert_eq!(game.next_player, 2);
    assert_eq!(game.play_card(card(Suit::Hearts, Value::Seven)), Ok(()));
    assert_eq!(game.next_player, 3);
    assert_eq!(game.trick, 0);
    assert_eq!(game.determine_trick_winner(0), None);
    assert_eq!(game.play_card(card(Suit::Bells, Value::Ace)), Ok(()));
    assert_eq!(game.trick, 1);
    assert_eq!(game.determine_trick_winner(0), Some(2));
    assert_eq!(game.determine_trick_winner(1), None);
    assert_eq!(game.next_player, 2);
    assert_eq!(game.lead(), None);
    assert_eq!(game.get_points(), [0, 0, 33, 0]);
    assert_eq!(game.play_card(card(Suit::Hearts, Value::Ace)), Ok(()));
    assert_eq!(game.next_player, 3);
    assert_eq!(
        game.play_card(card(Suit::Bells, Value::Seven)),
        Err(LegalityError::IllegalPlay)
    );
    assert_eq!(game.played.len(), 5);
    let legal: Vec<Card> = game
        .get_legal_actions(&game.hands[3])
        .into_iter()
        .copied()
        .collect();
    assert_eq!(
        legal,
        vec![card(Suit::Bells, Value::Ober), card(Suit::Bells, Value::Under)]
    );
    let valid: Vec<Card> = game
        .get_valid_actions(&game.hands[3])
        .into_iter()
        .copied()
        .collect();
    assert_eq!(valid, legal);
    assert_eq!(game.play_card(card(Suit::Bells, Value::Under)), Ok(()));
    assert_eq!(game.next_player, 0);
}

#[test]
fn deals_are_played_to_the_end() {
    let contracts = [
        Contract::Ramsch,
        Contract::Wenz,
        Contract::Solo(Suit::Bells),
        Contract::Solo(Suit::Hearts),
        Contract::Solo(Suit::Leaves),
        Contract::Solo(Suit::Acorns),
    ];
    for (round, contract) in contracts.iter().enumerate() {
        let forehand = round % 4;
        let mut game = ordered_game(forehand, *contract, (round + 1) % 4);
        play_first_legal_to_the_end(&mut game);
        let points = game.get_points();
        assert_eq!(points.iter().sum::<u32>(), 120);
        assert_eq!(points, tally_points(&game.played, &game.contract));
        assert!(game.hands.iter().all(|h| h.cards.is_empty() && h.played.len() == 8));
        let log: Vec<Card> = game.played.iter().map(|p| p.0).collect();
        assert!(deck_is_full(&log));
        let last = game.played[31].0;
        assert_eq!(game.play_card(last), Err(LegalityError::AlreadyOver));
        assert_eq!(game.played.len(), 32);
        assert_eq!(game.trick, 8);
        for trick in 0..8u8 {
            assert!(game.determine_trick_winner(trick).unwrap() < 4);
        }
        assert_eq!(game.determine_trick_winner(8), None);
        let mut shuffled = Game::new(forehand);
        assert!(shuffled.assign_contract(*contract, forehand));
        play_first_legal_to_the_end(&mut shuffled);
        assert_eq!(shuffled.get_points().iter().sum::<u32>(), 120);
    }
}

#[test]
fn player_state_shows_the_own_hand() {
    let game = ordered_game(3, Contract::Wenz, 1);
    let state = game.get_player_game_state(2);
    assert_eq!(state.player_nr, 2);
    assert_eq!(state.contract, Contract::Wenz);
    assert_eq!(*state.trick, 0);
    assert!(state.played.is_empty());
    assert_eq!(state.hand.cards, game.hands[2].cards);
}

#[test]
fn unknown_hand_forbids_nothing() {
    let mut game = ordered_game(0, Contract::Call(Suit::Leaves), 0);
    assert!(game.action_is_valid(&card(Suit::Leaves, Value::Ace), None));
    assert_eq!(game.play_card(card(Suit::Acorns, Value::Ober)), Ok(()));
    assert!(game.action_is_valid(&card(Suit::Bells, Value::Seven), None));
    assert!(game.action_is_valid(&card(Suit::Leaves, Value::Ace), None));
}

#[test]
fn trick_winner_rules() {
    let solo = Contract::Solo(Suit::Bells);
    let log = vec![
        PlayedCard(card(Suit::Leaves, Value::Ten), 3),
        PlayedCard(card(Suit::Leaves, Value::Ace), 0),
        PlayedCard(card(Suit::Acorns, Value::Ace), 1),
        PlayedCard(card(Suit::Leaves, Value::King), 2),
    ];
    assert_eq!(winner_of_trick(&log, 0, &solo), Some(0));
    assert_eq!(winner_of_trick(&log, 1, &solo), None);
    assert_eq!(tally_points(&log, &solo), [36, 0, 0, 0]);
    let trumped = vec![
        PlayedCard(card(Suit::Leaves, Value::Ten), 3),
        PlayedCard(card(Suit::Leaves, Value::Ace), 0),
        PlayedCard(card(Suit::Bells, Value::Seven), 1),
        PlayedCard(card(Suit::Leaves, Value::King), 2),
    ];
    assert_eq!(winner_of_trick(&trumped, 0, &solo), Some(1));
    let obers = vec![
        PlayedCard(card(Suit::Bells, Value::Ace), 1),
        PlayedCard(card(Suit::Hearts, Value::Ober), 2),
        PlayedCard(card(Suit::Acorns, Value::Under), 3),
        PlayedCard(card(Suit::Leaves, Value::Ober), 0),
    ];
    assert_eq!(winner_of_trick(&obers, 0, &solo), Some(1));
    assert_eq!(winner_of_trick(&obers, 0, &Contract::Ramsch), Some(0));
    assert_eq!(winner_of_trick(&obers, 0, &Contract::Wenz), Some(3));
    assert_eq!(winner_of_trick(&obers, 0, &Contract::Undecided), Some(1));
    let short = vec![PlayedCard(card(Suit::Bells, Value::Ace), 1)];
    assert_eq!(winner_of_trick(&short, 0, &solo), None);
    assert_eq!(tally_points(&short, &solo), [0, 0, 0, 0]);
}

#[test]
fn beats_orders_cards_within_a_trick() {
    let call = Contract::Call(Suit::Acorns);
    let lead = Suit::Leaves;
    let heart_seven = card(Suit::Hearts, Value::Seven);
    let leaf_ace = card(Suit::Leaves, Value::Ace);
    let leaf_ten = card(Suit::Leaves, Value::Ten);
    let bell_ace = card(Suit::Bells, Value::Ace);
    let acorn_ace = card(Suit::Acorns, Value::Ace);
    let bell_under = card(Suit::Bells, Value::Under);
    let acorn_under = card(Suit::Acorns, Value::Under);
    let bell_ober = card(Suit::Bells, Value::Ober);
    assert!(beats(&heart_seven, &leaf_ace, &call, lead));
    assert!(!beats(&leaf_ace, &heart_seven, &call, lead));
    assert!(beats(&leaf_ace, &leaf_ten, &call, lead));
    assert!(!beats(&leaf_ten, &leaf_ace, &call, lead));
    assert!(beats(&leaf_ten, &bell_ace, &call, lead));
    assert!(!beats(&bell_ace, &leaf_ten, &call, lead));
    assert!(!beats(&bell_ace, &acorn_ace, &call, lead));
    assert!(!beats(&acorn_ace, &bell_ace, &call, lead));
    assert!(beats(&acorn_under, &bell_under, &call, lead));
    assert!(!beats(&bell_under, &acorn_under, &call, lead));
    assert!(beats(&bell_ober, &acorn_under, &call, lead));
    assert!(beats(&bell_under, &heart_seven, &call, lead));
    assert!(!beats(&leaf_ace, &leaf_ace, &call, lead));
}

#[test]
fn called_player_is_the_seat_with_the_ace() {
    let mut game = Game::with_deck(0, Card::all()).unwrap();
    assert_eq!(game.called_player(), None);
    assert!(game.assign_contract(Contract::Call(Suit::Leaves), 3));
    assert_eq!(game.called_player(), Some(1));
    assert_eq!(game.play_card(card(Suit::Acorns, Value::Seven)), Ok(()));
    assert_eq!(game.play_card(card(Suit::Leaves, Value::Ace)), Ok(()));
    assert!(game.hands[1].has_played(&card(Suit::Leaves, Value::Ace)));
    assert!(!game.hands[1].holds(&card(Suit::Leaves, Value::Ace)));
    assert_eq!(game.called_player(), Some(1));
    let solo = ordered_game(0, Contract::Solo(Suit::Leaves), 3);
    assert_eq!(solo.called_player(), None);
    let bells = ordered_game(2, Contract::Call(Suit::Bells), 0);
    assert_eq!(bells.called_player(), Some(3));
}

#[test]
fn turn_passes_to_the_left_and_to_the_winner() {
    let mut game = ordered_game(3, Contract::Wenz, 3);
    let mut seats = Vec::new();
    for _ in 0..8 {
        let seat = game.next_player;
        seats.push(seat);
        let choice = *game.get_legal_actions(&game.hands[seat])[0];
        assert_eq!(game.play_card(choice), Ok(()));
    }
    assert_eq!(&seats[0..4], &[3, 0, 1, 2]);
    let first_winner = game.determine_trick_winner(0).unwrap();
    assert_eq!(seats[4], first_winner);
    assert_eq!(seats[5], (first_winner + 1) % 4);
    assert_eq!(seats[6], (first_winner + 2) % 4);
    assert_eq!(seats[7], (first_winner + 3) % 4);
    assert_eq!(game.next_player, game.determine_trick_winner(1).unwrap());
    game.update_trick();
    assert_eq!(game.trick, 2);
    let before = game.next_player;
    game.update_next_player();
    assert_eq!(game.next_player, before);
}

#[test]
fn running_away_is_recorded_by_the_play() {
    let mut game = ordered_game(0, Contract::Call(Suit::Acorns), 1);
    assert!(!game.ran_away);
    assert_eq!(
        game.play_card(card(Suit::Acorns, Value::Ace)),
        Err(LegalityError::IllegalPlay)
    );
    assert!(!game.ran_away);
    assert_eq!(game.play_card(card(Suit::Acorns, Value::Seven)), Ok(()));
    assert!(game.ran_away);
    assert_eq!(game.play_card(card(Suit::Leaves, Value::Seven)), Ok(()));
    assert_eq!(game.play_card(card(Suit::Hearts, Value::Seven)), Ok(()));
    assert_eq!(game.play_card(card(Suit::Bells, Value::Seven)), Ok(()));
    assert!(game.ran_away);
    assert_eq!(game.next_player, 2);
    assert!(game.action_is_valid(&card(Suit::Acorns, Value::Eight), Some(&game.hands[0])));
    assert_eq!(game.play_card(card(Suit::Hearts, Value::Eight)), Ok(()));
    assert!(game.ran_away);
}

#[test]
fn other_plays_do_not_run_away() {
    let mut game = ordered_game(1, Contract::Call(Suit::Acorns), 1);
    assert_eq!(game.play_card(card(Suit::Leaves, Value::Ten)), Ok(()));
    assert!(!game.ran_away);
    assert_eq!(game.play_card(card(Suit::Hearts, Value::Seven)), Ok(()));
    assert_eq!(game.play_card(card(Suit::Bells, Value::Seven)), Ok(()));
    assert_eq!(game.play_card(card(Suit::Acorns, Value::Seven)), Ok(()));
    assert!(!game.ran_away);
    let mut solo = ordered_game(0, Contract::Solo(Suit::Acorns), 0);
    assert_eq!(solo.play_card(card(Suit::Acorns, Value::Seven)), Ok(()));
    assert!(!solo.ran_away);
    let mut other = ordered_game(0, Contract::Call(Suit::Leaves), 2);
    assert_eq!(other.play_card(card(Suit::Acorns, Value::Seven)), Ok(()));
    assert!(!other.ran_away);
}
