//! What holds of every deal: the deck stays whole, the turns are kept, each
//! trick has one winner, and a running deal does not get stuck.

use vstd::prelude::*;
use vstd::seq_lib::*;
use crate::card::{Card, Value, is_full_deck, lemma_full_deck_properties};
use crate::contract::Contract;
use crate::game::{
    Game,
    all_cards,
    cards_played_by,
    hand_cards,
    has_run,
    in_turn,
    lead_card,
    ran_at,
    next_to_act,
    seat_after,
    turns_kept,
    was_dealt,
};
use crate::hand::Hand;
use crate::legal::{
    lead_is_blocked,
    legal_follow,
    legal_lead,
    lemma_some_follow_is_legal,
    lemma_some_lead_is_legal,
    runs_away,
};
use crate::trick::{
    PlayedCard,
    beats_all_others,
    lemma_trick_has_one_winner,
    log_cards,
    seats_valid,
    trick_cards,
    trick_complete,
    trick_winner,
    winning_index,
};

verus! {

/// A sequence without items holds no item at all.
pub proof fn lemma_no_cards(s: Seq<Card>)
    requires
        s.len() == 0,
    ensures
        forall|c: Card| #[trigger] s.to_multiset().count(c) == 0,
{
    broadcast use vstd::multiset::group_multiset_axioms;

    to_multiset_len(s);
    vstd::multiset::lemma_multiset_empty_len(s.to_multiset());
}

/// The cards of the four hands are those of their eight piles taken together.
pub proof fn lemma_all_cards(hands: Seq<Hand>)
    ensures
        all_cards(hands).to_multiset() == hands[0].cards@.to_multiset().add(
            hands[0].played@.to_multiset(),
        ).add(hands[1].cards@.to_multiset().add(hands[1].played@.to_multiset())).add(
            hands[2].cards@.to_multiset().add(hands[2].played@.to_multiset()),
        ).add(hands[3].cards@.to_multiset().add(hands[3].played@.to_multiset())),
{
    let h0 = hand_cards(hands[0]);
    let h1 = hand_cards(hands[1]);
    let h2 = hand_cards(hands[2]);
    let h3 = hand_cards(hands[3]);
    lemma_multiset_commutative(hands[0].cards@, hands[0].played@);
    lemma_multiset_commutative(hands[1].cards@, hands[1].played@);
    lemma_multiset_commutative(hands[2].cards@, hands[2].played@);
    lemma_multiset_commutative(hands[3].cards@, hands[3].played@);
    lemma_multiset_commutative(h0, h1);
    lemma_multiset_commutative(h0 + h1, h2);
    lemma_multiset_commutative(h0 + h1 + h2, h3);
}

/// Every play of the log is the play of exactly one seat: the log is as long
/// as the four seats' plays together, and holds the same cards.
pub proof fn lemma_log_split(log: Seq<PlayedCard>)
    requires
        seats_valid(log),
    ensures
        log.len() == cards_played_by(log, 0).len() + cards_played_by(log, 1).len()
            + cards_played_by(log, 2).len() + cards_played_by(log, 3).len(),
        log_cards(log).to_multiset() == cards_played_by(log, 0).to_multiset().add(
            cards_played_by(log, 1).to_multiset(),
        ).add(cards_played_by(log, 2).to_multiset()).add(cards_played_by(log, 3).to_multiset()),
    decreases log.len(),
{
    broadcast use vstd::multiset::group_multiset_axioms;

    if log.len() == 0 {
        lemma_no_cards(log_cards(log));
        lemma_no_cards(cards_played_by(log, 0));
        lemma_no_cards(cards_played_by(log, 1));
        lemma_no_cards(cards_played_by(log, 2));
        lemma_no_cards(cards_played_by(log, 3));
        assert(log_cards(log).to_multiset() =~= cards_played_by(log, 0).to_multiset().add(
            cards_played_by(log, 1).to_multiset(),
        ).add(cards_played_by(log, 2).to_multiset()).add(cards_played_by(log, 3).to_multiset()));
    } else {
        let rest = log.drop_last();
        let last = log.last();
        assert(seats_valid(rest)) by {
            assert forall|i: int| 0 <= i < rest.len() implies (#[trigger] rest[i]).1 < 4 by {
                assert(rest[i] == log[i]);
            }
        }
        lemma_log_split(rest);
        assert(log[log.len() - 1].1 < 4);
        assert(log_cards(log) =~= log_cards(rest).push(last.0));
        to_multiset_build(log_cards(rest), last.0);
        to_multiset_build(cards_played_by(rest, 0), last.0);
        to_multiset_build(cards_played_by(rest, 1), last.0);
        to_multiset_build(cards_played_by(rest, 2), last.0);
        to_multiset_build(cards_played_by(rest, 3), last.0);
        assert(log_cards(log).to_multiset() =~= cards_played_by(log, 0).to_multiset().add(
            cards_played_by(log, 1).to_multiset(),
        ).add(cards_played_by(log, 2).to_multiset()).add(cards_played_by(log, 3).to_multiset()));
    }
}

/// In a consistent deal at most 32 cards have been played, and once 32 have
/// been played the log holds every card of the deck exactly once.
pub proof fn lemma_log_of_deal(game: &Game)
    requires
        game.wf(),
    ensures
        game.played@.len() <= 32,
        game.played@.len() == 32 ==> is_full_deck(log_cards(game.played@)),
{
    broadcast use vstd::multiset::group_multiset_axioms;

    let log = game.played@;
    let hands = game.hands@;
    lemma_log_split(log);
    if log.len() == 32 {
        lemma_all_cards(hands);
        lemma_no_cards(hands[0].cards@);
        lemma_no_cards(hands[1].cards@);
        lemma_no_cards(hands[2].cards@);
        lemma_no_cards(hands[3].cards@);
        assert(log_cards(log).to_multiset() =~= all_cards(hands).to_multiset());
    }
}

/// A play made in turn keeps the turns: if every play of the log was made in
/// turn and `player` is the seat whose turn it is, the log with the play of
/// `player` appended has every play made in turn, and the seat to act next is
/// the seat whose turn comes after it.
pub proof fn lemma_turn_kept(log: Seq<PlayedCard>, contract: Contract, play: PlayedCard)
    requires
        turns_kept(log, contract),
        log.len() > 0 ==> play.1 == seat_after(log, log.len() as int, contract),
    ensures
        turns_kept(log.push(play), contract),
        next_to_act(log.push(play), contract, play.1) == seat_after(
            log.push(play),
            (log.len() + 1) as int,
            contract,
        ),
{
    let after = log.push(play);
    assert forall|i: int| 1 <= i < after.len() implies #[trigger] in_turn(after, i, contract) by {
        lemma_seat_after_prefix(log, play, i, contract);
        if i < log.len() {
            assert(in_turn(log, i, contract));
            assert(after[i] == log[i]);
        }
    }
}

/// Whose turn it is at a position of the log does not depend on later plays.
pub proof fn lemma_seat_after_prefix(
    log: Seq<PlayedCard>,
    play: PlayedCard,
    i: int,
    contract: Contract,
)
    requires
        1 <= i <= log.len(),
    ensures
        seat_after(log.push(play), i, contract) == seat_after(log, i, contract),
{
    let after = log.push(play);
    if i % 4 == 0 {
        let t = i / 4 - 1;
        assert(trick_cards(after, t) =~= trick_cards(log, t));
        crate::trick::lemma_winning_index(trick_cards(log, t), contract, 4);
    } else {
        assert(after[i - 1] == log[i - 1]);
    }
}

/// Number of plays of seat `p` among the first `n` plays of the log.
pub open spec fn plays_by(log: Seq<PlayedCard>, p: usize, n: int) -> int
    decreases n,
{
    if n <= 0 {
        0
    } else {
        plays_by(log, p, n - 1) + if log[n - 1].1 == p {
            1int
        } else {
            0int
        }
    }
}

proof fn lemma_plays_by_prefix(log: Seq<PlayedCard>, other: Seq<PlayedCard>, p: usize, n: int)
    requires
        0 <= n <= log.len(),
        n <= other.len(),
        forall|i: int| 0 <= i < n ==> log[i] == other[i],
    ensures
        plays_by(log, p, n) == plays_by(other, p, n),
    decreases n,
{
    if n > 0 {
        lemma_plays_by_prefix(log, other, p, n - 1);
    }
}

/// A seat has played as many cards as the log has plays of it.
pub proof fn lemma_plays_counted(log: Seq<PlayedCard>, p: usize)
    ensures
        cards_played_by(log, p).len() == plays_by(log, p, log.len() as int),
    decreases log.len(),
{
    if log.len() > 0 {
        let rest = log.drop_last();
        lemma_plays_counted(rest, p);
        lemma_plays_by_prefix(log, rest, p, log.len() - 1);
    }
}

/// Within a trick the seats play in table order, starting with the seat that
/// leads.
pub proof fn lemma_seats_in_trick(log: Seq<PlayedCard>, contract: Contract, t: int, k: int)
    requires
        turns_kept(log, contract),
        seats_valid(log),
        0 <= t,
        0 <= k < 4,
        4 * t + k < log.len(),
    ensures
        log[4 * t + k].1 == (log[4 * t].1 + k) % 4,
    decreases k,
{
    if k > 0 {
        lemma_seats_in_trick(log, contract, t, k - 1);
        assert(in_turn(log, 4 * t + k, contract));
        assert(log[4 * t + k - 1].1 < 4);
    } else {
        assert(log[4 * t].1 < 4);
    }
}

/// When a trick starts every seat has played one card in each trick before.
pub proof fn lemma_plays_before_trick(log: Seq<PlayedCard>, contract: Contract, p: usize, t: int)
    requires
        turns_kept(log, contract),
        seats_valid(log),
        p < 4,
        0 <= t,
        4 * t <= log.len(),
    ensures
        plays_by(log, p, 4 * t) == t,
    decreases t,
{
    if t > 0 {
        lemma_plays_before_trick(log, contract, p, t - 1);
        let s = 4 * (t - 1);
        lemma_seats_in_trick(log, contract, t - 1, 0);
        lemma_seats_in_trick(log, contract, t - 1, 1);
        lemma_seats_in_trick(log, contract, t - 1, 2);
        lemma_seats_in_trick(log, contract, t - 1, 3);
        assert(log[s].1 < 4);
        assert(plays_by(log, p, s + 1) == plays_by(log, p, s) + if log[s].1 == p {
            1int
        } else {
            0int
        });
        assert(plays_by(log, p, s + 2) == plays_by(log, p, s + 1) + if log[s + 1].1 == p {
            1int
        } else {
            0int
        });
        assert(plays_by(log, p, s + 3) == plays_by(log, p, s + 2) + if log[s + 2].1 == p {
            1int
        } else {
            0int
        });
        assert(plays_by(log, p, s + 4) == plays_by(log, p, s + 3) + if log[s + 3].1 == p {
            1int
        } else {
            0int
        });
    }
}

/// In a deal that is not over the seat to act has played one card in each
/// complete trick and none in the current one, so it still holds a card.
pub proof fn lemma_turn_holds_cards(game: &Game)
    requires
        game.wf(),
        !game.is_over(),
    ensures
        game.trick < 8,
        game.hands@[game.next_player as int].played@.len() == game.trick,
        game.hands@[game.next_player as int].cards@.len() == 8 - game.trick,
        game.hands@[game.next_player as int].cards@.len() > 0,
{
    let log = game.played@;
    let c = game.contract;
    let p = game.next_player;
    let m = log.len() as int;
    let t = m / 4;
    let r = m % 4;
    lemma_log_of_deal(game);
    lemma_plays_counted(log, p);
    lemma_plays_before_trick(log, c, p, t);
    if r > 0 {
        assert(p == seat_after(log, m, c));
        lemma_seats_in_trick(log, c, t, 0);
        assert(log[4 * t].1 < 4);
        if r >= 2 {
            lemma_seats_in_trick(log, c, t, 1);
        }
        if r >= 3 {
            lemma_seats_in_trick(log, c, t, 2);
        }
        assert(plays_by(log, p, 4 * t + 1) == plays_by(log, p, 4 * t) + if log[4 * t].1 == p {
            1int
        } else {
            0int
        });
        if r >= 2 {
            assert(plays_by(log, p, 4 * t + 2) == plays_by(log, p, 4 * t + 1) + if log[4 * t
                + 1].1 == p {
                1int
            } else {
                0int
            });
        }
        if r >= 3 {
            assert(plays_by(log, p, 4 * t + 3) == plays_by(log, p, 4 * t + 2) + if log[4 * t
                + 2].1 == p {
                1int
            } else {
                0int
            });
        }
    }
    assert(plays_by(log, p, m) == t);
}

/// At every point of a deal the held and played cards of the four hands,
/// taken together, are the deck: 32 cards, no card twice, every card there.
/// In particular no hand holds a card twice.
pub proof fn lemma_hands_hold_the_deck(game: &Game)
    requires
        game.wf(),
    ensures
        all_cards(game.hands@).len() == 32,
        all_cards(game.hands@).no_duplicates(),
        forall|c: Card| all_cards(game.hands@).contains(c),
        all_cards(game.hands@).to_multiset() == crate::card::full_deck().to_multiset(),
        forall|p: int| 0 <= p < 4 ==> (#[trigger] game.hands@[p]).cards@.no_duplicates(),
{
    broadcast use vstd::multiset::group_multiset_axioms;

    let hands = game.hands@;
    lemma_full_deck_properties(all_cards(hands));
    lemma_all_cards(hands);
    assert forall|p: int| 0 <= p < 4 implies (#[trigger] hands[p]).cards@.no_duplicates() by {
        let held = hands[p].cards@;
        assert forall|c: Card| held.to_multiset().contains(c) implies held.to_multiset().count(c)
            == 1 by {
            assert(all_cards(hands).to_multiset().count(c) == 1);
        }
        held.lemma_multiset_has_no_duplicates_conv();
    }
}

/// No card is played twice in a deal.
pub proof fn lemma_log_distinct(game: &Game)
    requires
        game.wf(),
    ensures
        log_cards(game.played@).no_duplicates(),
{
    broadcast use vstd::multiset::group_multiset_axioms;

    let cards = log_cards(game.played@);
    lemma_log_split(game.played@);
    lemma_all_cards(game.hands@);
    assert forall|c: Card| cards.to_multiset().contains(c) implies cards.to_multiset().count(c)
        == 1 by {
        assert(all_cards(game.hands@).to_multiset().count(c) == 1);
    }
    cards.lemma_multiset_has_no_duplicates_conv();
}

/// Every complete trick of a deal holds four different cards, one of each
/// seat in table order, and exactly one of them wins: the card of the
/// winning seat is strictly stronger than each of the other three.
pub proof fn lemma_trick_of_deal(game: &Game, t: int)
    requires
        game.wf(),
        trick_complete(game.played@, t),
    ensures
        trick_cards(game.played@, t).no_duplicates(),
        forall|k: int|
            0 <= k < 4 ==> (#[trigger] game.played@[4 * t + k]).1 == (game.played@[4 * t].1 + k)
                % 4,
        trick_winner(game.played@, t, game.contract) < 4,
        beats_all_others(
            trick_cards(game.played@, t),
            winning_index(trick_cards(game.played@, t), game.contract, 4),
            game.contract,
        ),
{
    let log = game.played@;
    let cards = trick_cards(log, t);
    lemma_log_distinct(game);
    assert(cards.no_duplicates()) by {
        assert forall|i: int, j: int| 0 <= i < 4 && 0 <= j < 4 && i != j implies cards[i]
            != cards[j] by {
            assert(log_cards(log)[4 * t + i] == cards[i]);
            assert(log_cards(log)[4 * t + j] == cards[j]);
        }
    }
    assert forall|k: int| 0 <= k < 4 implies (#[trigger] log[4 * t + k]).1 == (log[4 * t].1 + k)
        % 4 by {
        lemma_seats_in_trick(log, game.contract, t, k);
    }
    lemma_trick_has_one_winner(cards, game.contract);
    assert(log[4 * t + winning_index(cards, game.contract, 4)].1 < 4);
}

/// A deal that is running never gets stuck but for one case: unless the seat
/// to act is to lead and is blocked on the called suit, it holds a card that
/// `play_card` accepts.
pub proof fn lemma_some_play_is_accepted(game: &Game)
    requires
        game.wf(),
        !game.is_over(),
        game.contract != Contract::Undecided,
        !(lead_card(game.played@, game.trick as int) is None && lead_is_blocked(
            game.contract,
            game.ran_away,
            game.hands@[game.next_player as int].cards@,
        )),
    ensures
        exists|c: Card| game.play_refusal(c) is None,
{
    let cards = game.hands@[game.next_player as int].cards@;
    lemma_turn_holds_cards(game);
    lemma_hands_hold_the_deck(game);
    match lead_card(game.played@, game.trick as int) {
        None => {
            lemma_some_lead_is_legal(game.contract, game.ran_away, cards);
            let i = choose|i: int|
                0 <= i < cards.len() && legal_lead(
                    game.contract,
                    game.ran_away,
                    Some(cards),
                    #[trigger] cards[i],
                );
            assert(cards.contains(cards[i]));
            assert(game.play_refusal(cards[i]) is None);
        },
        Some(first) => {
            lemma_some_follow_is_legal(game.contract, first, game.ran_away, cards);
            let i = choose|i: int|
                0 <= i < cards.len() && legal_follow(
                    game.contract,
                    first,
                    game.ran_away,
                    Some(cards),
                    #[trigger] cards[i],
                );
            assert(cards.contains(cards[i]));
            assert(game.play_refusal(cards[i]) is None);
        },
    }
}

/// Every card was dealt to some seat.
pub proof fn lemma_every_card_was_dealt(game: &Game, card: Card)
    requires
        game.wf(),
    ensures
        exists|p: int| 0 <= p < 4 && was_dealt(#[trigger] game.hands@[p], card),
{
    broadcast use vstd::multiset::group_multiset_axioms;

    let hands = game.hands@;
    lemma_all_cards(hands);
    assert(all_cards(hands).to_multiset().count(card) == 1);
    to_multiset_contains(hands[0].cards@, card);
    to_multiset_contains(hands[0].played@, card);
    to_multiset_contains(hands[1].cards@, card);
    to_multiset_contains(hands[1].played@, card);
    to_multiset_contains(hands[2].cards@, card);
    to_multiset_contains(hands[2].played@, card);
    to_multiset_contains(hands[3].cards@, card);
    to_multiset_contains(hands[3].played@, card);
    if was_dealt(hands[0], card) {
    } else if was_dealt(hands[1], card) {
    } else if was_dealt(hands[2], card) {
    } else {
        assert(was_dealt(hands[3], card));
    }
}

/// A seat has played a card exactly if the log has that play.
pub proof fn lemma_played_in_log(log: Seq<PlayedCard>, p: usize, c: Card)
    ensures
        cards_played_by(log, p).contains(c) <==> exists|j: int|
            0 <= j < log.len() && #[trigger] log[j] == PlayedCard(c, p),
    decreases log.len(),
{
    let pile = cards_played_by(log, p);
    if log.len() > 0 {
        let rest = log.drop_last();
        let last = log.last();
        lemma_played_in_log(rest, p, c);
        let before = cards_played_by(rest, p);
        if pile.contains(c) {
            let k = choose|k: int| 0 <= k < pile.len() && pile[k] == c;
            if last.1 == p && k == before.len() {
                assert(log[log.len() - 1] == PlayedCard(c, p));
            } else {
                assert(before[k] == c);
                let j = choose|j: int| 0 <= j < rest.len() && #[trigger] rest[j] == PlayedCard(c, p);
                assert(log[j] == PlayedCard(c, p));
            }
        }
        if exists|j: int| 0 <= j < log.len() && #[trigger] log[j] == PlayedCard(c, p) {
            let j = choose|j: int| 0 <= j < log.len() && #[trigger] log[j] == PlayedCard(c, p);
            if j == log.len() - 1 {
                assert(pile[before.len() as int] == c);
            } else {
                assert(rest[j] == PlayedCard(c, p));
                let k = choose|k: int| 0 <= k < before.len() && before[k] == c;
                assert(pile[k] == c);
            }
        }
    }
}

/// A card that a seat holds has not been played by any seat.
pub proof fn lemma_held_not_played(game: &Game, c: Card, p: int, q: int)
    requires
        game.wf(),
        0 <= p < 4,
        0 <= q < 4,
        game.hands@[p].cards@.contains(c),
    ensures
        !game.hands@[q].played@.contains(c),
{
    broadcast use vstd::multiset::group_multiset_axioms;

    let hands = game.hands@;
    lemma_all_cards(hands);
    assert(all_cards(hands).to_multiset().count(c) == 1);
    to_multiset_contains(hands[p].cards@, c);
    to_multiset_contains(hands[q].played@, c);
}

/// Moving a card from the held to the played cards of a hand changes nothing
/// in what was dealt to it.
pub proof fn lemma_dealt_is_kept(hand: Hand, after: Hand, card: Card, x: Card)
    requires
        hand.cards@.contains(card),
        after.cards@ == hand.cards@.remove_value(card),
        after.played@ == hand.played@.push(card),
    ensures
        was_dealt(after, x) == was_dealt(hand, x),
{
    let cards = hand.cards@;
    cards.index_of_first_ensures(card);
    let at = cards.index_of_first(card)->0;
    let kept = cards.remove(at);
    assert(after.cards@ == kept);
    assert(after.played@[hand.played@.len() as int] == card);
    if x != card {
        if cards.contains(x) {
            let i = choose|i: int| 0 <= i < cards.len() && cards[i] == x;
            if i < at {
                assert(kept[i] == x);
            } else {
                assert(kept[i - 1] == x);
            }
        }
        if kept.contains(x) {
            let i = choose|i: int| 0 <= i < kept.len() && kept[i] == x;
            if i < at {
                assert(cards[i] == x);
            } else {
                assert(cards[i + 1] == x);
            }
        }
        if hand.played@.contains(x) {
            let i = choose|i: int| 0 <= i < hand.played@.len() && hand.played@[i] == x;
            assert(after.played@[i] == x);
        }
        if after.played@.contains(x) {
            let i = choose|i: int| 0 <= i < after.played@.len() && after.played@[i] == x;
            assert(hand.played@[i] == x);
        }
    }
}

/// The deal records running away from the plays: after a play that is
/// accepted, some play of the log has run away exactly if one had before or
/// this play does.
pub proof fn lemma_run_recorded(game: &Game, card: Card, hands: Seq<Hand>)
    requires
        game.wf(),
        game.play_refusal(card) is None,
        hands.len() == 4,
        hands[game.next_player as int].cards@ == game.hands@[game.next_player as int].cards@.remove_value(
            card,
        ),
        hands[game.next_player as int].played@ == game.hands@[game.next_player as int].played@.push(
            card,
        ),
        forall|p: int| 0 <= p < 4 && p != game.next_player ==> hands[p] == game.hands@[p],
    ensures
        has_run(game.played@.push(PlayedCard(card, game.next_player)), hands, game.contract) == (
        has_run(game.played@, game.hands@, game.contract) || runs_away(
            game.contract,
            lead_card(game.played@, game.trick as int),
            game.hands@[game.next_player as int].cards@,
            card,
        )),
{
    let log = game.played@;
    let seat = game.next_player;
    let after = log.push(PlayedCard(card, seat));
    let m = log.len() as int;
    let held = game.hands@[seat as int].cards@;
    let runs = runs_away(game.contract, lead_card(log, game.trick as int), held, card);
    match game.contract {
        Contract::Call(suit) => {
            let ace = Card { suit, value: Value::Ace };
            assert forall|i: int| 0 <= i < m implies ran_at(after, hands, suit, i) == ran_at(
                log,
                game.hands@,
                suit,
                i,
            ) by {
                assert(after[i] == log[i]);
                assert(log[i].1 < 4);
                let q = log[i].1 as int;
                if q == seat {
                    lemma_dealt_is_kept(game.hands@[q], hands[q], card, ace);
                }
                assert(was_dealt(hands[q], ace) == was_dealt(game.hands@[q], ace));
                assert forall|j: int| 0 <= j < i implies #[trigger] after[j] == log[j] by {}
                if forall|j: int| 0 <= j < i ==> (#[trigger] log[j]).0 != ace {
                    assert forall|j: int| 0 <= j < i implies (#[trigger] after[j]).0 != ace by {
                        assert(after[j] == log[j]);
                    }
                }
                if forall|j: int| 0 <= j < i ==> (#[trigger] after[j]).0 != ace {
                    assert forall|j: int| 0 <= j < i implies (#[trigger] log[j]).0 != ace by {
                        assert(after[j] == log[j]);
                    }
                }
            }
            assert(ran_at(after, hands, suit, m) == runs) by {
                assert(after[m] == PlayedCard(card, seat));
                lemma_dealt_is_kept(game.hands@[seat as int], hands[seat as int], card, ace);
                let unplayed = forall|j: int| 0 <= j < m ==> (#[trigger] after[j]).0 != ace;
                if held.contains(ace) {
                    assert forall|j: int| 0 <= j < m implies (#[trigger] after[j]).0 != ace by {
                        assert(after[j] == log[j]);
                        if log[j].0 == ace {
                            let q = log[j].1;
                            assert(q < 4);
                            assert(log[j] == PlayedCard(ace, q));
                            lemma_played_in_log(log, q, ace);
                            assert(game.hands@[q as int].played@ == cards_played_by(log, q));
                            lemma_held_not_played(game, ace, seat as int, q as int);
                        }
                    }
                }
                if was_dealt(game.hands@[seat as int], ace) && unplayed && !held.contains(ace) {
                    lemma_played_in_log(log, seat, ace);
                    assert(game.hands@[seat as int].played@ == cards_played_by(log, seat));
                    let j = choose|j: int| 0 <= j < log.len() && #[trigger] log[j] == PlayedCard(
                        ace,
                        seat,
                    );
                    assert(after[j] == log[j]);
                    assert(after[j].0 == ace);
                }
            }
            if has_run(log, game.hands@, game.contract) {
                let i = choose|i: int| #[trigger] ran_at(log, game.hands@, suit, i);
                assert(ran_at(after, hands, suit, i));
            }
            if runs {
                assert(ran_at(after, hands, suit, m));
            }
            if has_run(after, hands, game.contract) {
                let i = choose|i: int| #[trigger] ran_at(after, hands, suit, i);
                if i < m {
                    assert(ran_at(log, game.hands@, suit, i));
                }
            }
        },
        _ => {},
    }
}

} // verus!
