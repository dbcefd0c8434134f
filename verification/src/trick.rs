//! Trick resolution: which card beats which, who wins a trick, and how the
//! card points of the tricks add up.

use vstd::prelude::*;
use crate::card::{Card, Suit, points_total, is_full_deck, lemma_full_deck_points};
use crate::contract::{Contract, is_trump};

verus! {

/// One play: the card, and the seat (0 to 3) of the player who played it.
#[derive(Copy, Clone, Debug, PartialEq, Eq, Structural)]
pub struct PlayedCard(pub Card, pub usize);

/// Whether `a` is strictly stronger than `b` in a trick led in suit `lead`.
///
/// A trump beats every card that is not trump. Of two trumps the higher rank
/// wins, and the higher suit among equal ranks. Of two cards that are not
/// trump, one in the suit led beats one that is not, two in the suit led go by
/// rank, and two off suit do not beat each other.
pub open spec fn outranks(a: Card, b: Card, contract: Contract, lead: Suit) -> bool {
    let a_trump = is_trump(&a, &contract);
    let b_trump = is_trump(&b, &contract);
    if a_trump && b_trump {
        a.value.index() > b.value.index() || (a.value == b.value && a.suit.index()
            > b.suit.index())
    } else if a_trump || b_trump {
        a_trump
    } else if a.suit == lead && b.suit == lead {
        a.value.index() > b.value.index()
    } else {
        a.suit == lead && b.suit != lead
    }
}

/// Whether `a` is strictly stronger than `b` in a trick led in suit `lead`.
pub fn beats(a: &Card, b: &Card, contract: &Contract, lead: Suit) -> (stronger: bool)
    ensures
        stronger == outranks(*a, *b, *contract, lead),
{
    let a_trump = is_trump(a, contract);
    let b_trump = is_trump(b, contract);
    if a_trump && b_trump {
        a.value.index() > b.value.index() || (a.value == b.value && a.suit.index()
            > b.suit.index())
    } else if a_trump || b_trump {
        a_trump
    } else if a.suit == lead && b.suit == lead {
        a.value.index() > b.value.index()
    } else {
        a.suit == lead && b.suit != lead
    }
}

/// A number that orders cards as `outranks` does: trumps above the suit led,
/// the suit led above everything else.
pub open spec fn strength(c: Card, contract: Contract, lead: Suit) -> int {
    if is_trump(&c, &contract) {
        1000 + 10 * c.value.index() + c.suit.index()
    } else if c.suit == lead {
        100 + c.value.index()
    } else {
        0
    }
}

/// `outranks` is the strict order of `strength`.
pub proof fn lemma_outranks_by_strength(a: Card, b: Card, contract: Contract, lead: Suit)
    ensures
        outranks(a, b, contract, lead) <==> strength(a, contract, lead) > strength(
            b,
            contract,
            lead,
        ),
{
}

/// Index of the winning card among the first `n` cards of a trick whose first
/// card was led. Cards are taken in turn; a later card takes the lead unless
/// the card that holds it is strictly stronger.
pub open spec fn winning_index(cards: Seq<Card>, contract: Contract, n: nat) -> int
    decreases n,
{
    if n <= 1 {
        0
    } else {
        let best = winning_index(cards, contract, (n - 1) as nat);
        if outranks(cards[best], cards[n - 1], contract, cards[0].suit) {
            best
        } else {
            n - 1
        }
    }
}

/// The winning card is at least as strong as every card before it and
/// strictly stronger than every card after it.
proof fn lemma_winning_strength(cards: Seq<Card>, contract: Contract, n: nat)
    requires
        1 <= n <= cards.len(),
    ensures
        0 <= winning_index(cards, contract, n) < n,
        forall|j: int|
            0 <= j < winning_index(cards, contract, n) ==> strength(
                #[trigger] cards[j],
                contract,
                cards[0].suit,
            ) <= strength(cards[winning_index(cards, contract, n)], contract, cards[0].suit),
        forall|j: int|
            winning_index(cards, contract, n) < j < n ==> strength(
                #[trigger] cards[j],
                contract,
                cards[0].suit,
            ) < strength(cards[winning_index(cards, contract, n)], contract, cards[0].suit),
    decreases n,
{
    if n > 1 {
        let m = (n - 1) as nat;
        lemma_winning_strength(cards, contract, m);
        let best = winning_index(cards, contract, m);
        lemma_outranks_by_strength(cards[best], cards[n - 1], contract, cards[0].suit);
    }
}

/// The winning card is not beaten by any card before it and beats every card
/// after it. No other index has both properties.
pub proof fn lemma_winning_index(cards: Seq<Card>, contract: Contract, n: nat)
    requires
        1 <= n <= cards.len(),
    ensures
        0 <= winning_index(cards, contract, n) < n,
        forall|j: int|
            0 <= j < winning_index(cards, contract, n) ==> !outranks(
                #[trigger] cards[j],
                cards[winning_index(cards, contract, n)],
                contract,
                cards[0].suit,
            ),
        forall|j: int|
            winning_index(cards, contract, n) < j < n ==> outranks(
                cards[winning_index(cards, contract, n)],
                #[trigger] cards[j],
                contract,
                cards[0].suit,
            ),
{
    let w = winning_index(cards, contract, n);
    let lead = cards[0].suit;
    lemma_winning_strength(cards, contract, n);
    assert forall|j: int| 0 <= j < w implies !outranks(#[trigger] cards[j], cards[w], contract, lead) by {
        lemma_outranks_by_strength(cards[j], cards[w], contract, lead);
    }
    assert forall|j: int| w < j < n implies outranks(cards[w], #[trigger] cards[j], contract, lead) by {
        lemma_outranks_by_strength(cards[w], cards[j], contract, lead);
    }
}

/// Whether the card at index `k` is strictly stronger than every other card
/// of the trick.
pub open spec fn beats_all_others(cards: Seq<Card>, k: int, contract: Contract) -> bool {
    forall|j: int|
        0 <= j < cards.len() && j != k ==> outranks(
            cards[k],
            #[trigger] cards[j],
            contract,
            cards[0].suit,
        )
}

/// In a trick of four different cards exactly one card wins: the winning card
/// is strictly stronger than each of the other three, and no other card is.
pub proof fn lemma_trick_has_one_winner(cards: Seq<Card>, contract: Contract)
    requires
        cards.len() == 4,
        cards.no_duplicates(),
    ensures
        0 <= winning_index(cards, contract, 4) < 4,
        beats_all_others(cards, winning_index(cards, contract, 4), contract),
        forall|k: int|
            0 <= k < 4 && #[trigger] beats_all_others(cards, k, contract) ==> k == winning_index(
                cards,
                contract,
                4,
            ),
{
    let w = winning_index(cards, contract, 4);
    let lead = cards[0].suit;
    lemma_winning_strength(cards, contract, 4);
    assert forall|j: int| 0 <= j < 4 && j != w implies outranks(
        cards[w],
        #[trigger] cards[j],
        contract,
        lead,
    ) by {
        lemma_outranks_by_strength(cards[w], cards[j], contract, lead);
        assert(strength(cards[0], contract, lead) >= 100);
        assert(strength(cards[0], contract, lead) <= strength(cards[w], contract, lead));
        if strength(cards[j], contract, lead) == strength(cards[w], contract, lead) {
            assert(cards[j].value.index() == cards[w].value.index());
            assert(cards[j].suit.index() == cards[w].suit.index());
            assert(cards[j] == cards[w]);
        }
    }
    assert forall|k: int| 0 <= k < 4 && #[trigger] beats_all_others(cards, k, contract) implies k
        == w by {
        if k != w {
            assert(outranks(cards[k], cards[w], contract, lead));
            assert(outranks(cards[w], cards[k], contract, lead));
            lemma_outranks_by_strength(cards[w], cards[k], contract, lead);
            lemma_outranks_by_strength(cards[k], cards[w], contract, lead);
        }
    }
}

/// Whether the log holds all four plays of trick `t`.
pub open spec fn trick_complete(log: Seq<PlayedCard>, t: int) -> bool {
    0 <= t && 4 * t + 4 <= log.len()
}

/// The four cards of trick `t`, in the order played.
pub open spec fn trick_cards(log: Seq<PlayedCard>, t: int) -> Seq<Card> {
    Seq::new(4, |i: int| log[4 * t + i].0)
}

/// The seat that wins the complete trick `t`: the seat of its winning card.
pub open spec fn trick_winner(log: Seq<PlayedCard>, t: int, contract: Contract) -> usize {
    log[4 * t + winning_index(trick_cards(log, t), contract, 4)].1
}

/// Card points lying in the complete trick `t`.
pub open spec fn trick_points(log: Seq<PlayedCard>, t: int) -> int {
    log[4 * t].0.points() + log[4 * t + 1].0.points() + log[4 * t + 2].0.points() + log[4 * t
        + 3].0.points()
}

/// Card points that seat `p` has won in the complete tricks among the first
/// `n` tricks.
pub open spec fn points_won(log: Seq<PlayedCard>, contract: Contract, p: usize, n: int) -> int
    decreases n,
{
    if n <= 0 {
        0
    } else {
        points_won(log, contract, p, n - 1) + if trick_complete(log, n - 1) && trick_winner(
            log,
            n - 1,
            contract,
        ) == p {
            trick_points(log, n - 1)
        } else {
            0
        }
    }
}

/// The cards of a log, in the order played.
pub open spec fn log_cards(log: Seq<PlayedCard>) -> Seq<Card> {
    Seq::new(log.len(), |i: int| log[i].0)
}

/// Every play of the log names one of the four seats.
pub open spec fn seats_valid(log: Seq<PlayedCard>) -> bool {
    forall|i: int| 0 <= i < log.len() ==> (#[trigger] log[i]).1 < 4
}

/// The winner of trick `trick`, or `None` while the trick is incomplete.
pub fn winner_of_trick(log: &Vec<PlayedCard>, trick: u8, contract: &Contract) -> (winner: Option<
    usize,
>)
    ensures
        winner is Some <==> trick_complete(log@, trick as int),
        winner matches Some(w) ==> w == trick_winner(log@, trick as int, *contract),
{
    let start: usize = (trick as usize) * 4;
    if log.len() < 4 || start > log.len() - 4 {
        return None;
    }
    let lead: Suit = log[start].0.suit;
    let ghost cards = trick_cards(log@, trick as int);
    let mut best: usize = 0;
    let mut i: usize = 1;
    while i < 4
        invariant
            1 <= i <= 4,
            start + 4 <= log@.len(),
            start == 4 * trick,
            cards == trick_cards(log@, trick as int),
            lead == cards[0].suit,
            best == winning_index(cards, *contract, i as nat),
            0 <= best < i,
        decreases 4 - i,
    {
        if !beats(&log[start + best].0, &log[start + i].0, contract, lead) {
            best = i;
        }
        i += 1;
    }
    Some(log[start + best].1)
}

/// Card points of the four cards of trick `trick`, which must be complete.
pub fn points_in_trick(log: &Vec<PlayedCard>, trick: u8) -> (points: u32)
    requires
        trick_complete(log@, trick as int),
    ensures
        points == trick_points(log@, trick as int),
        points <= 44,
{
    let start: usize = (trick as usize) * 4;
    let a: u32 = log[start].0.points() as u32;
    let b: u32 = log[start + 1].0.points() as u32;
    let c: u32 = log[start + 2].0.points() as u32;
    let d: u32 = log[start + 3].0.points() as u32;
    a + b + c + d
}

/// Card points won by each seat: every complete trick among the first eight
/// credits the points of its four cards to its winner.
pub fn tally_points(log: &Vec<PlayedCard>, contract: &Contract) -> (points: [u32; 4])
    ensures
        forall|p: usize| p < 4 ==> points@[p as int] == points_won(log@, *contract, p, 8),
        seats_valid(log@) && is_full_deck(log_cards(log@)) ==> points@[0] + points@[1] + points@[2]
            + points@[3] == 120,
{
    let mut points: [u32; 4] = [0; 4];
    let mut trick: u8 = 0;
    while trick < 8
        invariant
            trick <= 8,
            forall|p: usize|
                p < 4 ==> points@[p as int] == points_won(log@, *contract, p, trick as int),
            forall|p: usize| p < 4 ==> points@[p as int] <= 44 * trick,
        decreases 8 - trick,
    {
        match winner_of_trick(log, trick, contract) {
            Some(w) => {
                let won: u32 = points_in_trick(log, trick);
                if w < 4 {
                    points[w] = points[w] + won;
                }
            },
            None => {},
        }
        trick += 1;
    }
    proof {
        if seats_valid(log@) && is_full_deck(log_cards(log@)) {
            lemma_deal_points(log@, *contract);
        }
    }
    points
}

/// Card points lying in the complete tricks among the first `n` tricks.
pub open spec fn points_played(log: Seq<PlayedCard>, n: int) -> int
    decreases n,
{
    if n <= 0 {
        0
    } else {
        points_played(log, n - 1) + if trick_complete(log, n - 1) {
            trick_points(log, n - 1)
        } else {
            0
        }
    }
}

/// The points won by the four seats together are the points of the complete
/// tricks: every trick credits its points to exactly one seat.
pub proof fn lemma_points_are_shared(log: Seq<PlayedCard>, contract: Contract, n: int)
    requires
        seats_valid(log),
    ensures
        points_won(log, contract, 0, n) + points_won(log, contract, 1, n) + points_won(
            log,
            contract,
            2,
            n,
        ) + points_won(log, contract, 3, n) == points_played(log, n),
    decreases n,
{
    if n > 0 {
        lemma_points_are_shared(log, contract, n - 1);
        if trick_complete(log, n - 1) {
            let cards = trick_cards(log, n - 1);
            lemma_winning_index(cards, contract, 4);
            let w = winning_index(cards, contract, 4);
            assert(log[4 * (n - 1) + w].1 < 4);
        }
    }
}

proof fn lemma_points_total_step(cards: Seq<Card>, k: int)
    requires
        0 <= k < cards.len(),
    ensures
        points_total(cards.take(k + 1)) == points_total(cards.take(k)) + cards[k].points(),
{
    assert(cards.take(k + 1).drop_last() =~= cards.take(k));
}

proof fn lemma_points_played(log: Seq<PlayedCard>, n: int)
    requires
        0 <= n,
        4 * n <= log.len(),
    ensures
        points_played(log, n) == points_total(log_cards(log).take(4 * n)),
    decreases n,
{
    let cards = log_cards(log);
    if n > 0 {
        lemma_points_played(log, n - 1);
        lemma_points_total_step(cards, 4 * n - 4);
        lemma_points_total_step(cards, 4 * n - 3);
        lemma_points_total_step(cards, 4 * n - 2);
        lemma_points_total_step(cards, 4 * n - 1);
    } else {
        assert(cards.take(0).len() == 0);
    }
}

/// Once all 32 cards have been played, each once, the four seats hold 120
/// card points between them, whatever the contract.
pub proof fn lemma_deal_points(log: Seq<PlayedCard>, contract: Contract)
    requires
        seats_valid(log),
        is_full_deck(log_cards(log)),
    ensures
        points_won(log, contract, 0, 8) + points_won(log, contract, 1, 8) + points_won(
            log,
            contract,
            2,
            8,
        ) + points_won(log, contract, 3, 8) == 120,
{
    let cards = log_cards(log);
    crate::card::lemma_full_deck_properties(cards);
    lemma_points_are_shared(log, contract, 8);
    lemma_points_played(log, 8);
    assert(cards.take(32) =~= cards);
    lemma_full_deck_points(cards);
}

} // verus!
