//! Contracts, and which cards are trump under each.

use vstd::prelude::*;
use crate::card::{Card, Suit, Value};

verus! {

/// What a deal is played for.
///
/// `Call(suit)` names the suit whose Ace marks the declarer's partner,
/// `Solo(suit)` names the trump suit, and `Undecided` stands for a deal whose
/// auction has not produced a contract yet.
#[derive(Copy, Clone, Debug, PartialEq, Eq, Hash, Structural)]
pub enum Contract {
    Call(Suit),
    Solo(Suit),
    Wenz,
    Ramsch,
    Undecided,
}

/// Whether `card` is trump under `contract`.
///
/// Call and Ramsch: Hearts, every Ober and every Under. Solo: the named suit,
/// every Ober and every Under. Wenz: the Unders alone. Undecided: nothing.
pub open spec fn spec_is_trump(card: &Card, contract: &Contract) -> bool {
    match *contract {
        Contract::Call(_) | Contract::Ramsch => card.suit == Suit::Hearts || card.value
            == Value::Ober || card.value == Value::Under,
        Contract::Solo(suit) => card.suit == suit || card.value == Value::Ober || card.value
            == Value::Under,
        Contract::Wenz => card.value == Value::Under,
        Contract::Undecided => false,
    }
}

/// Whether `card` is trump under `contract`.
#[verifier::when_used_as_spec(spec_is_trump)]
pub fn is_trump(card: &Card, contract: &Contract) -> (t: bool)
    ensures
        t == spec_is_trump(card, contract),
{
    match *contract {
        Contract::Call(_) | Contract::Ramsch => card.suit == Suit::Hearts || card.value
            == Value::Ober || card.value == Value::Under,
        Contract::Solo(suit) => card.suit == suit || card.value == Value::Ober || card.value
            == Value::Under,
        Contract::Wenz => card.value == Value::Under,
        Contract::Undecided => false,
    }
}

/// The test "is trump under `contract`" as a function of the card.
pub open spec fn trump_under(contract: Contract) -> spec_fn(Card) -> bool {
    |c: Card| is_trump(&c, &contract)
}

/// The card at position `k` when the deck is laid out by rank first and suit
/// second: the order in which trumps of one contract beat each other.
pub open spec fn by_rank_at(k: int) -> Card {
    Card { suit: Suit::at(k % 4), value: Value::at(k / 4) }
}

/// All 32 cards, by rank and within a rank by suit.
pub open spec fn deck_by_rank() -> Seq<Card> {
    Seq::new(32, |k: int| by_rank_at(k))
}

/// The trumps of `contract`, weakest first.
pub open spec fn trump_order(contract: Contract) -> Seq<Card> {
    deck_by_rank().filter(trump_under(contract))
}

/// How many trumps a contract has: fourteen under Call, Ramsch and Solo, the
/// four Unders under Wenz, none while the contract is undecided.
pub open spec fn trump_count(contract: Contract) -> nat {
    match contract {
        Contract::Call(_) | Contract::Ramsch | Contract::Solo(_) => 14,
        Contract::Wenz => 4,
        Contract::Undecided => 0,
    }
}

/// The trumps of `contract`, weakest first: by rank, and among equal ranks by
/// suit.
pub fn get_trump_order(contract: &Contract) -> (trumps: Vec<Card>)
    ensures
        trumps@ == trump_order(*contract),
        trumps@.len() == trump_count(*contract),
{
    let mut trumps: Vec<Card> = Vec::new();
    let mut k: u8 = 0;
    while k < 32
        invariant
            k <= 32,
            trumps@ == deck_by_rank().take(k as int).filter(trump_under(*contract)),
        decreases 32 - k,
    {
        let card = Card { suit: Suit::from_index(k % 4), value: Value::from_index(k / 4) };
        proof {
            let d = deck_by_rank();
            assert(d[k as int] == card);
            d.lemma_take_succ_push(k as int);
            d.take(k as int).lemma_filter_push(card, trump_under(*contract));
        }
        if is_trump(&card, contract) {
            trumps.push(card);
        }
        k += 1;
    }
    proof {
        assert(deck_by_rank().take(32) =~= deck_by_rank());
        lemma_trump_count(*contract);
    }
    trumps
}

/// Number of trumps among the first `n` cards of the deck laid out by rank.
spec fn trumps_below(contract: Contract, n: int) -> int
    decreases n,
{
    if n <= 0 {
        0
    } else {
        trumps_below(contract, n - 1) + if is_trump(&by_rank_at(n - 1), &contract) {
            1int
        } else {
            0int
        }
    }
}

proof fn lemma_trumps_below(contract: Contract, n: int)
    requires
        0 <= n <= 32,
    ensures
        deck_by_rank().take(n).filter(trump_under(contract)).len() == trumps_below(contract, n),
    decreases n,
{
    let d = deck_by_rank();
    if n == 0 {
        reveal(Seq::filter);
        assert(d.take(0).len() == 0);
    } else {
        lemma_trumps_below(contract, n - 1);
        d.lemma_take_succ_push(n - 1);
        d.take(n - 1).lemma_filter_push(d[n - 1], trump_under(contract));
    }
}

proof fn lemma_trumps_in_rank(contract: Contract, r: int)
    requires
        0 <= r < 8,
    ensures
        trumps_below(contract, 4 * r + 4) == trumps_below(contract, 4 * r) + match contract {
            Contract::Call(_) | Contract::Ramsch | Contract::Solo(_) => if r == 5 || r == 6 {
                4int
            } else {
                1int
            },
            Contract::Wenz => if r == 5 {
                4int
            } else {
                0int
            },
            Contract::Undecided => 0int,
        },
{
    reveal_with_fuel(trumps_below, 5);
    assert((4 * r) / 4 == r && (4 * r + 1) / 4 == r && (4 * r + 2) / 4 == r && (4 * r + 3) / 4
        == r);
    assert((4 * r) % 4 == 0 && (4 * r + 1) % 4 == 1 && (4 * r + 2) % 4 == 2 && (4 * r + 3) % 4
        == 3);
}

/// Every contract but the undecided one has trumps, and their number is
/// fixed: fourteen under Call, Ramsch and Solo, four under Wenz.
pub proof fn lemma_trump_count(contract: Contract)
    ensures
        trump_order(contract).len() == trump_count(contract),
        contract != Contract::Undecided ==> trump_order(contract).len() > 0,
{
    lemma_trumps_below(contract, 32);
    assert(deck_by_rank().take(32) =~= deck_by_rank());
    assert(trumps_below(contract, 0) == 0);
    lemma_trumps_in_rank(contract, 0);
    lemma_trumps_in_rank(contract, 1);
    lemma_trumps_in_rank(contract, 2);
    lemma_trumps_in_rank(contract, 3);
    lemma_trumps_in_rank(contract, 4);
    lemma_trumps_in_rank(contract, 5);
    lemma_trumps_in_rank(contract, 6);
    lemma_trumps_in_rank(contract, 7);
}

/// The trumps of a contract split the deck: a card is listed among them
/// exactly if it is trump, and none is listed twice.
pub proof fn lemma_trump_order_partitions(contract: Contract)
    ensures
        trump_order(contract).no_duplicates(),
        forall|c: Card| trump_order(contract).contains(c) <==> is_trump(&c, &contract),
{
    let d = deck_by_rank();
    let p = trump_under(contract);
    assert(d.no_duplicates()) by {
        assert forall|i: int, j: int| 0 <= i < 32 && 0 <= j < 32 && i != j implies d[i] != d[j] by {
            assert(by_rank_at(i).value.index() == i / 4 && by_rank_at(i).suit.index() == i % 4);
            assert(by_rank_at(j).value.index() == j / 4 && by_rank_at(j).suit.index() == j % 4);
        }
    }
    lemma_filter_keeps_distinct(d, p);
    assert forall|c: Card| trump_order(contract).contains(c) <==> is_trump(&c, &contract) by {
        if trump_order(contract).contains(c) {
            let i = choose|i: int| 0 <= i < d.filter(p).len() && d.filter(p)[i] == c;
            d.lemma_filter_pred(p, i);
        }
        if is_trump(&c, &contract) {
            let k = c.value.index() * 4 + c.suit.index();
            assert(d[k] == c);
            d.lemma_filter_contains(p, k);
        }
    }
}

/// The cards that are trump under `contract`, as a set.
pub open spec fn trump_set(contract: Contract) -> Set<Card> {
    Set::new(|c: Card| is_trump(&c, &contract))
}

/// The trump test splits the deck in two. The trumps are fourteen cards under
/// Call, Ramsch and Solo and four under Wenz, so there are always some; only
/// the undecided contract has none.
pub proof fn lemma_trump_set_size(contract: Contract)
    ensures
        trump_set(contract).finite(),
        trump_set(contract).len() == trump_count(contract),
        contract != Contract::Undecided ==> trump_set(contract).len() > 0,
{
    let trumps = trump_order(contract);
    lemma_trump_order_partitions(contract);
    lemma_trump_count(contract);
    trumps.unique_seq_to_set();
    assert(trumps.to_set() =~= trump_set(contract));
}

/// Filtering a sequence without repeated items leaves none repeated.
pub proof fn lemma_filter_keeps_distinct<A>(s: Seq<A>, p: spec_fn(A) -> bool)
    requires
        s.no_duplicates(),
    ensures
        s.filter(p).no_duplicates(),
    decreases s.len(),
{
    reveal(Seq::filter);
    if s.len() > 0 {
        let t = s.drop_last();
        lemma_filter_keeps_distinct(t, p);
        if p(s.last()) {
            if t.filter(p).contains(s.last()) {
                t.lemma_filter_contains_rev(p, s.last());
                let i = choose|i: int| 0 <= i < t.len() && t[i] == s.last();
                assert(s[i] == s[s.len() - 1]);
            }
        }
    }
}

} // verus!
