//! Cards: suits, ranks, point values and the 32-card deck.

use vstd::prelude::*;
use vstd::seq_lib::*;
use crate::random::{shuffle, thread_rng};

verus! {

/// The four suits. Their order (Bells < Hearts < Leaves < Acorns) only breaks
/// ties between two trumps of equal rank; it never decides strength by itself.
#[derive(Copy, Clone, Debug, PartialEq, Eq, PartialOrd, Ord, Hash, Structural)]
pub enum Suit {
    Bells,
    Hearts,
    Leaves,
    Acorns,
}

impl Suit {
    /// Position of the suit in the tie-break order, from 0 (Bells) to 3 (Acorns).
    pub open spec fn spec_index(&self) -> u8 {
        match self {
            Suit::Bells => 0,
            Suit::Hearts => 1,
            Suit::Leaves => 2,
            Suit::Acorns => 3,
        }
    }

    /// Position of the suit in the tie-break order, from 0 (Bells) to 3 (Acorns).
    #[verifier::when_used_as_spec(spec_index)]
    pub fn index(&self) -> (i: u8)
        ensures
            i == self.spec_index(),
    {
        match self {
            Suit::Bells => 0,
            Suit::Hearts => 1,
            Suit::Leaves => 2,
            Suit::Acorns => 3,
        }
    }

    /// The suit at position `i` of the tie-break order.
    pub open spec fn at(i: int) -> Suit {
        if i == 0 {
            Suit::Bells
        } else if i == 1 {
            Suit::Hearts
        } else if i == 2 {
            Suit::Leaves
        } else {
            Suit::Acorns
        }
    }

    /// The suit at position `i` of the tie-break order.
    pub fn from_index(i: u8) -> (s: Suit)
        requires
            i < 4,
        ensures
            s == Suit::at(i as int),
            s.index() == i,
    {
        if i == 0 {
            Suit::Bells
        } else if i == 1 {
            Suit::Hearts
        } else if i == 2 {
            Suit::Leaves
        } else {
            Suit::Acorns
        }
    }
}

/// The eight ranks, weakest first. The order is trick-taking strength, not
/// face value: King sits below Ten, and Under and Ober sit above both.
#[derive(Copy, Clone, Debug, PartialEq, Eq, PartialOrd, Ord, Hash, Structural)]
pub enum Value {
    Seven,
    Eight,
    Nine,
    King,
    Ten,
    Under,
    Ober,
    Ace,
}

impl Value {
    /// Position of the rank in the strength order, from 0 (Seven) to 7 (Ace).
    pub open spec fn spec_index(&self) -> u8 {
        match self {
            Value::Seven => 0,
            Value::Eight => 1,
            Value::Nine => 2,
            Value::King => 3,
            Value::Ten => 4,
            Value::Under => 5,
            Value::Ober => 6,
            Value::Ace => 7,
        }
    }

    /// Position of the rank in the strength order, from 0 (Seven) to 7 (Ace).
    #[verifier::when_used_as_spec(spec_index)]
    pub fn index(&self) -> (i: u8)
        ensures
            i == self.spec_index(),
    {
        match self {
            Value::Seven => 0,
            Value::Eight => 1,
            Value::Nine => 2,
            Value::King => 3,
            Value::Ten => 4,
            Value::Under => 5,
            Value::Ober => 6,
            Value::Ace => 7,
        }
    }

    /// The rank at position `i` of the strength order.
    pub open spec fn at(i: int) -> Value {
        if i == 0 {
            Value::Seven
        } else if i == 1 {
            Value::Eight
        } else if i == 2 {
            Value::Nine
        } else if i == 3 {
            Value::King
        } else if i == 4 {
            Value::Ten
        } else if i == 5 {
            Value::Under
        } else if i == 6 {
            Value::Ober
        } else {
            Value::Ace
        }
    }

    /// The rank at position `i` of the strength order.
    pub fn from_index(i: u8) -> (v: Value)
        requires
            i < 8,
        ensures
            v == Value::at(i as int),
            v.index() == i,
    {
        if i == 0 {
            Value::Seven
        } else if i == 1 {
            Value::Eight
        } else if i == 2 {
            Value::Nine
        } else if i == 3 {
            Value::King
        } else if i == 4 {
            Value::Ten
        } else if i == 5 {
            Value::Under
        } else if i == 6 {
            Value::Ober
        } else {
            Value::Ace
        }
    }

    /// Card points carried by a rank: Ace 11, Ten 10, King 4, Ober 3, Under 2,
    /// everything else 0.
    pub open spec fn spec_points(&self) -> u8 {
        match self {
            Value::Ten => 10,
            Value::Under => 2,
            Value::Ober => 3,
            Value::King => 4,
            Value::Ace => 11,
            _ => 0,
        }
    }

    /// Card points carried by a rank.
    #[verifier::when_used_as_spec(spec_points)]
    pub fn points(&self) -> (p: u8)
        ensures
            p == self.spec_points(),
    {
        match self {
            Value::Ten => 10,
            Value::Under => 2,
            Value::Ober => 3,
            Value::King => 4,
            Value::Ace => 11,
            _ => 0,
        }
    }
}

/// A playing card. Two cards are equal when suit and rank are.
#[derive(Copy, Clone, Debug, PartialEq, Eq, Hash, Structural)]
pub struct Card {
    pub suit: Suit,
    pub value: Value,
}

/// The card at position `k` of the ordered deck: suits in order, and within a
/// suit the ranks in order.
pub open spec fn card_at(k: int) -> Card {
    Card { suit: Suit::at(k / 8), value: Value::at(k % 8) }
}

/// The ordered deck: all 32 cards, by suit and within a suit by rank.
pub open spec fn full_deck() -> Seq<Card> {
    Seq::new(32, |k: int| card_at(k))
}

/// `s` holds every card exactly once, in any order.
pub open spec fn is_full_deck(s: Seq<Card>) -> bool {
    forall|c: Card| #[trigger] s.to_multiset().count(c) == 1
}

/// Sum of the card points of a sequence of cards.
pub open spec fn points_total(s: Seq<Card>) -> int
    decreases s.len(),
{
    if s.len() == 0 {
        0
    } else {
        points_total(s.drop_last()) + s.last().points()
    }
}

impl Card {
    /// Position of the card in the ordered deck, from 0 to 31.
    pub open spec fn spec_code(&self) -> u8 {
        (self.suit.index() * 8 + self.value.index()) as u8
    }

    /// Position of the card in the ordered deck, from 0 to 31.
    #[verifier::when_used_as_spec(spec_code)]
    pub fn code(&self) -> (k: u8)
        ensures
            k == self.spec_code(),
            k < 32,
            card_at(k as int) == *self,
    {
        self.suit.index() * 8 + self.value.index()
    }

    /// Card points of this card.
    pub open spec fn spec_points(&self) -> u8 {
        self.value.points()
    }

    /// Card points of this card.
    #[verifier::when_used_as_spec(spec_points)]
    pub fn points(&self) -> (p: u8)
        ensures
            p == self.spec_points(),
    {
        self.value.points()
    }

    /// The ordered deck.
    pub fn all() -> (cards: Vec<Card>)
        ensures
            cards@ == full_deck(),
    {
        let mut cards: Vec<Card> = Vec::new();
        let mut s: u8 = 0;
        while s < 4
            invariant
                s <= 4,
                cards@.len() == s * 8,
                forall|k: int| 0 <= k < cards@.len() ==> cards@[k] == card_at(k),
            decreases 4 - s,
        {
            let mut v: u8 = 0;
            while v < 8
                invariant
                    s < 4,
                    v <= 8,
                    cards@.len() == s * 8 + v,
                    forall|k: int| 0 <= k < cards@.len() ==> cards@[k] == card_at(k),
                decreases 8 - v,
            {
                cards.push(Card { suit: Suit::from_index(s), value: Value::from_index(v) });
                v += 1;
            }
            s += 1;
        }
        assert(cards@ =~= full_deck());
        cards
    }

    /// A freshly shuffled deck: every card exactly once, in an order drawn from
    /// the thread-local random generator.
    pub fn deck() -> (cards: Vec<Card>)
        ensures
            is_full_deck(cards@),
    {
        let mut cards = Card::all();
        let mut rng = thread_rng();
        proof {
            lemma_ordered_deck_is_full();
        }
        shuffle(&mut cards, &mut rng);
        cards
    }
}

/// Tells whether `cards` holds every card exactly once.
pub fn deck_is_full(cards: &Vec<Card>) -> (full: bool)
    ensures
        full == is_full_deck(cards@),
{
    if cards.len() != 32 {
        proof {
            if is_full_deck(cards@) {
                lemma_full_deck_properties(cards@);
            }
        }
        return false;
    }
    let mut seen: [bool; 32] = [false; 32];
    let mut i: usize = 0;
    while i < 32
        invariant
            i <= 32,
            cards@.len() == 32,
            forall|k: int|
                0 <= k < 32 ==> (#[trigger] seen@[k] <==> exists|j: int|
                    0 <= j < i && (#[trigger] cards@[j]).code() == k),
            forall|a: int, b: int| 0 <= a < b < i ==> cards@[a] != cards@[b],
        decreases 32 - i,
    {
        let k = cards[i].code() as usize;
        if seen[k] {
            proof {
                let j = choose|j: int| 0 <= j < i && (#[trigger] cards@[j]).code() == k;
                assert(card_at(cards@[j].code() as int) == cards@[j]);
                assert(card_at(cards@[i as int].code() as int) == cards@[i as int]);
                assert(cards@[j] == cards@[i as int]);
                if is_full_deck(cards@) {
                    lemma_full_deck_properties(cards@);
                }
            }
            return false;
        }
        proof {
            assert forall|a: int| 0 <= a < i implies cards@[a] != cards@[i as int] by {
                if cards@[a] == cards@[i as int] {
                    assert(cards@[a].code() == k);
                }
            }
        }
        seen[k] = true;
        i += 1;
    }
    proof {
        assert(cards@.no_duplicates());
        lemma_distinct_32_is_full(cards@);
    }
    true
}

/// The ordered deck holds every card exactly once.
pub proof fn lemma_ordered_deck_is_full()
    ensures
        is_full_deck(full_deck()),
{
    let d = full_deck();
    assert(d.no_duplicates()) by {
        assert forall|i: int, j: int| 0 <= i < 32 && 0 <= j < 32 && i != j implies d[i] != d[j] by {
            assert(card_at(i).code() == i);
            assert(card_at(j).code() == j);
        }
    }
    d.lemma_multiset_has_no_duplicates();
    assert forall|c: Card| #[trigger] d.to_multiset().count(c) == 1 by {
        assert(d[c.code() as int] == c);
        assert(d.contains(c));
        to_multiset_contains(d, c);
    }
}

/// A full deck has 32 cards, no card twice, and every card somewhere.
pub proof fn lemma_full_deck_properties(s: Seq<Card>)
    requires
        is_full_deck(s),
    ensures
        s.len() == 32,
        s.no_duplicates(),
        forall|c: Card| s.contains(c),
        s.to_multiset() == full_deck().to_multiset(),
{
    lemma_ordered_deck_is_full();
    assert(s.to_multiset() =~= full_deck().to_multiset());
    to_multiset_len(s);
    to_multiset_len(full_deck());
    s.lemma_multiset_has_no_duplicates_conv();
    assert forall|c: Card| s.contains(c) by {
        assert(s.to_multiset().count(c) == 1);
        to_multiset_contains(s, c);
    }
}

/// Any rearrangement of a full deck is a full deck.
pub proof fn lemma_rearranged_deck_is_full(s: Seq<Card>, t: Seq<Card>)
    requires
        is_full_deck(s),
        s.to_multiset() == t.to_multiset(),
    ensures
        is_full_deck(t),
{
}

/// Sum of the weights of the cards of `s`.
spec fn weight_total(s: Seq<Card>, weight: spec_fn(Card) -> int) -> int
    decreases s.len(),
{
    if s.len() == 0 {
        0
    } else {
        weight_total(s.drop_last(), weight) + weight(s.last())
    }
}

/// Sum of the weights of those among the first `n` cards of the ordered deck
/// that occur in `s`.
spec fn covered(s: Seq<Card>, n: int, weight: spec_fn(Card) -> int) -> int
    decreases n,
{
    if n <= 0 {
        0
    } else {
        covered(s, n - 1, weight) + if s.contains(card_at(n - 1)) {
            weight(card_at(n - 1))
        } else {
            0int
        }
    }
}

/// The weight that counts cards.
spec fn one_each() -> spec_fn(Card) -> int {
    |c: Card| 1int
}

/// The weight that counts card points.
spec fn points_each() -> spec_fn(Card) -> int {
    |c: Card| c.points() as int
}

proof fn lemma_covered_empty(s: Seq<Card>, n: int, weight: spec_fn(Card) -> int)
    requires
        s.len() == 0,
        0 <= n,
    ensures
        covered(s, n, weight) == 0,
    decreases n,
{
    if n > 0 {
        lemma_covered_empty(s, n - 1, weight);
    }
}

proof fn lemma_covered_push(s: Seq<Card>, c: Card, n: int, weight: spec_fn(Card) -> int)
    requires
        0 <= n <= 32,
        !s.contains(c),
    ensures
        covered(s.push(c), n, weight) == covered(s, n, weight) + if c.code() < n {
            weight(c)
        } else {
            0int
        },
    decreases n,
{
    if n > 0 {
        lemma_covered_push(s, c, n - 1, weight);
        let t = s.push(c);
        let x = card_at(n - 1);
        assert(x.code() == n - 1);
        assert(card_at(c.code() as int) == c);
        if s.contains(x) {
            let i = choose|i: int| 0 <= i < s.len() && s[i] == x;
            assert(t[i] == x);
        }
        if t.contains(x) && x != c {
            let i = choose|i: int| 0 <= i < t.len() && t[i] == x;
            assert(s[i] == x);
        }
        if x == c {
            assert(t[s.len() as int] == c);
        }
    }
}

/// The weight of a sequence without repeated cards can be summed up card by
/// card of the ordered deck.
proof fn lemma_weight_by_position(s: Seq<Card>, weight: spec_fn(Card) -> int)
    requires
        s.no_duplicates(),
    ensures
        weight_total(s, weight) == covered(s, 32, weight),
    decreases s.len(),
{
    if s.len() == 0 {
        lemma_covered_empty(s, 32, weight);
    } else {
        let t = s.drop_last();
        let c = s.last();
        assert(t.push(c) =~= s);
        assert(!t.contains(c)) by {
            if t.contains(c) {
                let i = choose|i: int| 0 <= i < t.len() && t[i] == c;
                assert(s[i] == s[s.len() - 1]);
            }
        }
        lemma_weight_by_position(t, weight);
        lemma_covered_push(t, c, 32, weight);
    }
}

proof fn lemma_weights(s: Seq<Card>)
    ensures
        weight_total(s, one_each()) == s.len(),
        weight_total(s, points_each()) == points_total(s),
    decreases s.len(),
{
    if s.len() > 0 {
        lemma_weights(s.drop_last());
    }
}

proof fn lemma_covered_count(s: Seq<Card>, n: int)
    requires
        0 <= n,
    ensures
        0 <= covered(s, n, one_each()) <= n,
        covered(s, n, one_each()) == n ==> forall|k: int|
            0 <= k < n ==> s.contains(#[trigger] card_at(k)),
    decreases n,
{
    if n > 0 {
        lemma_covered_count(s, n - 1);
    }
}

/// Thirty-two distinct cards are a full deck.
pub proof fn lemma_distinct_32_is_full(s: Seq<Card>)
    requires
        s.len() == 32,
        s.no_duplicates(),
    ensures
        is_full_deck(s),
{
    lemma_weight_by_position(s, one_each());
    lemma_weights(s);
    lemma_covered_count(s, 32);
    s.lemma_multiset_has_no_duplicates();
    assert forall|c: Card| #[trigger] s.to_multiset().count(c) == 1 by {
        assert(card_at(c.code() as int) == c);
        assert(s.contains(card_at(c.code() as int)));
        to_multiset_contains(s, c);
    }
}

/// Points of the first `n` cards of the ordered deck.
spec fn ordered_points(n: int) -> int
    decreases n,
{
    if n <= 0 {
        0
    } else {
        ordered_points(n - 1) + card_at(n - 1).points()
    }
}

proof fn lemma_covered_points(s: Seq<Card>, n: int)
    requires
        0 <= n,
        forall|c: Card| s.contains(c),
    ensures
        covered(s, n, points_each()) == ordered_points(n),
    decreases n,
{
    if n > 0 {
        lemma_covered_points(s, n - 1);
    }
}

proof fn lemma_ordered_points_suit(n: int)
    requires
        0 <= n,
        n % 8 == 0,
    ensures
        ordered_points(n + 8) == ordered_points(n) + 30,
{
    reveal_with_fuel(ordered_points, 9);
    assert((n + 0) % 8 == 0 && (n + 1) % 8 == 1 && (n + 2) % 8 == 2 && (n + 3) % 8 == 3);
    assert((n + 4) % 8 == 4 && (n + 5) % 8 == 5 && (n + 6) % 8 == 6 && (n + 7) % 8 == 7);
}

/// The cards of a full deck carry 120 points in all.
pub proof fn lemma_full_deck_points(s: Seq<Card>)
    requires
        is_full_deck(s),
    ensures
        points_total(s) == 120,
{
    lemma_full_deck_properties(s);
    lemma_weight_by_position(s, points_each());
    lemma_weights(s);
    lemma_covered_points(s, 32);
    lemma_ordered_points_suit(0);
    lemma_ordered_points_suit(8);
    lemma_ordered_points_suit(16);
    lemma_ordered_points_suit(24);
}

} // verus!
