//! Suits, ranks and cards, the canonical 52-card deck and split-equality.
use vstd::prelude::*;

verus! {

#[derive(Copy, Clone, Debug, Hash, PartialEq, Eq, Structural)]
pub enum Suit {
    Clubs,
    Spades,
    Diamonds,
    Hearts,
}

#[derive(Copy, Clone, Debug, Hash, PartialEq, Eq, Structural)]
pub enum Value {
    Ace,
    King,
    Queen,
    Jack,
    Number(u32),
}

#[derive(Copy, Clone, Debug, Hash, PartialEq, Eq, Structural)]
pub struct Card {
    pub val: Value,
    pub suit: Suit,
}

/// Points a card adds to a hand's raw total: an Ace counts 1 here, a face
/// card 10, a numbered card its number.
pub open spec fn card_points(c: Card) -> int {
    match c.val {
        Value::Ace => 1,
        Value::King | Value::Queen | Value::Jack => 10,
        Value::Number(n) => n as int,
    }
}

pub open spec fn is_ace(c: Card) -> bool {
    c.val is Ace
}

impl Value {
    /// A rank that can occur in a deck: numbered ranks run from 2 to 10.
    pub open spec fn wf(self) -> bool {
        match self {
            Value::Number(n) => 2 <= n <= 10,
            _ => true,
        }
    }

    /// The blackjack value class used to decide whether a split is allowed:
    /// all ten-valued ranks share one class.
    pub open spec fn class(self) -> int {
        match self {
            Value::Ace => 1,
            Value::King | Value::Queen | Value::Jack => 10,
            Value::Number(n) => n as int,
        }
    }
}

impl Card {
    pub open spec fn wf(self) -> bool {
        self.val.wf()
    }

    /// Two cards are split-equal when their ranks fall in the same value class.
    pub open spec fn split_equal_spec(self, other: Card) -> bool {
        self.val.class() == other.val.class()
    }

    pub fn split_equal(&self, other: &Card) -> (r: bool)
        ensures
            r == self.split_equal_spec(*other),
    {
        let a: u32 = match self.val {
            Value::Ace => 1,
            Value::King | Value::Queen | Value::Jack => 10,
            Value::Number(n) => n,
        };
        let b: u32 = match other.val {
            Value::Ace => 1,
            Value::King | Value::Queen | Value::Jack => 10,
            Value::Number(n) => n,
        };
        a == b
    }
}

/// Every card of the sequence is one that a deck can hold.
pub open spec fn all_wf(s: Seq<Card>) -> bool {
    forall|i: int| 0 <= i < s.len() ==> #[trigger] s[i].wf()
}

/// Rank of the `i`-th group of four in the canonical deck.
pub open spec fn rank_at(i: int) -> Value {
    if i == 0 {
        Value::Ace
    } else if i == 1 {
        Value::King
    } else if i == 2 {
        Value::Queen
    } else if i == 3 {
        Value::Jack
    } else {
        Value::Number((14 - i) as u32)
    }
}

pub open spec fn suit_at(j: int) -> Suit {
    if j == 0 {
        Suit::Spades
    } else if j == 1 {
        Suit::Clubs
    } else if j == 2 {
        Suit::Diamonds
    } else {
        Suit::Hearts
    }
}

/// The canonical deck: Aces, Kings, Queens, Jacks, then 10 down to 2, each
/// rank in the suit order Spades, Clubs, Diamonds, Hearts.
pub open spec fn canonical_deck() -> Seq<Card> {
    Seq::new(52, |k: int| deck_card(k))
}

/// The card at position `k` of the canonical deck.
pub open spec fn deck_card(k: int) -> Card {
    Card { val: rank_at(k / 4), suit: suit_at(k % 4) }
}

fn rank_of(i: u32) -> (r: Value)
    requires
        i < 13,
    ensures
        r == rank_at(i as int),
{
    if i == 0 {
        Value::Ace
    } else if i == 1 {
        Value::King
    } else if i == 2 {
        Value::Queen
    } else if i == 3 {
        Value::Jack
    } else {
        Value::Number(14 - i)
    }
}

fn suit_of(j: u32) -> (r: Suit)
    requires
        j < 4,
    ensures
        r == suit_at(j as int),
{
    if j == 0 {
        Suit::Spades
    } else if j == 1 {
        Suit::Clubs
    } else if j == 2 {
        Suit::Diamonds
    } else {
        Suit::Hearts
    }
}

/// The 52 cards of a fresh deck, in canonical order.
pub fn full_deck() -> (r: Vec<Card>)
    ensures
        r@ == canonical_deck(),
        all_wf(r@),
{
    let mut r: Vec<Card> = Vec::new();
    let mut i: u32 = 0;
    while i < 13
        invariant
            i <= 13,
            r@.len() == 4 * i,
            forall|k: int|
                0 <= k < r@.len() ==> #[trigger] r@[k] == deck_card(k),
        decreases 13 - i,
    {
        let mut j: u32 = 0;
        while j < 4
            invariant
                i < 13,
                j <= 4,
                r@.len() == 4 * i + j,
                forall|k: int|
                    0 <= k < r@.len() ==> #[trigger] r@[k] == deck_card(k),
            decreases 4 - j,
        {
            let c = Card { val: rank_of(i), suit: suit_of(j) };
            proof {
                let k = 4 * i + j;
                assert(k / 4 == i as int && k % 4 == j as int) by (nonlinear_arith)
                    requires
                        k == 4 * i + j,
                        j < 4,
                ;
            }
            r.push(c);
            j = j + 1;
        }
        i = i + 1;
    }
    assert(r@ =~= canonical_deck());
    assert forall|k: int| 0 <= k < r@.len() implies #[trigger] r@[k].wf() by {
        assert(0 <= k / 4 < 13) by (nonlinear_arith)
            requires
                0 <= k < 52,
        ;
    }
    r
}

/// Split-equality ignores suits and groups the ten-valued ranks: King and
/// Queen, or a 10 and a Jack, may be split; two 9s may; a 9 and a 10 may not.
pub proof fn lemma_split_equal_classes(x: Suit, y: Suit)
    ensures
        (Card { val: Value::King, suit: x }).split_equal_spec(Card { val: Value::Queen, suit: y }),
        (Card { val: Value::Number(10), suit: x }).split_equal_spec(
            Card { val: Value::Jack, suit: y },
        ),
        (Card { val: Value::Number(9), suit: x }).split_equal_spec(
            Card { val: Value::Number(9), suit: y },
        ),
        !(Card { val: Value::Number(9), suit: x }).split_equal_spec(
            Card { val: Value::Number(10), suit: y },
        ),
{
}

} // verus!
