//! Text of cards and hands: a suit letter followed by a rank code, cards of a
//! hand joined by `|`.
use vstd::prelude::*;
use vstd::string::*;
use crate::card::{Card, Suit, Value, all_wf};

verus! {

pub open spec fn suit_text(s: Suit) -> Seq<char> {
    match s {
        Suit::Clubs => "C"@,
        Suit::Spades => "S"@,
        Suit::Diamonds => "D"@,
        Suit::Hearts => "H"@,
    }
}

/// Rank code of a valid rank: `A`, `K`, `Q`, `J`, or the number.
pub open spec fn value_text(v: Value) -> Seq<char> {
    match v {
        Value::Ace => "A"@,
        Value::King => "K"@,
        Value::Queen => "Q"@,
        Value::Jack => "J"@,
        Value::Number(n) => if n == 2 {
            "2"@
        } else if n == 3 {
            "3"@
        } else if n == 4 {
            "4"@
        } else if n == 5 {
            "5"@
        } else if n == 6 {
            "6"@
        } else if n == 7 {
            "7"@
        } else if n == 8 {
            "8"@
        } else if n == 9 {
            "9"@
        } else {
            "10"@
        },
    }
}

pub open spec fn card_text(c: Card) -> Seq<char> {
    suit_text(c.suit) + value_text(c.val)
}

/// The cards' codes joined by `|`.
pub open spec fn hand_text(s: Seq<Card>) -> Seq<char>
    decreases s.len(),
{
    if s.len() == 0 {
        Seq::empty()
    } else if s.len() == 1 {
        card_text(s[0])
    } else {
        hand_text(s.drop_last()) + "|"@ + card_text(s.last())
    }
}

impl Suit {
    pub fn code(&self) -> (r: &'static str)
        ensures
            r@ == suit_text(*self),
    {
        match self {
            Suit::Clubs => "C",
            Suit::Spades => "S",
            Suit::Diamonds => "D",
            Suit::Hearts => "H",
        }
    }
}

impl Value {
    pub fn code(&self) -> (r: &'static str)
        requires
            self.wf(),
        ensures
            r@ == value_text(*self),
    {
        match self {
            Value::Ace => "A",
            Value::King => "K",
            Value::Queen => "Q",
            Value::Jack => "J",
            Value::Number(n) => if *n == 2 {
                "2"
            } else if *n == 3 {
                "3"
            } else if *n == 4 {
                "4"
            } else if *n == 5 {
                "5"
            } else if *n == 6 {
                "6"
            } else if *n == 7 {
                "7"
            } else if *n == 8 {
                "8"
            } else if *n == 9 {
                "9"
            } else {
                "10"
            },
        }
    }
}

impl Card {
    /// The two- or three-character code of a card, such as `SA` or `H10`.
    pub fn code(&self) -> (r: String)
        requires
            self.wf(),
        ensures
            r@ == card_text(*self),
    {
        let mut r = String::from_str(self.suit.code());
        r.append(self.val.code());
        r
    }
}

/// A hand as it is shown: its cards' codes joined by `|`.
pub struct PrintHand<'a>(pub &'a [Card]);

impl<'a> PrintHand<'a> {
    pub fn render(&self) -> (r: String)
        requires
            all_wf(self.0@),
        ensures
            r@ == hand_text(self.0@),
    {
        let cards = self.0;
        let mut r = String::new();
        let mut i: usize = 0;
        while i < cards.len()
            invariant
                i <= cards@.len(),
                all_wf(cards@),
                r@ == hand_text(cards@.subrange(0, i as int)),
            decreases cards@.len() - i,
        {
            let ghost prefix = cards@.subrange(0, i as int + 1);
            assert(prefix.drop_last() =~= cards@.subrange(0, i as int));
            if i > 0 {
                r.append("|");
            } else {
                assert(cards@.subrange(0, 0) =~= Seq::<Card>::empty());
                assert(r@ =~= Seq::<char>::empty());
            }
            let code = cards[i].code();
            r.append(code.as_str());
            i += 1;
            assert(r@ =~= hand_text(prefix));
        }
        assert(cards@.subrange(0, cards@.len() as int) =~= cards@);
        r
    }
}

} // verus!
