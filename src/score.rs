//! The hand scorer: a hand's best total under the soft-ace rule.
use vstd::prelude::*;
use crate::card::{Card, Value, card_points, is_ace};

verus! {

broadcast use vstd::seq_lib::group_to_multiset_ensures;

/// Target total of a hand.
pub const GOAL: u32 = 21;

/// Raw total of a hand with every Ace counted as 1.
pub open spec fn hand_points(s: Seq<Card>) -> int
    decreases s.len(),
{
    if s.len() == 0 {
        0
    } else {
        hand_points(s.drop_last()) + card_points(s.last())
    }
}

/// Number of Aces in a hand.
pub open spec fn ace_count(s: Seq<Card>) -> int
    decreases s.len(),
{
    if s.len() == 0 {
        0
    } else {
        ace_count(s.drop_last()) + if is_ace(s.last()) {
            1int
        } else {
            0int
        }
    }
}

pub open spec fn min(a: int, b: int) -> int {
    if a <= b {
        a
    } else {
        b
    }
}

/// Score of a hand: below 21, as many Aces as fit in whole tens of the gap
/// to 21 are counted as 11; otherwise the raw total.
pub open spec fn hand_score(s: Seq<Card>) -> int {
    let t = hand_points(s);
    if t < 21 {
        t + 10 * min((21 - t) / 10, ace_count(s))
    } else {
        t
    }
}

/// Scores a hand. The raw total has to fit in a `u32`.
pub fn calculate_hand_value(x: &[Card]) -> (r: u32)
    requires
        hand_points(x@) <= u32::MAX,
    ensures
        r == hand_score(x@),
{
    let mut aces: u32 = 0;
    let mut total: u32 = 0;
    let mut i: usize = 0;
    while i < x.len()
        invariant
            i <= x@.len(),
            hand_points(x@) <= u32::MAX,
            total == hand_points(x@.subrange(0, i as int)),
            aces == ace_count(x@.subrange(0, i as int)),
            aces <= total,
        decreases x@.len() - i,
    {
        proof {
            lemma_points_nonneg(x@.subrange(i as int + 1, x@.len() as int));
            lemma_points_split(x@.subrange(0, i as int + 1), x@.subrange(i as int + 1, x@.len() as int));
            assert(x@.subrange(0, i as int + 1) + x@.subrange(i as int + 1, x@.len() as int) =~= x@);
            assert(x@.subrange(0, i as int + 1).drop_last() =~= x@.subrange(0, i as int));
        }
        match x[i].val {
            Value::Ace => {
                aces += 1;
                total += 1;
            },
            Value::King | Value::Queen | Value::Jack => total += 10,
            Value::Number(n) => total += n,
        }
        i += 1;
    }
    assert(x@.subrange(0, x@.len() as int) =~= x@);
    if total < GOAL {
        let diff = (GOAL - total) / 10;
        let promoted = if diff <= aces {
            diff
        } else {
            aces
        };
        total += promoted * 10;
    }
    total
}

pub proof fn lemma_points_nonneg(s: Seq<Card>)
    ensures
        hand_points(s) >= 0,
        ace_count(s) >= 0,
    decreases s.len(),
{
    if s.len() > 0 {
        lemma_points_nonneg(s.drop_last());
    }
}

/// Raw totals and Ace counts add up over a concatenation.
pub proof fn lemma_points_split(a: Seq<Card>, b: Seq<Card>)
    ensures
        hand_points(a + b) == hand_points(a) + hand_points(b),
        ace_count(a + b) == ace_count(a) + ace_count(b),
    decreases b.len(),
{
    if b.len() == 0 {
        assert(a + b =~= a);
    } else {
        lemma_points_split(a, b.drop_last());
        assert((a + b).drop_last() =~= a + b.drop_last());
    }
}

proof fn lemma_points_remove(s: Seq<Card>, j: int)
    requires
        0 <= j < s.len(),
    ensures
        hand_points(s) == hand_points(s.remove(j)) + card_points(s[j]),
        ace_count(s) == ace_count(s.remove(j)) + if is_ace(s[j]) {
            1int
        } else {
            0int
        },
    decreases s.len(),
{
    if j < s.len() - 1 {
        lemma_points_remove(s.drop_last(), j);
        assert(s.remove(j).drop_last() =~= s.drop_last().remove(j));
        assert(s.remove(j).last() == s.last());
    } else {
        assert(s.remove(j) =~= s.drop_last());
    }
}

/// A hand's score does not depend on the order of its cards: any two hands
/// holding the same cards, counted with multiplicity, score alike.
pub proof fn lemma_score_order_invariant(a: Seq<Card>, b: Seq<Card>)
    requires
        a.to_multiset() == b.to_multiset(),
    ensures
        hand_score(a) == hand_score(b),
        hand_points(a) == hand_points(b),
        ace_count(a) == ace_count(b),
    decreases a.len(),
{
    if a.len() == 0 {
        assert(b.to_multiset().len() == 0);
        assert(b =~= a);
    } else {
        let x = a.last();
        let rest = a.drop_last();
        assert(a =~= rest.push(x));
        assert(b.to_multiset().count(x) > 0);
        assert(b.contains(x));
        let j = choose|j: int| 0 <= j < b.len() && b[j] == x;
        assert(b.remove(j).to_multiset() =~= rest.to_multiset());
        lemma_score_order_invariant(rest, b.remove(j));
        lemma_points_remove(b, j);
    }
}

/// Without Aces a hand scores exactly the sum of its cards' face values.
pub proof fn lemma_score_without_aces(s: Seq<Card>)
    requires
        forall|i: int| 0 <= i < s.len() ==> !(#[trigger] is_ace(s[i])),
    ensures
        hand_score(s) == hand_points(s),
        ace_count(s) == 0,
    decreases s.len(),
{
    if s.len() > 0 {
        assert forall|i: int| 0 <= i < s.drop_last().len() implies !(#[trigger] is_ace(
            s.drop_last()[i],
        )) by {
            assert(s.drop_last()[i] == s[i]);
        }
        lemma_score_without_aces(s.drop_last());
        assert(!is_ace(s[s.len() - 1]));
    }
}

} // verus!
