//! A hand of cards, held in smallvec's inline-storage vector.
use vstd::prelude::*;
use smallvec::SmallVec;
use crate::card::Card;

verus! {

/// The cards of a hand, five of them stored inline. Opaque to proofs, which
/// see it through `hand_cards`.
#[verifier::external_body]
pub struct Hand {
    cards: SmallVec<[Card; 5]>,
}

/// The cards a hand holds, in the order they were added.
pub uninterp spec fn hand_cards(h: Hand) -> Seq<Card>;

impl View for Hand {
    type V = Seq<Card>;

    open spec fn view(&self) -> Seq<Card> {
        hand_cards(*self)
    }
}

/// Relies on SmallVec::new: a new vector is empty.
#[verifier::external_body]
pub(crate) fn hand_new() -> (r: Hand)
    ensures
        hand_cards(r) == Seq::<Card>::empty(),
{
    Hand { cards: SmallVec::new() }
}

/// Relies on SmallVec::push: the item is appended at the end.
#[verifier::external_body]
pub(crate) fn hand_push(h: &mut Hand, c: Card)
    ensures
        hand_cards(*final(h)) == hand_cards(*old(h)).push(c),
{
    h.cards.push(c)
}

/// Relies on SmallVec::pop: the last item is removed and returned, `None`
/// when the vector is empty.
#[verifier::external_body]
pub(crate) fn hand_pop(h: &mut Hand) -> (r: Option<Card>)
    ensures
        hand_cards(*old(h)).len() == 0 ==> r is None && hand_cards(*final(h)) == hand_cards(
            *old(h),
        ),
        hand_cards(*old(h)).len() > 0 ==> r == Some(hand_cards(*old(h)).last()) && hand_cards(
            *final(h),
        ) == hand_cards(*old(h)).drop_last(),
{
    h.cards.pop()
}

/// Relies on SmallVec::as_slice: the slice holds the items in order.
#[verifier::external_body]
pub(crate) fn hand_slice(h: &Hand) -> (r: &[Card])
    ensures
        r@ == hand_cards(*h),
{
    h.cards.as_slice()
}

/// Copies the cards of a hand into a `Vec`.
pub fn hand_to_vec(h: &Hand) -> (r: Vec<Card>)
    ensures
        r@ == hand_cards(*h),
{
    let s = hand_slice(h);
    let mut r: Vec<Card> = Vec::new();
    let mut i: usize = 0;
    while i < s.len()
        invariant
            i <= s@.len(),
            r@ == s@.subrange(0, i as int),
        decreases s@.len() - i,
    {
        r.push(s[i]);
        i += 1;
        assert(r@ =~= s@.subrange(0, i as int));
    }
    assert(r@ =~= s@);
    r
}

} // verus!
