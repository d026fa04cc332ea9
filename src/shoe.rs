//! The shoe: the draw pile, its reshuffle policy and dealing into hands.
use vstd::prelude::*;
use rand::rngs::ThreadRng;
use rand::seq::SliceRandom;
use crate::card::{Card, all_wf, canonical_deck, full_deck};
use crate::hand::{Hand, hand_push};

verus! {

broadcast use vstd::seq_lib::group_to_multiset_ensures;

#[verifier::external_type_specification]
#[verifier::external_body]
pub struct ExThreadRng(ThreadRng);

/// Number of cards in a full deck.
pub const DECK_SIZE: usize = 52;

/// The shoe is refilled at the start of a round when fewer cards than this
/// remain: a third of a deck.
pub const RESHUFFLE_BELOW: usize = DECK_SIZE / 3;

/// The cards that a deal of `n` takes from `deck`: its last `n`, in order.
pub open spec fn dealt(deck: Seq<Card>, n: int) -> Seq<Card> {
    deck.subrange(deck.len() - n, deck.len() as int)
}

/// What remains of `deck` after a deal of `n`.
pub open spec fn after_deal(deck: Seq<Card>, n: int) -> Seq<Card> {
    deck.subrange(0, deck.len() - n)
}

/// A shoe just refilled: a permutation of the canonical 52 cards.
pub open spec fn is_fresh_shoe(deck: Seq<Card>) -> bool {
    &&& deck.len() == 52
    &&& deck.to_multiset() == canonical_deck().to_multiset()
    &&& all_wf(deck)
}

/// Relies on rand's `SliceRandom::shuffle` for slices, which permutes the
/// slice in place by swapping items.
#[verifier::external_body]
fn shuffle_cards(deck: &mut Vec<Card>, rng: &mut ThreadRng)
    ensures
        final(deck)@.len() == old(deck)@.len(),
        final(deck)@.to_multiset() == old(deck)@.to_multiset(),
{
    deck.shuffle(rng)
}

/// Every permutation of a sequence of valid cards holds valid cards only.
pub proof fn lemma_permutation_wf(a: Seq<Card>, b: Seq<Card>)
    requires
        all_wf(a),
        a.to_multiset() == b.to_multiset(),
    ensures
        all_wf(b),
{
    assert forall|i: int| 0 <= i < b.len() implies #[trigger] b[i].wf() by {
        assert(b.contains(b[i]));
        assert(a.to_multiset().count(b[i]) > 0);
        assert(a.contains(b[i]));
    }
}

/// A new shoe: the canonical deck, shuffled.
pub fn new_shoe(rng: &mut ThreadRng) -> (r: Vec<Card>)
    ensures
        is_fresh_shoe(r@),
{
    let mut deck = full_deck();
    shuffle_cards(&mut deck, rng);
    proof {
        lemma_permutation_wf(canonical_deck(), deck@);
    }
    deck
}

/// Refills the shoe with a freshly shuffled deck when fewer than a third of a
/// deck's cards remain, and leaves it alone otherwise.
pub fn ensure_shuffled(deck: &mut Vec<Card>, rng: &mut ThreadRng)
    ensures
        old(deck)@.len() >= RESHUFFLE_BELOW ==> final(deck)@ == old(deck)@,
        old(deck)@.len() < RESHUFFLE_BELOW ==> is_fresh_shoe(final(deck)@),
        final(deck)@.len() >= RESHUFFLE_BELOW,
{
    if deck.len() < RESHUFFLE_BELOW {
        *deck = new_shoe(rng);
    }
}

/// Moves the last `n` cards of the shoe, in their order, onto the end of the
/// hand. The shoe must hold more than `n` cards.
pub fn draw(deck: &mut Vec<Card>, hand: &mut Hand, n: usize)
    requires
        n < old(deck)@.len(),
    ensures
        final(hand)@ == old(hand)@ + dealt(old(deck)@, n as int),
        final(deck)@ == after_deal(old(deck)@, n as int),
{
    let len = deck.len();
    let start = len - n;
    let mut i: usize = start;
    while i < len
        invariant
            start <= i <= len,
            len == deck@.len(),
            deck@ == old(deck)@,
            start == len - n,
            hand@ == old(hand)@ + deck@.subrange(start as int, i as int),
        decreases len - i,
    {
        hand_push(hand, deck[i]);
        i += 1;
        assert(hand@ =~= old(hand)@ + deck@.subrange(start as int, i as int));
    }
    deck.truncate(start);
}

} // verus!
