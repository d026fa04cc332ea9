//! A single-player Blackjack round engine: cards, hand scoring, the shoe and
//! the per-round state machine, with their contracts proved by Verus.
use vstd::prelude::*;

pub mod card;
pub mod hand;
pub mod round;
pub mod score;
pub mod shoe;
pub mod text;

pub use card::{Card, Suit, Value};
pub use round::{Command, Outcome, Reply, Round, Stage, Tally};
pub use score::calculate_hand_value;
pub use shoe::draw;
pub use text::PrintHand;

verus! {

} // verus!
