//! One round of play as a state machine: the deal, the player's decisions
//! (hit, stand, double, one split), the dealer's fixed policy and the result
//! of each player hand. Input and output stay with the caller, which feeds
//! the player's keys in and renders the state.
use vstd::prelude::*;
use rand::rngs::ThreadRng;
use crate::card::{Card, all_wf};
use crate::hand::{Hand, hand_new, hand_pop, hand_push, hand_slice, hand_to_vec};
use crate::score::{GOAL, calculate_hand_value, hand_points, hand_score, lemma_points_nonneg, lemma_points_split};
use crate::shoe::{RESHUFFLE_BELOW, after_deal, dealt, draw, ensure_shuffled, is_fresh_shoe};

verus! {

/// The dealer draws while its score is below this.
pub const DEAL_GOAL: u32 = 17;

/// Where a round stands.
#[derive(Copy, Clone, Debug, PartialEq, Eq, Structural)]
pub enum Stage {
    /// The player decides on the two dealt cards: hit, stand, double or split.
    FirstDecision,
    /// The player hits or stands on the primary hand.
    PrimaryTurn,
    /// The player hits or stands on the hand split off.
    SecondTurn,
    /// The player is done; the dealer plays next.
    DealerTurn,
    /// The round is over and every player hand has an outcome.
    Finished,
    /// The player was dealt 21 on two cards and won at once.
    Blackjack,
    /// A split was asked for on cards that cannot be split: the round ends
    /// without a result.
    Aborted,
}

/// A player's decision.
#[derive(Copy, Clone, Debug, PartialEq, Eq, Structural)]
pub enum Command {
    Hit,
    Stand,
    Double,
    Split,
}

/// The engine's answer to one key from the player.
#[derive(Copy, Clone, Debug, PartialEq, Eq, Structural)]
pub enum Reply {
    /// The key was acted on.
    Accepted,
    /// The key is not one of those valid now; nothing changed.
    Invalid(u8),
    /// A split was asked for on cards that are not split-equal; the round is
    /// aborted.
    SplitRefused,
}

/// The result of one player hand.
#[derive(Copy, Clone, Debug, PartialEq, Eq, Structural)]
pub enum Outcome {
    Blackjack,
    Bust,
    Win,
    Loss,
    Tie,
}

/// A round in play.
pub struct Round {
    pub player: Hand,
    pub second: Hand,
    pub split: bool,
    pub dealer: Hand,
    pub stage: Stage,
}

/// The mathematical state of a round.
pub struct RoundView {
    pub player: Seq<Card>,
    pub second: Seq<Card>,
    pub split: bool,
    pub dealer: Seq<Card>,
    pub stage: Stage,
}

impl View for Round {
    type V = RoundView;

    open spec fn view(&self) -> RoundView {
        RoundView {
            player: self.player@,
            second: self.second@,
            split: self.split,
            dealer: self.dealer@,
            stage: self.stage,
        }
    }
}

/// The command a key stands for, upper or lower case.
pub open spec fn command_of(key: u8) -> Option<Command> {
    if key == 72 || key == 104 {
        Some(Command::Hit)
    } else if key == 83 || key == 115 {
        Some(Command::Stand)
    } else if key == 68 || key == 100 {
        Some(Command::Double)
    } else if key == 80 || key == 112 {
        Some(Command::Split)
    } else {
        None
    }
}

/// Reads a key as a command: `H`, `S`, `D` or `P`, in either case.
pub fn parse_command(key: u8) -> (r: Option<Command>)
    ensures
        r == command_of(key),
{
    if key == 72 || key == 104 {
        Some(Command::Hit)
    } else if key == 83 || key == 115 {
        Some(Command::Stand)
    } else if key == 68 || key == 100 {
        Some(Command::Double)
    } else if key == 80 || key == 112 {
        Some(Command::Split)
    } else {
        None
    }
}

/// The round right after the deal from `deck`: two cards to the player, then
/// two to the dealer; 21 on the player's two cards is a Blackjack.
pub open spec fn dealt_round(deck: Seq<Card>) -> RoundView {
    let player = dealt(deck, 2);
    RoundView {
        player,
        second: Seq::empty(),
        split: false,
        dealer: dealt(after_deal(deck, 2), 2),
        stage: if hand_score(player) == 21 {
            Stage::Blackjack
        } else {
            Stage::FirstDecision
        },
    }
}

/// The stage once the primary hand is done.
pub open spec fn after_primary(v: RoundView) -> Stage {
    if v.split && hand_score(v.second) < 21 {
        Stage::SecondTurn
    } else {
        Stage::DealerTurn
    }
}

/// The stage once a hit on the primary hand gave it `player`.
pub open spec fn after_primary_hit(v: RoundView, player: Seq<Card>) -> Stage {
    if hand_score(player) < 21 {
        Stage::PrimaryTurn
    } else {
        after_primary(v)
    }
}

/// One decision step: the new state, the shoe after it, and the reply to
/// `key`. Only `H` and `S` are valid after the first decision.
pub open spec fn step(v: RoundView, deck: Seq<Card>, key: u8) -> (RoundView, Seq<Card>, Reply) {
    let one = after_deal(deck, 1);
    match v.stage {
        Stage::FirstDecision => match command_of(key) {
            Some(Command::Hit) => {
                let p = v.player + dealt(deck, 1);
                (
                    RoundView { player: p, stage: after_primary_hit(v, p), ..v },
                    one,
                    Reply::Accepted,
                )
            },
            Some(Command::Stand) => (
                RoundView { stage: Stage::DealerTurn, ..v },
                deck,
                Reply::Accepted,
            ),
            Some(Command::Double) => (
                RoundView {
                    player: v.player + dealt(deck, 1),
                    stage: Stage::DealerTurn,
                    ..v
                },
                one,
                Reply::Accepted,
            ),
            Some(Command::Split) => if v.player[0].split_equal_spec(v.player[1]) {
                let p = seq![v.player[0]] + dealt(deck, 1);
                let s = seq![v.player[1]] + dealt(one, 1);
                let w = RoundView { player: p, second: s, split: true, ..v };
                (
                    RoundView { stage: after_primary_hit(w, p), ..w },
                    after_deal(deck, 2),
                    Reply::Accepted,
                )
            } else {
                (RoundView { stage: Stage::Aborted, ..v }, deck, Reply::SplitRefused)
            },
            None => (v, deck, Reply::Invalid(key)),
        },
        Stage::PrimaryTurn => match command_of(key) {
            Some(Command::Hit) => {
                let p = v.player + dealt(deck, 1);
                (
                    RoundView { player: p, stage: after_primary_hit(v, p), ..v },
                    one,
                    Reply::Accepted,
                )
            },
            Some(Command::Stand) => (
                RoundView { stage: after_primary(v), ..v },
                deck,
                Reply::Accepted,
            ),
            _ => (v, deck, Reply::Invalid(key)),
        },
        Stage::SecondTurn => match command_of(key) {
            Some(Command::Hit) => {
                let s = v.second + dealt(deck, 1);
                (
                    RoundView {
                        second: s,
                        stage: if hand_score(s) < 21 {
                            Stage::SecondTurn
                        } else {
                            Stage::DealerTurn
                        },
                        ..v
                    },
                    one,
                    Reply::Accepted,
                )
            },
            Some(Command::Stand) => (
                RoundView { stage: Stage::DealerTurn, ..v },
                deck,
                Reply::Accepted,
            ),
            _ => (v, deck, Reply::Invalid(key)),
        },
        _ => (v, deck, Reply::Invalid(key)),
    }
}

/// A stage in which the player is asked for a key.
pub open spec fn is_decision(s: Stage) -> bool {
    s is FirstDecision || s is PrimaryTurn || s is SecondTurn
}

/// Every player hand is over 21.
pub open spec fn all_bust(v: RoundView) -> bool {
    hand_score(v.player) > 21 && (v.split ==> hand_score(v.second) > 21)
}

/// The cards the dealer takes by drawing `k` times, one at a time from the
/// end of the shoe.
pub open spec fn drawn_one_by_one(deck: Seq<Card>, k: int) -> Seq<Card> {
    Seq::new(k as nat, |i: int| deck[deck.len() - 1 - i])
}

/// The result of a player hand scoring `p` against a dealer scoring `d`.
pub open spec fn outcome_of(p: int, d: int) -> Outcome {
    if p > 21 {
        Outcome::Bust
    } else if d > 21 {
        Outcome::Win
    } else if p > d {
        Outcome::Win
    } else if p == d {
        Outcome::Tie
    } else {
        Outcome::Loss
    }
}

/// The outcome of each player hand of a round that has ended, the primary
/// hand first.
pub open spec fn outcomes_of(v: RoundView) -> Seq<Outcome> {
    if v.stage is Blackjack {
        seq![Outcome::Blackjack]
    } else if v.stage is Finished {
        let d = hand_score(v.dealer);
        if v.split {
            seq![outcome_of(hand_score(v.player), d), outcome_of(hand_score(v.second), d)]
        } else {
            seq![outcome_of(hand_score(v.player), d)]
        }
    } else {
        Seq::empty()
    }
}

pub open spec fn is_win(o: Outcome) -> bool {
    o is Win || o is Blackjack
}

/// Number of winning outcomes.
pub open spec fn count_wins(s: Seq<Outcome>) -> int
    decreases s.len(),
{
    if s.len() == 0 {
        0
    } else {
        count_wins(s.drop_last()) + if is_win(s.last()) {
            1int
        } else {
            0int
        }
    }
}

impl RoundView {
    /// The invariant of a round: hands of the size and score that its stage
    /// implies, and raw totals small enough to score.
    pub open spec fn wf(self) -> bool {
        &&& self.player.len() >= 2
        &&& self.dealer.len() >= 2
        &&& hand_points(self.player) <= 30
        &&& hand_points(self.second) <= 30
        &&& hand_points(self.dealer) <= 30
        &&& self.split ==> self.second.len() >= 2
        &&& !self.split ==> self.second.len() == 0
        &&& self.stage is FirstDecision ==> self.player.len() == 2 && !self.split && hand_score(
            self.player,
        ) < 21
        &&& self.stage is PrimaryTurn ==> hand_score(self.player) < 21
        &&& self.stage is SecondTurn ==> self.split && hand_score(self.second) < 21
    }
}

/// A two-card 21 is a Blackjack: the round is over at the deal, no decision
/// is asked for, the dealer does not play, and the one hand is a win.
pub proof fn lemma_two_card_21_is_blackjack(deck: Seq<Card>)
    requires
        deck.len() > 4,
        hand_score(dealt(deck, 2)) == 21,
    ensures
        dealt_round(deck).stage is Blackjack,
        !is_decision(dealt_round(deck).stage),
        outcomes_of(dealt_round(deck)) == seq![Outcome::Blackjack],
        count_wins(outcomes_of(dealt_round(deck))) == 1,
{
    let o = outcomes_of(dealt_round(deck));
    assert(o.drop_last() =~= Seq::<Outcome>::empty());
    assert(count_wins(o.drop_last()) == 0);
    assert(is_win(o.last()));
}

proof fn lemma_score_bounds(s: Seq<Card>)
    ensures
        hand_score(s) >= hand_points(s),
        hand_points(s) >= 0,
{
    lemma_points_nonneg(s);
}

/// Valid cards add at most 10 points each.
proof fn lemma_points_of_valid(s: Seq<Card>)
    requires
        all_wf(s),
    ensures
        hand_points(s) <= 10 * s.len(),
    decreases s.len(),
{
    if s.len() > 0 {
        assert(all_wf(s.drop_last())) by {
            assert forall|i: int| 0 <= i < s.drop_last().len() implies #[trigger] s.drop_last()[i].wf() by {
                assert(s.drop_last()[i] == s[i]);
            }
        }
        lemma_points_of_valid(s.drop_last());
        assert(s[s.len() - 1].wf());
    }
}

/// Adding the next card of a shoe of valid cards adds at most 10 points.
proof fn lemma_hit_points(h: Seq<Card>, deck: Seq<Card>)
    requires
        all_wf(deck),
        deck.len() >= 1,
    ensures
        hand_points(h + dealt(deck, 1)) <= hand_points(h) + 10,
        all_wf(after_deal(deck, 1)),
{
    lemma_points_split(h, dealt(deck, 1));
    lemma_points_of_valid_suffix(deck, 1);
    lemma_valid_prefix(deck, 1);
}

proof fn lemma_points_of_valid_suffix(deck: Seq<Card>, n: int)
    requires
        all_wf(deck),
        0 <= n <= deck.len(),
    ensures
        hand_points(dealt(deck, n)) <= 10 * n,
        all_wf(dealt(deck, n)),
{
    assert forall|i: int| 0 <= i < dealt(deck, n).len() implies #[trigger] dealt(deck, n)[i].wf() by {
        assert(dealt(deck, n)[i] == deck[deck.len() - n + i]);
    }
    lemma_points_of_valid(dealt(deck, n));
}

proof fn lemma_valid_prefix(deck: Seq<Card>, n: int)
    requires
        all_wf(deck),
        0 <= n <= deck.len(),
    ensures
        all_wf(after_deal(deck, n)),
{
    assert forall|i: int| 0 <= i < after_deal(deck, n).len() implies #[trigger] after_deal(
        deck,
        n,
    )[i].wf() by {
        assert(after_deal(deck, n)[i] == deck[i]);
    }
}

/// Outcome of a player hand scoring `player` against a dealer scoring
/// `dealer`: bust over 21, a win when the dealer busts or scores less, a tie
/// on equal scores, a loss otherwise.
pub fn resolve_hand(player: u32, dealer: u32) -> (r: Outcome)
    ensures
        r == outcome_of(player as int, dealer as int),
{
    if player > GOAL {
        Outcome::Bust
    } else if dealer > GOAL {
        Outcome::Win
    } else if player > dealer {
        Outcome::Win
    } else if player == dealer {
        Outcome::Tie
    } else {
        Outcome::Loss
    }
}

fn score_of(h: &Hand) -> (r: u32)
    requires
        hand_points(h@) <= 30,
    ensures
        r == hand_score(h@),
{
    calculate_hand_value(hand_slice(h))
}

impl Round {
    /// Deals a round from the shoe: two cards to the player, then two to the
    /// dealer. The shoe must hold more than four cards.
    pub fn deal(deck: &mut Vec<Card>) -> (r: Round)
        requires
            old(deck)@.len() > 4,
            all_wf(old(deck)@),
        ensures
            r@ == dealt_round(old(deck)@),
            final(deck)@ == after_deal(old(deck)@, 4),
            all_wf(final(deck)@),
            r@.wf(),
    {
        let ghost d0 = deck@;
        let mut player = hand_new();
        let mut dealer = hand_new();
        draw(deck, &mut player, 2);
        draw(deck, &mut dealer, 2);
        proof {
            assert(player@ =~= dealt(d0, 2));
            assert(dealer@ =~= dealt(after_deal(d0, 2), 2));
            assert(after_deal(after_deal(d0, 2), 2) =~= after_deal(d0, 4));
            lemma_points_of_valid_suffix(d0, 2);
            lemma_valid_prefix(d0, 2);
            lemma_points_of_valid_suffix(after_deal(d0, 2), 2);
            lemma_valid_prefix(d0, 4);
        }
        let stage = if score_of(&player) == GOAL {
            Stage::Blackjack
        } else {
            Stage::FirstDecision
        };
        proof {
            lemma_score_bounds(player@);
        }
        Round { player, second: hand_new(), split: false, dealer, stage }
    }

    /// Starts a round: refills the shoe if fewer than a third of a deck's
    /// cards remain, then deals.
    pub fn start_round(deck: &mut Vec<Card>, rng: &mut ThreadRng) -> (r: Round)
        requires
            all_wf(old(deck)@),
        ensures
            old(deck)@.len() >= RESHUFFLE_BELOW ==> (r@ == dealt_round(old(deck)@)
                && final(deck)@ == after_deal(old(deck)@, 4)),
            old(deck)@.len() < RESHUFFLE_BELOW ==> (exists|s: Seq<Card>|
                #[trigger] is_fresh_shoe(s) && r@ == dealt_round(s)
                    && final(deck)@ == after_deal(s, 4)),
            all_wf(final(deck)@),
            r@.wf(),
    {
        ensure_shuffled(deck, rng);
        let ghost s = deck@;
        let r = Round::deal(deck);
        proof {
            if old(deck)@.len() < RESHUFFLE_BELOW {
                assert(is_fresh_shoe(s));
            }
        }
        r
    }

    /// Applies one key from the player in a decision stage. The shoe must hold
    /// more than two cards, the most one decision takes.
    pub fn act(&mut self, deck: &mut Vec<Card>, key: u8) -> (r: Reply)
        requires
            old(self)@.wf(),
            is_decision(old(self).stage),
            old(deck)@.len() > 2,
            all_wf(old(deck)@),
        ensures
            (final(self)@, final(deck)@, r) == step(old(self)@, old(deck)@, key),
            final(self)@.wf(),
            all_wf(final(deck)@),
    {
        let ghost v = self@;
        let ghost d0 = deck@;
        proof {
            lemma_hit_points(v.player, d0);
            lemma_hit_points(v.second, d0);
            lemma_score_bounds(v.player);
            lemma_score_bounds(v.second);
            lemma_valid_prefix(d0, 0);
            assert(after_deal(d0, 0) =~= d0);
        }
        let cmd = parse_command(key);
        match self.stage {
            Stage::FirstDecision => match cmd {
                Some(Command::Hit) => {
                    draw(deck, &mut self.player, 1);
                    self.stage = if score_of(&self.player) < GOAL {
                        Stage::PrimaryTurn
                    } else {
                        Stage::DealerTurn
                    };
                    Reply::Accepted
                },
                Some(Command::Stand) => {
                    self.stage = Stage::DealerTurn;
                    Reply::Accepted
                },
                Some(Command::Double) => {
                    draw(deck, &mut self.player, 1);
                    self.stage = Stage::DealerTurn;
                    Reply::Accepted
                },
                Some(Command::Split) => {
                    let first = hand_slice(&self.player)[0];
                    let other = hand_slice(&self.player)[1];
                    if first.split_equal(&other) {
                        let _ = hand_pop(&mut self.player);
                        let mut second = hand_new();
                        hand_push(&mut second, other);
                        draw(deck, &mut self.player, 1);
                        let ghost d1 = deck@;
                        draw(deck, &mut second, 1);
                        self.second = second;
                        self.split = true;
                        proof {
                            assert(v.player.drop_last() =~= seq![v.player[0]]);
                            assert(d1 =~= after_deal(d0, 1));
                            assert(after_deal(d1, 1) =~= after_deal(d0, 2));
                            lemma_hit_points(seq![v.player[0]], d0);
                            lemma_hit_points(seq![v.player[1]], d1);
                            assert(v.player =~= seq![v.player[0]] + seq![v.player[1]]);
                            lemma_points_split(seq![v.player[0]], seq![v.player[1]]);
                            lemma_points_nonneg(seq![v.player[0]]);
                            lemma_points_nonneg(seq![v.player[1]]);
                            lemma_valid_prefix(d0, 2);
                            lemma_score_bounds(self.player@);
                            lemma_score_bounds(self.second@);
                        }
                        self.stage = if score_of(&self.player) < GOAL {
                            Stage::PrimaryTurn
                        } else if score_of(&self.second) < GOAL {
                            Stage::SecondTurn
                        } else {
                            Stage::DealerTurn
                        };
                        Reply::Accepted
                    } else {
                        self.stage = Stage::Aborted;
                        Reply::SplitRefused
                    }
                },
                None => Reply::Invalid(key),
            },
            Stage::PrimaryTurn => match cmd {
                Some(Command::Hit) => {
                    draw(deck, &mut self.player, 1);
                    proof {
                        lemma_score_bounds(self.player@);
                    }
                    self.stage = if score_of(&self.player) < GOAL {
                        Stage::PrimaryTurn
                    } else if self.split && score_of(&self.second) < GOAL {
                        Stage::SecondTurn
                    } else {
                        Stage::DealerTurn
                    };
                    Reply::Accepted
                },
                Some(Command::Stand) => {
                    self.stage = if self.split && score_of(&self.second) < GOAL {
                        Stage::SecondTurn
                    } else {
                        Stage::DealerTurn
                    };
                    Reply::Accepted
                },
                _ => Reply::Invalid(key),
            },
            _ => match cmd {
                Some(Command::Hit) => {
                    draw(deck, &mut self.second, 1);
                    proof {
                        lemma_score_bounds(self.second@);
                    }
                    self.stage = if score_of(&self.second) < GOAL {
                        Stage::SecondTurn
                    } else {
                        Stage::DealerTurn
                    };
                    Reply::Accepted
                },
                Some(Command::Stand) => {
                    self.stage = Stage::DealerTurn;
                    Reply::Accepted
                },
                _ => Reply::Invalid(key),
            },
        }
    }

    /// Plays the dealer's hand once the player is done. When every player
    /// hand is bust the dealer does not play. Otherwise the dealer draws one
    /// card at a time while its score is below 17 and stops at the first
    /// score of 17 or more, bust or not. Returns `false`, with the round still
    /// at the dealer's turn, only when the shoe ran down to one card first.
    pub fn play_dealer(&mut self, deck: &mut Vec<Card>) -> (r: bool)
        requires
            old(self)@.wf(),
            old(self).stage is DealerTurn,
            all_wf(old(deck)@),
        ensures
            final(self)@.player == old(self)@.player,
            final(self)@.second == old(self)@.second,
            final(self)@.split == old(self)@.split,
            all_bust(old(self)@) ==> (r && final(self)@ == (RoundView {
                stage: Stage::Finished,
                ..old(self)@
            }) && final(deck)@ == old(deck)@),
            !all_bust(old(self)@) ==> ({
                let k = old(deck)@.len() - final(deck)@.len();
                &&& 0 <= k
                &&& final(deck)@ == after_deal(old(deck)@, k)
                &&& final(self)@.dealer == old(self)@.dealer + drawn_one_by_one(old(deck)@, k)
                &&& forall|i: int|
                    0 <= i < k ==> hand_score(
                        #[trigger] (old(self)@.dealer + drawn_one_by_one(old(deck)@, i)),
                    ) < 17
                &&& r == (hand_score(final(self)@.dealer) >= 17)
                &&& !r ==> final(deck)@.len() <= 1
            }),
            r ==> final(self).stage is Finished,
            !r ==> final(self).stage is DealerTurn,
            final(self)@.wf(),
            all_wf(final(deck)@),
    {
        let bust_primary = score_of(&self.player) > GOAL;
        let bust_all = bust_primary && (!self.split || score_of(&self.second) > GOAL);
        if bust_all {
            self.stage = Stage::Finished;
            return true;
        }
        let ghost d0 = deck@;
        let ghost h0 = self.dealer@;
        proof {
            assert(h0 + drawn_one_by_one(d0, 0) =~= h0);
            assert(after_deal(d0, 0) =~= d0);
        }
        while score_of(&self.dealer) < DEAL_GOAL && deck.len() > 1
            invariant
                self@.wf(),
                self.stage is DealerTurn,
                self@.player == old(self)@.player,
                self@.second == old(self)@.second,
                self@.split == old(self)@.split,
                0 <= d0.len() - deck@.len(),
                deck@ == after_deal(d0, d0.len() - deck@.len()),
                self.dealer@ == h0 + drawn_one_by_one(d0, d0.len() - deck@.len()),
                forall|i: int|
                    0 <= i < d0.len() - deck@.len() ==> hand_score(
                        #[trigger] (h0 + drawn_one_by_one(d0, i)),
                    ) < 17,
                all_wf(deck@),
            decreases deck@.len(),
        {
            let ghost k = d0.len() - deck@.len();
            let ghost before = self.dealer@;
            proof {
                lemma_hit_points(before, deck@);
                lemma_score_bounds(before);
            }
            draw(deck, &mut self.dealer, 1);
            proof {
                assert(self.dealer@ =~= h0 + drawn_one_by_one(d0, k + 1));
                assert(deck@ =~= after_deal(d0, k + 1));
                assert forall|i: int| 0 <= i < k + 1 implies hand_score(
                    #[trigger] (h0 + drawn_one_by_one(d0, i)),
                ) < 17 by {
                    if i == k {
                        assert(h0 + drawn_one_by_one(d0, i) =~= before);
                    }
                }
            }
        }
        if score_of(&self.dealer) >= DEAL_GOAL {
            self.stage = Stage::Finished;
            true
        } else {
            false
        }
    }

    /// The outcome of each player hand, the primary hand first: a single
    /// `Blackjack` after a two-card 21, none after an aborted round.
    pub fn outcomes(&self) -> (r: Vec<Outcome>)
        requires
            self@.wf(),
            self.stage is Finished || self.stage is Blackjack || self.stage is Aborted,
        ensures
            r@ == outcomes_of(self@),
    {
        let mut r: Vec<Outcome> = Vec::new();
        match self.stage {
            Stage::Blackjack => {
                r.push(Outcome::Blackjack);
            },
            Stage::Finished => {
                let d = score_of(&self.dealer);
                r.push(resolve_hand(score_of(&self.player), d));
                if self.split {
                    r.push(resolve_hand(score_of(&self.second), d));
                }
            },
            _ => {},
        }
        assert(r@ =~= outcomes_of(self@));
        r
    }

    /// Number of player hands that won this round.
    pub fn wins(&self) -> (r: u32)
        requires
            self@.wf(),
            self.stage is Finished || self.stage is Blackjack || self.stage is Aborted,
        ensures
            r == count_wins(outcomes_of(self@)),
    {
        let outs = self.outcomes();
        let mut n: u32 = 0;
        let mut i: usize = 0;
        while i < outs.len()
            invariant
                i <= outs@.len(),
                outs@.len() <= 2,
                n == count_wins(outs@.subrange(0, i as int)),
                n <= i,
            decreases outs@.len() - i,
        {
            assert(outs@.subrange(0, i as int + 1).drop_last() =~= outs@.subrange(0, i as int));
            if outs[i] == Outcome::Win || outs[i] == Outcome::Blackjack {
                n += 1;
            }
            i += 1;
        }
        assert(outs@.subrange(0, outs@.len() as int) =~= outs@);
        n
    }

    /// Whether a split is on offer now: at the first decision, on two
    /// split-equal cards.
    pub fn can_split(&self) -> (r: bool)
        requires
            self@.wf(),
        ensures
            r == (self.stage is FirstDecision && self@.player[0].split_equal_spec(self@.player[1])),
    {
        match self.stage {
            Stage::FirstDecision => {
                let cards = hand_slice(&self.player);
                cards[0].split_equal(&cards[1])
            },
            _ => false,
        }
    }

    pub fn stage(&self) -> (r: Stage)
        ensures
            r == self.stage,
    {
        self.stage
    }

    pub fn is_split(&self) -> (r: bool)
        ensures
            r == self.split,
    {
        self.split
    }

    pub fn player_cards(&self) -> (r: Vec<Card>)
        ensures
            r@ == self@.player,
    {
        hand_to_vec(&self.player)
    }

    pub fn second_cards(&self) -> (r: Vec<Card>)
        ensures
            r@ == self@.second,
    {
        hand_to_vec(&self.second)
    }

    pub fn dealer_cards(&self) -> (r: Vec<Card>)
        ensures
            r@ == self@.dealer,
    {
        hand_to_vec(&self.dealer)
    }

    /// Score of the primary hand.
    pub fn player_score(&self) -> (r: u32)
        requires
            self@.wf(),
        ensures
            r == hand_score(self@.player),
    {
        score_of(&self.player)
    }

    /// Score of the hand split off; 0 when there is none.
    pub fn second_score(&self) -> (r: u32)
        requires
            self@.wf(),
        ensures
            r == hand_score(self@.second),
    {
        score_of(&self.second)
    }

    pub fn dealer_score(&self) -> (r: u32)
        requires
            self@.wf(),
        ensures
            r == hand_score(self@.dealer),
    {
        score_of(&self.dealer)
    }
}

/// Wins and rounds played over the life of a session.
pub struct Tally {
    pub wins: u64,
    pub rounds: u64,
}

impl Tally {
    pub fn new() -> (r: Tally)
        ensures
            r.wins == 0 && r.rounds == 0,
    {
        Tally { wins: 0, rounds: 0 }
    }

    /// Counts an ended round: one more round, and one more win for each
    /// winning hand. The counters stop at `u64::MAX`.
    pub fn record(&mut self, round: &Round)
        requires
            round@.wf(),
            round.stage is Finished || round.stage is Blackjack || round.stage is Aborted,
        ensures
            final(self).wins == if old(self).wins + count_wins(outcomes_of(round@)) <= u64::MAX {
                old(self).wins + count_wins(outcomes_of(round@))
            } else {
                u64::MAX as int
            },
            final(self).rounds == if old(self).rounds < u64::MAX {
                old(self).rounds + 1
            } else {
                u64::MAX as int
            },
    {
        let won = round.wins();
        self.wins = self.wins.saturating_add(won as u64);
        self.rounds = self.rounds.saturating_add(1);
    }
}

} // verus!
