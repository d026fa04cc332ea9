use blackjack::card::full_deck;
use blackjack::hand::hand_to_vec;
use blackjack::round::{parse_command, resolve_hand};
use blackjack::shoe::{ensure_shuffled, new_shoe};
use blackjack::{
    calculate_hand_value, Card, Command, Outcome, PrintHand, Reply, Round, Stage, Suit, Tally,
    Value,
};

fn c(val: Value, suit: Suit) -> Card {
    Card { val, suit }
}

fn n(k: u32, suit: Suit) -> Card {
    Card { val: Value::Number(k), suit }
}

/// A shoe that deals `player` and then `dealer`, and after that the cards of
/// `next` in their order, above twenty filler cards.
fn stacked(player: [Card; 2], dealer: [Card; 2], next: &[Card]) -> Vec<Card> {
    let mut deck: Vec<Card> = (0..20).map(|_| n(2, Suit::Clubs)).collect();
    for card in next.iter().rev() {
        deck.push(*card);
    }
    deck.push(dealer[0]);
    deck.push(dealer[1]);
    deck.push(player[0]);
    deck.push(player[1]);
    deck
}

#[test]
fn soft_ace_scores() {
    assert_eq!(calculate_hand_value(&[c(Value::Ace, Suit::Spades), n(9, Suit::Clubs)]), 20);
    assert_eq!(
        calculate_hand_value(&[c(Value::Ace, Suit::Spades), c(Value::Ace, Suit::Clubs)]),
        12
    );
    assert_eq!(
        calculate_hand_value(&[
            c(Value::Ace, Suit::Spades),
            c(Value::Ace, Suit::Clubs),
            n(9, Suit::Hearts)
        ]),
        21
    );
    assert_eq!(
        calculate_hand_value(&[c(Value::Ace, Suit::Spades), c(Value::King, Suit::Clubs)]),
        21
    );
}

#[test]
fn ace_not_promoted_at_or_over_goal() {
    let hand = [
        c(Value::King, Suit::Spades),
        c(Value::Queen, Suit::Clubs),
        c(Value::Ace, Suit::Hearts),
    ];
    assert_eq!(calculate_hand_value(&hand), 21);
    let hand = [
        c(Value::King, Suit::Spades),
        c(Value::Queen, Suit::Clubs),
        c(Value::Ace, Suit::Hearts),
        n(5, Suit::Hearts),
    ];
    assert_eq!(calculate_hand_value(&hand), 26);
    assert_eq!(calculate_hand_value(&[]), 0);
}

#[test]
fn no_ace_hand_sums_face_values() {
    let hand = [
        c(Value::King, Suit::Spades),
        c(Value::Queen, Suit::Clubs),
        c(Value::Jack, Suit::Hearts),
        n(7, Suit::Diamonds),
    ];
    assert_eq!(calculate_hand_value(&hand), 37);
    assert_eq!(calculate_hand_value(&[n(2, Suit::Spades), n(3, Suit::Clubs)]), 5);
}

#[test]
fn score_ignores_card_order() {
    let a = c(Value::Ace, Suit::Spades);
    let b = n(6, Suit::Clubs);
    let d = c(Value::Ace, Suit::Hearts);
    let e = n(3, Suit::Diamonds);
    let orders = [[a, b, d, e], [e, d, b, a], [b, a, e, d], [d, e, a, b]];
    for hand in orders.iter() {
        assert_eq!(calculate_hand_value(hand), 21);
    }
}

#[test]
fn split_equal_relation() {
    for x in [Suit::Clubs, Suit::Spades, Suit::Diamonds, Suit::Hearts] {
        for y in [Suit::Clubs, Suit::Spades, Suit::Diamonds, Suit::Hearts] {
            assert!(c(Value::King, x).split_equal(&c(Value::Queen, y)));
            assert!(n(10, x).split_equal(&c(Value::Jack, y)));
            assert!(n(9, x).split_equal(&n(9, y)));
            assert!(!n(9, x).split_equal(&n(10, y)));
            assert!(c(Value::Ace, x).split_equal(&c(Value::Ace, y)));
            assert!(!c(Value::Ace, x).split_equal(&c(Value::King, y)));
        }
    }
}

#[test]
fn full_deck_is_canonical() {
    let deck = full_deck();
    assert_eq!(deck.len(), 52);
    assert_eq!(deck[0], c(Value::Ace, Suit::Spades));
    assert_eq!(deck[3], c(Value::Ace, Suit::Hearts));
    assert_eq!(deck[16], n(10, Suit::Spades));
    assert_eq!(deck[51], n(2, Suit::Hearts));
}

#[test]
fn new_shoe_is_shuffled_permutation() {
    let mut rng = rand::thread_rng();
    let shoe = new_shoe(&mut rng);
    let mut sorted: Vec<String> = shoe.iter().map(|card| card.code()).collect();
    let mut canonical: Vec<String> = full_deck().iter().map(|card| card.code()).collect();
    sorted.sort();
    canonical.sort();
    assert_eq!(sorted, canonical);
    assert_ne!(shoe, full_deck());
}

#[test]
fn reshuffle_when_below_a_third() {
    let mut rng = rand::thread_rng();
    let mut deck: Vec<Card> = full_deck().into_iter().take(16).collect();
    ensure_shuffled(&mut deck, &mut rng);
    assert_eq!(deck.len(), 52);

    let mut deck: Vec<Card> = full_deck().into_iter().take(17).collect();
    let before = deck.clone();
    ensure_shuffled(&mut deck, &mut rng);
    assert_eq!(deck, before);
}

#[test]
fn start_round_refills_low_shoe() {
    let mut rng = rand::thread_rng();
    let mut deck: Vec<Card> = full_deck().into_iter().take(10).collect();
    let round = Round::start_round(&mut deck, &mut rng);
    assert_eq!(deck.len(), 48);
    assert_eq!(round.player_cards().len(), 2);
    assert_eq!(round.dealer_cards().len(), 2);

    let mut deck: Vec<Card> = full_deck().into_iter().take(20).collect();
    let round = Round::start_round(&mut deck, &mut rng);
    assert_eq!(deck.len(), 16);
    let full = full_deck();
    assert_eq!(round.player_cards(), vec![full[18], full[19]]);
    assert_eq!(round.dealer_cards(), vec![full[16], full[17]]);
}

#[test]
fn draw_takes_last_cards_in_order() {
    let mut deck = full_deck();
    let mut round = Round::deal(&mut deck);
    assert_eq!(deck.len(), 48);
    let mut other = full_deck();
    blackjack::draw(&mut other, &mut round.second, 3);
    assert_eq!(other.len(), 49);
    assert_eq!(
        hand_to_vec(&round.second),
        vec![n(2, Suit::Clubs), n(2, Suit::Diamonds), n(2, Suit::Hearts)]
    );
}

#[test]
fn parse_keys_case_insensitive() {
    assert_eq!(parse_command(b'h'), Some(Command::Hit));
    assert_eq!(parse_command(b'S'), Some(Command::Stand));
    assert_eq!(parse_command(b'd'), Some(Command::Double));
    assert_eq!(parse_command(b'P'), Some(Command::Split));
    assert_eq!(parse_command(b'x'), None);
}

#[test]
fn resolve_each_outcome() {
    assert_eq!(resolve_hand(22, 18), Outcome::Bust);
    assert_eq!(resolve_hand(22, 23), Outcome::Bust);
    assert_eq!(resolve_hand(15, 23), Outcome::Win);
    assert_eq!(resolve_hand(20, 18), Outcome::Win);
    assert_eq!(resolve_hand(18, 18), Outcome::Tie);
    assert_eq!(resolve_hand(15, 18), Outcome::Loss);
}

#[test]
fn card_and_hand_text() {
    assert_eq!(c(Value::Ace, Suit::Spades).code(), "SA");
    assert_eq!(n(10, Suit::Hearts).code(), "H10");
    assert_eq!(n(7, Suit::Diamonds).code(), "D7");
    let hand = [c(Value::Queen, Suit::Clubs), n(3, Suit::Hearts), c(Value::Jack, Suit::Diamonds)];
    assert_eq!(PrintHand(&hand).render(), "CQ|H3|DJ");
    assert_eq!(PrintHand(&[]).render(), "");
}

#[test]
fn blackjack_ends_round_at_deal() {
    let mut deck = stacked(
        [c(Value::Ace, Suit::Spades), c(Value::King, Suit::Clubs)],
        [n(6, Suit::Diamonds), n(5, Suit::Hearts)],
        &[],
    );
    let round = Round::deal(&mut deck);
    assert_eq!(round.stage(), Stage::Blackjack);
    assert_eq!(round.player_score(), 21);
    assert_eq!(round.outcomes(), vec![Outcome::Blackjack]);
    assert_eq!(round.wins(), 1);
    assert_eq!(round.dealer_cards().len(), 2);
}

#[test]
fn hit_to_21_then_dealer_busts() {
    let mut deck = stacked(
        [n(9, Suit::Spades), n(9, Suit::Clubs)],
        [n(7, Suit::Diamonds), n(5, Suit::Hearts)],
        &[n(3, Suit::Hearts), c(Value::King, Suit::Spades)],
    );
    let mut round = Round::deal(&mut deck);
    assert_eq!(round.stage(), Stage::FirstDecision);
    assert!(round.can_split());
    assert_eq!(round.act(&mut deck, b'h'), Reply::Accepted);
    assert_eq!(
        round.player_cards(),
        vec![n(9, Suit::Spades), n(9, Suit::Clubs), n(3, Suit::Hearts)]
    );
    assert_eq!(round.player_score(), 21);
    assert_eq!(round.stage(), Stage::DealerTurn);
    assert!(round.play_dealer(&mut deck));
    assert_eq!(round.dealer_score(), 22);
    assert_eq!(round.outcomes(), vec![Outcome::Win]);
    assert_eq!(round.wins(), 1);
}

#[test]
fn stand_at_15_against_18() {
    let mut deck = stacked(
        [c(Value::King, Suit::Spades), n(5, Suit::Clubs)],
        [n(10, Suit::Diamonds), n(8, Suit::Hearts)],
        &[],
    );
    let mut round = Round::deal(&mut deck);
    assert!(!round.can_split());
    assert_eq!(round.act(&mut deck, b'S'), Reply::Accepted);
    let left = deck.len();
    assert!(round.play_dealer(&mut deck));
    assert_eq!(deck.len(), left);
    assert_eq!(round.dealer_score(), 18);
    assert_eq!(round.outcomes(), vec![Outcome::Loss]);
    assert_eq!(round.wins(), 0);
}

#[test]
fn split_hands_resolve_separately() {
    let mut deck = stacked(
        [n(8, Suit::Spades), n(8, Suit::Clubs)],
        [n(10, Suit::Diamonds), n(7, Suit::Hearts)],
        &[n(3, Suit::Diamonds), c(Value::Queen, Suit::Hearts)],
    );
    let mut round = Round::deal(&mut deck);
    assert!(round.can_split());
    assert_eq!(round.act(&mut deck, b'p'), Reply::Accepted);
    assert!(round.is_split());
    assert_eq!(round.player_cards(), vec![n(8, Suit::Spades), n(3, Suit::Diamonds)]);
    assert_eq!(round.second_cards(), vec![n(8, Suit::Clubs), c(Value::Queen, Suit::Hearts)]);
    assert_eq!(round.stage(), Stage::PrimaryTurn);
    assert_eq!(round.act(&mut deck, b'D'), Reply::Invalid(b'D'));
    assert_eq!(round.act(&mut deck, b's'), Reply::Accepted);
    assert_eq!(round.stage(), Stage::SecondTurn);
    assert_eq!(round.act(&mut deck, b's'), Reply::Accepted);
    assert_eq!(round.stage(), Stage::DealerTurn);
    assert!(round.play_dealer(&mut deck));
    assert_eq!(round.dealer_score(), 17);
    assert_eq!(round.outcomes(), vec![Outcome::Loss, Outcome::Win]);
    assert_eq!(round.wins(), 1);
}

#[test]
fn split_refused_aborts_round() {
    let mut deck = stacked(
        [n(9, Suit::Spades), n(10, Suit::Clubs)],
        [n(10, Suit::Diamonds), n(7, Suit::Hearts)],
        &[],
    );
    let mut round = Round::deal(&mut deck);
    assert!(!round.can_split());
    let left = deck.len();
    assert_eq!(round.act(&mut deck, b'P'), Reply::SplitRefused);
    assert_eq!(round.stage(), Stage::Aborted);
    assert_eq!(deck.len(), left);
    assert_eq!(round.outcomes(), vec![]);
    assert_eq!(round.wins(), 0);
}

#[test]
fn invalid_key_changes_nothing() {
    let mut deck = stacked(
        [n(9, Suit::Spades), n(4, Suit::Clubs)],
        [n(10, Suit::Diamonds), n(7, Suit::Hearts)],
        &[],
    );
    let mut round = Round::deal(&mut deck);
    let left = deck.len();
    assert_eq!(round.act(&mut deck, b'x'), Reply::Invalid(b'x'));
    assert_eq!(round.stage(), Stage::FirstDecision);
    assert_eq!(deck.len(), left);
    assert_eq!(round.player_cards().len(), 2);
}

#[test]
fn double_draws_one_and_stops() {
    let mut deck = stacked(
        [n(5, Suit::Spades), n(4, Suit::Clubs)],
        [n(10, Suit::Diamonds), n(9, Suit::Hearts)],
        &[n(2, Suit::Hearts)],
    );
    let mut round = Round::deal(&mut deck);
    assert_eq!(round.act(&mut deck, b'd'), Reply::Accepted);
    assert_eq!(round.player_score(), 11);
    assert_eq!(round.stage(), Stage::DealerTurn);
    assert!(round.play_dealer(&mut deck));
    assert_eq!(round.outcomes(), vec![Outcome::Loss]);
}

#[test]
fn player_bust_skips_dealer() {
    let mut deck = stacked(
        [c(Value::King, Suit::Spades), n(6, Suit::Clubs)],
        [n(2, Suit::Diamonds), n(3, Suit::Hearts)],
        &[c(Value::Queen, Suit::Hearts)],
    );
    let mut round = Round::deal(&mut deck);
    assert_eq!(round.act(&mut deck, b'H'), Reply::Accepted);
    assert_eq!(round.player_score(), 26);
    assert_eq!(round.stage(), Stage::DealerTurn);
    let left = deck.len();
    assert!(round.play_dealer(&mut deck));
    assert_eq!(deck.len(), left);
    assert_eq!(round.dealer_cards().len(), 2);
    assert_eq!(round.outcomes(), vec![Outcome::Bust]);
    assert_eq!(round.wins(), 0);
}

#[test]
fn dealer_draws_below_17_only() {
    let mut deck = stacked(
        [c(Value::King, Suit::Spades), n(9, Suit::Clubs)],
        [n(2, Suit::Diamonds), n(3, Suit::Hearts)],
        &[n(4, Suit::Hearts), n(5, Suit::Hearts), n(3, Suit::Spades), n(9, Suit::Spades)],
    );
    let mut round = Round::deal(&mut deck);
    assert_eq!(round.act(&mut deck, b's'), Reply::Accepted);
    assert!(round.play_dealer(&mut deck));
    // 2+3=5, +4=9, +5=14, +3=17: stops there, the 9 stays in the shoe.
    assert_eq!(round.dealer_score(), 17);
    assert_eq!(round.dealer_cards().len(), 5);
    assert_eq!(deck.last(), Some(&n(9, Suit::Spades)));
    assert_eq!(round.outcomes(), vec![Outcome::Win]);
}

#[test]
fn dealer_soft_17_stands() {
    let mut deck = stacked(
        [c(Value::King, Suit::Spades), n(8, Suit::Clubs)],
        [c(Value::Ace, Suit::Diamonds), n(6, Suit::Hearts)],
        &[n(5, Suit::Hearts)],
    );
    let mut round = Round::deal(&mut deck);
    assert_eq!(round.act(&mut deck, b's'), Reply::Accepted);
    assert!(round.play_dealer(&mut deck));
    assert_eq!(round.dealer_cards().len(), 2);
    assert_eq!(round.outcomes(), vec![Outcome::Win]);
}

#[test]
fn tally_counts_wins_per_hand() {
    let mut tally = Tally::new();
    let mut deck = stacked(
        [c(Value::Ace, Suit::Spades), c(Value::King, Suit::Clubs)],
        [n(6, Suit::Diamonds), n(5, Suit::Hearts)],
        &[],
    );
    let round = Round::deal(&mut deck);
    tally.record(&round);
    assert_eq!((tally.wins, tally.rounds), (1, 1));

    let mut deck = stacked(
        [c(Value::King, Suit::Spades), n(5, Suit::Clubs)],
        [n(10, Suit::Diamonds), n(8, Suit::Hearts)],
        &[],
    );
    let mut round = Round::deal(&mut deck);
    round.act(&mut deck, b's');
    round.play_dealer(&mut deck);
    tally.record(&round);
    assert_eq!((tally.wins, tally.rounds), (1, 2));
}
