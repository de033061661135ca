use sueca::card::{Card, CardSuit};
use sueca::round::Round;
use sueca::state::{copy_cards, update_round, update_score, GameState};

fn state_with(trump: u8, round: Round, hands: [Vec<Card>; 4]) -> GameState {
    GameState {
        hands,
        played_cards: Vec::new(),
        trump: Card::new(trump),
        round,
        score: (0, 0),
    }
}

fn cards(ids: &[u8]) -> Vec<Card> {
    ids.iter().map(|i| Card::new(*i)).collect()
}

fn round_of(suit: CardSuit, ids: [Option<u8>; 4]) -> Round {
    Round {
        suit: Some(suit),
        played_cards: [
            ids[0].map(Card::new),
            ids[1].map(Card::new),
            ids[2].map(Card::new),
            ids[3].map(Card::new),
        ],
    }
}

fn empty_hands() -> [Vec<Card>; 4] {
    [Vec::new(), Vec::new(), Vec::new(), Vec::new()]
}

#[test]
fn new_round_is_empty() {
    let r = Round::new();
    assert!(r.suit.is_none());
    assert!(r.played_cards.iter().all(|c| c.is_none()));
    assert_eq!(r.points(), 0);
}

#[test]
fn winner_highest_of_led_suit() {
    // hearts led, trump clubs: 3 of hearts, ace of spades, king of hearts, 2 of hearts
    let round = round_of(CardSuit::Hearts, [Some(11), Some(9), Some(17), Some(10)]);
    let gs = state_with(30, round, empty_hands());
    assert_eq!(round.winner(&gs), 2);
}

#[test]
fn winner_trump_beats_led_suit() {
    // spades led, trump diamonds: ace of spades, 2 of diamonds, 7 of spades, Q of diamonds
    let round = round_of(CardSuit::Spades, [Some(9), Some(20), Some(8), Some(25)]);
    let gs = state_with(21, round, empty_hands());
    assert_eq!(round.winner(&gs), 3);
}

#[test]
fn winner_skips_empty_slots() {
    let round = round_of(CardSuit::Hearts, [None, Some(15), None, Some(12)]);
    let gs = state_with(30, round, empty_hands());
    assert_eq!(round.winner(&gs), 1);
}

#[test]
fn winner_is_player_zero_when_no_card_has_strength() {
    // 2 of hearts led by player 2, the others discard off suit, no trump
    let round = round_of(CardSuit::Hearts, [Some(1), Some(2), Some(10), Some(3)]);
    let gs = state_with(30, round, empty_hands());
    assert_eq!(round.winner(&gs), 0);
}

#[test]
fn winner_of_empty_round_is_zero() {
    let round = Round::new();
    let gs = state_with(30, round, empty_hands());
    assert_eq!(round.winner(&gs), 0);
}

#[test]
fn round_points_sum() {
    let round = round_of(CardSuit::Spades, [Some(9), Some(19), Some(29), Some(39)]);
    assert_eq!(round.points(), 44);
    let round = round_of(CardSuit::Spades, [Some(5), None, Some(16), Some(0)]);
    assert_eq!(round.points(), 5);
}

#[test]
fn update_round_records_card() {
    let mut gs = state_with(0, Round::new(), empty_hands());
    update_round(2, Card::new(13), &mut gs);
    assert_eq!(gs.played_cards.len(), 1);
    assert_eq!(gs.played_cards[0].id, 13);
    assert_eq!(gs.round.played_cards[2].map(|c| c.id), Some(13));
    assert!(gs.round.played_cards[0].is_none());
    assert!(gs.round.suit.is_none());
}

#[test]
fn update_score_credits_winning_team() {
    let round = round_of(CardSuit::Hearts, [Some(11), Some(19), Some(17), Some(10)]);
    let mut gs = state_with(30, round, empty_hands());
    gs.score = (5, 7);
    let w = update_score(&mut gs);
    assert_eq!(w, 1);
    assert_eq!(gs.score, (5, 7 + 15));
    let round = round_of(CardSuit::Hearts, [Some(11), Some(9), Some(17), Some(10)]);
    let mut gs = state_with(30, round, empty_hands());
    let w = update_score(&mut gs);
    assert_eq!(w, 2);
    assert_eq!(gs.score, (15, 0));
}

#[test]
fn take_card_swaps_last_into_place() {
    let mut gs = state_with(0, Round::new(), [cards(&[1, 2, 3, 4]), cards(&[5]), Vec::new(), Vec::new()]);
    let c = gs.take_card(0, 1);
    assert_eq!(c.id, 2);
    let ids: Vec<u8> = gs.hands[0].iter().map(|c| c.id).collect();
    assert_eq!(ids, vec![1, 4, 3]);
    assert_eq!(gs.hands[1].len(), 1);
}

#[test]
fn encode_marks_each_block() {
    let mut round = Round::new();
    round.suit = Some(CardSuit::Hearts);
    round.played_cards[1] = Some(Card::new(12));
    round.played_cards[3] = Some(Card::new(33));
    let mut gs = state_with(7, round, [cards(&[0, 39]), cards(&[5]), Vec::new(), Vec::new()]);
    gs.played_cards = cards(&[12, 33, 20]);
    let v = gs.encode(1);
    assert_eq!(v.len(), 320);
    let ones: Vec<usize> = v.iter().enumerate().filter(|(_, b)| **b).map(|(i, _)| i).collect();
    // trump 7; hand of player 1: 5; played: 12, 20, 33; slot 1: 12; slot 3: 33; own slot: 12
    assert_eq!(ones, vec![7, 45, 92, 100, 113, 172, 273, 292]);
    let v = gs.encode(0);
    let ones: Vec<usize> = v.iter().enumerate().filter(|(_, b)| **b).map(|(i, _)| i).collect();
    assert_eq!(ones, vec![7, 40, 79, 92, 100, 113, 172, 273]);
}

#[test]
fn encode_choice_puts_card_in_own_slot() {
    let gs = state_with(7, Round::new(), [cards(&[0, 39]), Vec::new(), Vec::new(), Vec::new()]);
    let v = gs.encode_choice(0, &Card::new(39));
    let ones: Vec<usize> = v.iter().enumerate().filter(|(_, b)| **b).map(|(i, _)| i).collect();
    assert_eq!(ones, vec![7, 40, 79, 159, 319]);
}

#[test]
fn encode_with_action_sets_action_bit_only() {
    let gs = state_with(7, Round::new(), [cards(&[0, 39]), Vec::new(), Vec::new(), Vec::new()]);
    let v = gs.encode_with_action(0, &Card::new(39));
    let ones: Vec<usize> = v.iter().enumerate().filter(|(_, b)| **b).map(|(i, _)| i).collect();
    assert_eq!(ones, vec![7, 40, 79, 319]);
}

#[test]
fn clone_and_copy_cards_keep_everything() {
    let mut gs = state_with(7, Round::new(), [cards(&[0, 39]), cards(&[1]), Vec::new(), cards(&[2, 3])]);
    gs.played_cards = cards(&[4]);
    gs.score = (3, 4);
    let g2 = gs.clone();
    for p in 0..4 {
        let a: Vec<u8> = gs.hands[p].iter().map(|c| c.id).collect();
        let b: Vec<u8> = g2.hands[p].iter().map(|c| c.id).collect();
        assert_eq!(a, b);
    }
    assert_eq!(g2.played_cards[0].id, 4);
    assert_eq!(g2.score, (3, 4));
    let copy = copy_cards(&gs.hands[0]);
    assert_eq!(copy.len(), 2);
    assert_eq!(copy[1].id, 39);
}

#[test]
fn can_encode_checks_ids_and_player() {
    let gs = state_with(7, Round::new(), [cards(&[0, 39]), Vec::new(), Vec::new(), Vec::new()]);
    assert!(gs.can_encode(0));
    assert!(gs.can_encode(3));
    assert!(!gs.can_encode(4));
    let mut bad = gs.clone();
    bad.hands[2].push(Card { id: 40, value: 0, suit: CardSuit::Clubs });
    assert!(bad.can_encode(1));
    assert!(!bad.can_encode(2));
    let mut bad = gs.clone();
    bad.round.played_cards[3] = Some(Card { id: 41, value: 1, suit: CardSuit::Clubs });
    assert!(!bad.can_encode(0));
}
