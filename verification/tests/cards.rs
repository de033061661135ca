use sueca::card::{card_value, Card, CardSuit, NUM_CARDS};
use sueca::deck::{deck_shuffle, generate_deck, holds_full_deck, shuffle_with};

#[test]
fn card_new_splits_id_into_rank_and_suit() {
    let c = Card::new(0);
    assert_eq!(c.id, 0);
    assert_eq!(c.value, 0);
    assert!(c.suit == CardSuit::Spades);
    let c = Card::new(19);
    assert_eq!(c.value, 9);
    assert!(c.suit == CardSuit::Hearts);
    let c = Card::new(27);
    assert_eq!(c.value, 7);
    assert!(c.suit == CardSuit::Diamonds);
    let c = Card::new(39);
    assert_eq!(c.id, 39);
    assert_eq!(c.value, 9);
    assert!(c.suit == CardSuit::Clubs);
}

#[test]
fn card_points_by_rank() {
    let expected = [0u8, 0, 0, 0, 0, 2, 3, 4, 10, 11];
    for v in 0..10u8 {
        assert_eq!(Card::new(v).points(), expected[v as usize]);
        assert_eq!(Card::new(30 + v).points(), expected[v as usize]);
    }
}

#[test]
fn card_text() {
    assert_eq!(Card::new(9).to_string(), "A\u{2660}");
    assert_eq!(Card::new(10).to_string(), "2\u{2665}");
    assert_eq!(Card::new(25).to_string(), "Q\u{2666}");
    assert_eq!(Card::new(38).to_string(), "7\u{2663}");
    assert_eq!(Card::new(16).value_symbol(), 'J');
    assert_eq!(Card::new(17).value_symbol(), 'K');
    assert_eq!(CardSuit::Clubs.to_string(), "\u{2663}");
    assert_eq!(CardSuit::Hearts.symbol(), '\u{2665}');
}

#[test]
fn card_value_trump_follow_and_discard() {
    let king_hearts = Card::new(17);
    // trump
    assert_eq!(card_value(&king_hearts, CardSuit::Spades, CardSuit::Hearts), 71);
    // follows the led suit
    assert_eq!(card_value(&king_hearts, CardSuit::Hearts, CardSuit::Clubs), 7);
    // neither
    assert_eq!(card_value(&king_hearts, CardSuit::Spades, CardSuit::Clubs), 0);
    // the lowest trump beats the highest card of the led suit
    let two_clubs = Card::new(30);
    let ace_spades = Card::new(9);
    assert!(card_value(&two_clubs, CardSuit::Spades, CardSuit::Clubs)
        > card_value(&ace_spades, CardSuit::Spades, CardSuit::Clubs));
}

#[test]
fn generate_deck_holds_each_card_once_worth_120() {
    let deck = generate_deck();
    assert_eq!(deck.len(), NUM_CARDS);
    let mut total: u32 = 0;
    for (i, c) in deck.iter().enumerate() {
        assert_eq!(c.id as usize, i);
        assert_eq!(c.value as usize, i % 10);
        total += c.points() as u32;
    }
    assert_eq!(total, 120);
}

#[test]
fn shuffle_with_applies_swaps_in_order() {
    let mut deck = generate_deck();
    // swap 0<->3, then 1<->0, then 2<->2
    shuffle_with(&mut deck, &vec![3, 0, 2]);
    let ids: Vec<u8> = deck.iter().take(5).map(|c| c.id).collect();
    assert_eq!(ids, vec![1, 3, 2, 0, 4]);
}

#[test]
fn deck_shuffle_is_a_permutation() {
    let mut deck = generate_deck();
    deck_shuffle(&mut deck);
    assert_eq!(deck.len(), 40);
    let mut ids: Vec<u8> = deck.iter().map(|c| c.id).collect();
    ids.sort();
    let expected: Vec<u8> = (0..40).collect();
    assert_eq!(ids, expected);
    // the last two positions are never chosen as the position to fill
    // but they may receive any card; the cards keep their rank and suit
    for c in deck.iter() {
        assert_eq!(c.value, c.id % 10);
    }
}

#[test]
fn deck_shuffle_of_two_cards_leaves_them() {
    let mut deck = vec![Card::new(5), Card::new(6)];
    deck_shuffle(&mut deck);
    assert_eq!(deck[0].id, 5);
    assert_eq!(deck[1].id, 6);
}

#[test]
fn holds_full_deck_accepts_any_order() {
    let mut deck = generate_deck();
    assert!(holds_full_deck(&deck));
    deck.reverse();
    assert!(holds_full_deck(&deck));
    deck_shuffle(&mut deck);
    assert!(holds_full_deck(&deck));
}

#[test]
fn holds_full_deck_rejects_missing_duplicate_and_forged_cards() {
    let mut deck = generate_deck();
    deck.pop();
    assert!(!holds_full_deck(&deck));
    deck.push(Card::new(0));
    assert!(!holds_full_deck(&deck));
    let mut deck = generate_deck();
    deck[3] = Card { id: 3, value: 4, suit: CardSuit::Spades };
    assert!(!holds_full_deck(&deck));
    let mut deck = generate_deck();
    deck[3] = Card { id: 3, value: 3, suit: CardSuit::Hearts };
    assert!(!holds_full_deck(&deck));
    let mut deck = generate_deck();
    deck[3] = Card { id: 40, value: 0, suit: CardSuit::Clubs };
    assert!(!holds_full_deck(&deck));
}
