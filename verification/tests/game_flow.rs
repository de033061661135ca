use sueca::card::{Card, CardSuit};
use sueca::deck::generate_deck;
use sueca::game::{Action, Game, Phase};

fn play_out(game: &mut Game, pick: impl Fn(&Game, usize) -> usize) -> (u8, u8) {
    let mut rounds = 0;
    loop {
        match game.next_action() {
            Action::ChooseCard(p) => {
                let i = pick(game, p);
                game.play(i);
            }
            Action::RoundOver(w) => {
                rounds += 1;
                assert!(w < 4);
                // every hand has lost one card per round
                for p in 0..4 {
                    assert_eq!(game.state.hands[p].len(), 10 - rounds);
                }
                assert!(game.state.round.played_cards.iter().all(|c| c.is_some()));
                game.next_round();
            }
            Action::GameOver(a, b) => {
                assert_eq!(rounds, 10);
                return (a, b);
            }
        }
    }
}

#[test]
fn deal_from_ordered_deck() {
    let deck = generate_deck();
    let game = Game::deal(&deck);
    assert_eq!(game.state.trump.id, 0);
    for p in 0..4 {
        let ids: Vec<u8> = game.state.hands[p].iter().map(|c| c.id).collect();
        let expected: Vec<u8> = ((10 * p as u8)..(10 * p as u8 + 10)).collect();
        assert_eq!(ids, expected);
    }
    assert_eq!(game.state.score, (0, 0));
    assert_eq!(game.next_action(), Action::ChooseCard(0));
    assert!(game.phase == Phase::Playing);
}

#[test]
fn ordered_deck_first_round() {
    // trump is spades (card 0); player 0 holds all spades and leads
    let deck = generate_deck();
    let mut game = Game::deal(&deck);
    let c = game.play(9); // ace of spades
    assert_eq!(c.id, 9);
    assert_eq!(game.state.round.suit, Some(CardSuit::Spades));
    assert_eq!(game.next_action(), Action::ChooseCard(1));
    game.play(0); // 2 of hearts
    game.play(0); // 2 of diamonds
    assert_eq!(game.next_action(), Action::ChooseCard(3));
    game.play(9); // ace of clubs
    assert_eq!(game.next_action(), Action::RoundOver(0));
    assert_eq!(game.state.score, (22, 0));
    assert_eq!(game.state.played_cards.len(), 4);
    game.next_round();
    assert_eq!(game.next_action(), Action::ChooseCard(0));
    assert!(game.state.round.suit.is_none());
}

#[test]
fn full_game_awards_all_120_points() {
    let deck = generate_deck();
    let mut game = Game::deal(&deck);
    let (a, b) = play_out(&mut game, |_, _| 0);
    assert_eq!(a as u32 + b as u32, 120);
    assert!(game.phase == Phase::Finished);
    assert_eq!(game.state.played_cards.len(), 40);
}

#[test]
fn shuffled_game_awards_all_120_points() {
    for _ in 0..20 {
        let mut deck = generate_deck();
        let mut game = Game::new(&mut deck);
        let trump: Card = game.state.trump;
        assert_eq!(trump.id, deck[0].id);
        let (a, b) = play_out(&mut game, |g, p| g.state.hands[p].len() - 1);
        assert_eq!(a as u32 + b as u32, 120);
        let mut ids: Vec<u8> = game.state.played_cards.iter().map(|c| c.id).collect();
        ids.sort();
        assert_eq!(ids, (0..40).collect::<Vec<u8>>());
    }
}
