//! A round (a trick): the card each player put on the table and the suit led.

use vstd::prelude::*;
use crate::card::{Card, CardSuit, NUM_PLAYERS, card_value, trick_value};
use crate::state::GameState;

verus! {

/// The cards on the table in the current round, one slot per player, and
/// the suit of the card that opened it.
#[derive(Copy, Clone, Debug)]
pub struct Round {
    pub suit: Option<CardSuit>,
    pub played_cards: [Option<Card>; NUM_PLAYERS],
}

/// Scans the first `n` slots as the winner loop does: the pair of the
/// player who holds the strongest card so far (the first one on a tie) and
/// that card's strength, starting from player 0 with strength 0.
pub open spec fn scan_winner(cards: Seq<Option<Card>>, suit: CardSuit, trump: CardSuit, n: int) -> (int, int)
    decreases n,
{
    if n <= 0 {
        (0, 0)
    } else {
        let prev = scan_winner(cards, suit, trump, n - 1);
        match cards[n - 1] {
            Some(c) => if trick_value(c, suit, trump) > prev.1 {
                (n - 1, trick_value(c, suit, trump))
            } else {
                prev
            },
            None => prev,
        }
    }
}

/// The player who takes the round.
pub open spec fn trick_winner(cards: Seq<Option<Card>>, suit: CardSuit, trump: CardSuit) -> int {
    scan_winner(cards, suit, trump, cards.len() as int).0
}

/// Points of the cards in the first `n` slots.
pub open spec fn slot_points(cards: Seq<Option<Card>>, n: int) -> int
    decreases n,
{
    if n <= 0 {
        0
    } else {
        slot_points(cards, n - 1) + match cards[n - 1] {
            Some(c) => c.worth(),
            None => 0,
        }
    }
}

/// Points of all the cards of a round.
pub open spec fn trick_points(cards: Seq<Option<Card>>) -> int {
    slot_points(cards, cards.len() as int)
}

/// No slot of the round holds a card.
pub open spec fn all_empty(cards: Seq<Option<Card>>) -> bool {
    forall|i: int| 0 <= i < cards.len() ==> cards[i] is None
}

impl Round {
    /// A round with no card played and no suit led.
    pub fn new() -> (r: Round)
        ensures
            r.suit is None,
            all_empty(r.played_cards@),
    {
        Round { suit: None, played_cards: [None, None, None, None] }
    }

    /// The player who takes the round: the first one holding a card of
    /// greatest strength, or player 0 when no card has any strength.
    pub fn winner(&self, game_state: &GameState) -> (w: usize)
        requires
            self.suit is Some || all_empty(self.played_cards@),
            forall|i: int| 0 <= i < NUM_PLAYERS ==> (#[trigger] self.played_cards@[i] matches Some(c) ==> c.value <= 191),
        ensures
            w < NUM_PLAYERS,
            self.suit matches Some(s) ==> w == trick_winner(self.played_cards@, s, game_state.trump.suit),
            self.suit is None ==> w == 0,
    {
        let mut winner: usize = 0;
        let mut winner_value: u8 = 0;
        let mut player: usize = 0;
        while player < NUM_PLAYERS
            invariant
                player <= NUM_PLAYERS,
                winner < NUM_PLAYERS,
                self.suit is Some || all_empty(self.played_cards@),
                forall|i: int| 0 <= i < NUM_PLAYERS ==> (#[trigger] self.played_cards@[i] matches Some(c) ==> c.value <= 191),
                self.suit matches Some(s) ==> (winner as int, winner_value as int) == scan_winner(
                    self.played_cards@, s, game_state.trump.suit, player as int),
                self.suit is None ==> winner == 0,
            decreases NUM_PLAYERS - player,
        {
            if let Some(card) = &self.played_cards[player] {
                let suit = match self.suit {
                    Some(s) => s,
                    None => {
                        assert(self.played_cards@[player as int] is None);
                        CardSuit::Spades
                    },
                };
                let value = card_value(card, suit, game_state.trump.suit);
                if value > winner_value {
                    winner = player;
                    winner_value = value;
                }
            }
            player = player + 1;
        }
        winner
    }

    /// Total points of the cards on the table.
    pub fn points(&self) -> (p: u8)
        ensures
            p == trick_points(self.played_cards@),
            p <= 44,
    {
        let mut points: u8 = 0;
        let mut i: usize = 0;
        while i < NUM_PLAYERS
            invariant
                i <= NUM_PLAYERS,
                points == slot_points(self.played_cards@, i as int),
                points <= 11 * i,
            decreases NUM_PLAYERS - i,
        {
            if let Some(card) = &self.played_cards[i] {
                points = points + card.points();
            }
            i = i + 1;
        }
        points
    }
}

/// The strength scan never reports a player outside the table, and the
/// strength it reports bounds every card of the scanned slots.
pub proof fn lemma_scan_winner_bounds(cards: Seq<Option<Card>>, suit: CardSuit, trump: CardSuit, n: int)
    requires
        0 <= n <= cards.len(),
    ensures
        0 <= scan_winner(cards, suit, trump, n).0 < if n == 0 { 1 } else { n },
        scan_winner(cards, suit, trump, n).1 >= 0,
        forall|i: int| 0 <= i < n ==> (#[trigger] cards[i] matches Some(c) ==> trick_value(c, suit, trump) <= scan_winner(cards, suit, trump, n).1),
        scan_winner(cards, suit, trump, n).1 > 0 ==> {
            let w = scan_winner(cards, suit, trump, n).0;
            &&& cards[w] is Some
            &&& trick_value(cards[w]->0, suit, trump) == scan_winner(cards, suit, trump, n).1
            &&& forall|i: int| 0 <= i < w ==> (#[trigger] cards[i] matches Some(c) ==> trick_value(c, suit, trump) < scan_winner(cards, suit, trump, n).1)
        },
    decreases n,
{
    if n > 0 {
        lemma_scan_winner_bounds(cards, suit, trump, n - 1);
    }
}

/// The winner of a round holds a card at least as strong as every other
/// card on the table, and no player before the winner holds one as strong;
/// when no card has any strength, player 0 takes the round.
pub proof fn lemma_winner_holds_best_card(cards: Seq<Option<Card>>, suit: CardSuit, trump: CardSuit)
    requires
        cards.len() == NUM_PLAYERS,
    ensures
        0 <= trick_winner(cards, suit, trump) < NUM_PLAYERS,
        (exists|i: int| 0 <= i < NUM_PLAYERS && (#[trigger] cards[i] matches Some(c) && trick_value(c, suit, trump) > 0)) ==> {
            let w = trick_winner(cards, suit, trump);
            &&& cards[w] is Some
            &&& forall|i: int| 0 <= i < NUM_PLAYERS ==> (#[trigger] cards[i] matches Some(c) ==> trick_value(c, suit, trump) <= trick_value(cards[w]->0, suit, trump))
            &&& forall|i: int| 0 <= i < w ==> (#[trigger] cards[i] matches Some(c) ==> trick_value(c, suit, trump) < trick_value(cards[w]->0, suit, trump))
        },
        (forall|i: int| 0 <= i < NUM_PLAYERS ==> (#[trigger] cards[i] matches Some(c) ==> trick_value(c, suit, trump) == 0)) ==> trick_winner(cards, suit, trump) == 0,
{
    lemma_scan_winner_bounds(cards, suit, trump, 4);
    if forall|i: int| 0 <= i < NUM_PLAYERS ==> (#[trigger] cards[i] matches Some(c) ==> trick_value(c, suit, trump) == 0) {
        lemma_scan_zero(cards, suit, trump, 4);
    }
}

/// When every card on the table follows the led suit and the led suit is not
/// trumps, the player with the highest rank takes the round.
pub proof fn lemma_highest_rank_takes_round(cards: Seq<Option<Card>>, suit: CardSuit, trump: CardSuit)
    requires
        cards.len() == NUM_PLAYERS,
        suit != trump,
        forall|i: int| 0 <= i < NUM_PLAYERS ==> (#[trigger] cards[i] matches Some(c) && c.suit == suit),
    ensures
        forall|i: int| 0 <= i < NUM_PLAYERS ==> (#[trigger] cards[i])->0.value <= cards[trick_winner(cards, suit, trump)]->0.value,
{
    lemma_winner_holds_best_card(cards, suit, trump);
    let w = trick_winner(cards, suit, trump);
    assert forall|i: int| 0 <= i < NUM_PLAYERS implies (#[trigger] cards[i])->0.value <= cards[w]->0.value by {
        let c = cards[i]->0;
        let d = cards[w]->0;
        if d.value < c.value {
            crate::card::lemma_led_suit_rank_order(d, c, suit, trump);
            assert(trick_value(c, suit, trump) > 0);
        }
    }
}

proof fn lemma_scan_zero(cards: Seq<Option<Card>>, suit: CardSuit, trump: CardSuit, n: int)
    requires
        0 <= n <= cards.len(),
        forall|i: int| 0 <= i < n ==> (#[trigger] cards[i] matches Some(c) ==> trick_value(c, suit, trump) == 0),
    ensures
        scan_winner(cards, suit, trump, n) == (0int, 0int),
    decreases n,
{
    if n > 0 {
        lemma_scan_zero(cards, suit, trump, n - 1);
    }
}

/// A round is worth at most 44 points: four aces.
pub proof fn lemma_round_points_bound(cards: Seq<Option<Card>>, n: int)
    requires
        0 <= n <= cards.len(),
    ensures
        0 <= slot_points(cards, n) <= 11 * n,
    decreases n,
{
    if n > 0 {
        lemma_round_points_bound(cards, n - 1);
    }
}

} // verus!
