//! Cards of the 40-card Sueca deck and how they rank and score.

use vstd::prelude::*;

verus! {

/// Number of cards in the deck.
pub const NUM_CARDS: usize = 40;

/// Number of players at the table.
pub const NUM_PLAYERS: usize = 4;

/// Number of cards dealt to each player.
pub const NUM_CARDS_PER_HAND: usize = 10;

/// Number of cards of each suit.
pub const NUM_CARDS_PER_SUIT: usize = 10;

/// Bonus that lifts every trump above every card of another suit.
pub const TRUMP_VALUE: u8 = 64;

/// The four suits. Card `id / 10` selects the suit in this order.
#[derive(Copy, Clone, Debug, PartialEq, Eq, Structural)]
pub enum CardSuit {
    Spades,
    Hearts,
    Diamonds,
    Clubs,
}

/// A card. `value` is its rank inside the suit:
/// `0 1 2 3 4 5 6 7 8 9` stand for `2 3 4 5 6 Q J K 7 A`.
#[derive(Copy, Clone, Debug)]
pub struct Card {
    pub id: u8,
    pub value: u8,
    pub suit: CardSuit,
}

/// The suit of the cards whose id divided by the suit size is `i`.
pub open spec fn suit_of(i: int) -> CardSuit {
    if i == 0 {
        CardSuit::Spades
    } else if i == 1 {
        CardSuit::Hearts
    } else if i == 2 {
        CardSuit::Diamonds
    } else {
        CardSuit::Clubs
    }
}

/// Points that a card of the given rank is worth.
pub open spec fn rank_points(value: int) -> int {
    if value == 5 {
        2
    } else if value == 6 {
        3
    } else if value == 7 {
        4
    } else if value == 8 {
        10
    } else if value == 9 {
        11
    } else {
        0
    }
}

/// Strength of `card` in a trick led in `suit` with `trump` as trump suit:
/// trumps score above 64, cards of the led suit their rank, others nothing.
pub open spec fn trick_value(card: Card, suit: CardSuit, trump: CardSuit) -> int {
    if card.suit == trump {
        TRUMP_VALUE + card.value
    } else if card.suit == suit {
        card.value as int
    } else {
        0
    }
}

impl Card {
    /// The card is one of the deck's 40: its rank and suit follow from its id.
    pub open spec fn wf(self) -> bool {
        &&& self.id < NUM_CARDS
        &&& self.value == self.id % (NUM_CARDS_PER_SUIT as u8)
        &&& self.suit == suit_of(self.id as int / 10)
    }

    /// Points that the card is worth.
    pub open spec fn worth(self) -> int {
        rank_points(self.value as int)
    }

    /// The card with the given id.
    pub fn new(card_id: u8) -> (card: Card)
        requires
            card_id < NUM_CARDS,
        ensures
            card.id == card_id,
            card.value == card_id % 10,
            card.suit == suit_of(card_id as int / 10),
            card.wf(),
    {
        let suit_size: u8 = 10;
        Card {
            id: card_id,
            value: card_id % suit_size,
            suit: match card_id / suit_size {
                0 => CardSuit::Spades,
                1 => CardSuit::Hearts,
                2 => CardSuit::Diamonds,
                _ => CardSuit::Clubs,
            },
        }
    }

    /// Points that the card is worth: Q 2, J 3, K 4, 7 10, A 11, others 0.
    pub fn points(&self) -> (p: u8)
        ensures
            p == self.worth(),
            p <= 11,
    {
        match self.value {
            5 => 2,
            6 => 3,
            7 => 4,
            8 => 10,
            9 => 11,
            _ => 0,
        }
    }

    /// The character that names the card's rank.
    pub fn value_symbol(&self) -> (c: char)
        requires
            self.value < 10,
        ensures
            c == rank_symbol(self.value as int),
    {
        match self.value {
            0 => '2',
            1 => '3',
            2 => '4',
            3 => '5',
            4 => '6',
            5 => 'Q',
            6 => 'J',
            7 => 'K',
            8 => '7',
            _ => 'A',
        }
    }

    /// The card written as its rank followed by its suit symbol, such as `A♠`.
    pub fn to_string(&self) -> (s: String)
        requires
            self.value < 10,
        ensures
            s@ == seq![rank_symbol(self.value as int), suit_symbol(self.suit)],
    {
        let mut s = String::new();
        push_char(&mut s, self.value_symbol());
        push_char(&mut s, self.suit.symbol());
        s
    }
}

/// The character that names rank `value`.
pub open spec fn rank_symbol(value: int) -> char {
    if value == 0 {
        '2'
    } else if value == 1 {
        '3'
    } else if value == 2 {
        '4'
    } else if value == 3 {
        '5'
    } else if value == 4 {
        '6'
    } else if value == 5 {
        'Q'
    } else if value == 6 {
        'J'
    } else if value == 7 {
        'K'
    } else if value == 8 {
        '7'
    } else {
        'A'
    }
}

/// The symbol of a suit.
pub open spec fn suit_symbol(suit: CardSuit) -> char {
    match suit {
        CardSuit::Spades => '\u{2660}',
        CardSuit::Hearts => '\u{2665}',
        CardSuit::Diamonds => '\u{2666}',
        CardSuit::Clubs => '\u{2663}',
    }
}

impl CardSuit {
    /// The suit's symbol: `♠`, `♥`, `♦` or `♣`.
    pub fn symbol(&self) -> (c: char)
        ensures
            c == suit_symbol(*self),
    {
        match self {
            CardSuit::Spades => '\u{2660}',
            CardSuit::Hearts => '\u{2665}',
            CardSuit::Diamonds => '\u{2666}',
            CardSuit::Clubs => '\u{2663}',
        }
    }

    /// The suit written as its symbol.
    pub fn to_string(&self) -> (s: String)
        ensures
            s@ == seq![suit_symbol(*self)],
    {
        let mut s = String::new();
        push_char(&mut s, self.symbol());
        s
    }
}

/// `String::push`: appends the character `c` at the end of `s`.
#[verifier::external_body]
fn push_char(s: &mut String, c: char)
    ensures
        final(s)@ == old(s)@.push(c),
{
    s.push(c);
}

/// Strength of `card` in a trick led in `suit` when `trump` is the trump suit.
pub fn card_value(card: &Card, suit: CardSuit, trump: CardSuit) -> (v: u8)
    requires
        card.value <= 191,
    ensures
        v == trick_value(*card, suit, trump),
{
    if card.suit == trump {
        TRUMP_VALUE + card.value
    } else if card.suit == suit {
        card.value
    } else {
        0
    }
}

/// A trump outranks every card that is not a trump, whatever suit was led.
pub proof fn lemma_trump_beats_other_suits(trump_card: Card, other: Card, suit: CardSuit, trump: CardSuit)
    requires
        trump_card.suit == trump,
        other.suit != trump,
        other.wf(),
    ensures
        trick_value(trump_card, suit, trump) > trick_value(other, suit, trump),
{
}

/// A card that neither follows the led suit nor is a trump has no strength.
pub proof fn lemma_off_suit_worthless(card: Card, suit: CardSuit, trump: CardSuit)
    requires
        card.suit != trump,
        card.suit != suit,
    ensures
        trick_value(card, suit, trump) == 0,
{
}

/// Among cards of the led suit that are not trumps, the higher rank is the
/// stronger card: `2 3 4 5 6 Q J K 7 A` from weakest to strongest.
pub proof fn lemma_led_suit_rank_order(a: Card, b: Card, suit: CardSuit, trump: CardSuit)
    requires
        a.suit == suit,
        b.suit == suit,
        suit != trump,
        a.value < b.value,
    ensures
        0 <= trick_value(a, suit, trump) < trick_value(b, suit, trump),
{
}

/// Among trumps, the higher rank is the stronger card, whatever suit was led.
pub proof fn lemma_trump_rank_order(a: Card, b: Card, suit: CardSuit, trump: CardSuit)
    requires
        a.suit == trump,
        b.suit == trump,
        a.value < b.value,
    ensures
        trick_value(a, suit, trump) < trick_value(b, suit, trump),
{
}

/// A card of the led suit that is not a trump has strength at least its
/// rank, no more than the ace, and below every trump.
pub proof fn lemma_led_suit_below_trumps(card: Card, trump_card: Card, suit: CardSuit, trump: CardSuit)
    requires
        card.suit == suit,
        suit != trump,
        trump_card.suit == trump,
        card.value < 10,
    ensures
        trick_value(card, suit, trump) <= 9,
        trick_value(card, suit, trump) < trick_value(trump_card, suit, trump),
{
}

/// The ranks `2` to `6` are written as their digit: rank `v` for `v` in
/// `0 .. 5` shows the character two places after `'0' + v`.
pub proof fn lemma_number_ranks_are_digits(v: int)
    requires
        0 <= v < 5,
    ensures
        rank_symbol(v) as int == '2' as int + v,
{
}

/// The face cards, the seven and the ace: rank 5 is the queen, 6 the jack,
/// 7 the king, 8 the seven and 9 the ace.
pub proof fn lemma_high_rank_symbols()
    ensures
        rank_symbol(5) == 'Q',
        rank_symbol(6) == 'J',
        rank_symbol(7) == 'K',
        rank_symbol(8) == '7',
        rank_symbol(9) == 'A',
{
}

/// Different ranks are written differently.
pub proof fn lemma_rank_symbols_distinct(v: int, w: int)
    requires
        0 <= v < 10,
        0 <= w < 10,
        v != w,
    ensures
        rank_symbol(v) != rank_symbol(w),
{
}

/// Every suit has its own symbol.
pub proof fn lemma_suit_symbols_distinct(a: CardSuit, b: CardSuit)
    requires
        a != b,
    ensures
        suit_symbol(a) != suit_symbol(b),
{
}

} // verus!
