//! The state of a game as the table sees it.

use vstd::prelude::*;
use crate::card::{Card, NUM_CARDS, NUM_PLAYERS};
use crate::round::{Round, all_empty, trick_points, trick_winner};

verus! {

/// Hands of the players, cards played so far (oldest first), the trump
/// card, the current round and the score of the two teams (players 0 and 2
/// against players 1 and 3).
#[derive(Debug)]
pub struct GameState {
    pub hands: [Vec<Card>; NUM_PLAYERS],
    pub played_cards: Vec<Card>,
    pub trump: Card,
    pub round: Round,
    pub score: (u8, u8),
}

/// A new vector holding the same cards in the same order.
pub fn copy_cards(cards: &Vec<Card>) -> (res: Vec<Card>)
    ensures
        res@ == cards@,
{
    let mut res: Vec<Card> = Vec::with_capacity(cards.len());
    let mut i: usize = 0;
    while i < cards.len()
        invariant
            i <= cards.len(),
            res@ =~= cards@.take(i as int),
        decreases cards.len() - i,
    {
        res.push(cards[i]);
        i = i + 1;
        assert(res@ =~= cards@.take(i as int));
    }
    assert(cards@.take(cards.len() as int) =~= cards@);
    res
}

impl Clone for GameState {
    /// A copy of the state, card for card.
    fn clone(&self) -> (res: Self)
        ensures
            forall|p: int| 0 <= p < NUM_PLAYERS ==> (#[trigger] res.hands@[p])@ == self.hands@[p]@,
            res.played_cards@ == self.played_cards@,
            res.trump == self.trump,
            res.round == self.round,
            res.score == self.score,
    {
        let res = GameState {
            hands: [
                copy_cards(&self.hands[0]),
                copy_cards(&self.hands[1]),
                copy_cards(&self.hands[2]),
                copy_cards(&self.hands[3]),
            ],
            played_cards: copy_cards(&self.played_cards),
            trump: self.trump,
            round: self.round,
            score: self.score,
        };
        res
    }
}

/// `cards` holds a card with id `id`.
pub open spec fn holds_id(cards: Seq<Card>, id: int) -> bool {
    exists|i: int| 0 <= i < cards.len() && cards[i].id == id
}

/// `slot` holds a card with id `id`.
pub open spec fn slot_is(slot: Option<Card>, id: int) -> bool {
    match slot {
        Some(c) => c.id == id,
        None => false,
    }
}

/// Bit `k` of the encoding of a player's view: eight blocks of 40 bits,
/// one bit per card id, marking in turn the trump card, the player's hand,
/// the cards played so far, the table slots of players 0 to 3, and the
/// player's own slot `own`.
pub open spec fn encoding_bit(
    trump: Card,
    hand: Seq<Card>,
    played: Seq<Card>,
    slots: Seq<Option<Card>>,
    own: Option<Card>,
    k: int,
) -> bool {
    if k < 40 {
        k == trump.id
    } else if k < 80 {
        holds_id(hand, k - 40)
    } else if k < 120 {
        holds_id(played, k - 80)
    } else if k < 160 {
        slot_is(slots[0], k - 120)
    } else if k < 200 {
        slot_is(slots[1], k - 160)
    } else if k < 240 {
        slot_is(slots[2], k - 200)
    } else if k < 280 {
        slot_is(slots[3], k - 240)
    } else {
        slot_is(own, k - 280)
    }
}

/// The 320 bits of the encoding.
pub open spec fn encoding(
    trump: Card,
    hand: Seq<Card>,
    played: Seq<Card>,
    slots: Seq<Option<Card>>,
    own: Option<Card>,
) -> Seq<bool> {
    Seq::new((NUM_CARDS * 8) as nat, |k: int| encoding_bit(trump, hand, played, slots, own, k))
}

/// What the encoding says of the cards: it has 320 bits; bit `id` is set
/// exactly for the trump's id; bit `40 + id` exactly when the hand holds a
/// card with that id, whichever card is trump; bit `80 + id` exactly when
/// a played card has it; bit `120 + 40 p + id` exactly when slot `p` holds
/// it; and bit `280 + id` exactly when the player's own slot holds it.
pub proof fn lemma_encoding_blocks(
    trump: Card,
    hand: Seq<Card>,
    played: Seq<Card>,
    slots: Seq<Option<Card>>,
    own: Option<Card>,
)
    requires
        slots.len() == NUM_PLAYERS,
    ensures
        encoding(trump, hand, played, slots, own).len() == 320,
        forall|id: int| 0 <= id < 40 ==> (#[trigger] encoding(trump, hand, played, slots, own)[id] <==> id == trump.id),
        forall|i: int| 0 <= i < hand.len() && hand[i].id < 40 ==> encoding(trump, hand, played, slots, own)[40 + #[trigger] hand[i].id],
        forall|id: int| 0 <= id < 40 && #[trigger] encoding(trump, hand, played, slots, own)[40 + id] ==> exists|i: int| 0 <= i < hand.len() && hand[i].id == id,
        forall|i: int| 0 <= i < played.len() && played[i].id < 40 ==> encoding(trump, hand, played, slots, own)[80 + #[trigger] played[i].id],
        forall|id: int| 0 <= id < 40 && #[trigger] encoding(trump, hand, played, slots, own)[80 + id] ==> exists|i: int| 0 <= i < played.len() && played[i].id == id,
        forall|p: int, id: int| 0 <= p < NUM_PLAYERS && 0 <= id < 40 ==> (#[trigger] encoding(trump, hand, played, slots, own)[120 + 40 * p + id] <==> (slots[p] is Some && slots[p]->0.id == id)),
        forall|id: int| 0 <= id < 40 ==> (#[trigger] encoding(trump, hand, played, slots, own)[280 + id] <==> (own is Some && own->0.id == id)),
{
    let e = encoding(trump, hand, played, slots, own);
    assert forall|i: int| 0 <= i < hand.len() && hand[i].id < 40 implies e[40 + #[trigger] hand[i].id] by {
        assert(holds_id(hand, hand[i].id as int));
    }
    assert forall|i: int| 0 <= i < played.len() && played[i].id < 40 implies e[80 + #[trigger] played[i].id] by {
        assert(holds_id(played, played[i].id as int));
    }
    assert forall|p: int, id: int| 0 <= p < NUM_PLAYERS && 0 <= id < 40 implies (#[trigger] e[120 + 40 * p + id] <==> (slots[p] is Some && slots[p]->0.id == id)) by {
        if p == 0 {
        } else if p == 1 {
        } else if p == 2 {
        } else {
        }
    }
}

/// The first `n` slots of `slots`, the others empty.
pub open spec fn slots_upto(slots: Seq<Option<Card>>, n: int) -> Seq<Option<Card>> {
    Seq::new(NUM_PLAYERS as nat, |q: int| if q < n { slots[q] } else { None })
}

/// Every card id of `cards` is below 40.
pub open spec fn ids_in_range(cards: Seq<Card>) -> bool {
    forall|i: int| 0 <= i < cards.len() ==> (#[trigger] cards[i]).id < NUM_CARDS
}

/// Every card id in the slots is below 40.
pub open spec fn slot_ids_in_range(slots: Seq<Option<Card>>) -> bool {
    forall|i: int| 0 <= i < slots.len() ==> (#[trigger] slots[i] matches Some(c) ==> c.id < NUM_CARDS)
}

/// Whether every card id of `cards` is below 40.
fn all_ids_in_range(cards: &Vec<Card>) -> (ok: bool)
    ensures
        ok == ids_in_range(cards@),
{
    let mut i: usize = 0;
    while i < cards.len()
        invariant
            i <= cards.len(),
            forall|j: int| 0 <= j < i ==> (#[trigger] cards@[j]).id < NUM_CARDS,
        decreases cards.len() - i,
    {
        if cards[i].id as usize >= NUM_CARDS {
            return false;
        }
        i = i + 1;
    }
    true
}

/// Marks bit `base + id` of `v` for each card of `cards`.
fn mark_cards(v: &mut Vec<bool>, base: usize, cards: &Vec<Card>)
    requires
        base + NUM_CARDS <= old(v).len(),
        ids_in_range(cards@),
    ensures
        final(v)@.len() == old(v)@.len(),
        forall|k: int| 0 <= k < final(v)@.len() ==> #[trigger] final(v)@[k] == (old(v)@[k] || (
            base <= k < base + NUM_CARDS && holds_id(cards@, k - base))),
{
    let mut i: usize = 0;
    while i < cards.len()
        invariant
            i <= cards.len(),
            base + NUM_CARDS <= old(v).len(),
            ids_in_range(cards@),
            v@.len() == old(v)@.len(),
            forall|k: int| 0 <= k < v@.len() ==> #[trigger] v@[k] == (old(v)@[k] || (
                base <= k < base + NUM_CARDS && holds_id(cards@.take(i as int), k - base))),
        decreases cards.len() - i,
    {
        let id = cards[i].id as usize;
        assert(cards@[i as int].id < NUM_CARDS);
        let ghost prev = v@;
        v.set(base + id, true);
        i = i + 1;
        assert forall|k: int| 0 <= k < v@.len() implies #[trigger] v@[k] == (old(v)@[k] || (
            base <= k < base + NUM_CARDS && holds_id(cards@.take(i as int), k - base))) by {
            let t = cards@.take(i as int);
            let u = cards@.take(i - 1);
            if holds_id(u, k - base) {
                let j = choose|j: int| 0 <= j < u.len() && u[j].id == k - base;
                assert(t[j] == u[j]);
            }
            if k == base + id {
                assert(t[i - 1] == cards@[i - 1]);
            } else if holds_id(t, k - base) {
                let j = choose|j: int| 0 <= j < t.len() && t[j].id == k - base;
                assert(j != i - 1);
                assert(u[j] == t[j]);
            }
        }
    }
    assert(cards@.take(cards.len() as int) =~= cards@);
}

/// Marks bit `base + id` of `v` when `slot` holds a card.
fn mark_slot(v: &mut Vec<bool>, base: usize, slot: Option<Card>)
    requires
        base + NUM_CARDS <= old(v).len(),
        slot matches Some(c) ==> c.id < NUM_CARDS,
    ensures
        final(v)@.len() == old(v)@.len(),
        forall|k: int| 0 <= k < final(v)@.len() ==> #[trigger] final(v)@[k] == (old(v)@[k] || (
            base <= k < base + NUM_CARDS && slot_is(slot, k - base))),
{
    if let Some(card) = slot {
        v.set(base + card.id as usize, true);
    }
}

impl GameState {
    /// Every card id in the view of `player` that the encoding marks is below 40.
    pub open spec fn encodable(&self, player: int) -> bool {
        &&& 0 <= player < NUM_PLAYERS
        &&& self.trump.id < NUM_CARDS
        &&& ids_in_range(self.hands@[player]@)
        &&& ids_in_range(self.played_cards@)
        &&& slot_ids_in_range(self.round.played_cards@)
    }

    /// Whether `encode` may be called for `player`: the player is at the table
    /// and every card id the encoding marks is below 40.
    pub fn can_encode(&self, player: usize) -> (ok: bool)
        ensures
            ok == self.encodable(player as int),
    {
        if player >= NUM_PLAYERS || self.trump.id as usize >= NUM_CARDS {
            return false;
        }
        if !all_ids_in_range(&self.hands[player]) || !all_ids_in_range(&self.played_cards) {
            return false;
        }
        let mut p: usize = 0;
        while p < NUM_PLAYERS
            invariant
                p <= NUM_PLAYERS,
                forall|q: int| 0 <= q < p ==> (#[trigger] self.round.played_cards@[q] matches Some(c) ==> c.id < NUM_CARDS),
            decreases NUM_PLAYERS - p,
        {
            if let Some(c) = &self.round.played_cards[p] {
                if c.id as usize >= NUM_CARDS {
                    return false;
                }
            }
            p = p + 1;
        }
        true
    }

    fn encode_with(&self, player: usize, slots: &[Option<Card>; NUM_PLAYERS]) -> (v: Vec<bool>)
        requires
            player < NUM_PLAYERS,
            self.trump.id < NUM_CARDS,
            ids_in_range(self.hands@[player as int]@),
            ids_in_range(self.played_cards@),
            slot_ids_in_range(slots@),
        ensures
            v@ == encoding(self.trump, self.hands@[player as int]@, self.played_cards@, slots@, slots@[player as int]),
    {
        let mut v: Vec<bool> = vec![false; NUM_CARDS * 8];
        v.set(self.trump.id as usize, true);
        mark_cards(&mut v, NUM_CARDS, &self.hands[player]);
        mark_cards(&mut v, NUM_CARDS * 2, &self.played_cards);
        mark_slot(&mut v, NUM_CARDS * 3, slots[0]);
        mark_slot(&mut v, NUM_CARDS * 4, slots[1]);
        mark_slot(&mut v, NUM_CARDS * 5, slots[2]);
        mark_slot(&mut v, NUM_CARDS * 6, slots[3]);
        mark_slot(&mut v, NUM_CARDS * 7, slots[player]);
        assert(v@ =~= encoding(self.trump, self.hands@[player as int]@, self.played_cards@, slots@, slots@[player as int]));
        v
    }

    /// The view of the table from `player`'s seat, as 320 bits.
    pub fn encode(&self, player: usize) -> (v: Vec<bool>)
        requires
            self.encodable(player as int),
        ensures
            v@ == encoding(
                self.trump,
                self.hands@[player as int]@,
                self.played_cards@,
                self.round.played_cards@,
                self.round.played_cards@[player as int],
            ),
    {
        self.encode_with(player, &self.round.played_cards)
    }

    /// The view from `player`'s seat had the player just put `card` on the table.
    pub fn encode_choice(&self, player: usize, card: &Card) -> (v: Vec<bool>)
        requires
            self.encodable(player as int),
            card.id < NUM_CARDS,
        ensures
            v@ == encoding(
                self.trump,
                self.hands@[player as int]@,
                self.played_cards@,
                self.round.played_cards@.update(player as int, Some(*card)),
                Some(*card),
            ),
    {
        let mut slots = self.round.played_cards;
        slots[player] = Some(*card);
        assert(slots@ =~= self.round.played_cards@.update(player as int, Some(*card)));
        self.encode_with(player, &slots)
    }

    /// The view from `player`'s seat with the bit of `card` in the player's own
    /// slot block set as well.
    pub fn encode_with_action(&self, player: usize, card: &Card) -> (v: Vec<bool>)
        requires
            self.encodable(player as int),
            card.id < NUM_CARDS,
        ensures
            v@ == encoding(
                self.trump,
                self.hands@[player as int]@,
                self.played_cards@,
                self.round.played_cards@,
                self.round.played_cards@[player as int],
            ).update(NUM_CARDS * 7 + card.id, true),
    {
        let mut v = self.encode(player);
        v.set(NUM_CARDS * 7 + card.id as usize, true);
        v
    }

    /// The player who takes the current round (player 0 while no suit is led).
    pub open spec fn round_winner(&self) -> int {
        match self.round.suit {
            Some(s) => trick_winner(self.round.played_cards@, s, self.trump.suit),
            None => 0,
        }
    }

    /// Takes the card at `index` out of `player`'s hand; the hand's last card
    /// moves into its place.
    pub fn take_card(&mut self, player: usize, index: usize) -> (card: Card)
        requires
            player < NUM_PLAYERS,
            index < old(self).hands@[player as int].len(),
        ensures
            card == old(self).hands@[player as int]@[index as int],
            final(self).hands@[player as int]@ == old(self).hands@[player as int]@.update(
                index as int, old(self).hands@[player as int]@.last()).drop_last(),
            forall|p: int| 0 <= p < NUM_PLAYERS && p != player ==> #[trigger] final(self).hands@[p] == old(self).hands@[p],
            final(self).played_cards == old(self).played_cards,
            final(self).trump == old(self).trump,
            final(self).round == old(self).round,
            final(self).score == old(self).score,
    {
        self.hands[player].swap_remove(index)
    }
}

/// Records that `player` put `card` on the table.
pub fn update_round(player: usize, card: Card, game_state: &mut GameState)
    requires
        player < NUM_PLAYERS,
    ensures
        final(game_state).played_cards@ == old(game_state).played_cards@.push(card),
        final(game_state).round.played_cards@ == old(game_state).round.played_cards@.update(player as int, Some(card)),
        final(game_state).round.suit == old(game_state).round.suit,
        final(game_state).hands == old(game_state).hands,
        final(game_state).trump == old(game_state).trump,
        final(game_state).score == old(game_state).score,
{
    game_state.played_cards.push(card);
    game_state.round.played_cards[player] = Some(card);
}

/// Adds the points of the current round to the team of the player who takes
/// it, and returns that player.
pub fn update_score(game_state: &mut GameState) -> (winner: usize)
    requires
        old(game_state).round.suit is Some || all_empty(old(game_state).round.played_cards@),
        forall|i: int| 0 <= i < NUM_PLAYERS ==> (#[trigger] old(game_state).round.played_cards@[i] matches Some(c) ==> c.value <= 191),
        old(game_state).round_winner() % 2 == 0 ==> old(game_state).score.0 + trick_points(old(game_state).round.played_cards@) <= 255,
        old(game_state).round_winner() % 2 == 1 ==> old(game_state).score.1 + trick_points(old(game_state).round.played_cards@) <= 255,
    ensures
        winner == old(game_state).round_winner(),
        winner < NUM_PLAYERS,
        winner % 2 == 0 ==> final(game_state).score == (
            (old(game_state).score.0 + trick_points(old(game_state).round.played_cards@)) as u8,
            old(game_state).score.1,
        ),
        winner % 2 == 1 ==> final(game_state).score == (
            old(game_state).score.0,
            (old(game_state).score.1 + trick_points(old(game_state).round.played_cards@)) as u8,
        ),
        final(game_state).hands == old(game_state).hands,
        final(game_state).played_cards == old(game_state).played_cards,
        final(game_state).trump == old(game_state).trump,
        final(game_state).round == old(game_state).round,
{
    let winner = game_state.round.winner(game_state);
    let round_points = game_state.round.points();
    if winner % 2 == 0 {
        game_state.score.0 = game_state.score.0 + round_points;
    } else {
        game_state.score.1 = game_state.score.1 + round_points;
    }
    winner
}

} // verus!
