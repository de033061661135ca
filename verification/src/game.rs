//! A game as a state machine: the table decides who plays, scores each round
//! and says when the game ends; choosing a card is left to the caller.

use vstd::prelude::*;
use vstd::multiset::Multiset;
use crate::card::{Card, NUM_CARDS, NUM_CARDS_PER_HAND, NUM_PLAYERS};
use crate::deck::{
    deck_shuffle, full_deck, swapped, is_full_deck, lemma_full_deck_cards_wf, lemma_full_deck_shape,
    lemma_points_concat, lemma_points_nonneg, lemma_points_permutation, points_of,
};
use crate::round::{Round, all_empty, lemma_round_points_bound, slot_points, trick_points};
use crate::state::{GameState, update_round, update_score};

verus! {

broadcast use {
    vstd::seq_lib::group_to_multiset_ensures,
    vstd::multiset::group_multiset_properties,
};

/// Where the game stands.
#[derive(Copy, Clone, Debug, PartialEq, Eq, Structural)]
pub enum Phase {
    /// A round is under way and someone has to play a card.
    Playing,
    /// All four cards of the round are down and the round is scored.
    Scored,
    /// All ten rounds are over.
    Finished,
}

/// What the table asks of the caller next.
#[derive(Copy, Clone, Debug, PartialEq, Eq, Structural)]
pub enum Action {
    /// This player must choose a card of their hand; hand its index to `Game::play`.
    ChooseCard(usize),
    /// The round is over and scored; this player took it and leads the next.
    /// Call `Game::next_round` once done with the finished round.
    RoundOver(usize),
    /// The game is over with this score.
    GameOver(u8, u8),
}

/// A game in progress: the state of the table, the player who leads the
/// current round (after a round is scored, the one who leads the next),
/// how many cards the current round holds, and how many rounds were scored.
#[derive(Debug)]
pub struct Game {
    pub state: GameState,
    pub leader: usize,
    pub turn: usize,
    pub rounds: usize,
    pub phase: Phase,
}

/// How many seats after `leader` the seat `p` comes, going round the table.
pub open spec fn offset(leader: int, p: int) -> int {
    if p >= leader {
        p - leader
    } else {
        p + NUM_PLAYERS - leader
    }
}

/// The multiset of all cards held or played.
pub open spec fn dealt_cards(s: GameState) -> Multiset<Card> {
    s.hands@[0]@.to_multiset().add(s.hands@[1]@.to_multiset()).add(s.hands@[2]@.to_multiset()).add(
        s.hands@[3]@.to_multiset(),
    ).add(s.played_cards@.to_multiset())
}

/// Points of all cards still in the players' hands.
pub open spec fn hand_points(s: GameState) -> int {
    points_of(s.hands@[0]@) + points_of(s.hands@[1]@) + points_of(s.hands@[2]@) + points_of(s.hands@[3]@)
}

/// Every card in hands, on the table and played is one of the 40 cards.
pub open spec fn cards_wf(s: GameState) -> bool {
    &&& s.trump.wf()
    &&& forall|p: int, i: int| 0 <= p < NUM_PLAYERS && 0 <= i < s.hands@[p]@.len() ==> (#[trigger] s.hands@[p]@[i]).wf()
    &&& forall|i: int| 0 <= i < s.played_cards@.len() ==> (#[trigger] s.played_cards@[i]).wf()
    &&& forall|p: int| 0 <= p < NUM_PLAYERS ==> (#[trigger] s.round.played_cards@[p] matches Some(c) ==> c.wf())
}

/// Taking card `i` out of `h` the way `swap_remove` does leaves the other cards.
proof fn lemma_swap_remove_multiset(h: Seq<Card>, i: int)
    requires
        0 <= i < h.len(),
    ensures
        h.update(i, h.last()).drop_last().to_multiset() == h.to_multiset().remove(h[i]),
{
    let t = h.update(i, h.last());
    let r = t.drop_last();
    assert(r.push(t.last()) =~= t);
    assert(t.last() == h.last());
    assert(t.to_multiset() == h.to_multiset().insert(h.last()).remove(h[i]));
    assert(r.to_multiset().insert(h.last()) == t.to_multiset());
    assert(h.to_multiset().count(h[i]) > 0);
    let m = h.to_multiset();
    assert forall|y: Card| #[trigger] r.to_multiset().count(y) == m.remove(h[i]).count(y) by {
        assert(r.to_multiset().insert(h.last()).count(y) == m.insert(h.last()).remove(h[i]).count(y));
    }
    assert(r.to_multiset() =~= m.remove(h[i]));
}

/// Taking card `i` out of `h` the way `swap_remove` does takes away its points.
proof fn lemma_swap_remove_points(h: Seq<Card>, i: int)
    requires
        0 <= i < h.len(),
    ensures
        points_of(h.update(i, h.last()).drop_last()) + h[i].worth() == points_of(h),
{
    let r = h.update(i, h.last()).drop_last();
    lemma_swap_remove_multiset(h, i);
    assert(r.push(h[i]).drop_last() =~= r);
    assert(h.to_multiset().count(h[i]) > 0);
    assert(r.push(h[i]).to_multiset() =~= h.to_multiset());
    lemma_points_permutation(r.push(h[i]), h);
}

/// Putting a card into an empty slot adds its points to the slots at or after it.
proof fn lemma_slot_points_fill(slots: Seq<Option<Card>>, p: int, c: Card, n: int)
    requires
        0 <= p < slots.len(),
        0 <= n <= slots.len(),
        slots[p] is None,
    ensures
        slot_points(slots.update(p, Some(c)), n) == slot_points(slots, n) + if p < n { c.worth() } else { 0 },
    decreases n,
{
    if n > 0 {
        lemma_slot_points_fill(slots, p, c, n - 1);
    }
}

/// A round with no card is worth nothing.
proof fn lemma_empty_round_points(slots: Seq<Option<Card>>)
    requires
        slots.len() == NUM_PLAYERS,
        all_empty(slots),
    ensures
        trick_points(slots) == 0,
{
    reveal_with_fuel(slot_points, 5);
}

/// Spells out, hand by hand, that every hand but hand `p` is unchanged.
proof fn lemma_other_hands_kept(s0: GameState, s: GameState, p: int)
    requires
        0 <= p < NUM_PLAYERS,
        forall|q: int| 0 <= q < NUM_PLAYERS && q != p ==> #[trigger] s.hands@[q] == s0.hands@[q],
    ensures
        p != 0 ==> s.hands@[0] == s0.hands@[0],
        p != 1 ==> s.hands@[1] == s0.hands@[1],
        p != 2 ==> s.hands@[2] == s0.hands@[2],
        p != 3 ==> s.hands@[3] == s0.hands@[3],
{
}

/// Moving one card from hand `p` to the played cards keeps the cards dealt.
proof fn lemma_moved_card_multiset(s0: GameState, s: GameState, p: int, card: Card)
    requires
        0 <= p < NUM_PLAYERS,
        s.hands@[p]@.to_multiset() == s0.hands@[p]@.to_multiset().remove(card),
        s0.hands@[p]@.to_multiset().count(card) > 0,
        forall|q: int| 0 <= q < NUM_PLAYERS && q != p ==> #[trigger] s.hands@[q] == s0.hands@[q],
        s.played_cards@ == s0.played_cards@.push(card),
    ensures
        dealt_cards(s) == dealt_cards(s0),
{
    assert(s.played_cards@.to_multiset() == s0.played_cards@.to_multiset().insert(card));
    lemma_other_hands_kept(s0, s, p);
    assert(dealt_cards(s) =~= dealt_cards(s0));
}

/// Moving one card from hand `p` to the played cards keeps the points in play.
proof fn lemma_moved_card_points(s0: GameState, s: GameState, p: int, card: Card)
    requires
        0 <= p < NUM_PLAYERS,
        points_of(s.hands@[p]@) + card.worth() == points_of(s0.hands@[p]@),
        forall|q: int| 0 <= q < NUM_PLAYERS && q != p ==> #[trigger] s.hands@[q] == s0.hands@[q],
        s.played_cards@ == s0.played_cards@.push(card),
    ensures
        hand_points(s) + points_of(s.played_cards@) == hand_points(s0) + points_of(s0.played_cards@),
{
    assert(s.played_cards@.drop_last() =~= s0.played_cards@);
    lemma_other_hands_kept(s0, s, p);
}

impl Game {
    /// The game invariant.
    pub open spec fn wf(&self) -> bool {
        let s = self.state;
        let slots = s.round.played_cards@;
        &&& self.leader < NUM_PLAYERS
        &&& self.rounds <= NUM_CARDS_PER_HAND
        &&& cards_wf(s)
        &&& dealt_cards(s) == full_deck().to_multiset()
        &&& hand_points(s) + points_of(s.played_cards@) == 120
        &&& match self.phase {
            Phase::Playing => {
                &&& self.turn < NUM_PLAYERS
                &&& self.rounds < NUM_CARDS_PER_HAND
                &&& (s.round.suit is None <==> self.turn == 0)
                &&& forall|p: int| 0 <= p < NUM_PLAYERS ==> (#[trigger] slots[p] is Some <==> offset(self.leader as int, p) < self.turn)
                &&& forall|p: int| 0 <= p < NUM_PLAYERS ==> (#[trigger] s.hands@[p]).len()
                    == NUM_CARDS_PER_HAND - self.rounds - (if offset(self.leader as int, p) < self.turn { 1int } else { 0int })
                &&& s.score.0 + s.score.1 + trick_points(slots) == points_of(s.played_cards@)
            },
            Phase::Scored => {
                &&& self.turn == NUM_PLAYERS
                &&& self.rounds >= 1
                &&& s.round.suit is Some
                &&& forall|p: int| 0 <= p < NUM_PLAYERS ==> (#[trigger] slots[p]) is Some
                &&& forall|p: int| 0 <= p < NUM_PLAYERS ==> (#[trigger] s.hands@[p]).len() == NUM_CARDS_PER_HAND - self.rounds
                &&& s.score.0 + s.score.1 == points_of(s.played_cards@)
            },
            Phase::Finished => {
                &&& self.rounds == NUM_CARDS_PER_HAND
                &&& forall|p: int| 0 <= p < NUM_PLAYERS ==> (#[trigger] s.hands@[p]).len() == 0
                &&& s.score.0 + s.score.1 == points_of(s.played_cards@)
            },
        }
    }

    /// The player whose turn it is while a round is under way.
    pub open spec fn to_play(&self) -> int {
        (self.leader + self.turn) % (NUM_PLAYERS as int)
    }

    /// A game dealt from `deck` as it lies: the first card is the trump and
    /// player `p` gets the cards at positions `10 p .. 10 p + 10`.
    pub fn deal(deck: &Vec<Card>) -> (game: Game)
        requires
            is_full_deck(deck@),
        ensures
            game.wf(),
            forall|p: int| 0 <= p < NUM_PLAYERS ==> (#[trigger] game.state.hands@[p])@ == deck@.subrange(
                NUM_CARDS_PER_HAND * p, NUM_CARDS_PER_HAND * p + NUM_CARDS_PER_HAND),
            game.state.trump == deck@[0],
            game.state.played_cards@.len() == 0,
            game.state.round.suit is None,
            all_empty(game.state.round.played_cards@),
            game.state.score == (0u8, 0u8),
            game.leader == 0,
            game.turn == 0,
            game.rounds == 0,
            game.phase == Phase::Playing,
    {
        proof {
            lemma_full_deck_shape(deck@);
        }
        let mut hands: [Vec<Card>; NUM_PLAYERS] = [
            Vec::with_capacity(NUM_CARDS_PER_HAND),
            Vec::with_capacity(NUM_CARDS_PER_HAND),
            Vec::with_capacity(NUM_CARDS_PER_HAND),
            Vec::with_capacity(NUM_CARDS_PER_HAND),
        ];
        let mut i: usize = 0;
        while i < deck.len()
            invariant
                deck@.len() == NUM_CARDS,
                i <= NUM_CARDS,
                forall|p: int| 0 <= p < NUM_PLAYERS ==> (#[trigger] hands@[p])@ == deck@.subrange(
                    if 10 * p < i { 10 * p } else { i as int },
                    if 10 * p + 10 < i { 10 * p + 10 } else { i as int }),
            decreases NUM_CARDS - i,
        {
            let player_id = i / NUM_CARDS_PER_HAND;
            hands[player_id].push(deck[i]);
            i = i + 1;
            assert forall|p: int| 0 <= p < NUM_PLAYERS implies (#[trigger] hands@[p])@ == deck@.subrange(
                    if 10 * p < i { 10 * p } else { i as int },
                    if 10 * p + 10 < i { 10 * p + 10 } else { i as int }) by {
                if p == player_id {
                    assert(hands@[p]@ =~= deck@.subrange(
                        if 10 * p < i { 10 * p } else { i as int },
                        if 10 * p + 10 < i { 10 * p + 10 } else { i as int }));
                }
            }
        }
        let game = Game {
            state: GameState {
                hands,
                played_cards: Vec::with_capacity(NUM_CARDS),
                trump: deck[0],
                round: Round::new(),
                score: (0, 0),
            },
            leader: 0,
            turn: 0,
            rounds: 0,
            phase: Phase::Playing,
        };
        proof {
            let d = deck@;
            let s = game.state;
            let c0 = d.subrange(0, 10);
            let c1 = d.subrange(10, 20);
            let c2 = d.subrange(20, 30);
            let c3 = d.subrange(30, 40);
            assert(d =~= c0 + c1 + c2 + c3);
            vstd::seq_lib::lemma_multiset_commutative(c0, c1);
            vstd::seq_lib::lemma_multiset_commutative(c0 + c1, c2);
            vstd::seq_lib::lemma_multiset_commutative(c0 + c1 + c2, c3);
            assert(s.played_cards@.to_multiset() =~= Multiset::empty());
            assert(dealt_cards(s) =~= d.to_multiset());
            lemma_points_concat(c0, c1);
            lemma_points_concat(c0 + c1, c2);
            lemma_points_concat(c0 + c1 + c2, c3);
            lemma_full_deck_cards_wf(d, 0);
            assert forall|p: int, j: int| 0 <= p < NUM_PLAYERS && 0 <= j < s.hands@[p]@.len() implies (#[trigger] s.hands@[p]@[j]).wf() by {
                lemma_full_deck_cards_wf(d, 10 * p + j);
            }
            assert(s.hands@[0]@ == c0);
            assert(s.hands@[1]@ == c1);
            assert(s.hands@[2]@ == c2);
            assert(s.hands@[3]@ == c3);
            assert(hand_points(s) == 120);
            assert(points_of(s.played_cards@) == 0);
            reveal_with_fuel(slot_points, 5);
            assert(trick_points(s.round.played_cards@) == 0);
            assert(cards_wf(s));
            assert(dealt_cards(s) == full_deck().to_multiset());
        }
        game
    }

    /// Shuffles `deck` and deals a new game from it.
    pub fn new(deck: &mut Vec<Card>) -> (game: Game)
        requires
            is_full_deck(old(deck)@),
        ensures
            is_full_deck(final(deck)@),
            final(deck)@.to_multiset() == old(deck)@.to_multiset(),
            exists|picks: Seq<usize>|
                {
                    &&& picks.len() == old(deck)@.len() - 2
                    &&& forall|k: int| 0 <= k < picks.len() ==> picks[k] < old(deck)@.len()
                    &&& final(deck)@ == swapped(old(deck)@, picks)
                },
            game.wf(),
            forall|p: int| 0 <= p < NUM_PLAYERS ==> (#[trigger] game.state.hands@[p])@ == final(deck)@.subrange(
                NUM_CARDS_PER_HAND * p, NUM_CARDS_PER_HAND * p + NUM_CARDS_PER_HAND),
            game.state.trump == final(deck)@[0],
            game.state.played_cards@.len() == 0,
            game.state.round.suit is None,
            all_empty(game.state.round.played_cards@),
            game.state.score == (0u8, 0u8),
            game.leader == 0,
            game.turn == 0,
            game.rounds == 0,
            game.phase == Phase::Playing,
    {
        proof {
            lemma_full_deck_shape(deck@);
        }
        deck_shuffle(deck);
        Game::deal(deck)
    }

    /// What the table asks for next.
    pub fn next_action(&self) -> (action: Action)
        requires
            self.wf(),
        ensures
            self.phase == Phase::Playing ==> action == Action::ChooseCard(self.to_play() as usize),
            self.phase == Phase::Scored ==> action == Action::RoundOver(self.leader),
            self.phase == Phase::Finished ==> action == Action::GameOver(self.state.score.0, self.state.score.1),
    {
        match self.phase {
            Phase::Playing => Action::ChooseCard((self.leader + self.turn) % NUM_PLAYERS),
            Phase::Scored => Action::RoundOver(self.leader),
            Phase::Finished => Action::GameOver(self.state.score.0, self.state.score.1),
        }
    }

    /// The player whose turn it is plays the card at `index` of their hand.
    /// The first card of a round sets the suit to follow; the fourth one
    /// ends the round, which is scored for the team of the player who takes
    /// it, and that player leads the next round.
    pub fn play(&mut self, index: usize) -> (card: Card)
        requires
            old(self).wf(),
            old(self).phase == Phase::Playing,
            index < old(self).state.hands@[old(self).to_play()].len(),
        ensures
            final(self).wf(),
            card == old(self).state.hands@[old(self).to_play()]@[index as int],
            final(self).state.hands@[old(self).to_play()]@ == old(self).state.hands@[old(self).to_play()]@.update(
                index as int, old(self).state.hands@[old(self).to_play()]@.last()).drop_last(),
            forall|q: int| 0 <= q < NUM_PLAYERS && q != old(self).to_play() ==> #[trigger] final(self).state.hands@[q] == old(self).state.hands@[q],
            final(self).state.played_cards@ == old(self).state.played_cards@.push(card),
            final(self).state.round.played_cards@ == old(self).state.round.played_cards@.update(old(self).to_play(), Some(card)),
            final(self).state.round.suit == if old(self).turn == 0 { Some(card.suit) } else { old(self).state.round.suit },
            final(self).state.trump == old(self).state.trump,
            old(self).turn + 1 < NUM_PLAYERS ==> {
                &&& final(self).phase == Phase::Playing
                &&& final(self).turn == old(self).turn + 1
                &&& final(self).leader == old(self).leader
                &&& final(self).rounds == old(self).rounds
                &&& final(self).state.score == old(self).state.score
            },
            old(self).turn + 1 == NUM_PLAYERS ==> {
                &&& final(self).phase == Phase::Scored
                &&& final(self).turn == NUM_PLAYERS
                &&& final(self).rounds == old(self).rounds + 1
                &&& final(self).leader == final(self).state.round_winner()
                &&& final(self).leader % 2 == 0 ==> final(self).state.score == (
                    (old(self).state.score.0 + trick_points(final(self).state.round.played_cards@)) as u8,
                    old(self).state.score.1)
                &&& final(self).leader % 2 == 1 ==> final(self).state.score == (
                    old(self).state.score.0,
                    (old(self).state.score.1 + trick_points(final(self).state.round.played_cards@)) as u8)
            },
    {
        let ghost g0 = *old(self);
        let ghost s0 = old(self).state;
        let player = (self.leader + self.turn) % NUM_PLAYERS;
        assert(offset(self.leader as int, player as int) == self.turn);
        let card = self.state.take_card(player, index);
        if self.turn == 0 {
            self.state.round.suit = Some(card.suit);
        }
        update_round(player, card, &mut self.state);
        self.turn = self.turn + 1;
        proof {
            let s = self.state;
            let h = s0.hands@[player as int]@;
            assert(h[index as int] == card);
            assert(s.played_cards@.drop_last() =~= s0.played_cards@);
            assert(s0.round.played_cards@[player as int] is None);
            lemma_slot_points_fill(s0.round.played_cards@, player as int, card, 4);
            assert(card.wf());
            assert(cards_wf(s)) by {
                assert forall|p: int, i: int| 0 <= p < NUM_PLAYERS && 0 <= i < s.hands@[p]@.len() implies (#[trigger] s.hands@[p]@[i]).wf() by {
                    if p == player {
                        if i != index {
                            assert(s.hands@[p]@[i] == h[i]);
                        } else {
                            assert(s.hands@[p]@[i] == h.last());
                        }
                    } else {
                        assert(s.hands@[p] == s0.hands@[p]);
                    }
                }
            }
            assert(dealt_cards(s) == dealt_cards(s0)) by {
                lemma_swap_remove_multiset(h, index as int);
                lemma_moved_card_multiset(s0, s, player as int, card);
            }
            assert(hand_points(s) + points_of(s.played_cards@) == 120) by {
                lemma_swap_remove_points(h, index as int);
                lemma_moved_card_points(s0, s, player as int, card);
            }
            assert forall|p: int| 0 <= p < NUM_PLAYERS implies (#[trigger] s.round.played_cards@[p] is Some <==> offset(self.leader as int, p) < self.turn) by {
                if p != player {
                    assert(offset(self.leader as int, p) != offset(self.leader as int, player as int));
                }
            }
            assert forall|p: int| 0 <= p < NUM_PLAYERS implies (#[trigger] s.hands@[p]).len()
                == NUM_CARDS_PER_HAND - self.rounds - (if offset(self.leader as int, p) < self.turn { 1int } else { 0int }) by {
                if p != player {
                    assert(offset(self.leader as int, p) != offset(self.leader as int, player as int));
                    assert(s.hands@[p] == s0.hands@[p]);
                }
            }
            lemma_points_nonneg(s.hands@[0]@);
            lemma_points_nonneg(s.hands@[1]@);
            lemma_points_nonneg(s.hands@[2]@);
            lemma_points_nonneg(s.hands@[3]@);
            lemma_round_points_bound(s.round.played_cards@, 4);
        }
        if self.turn == NUM_PLAYERS {
            let winner = update_score(&mut self.state);
            self.leader = winner;
            self.rounds = self.rounds + 1;
            self.phase = Phase::Scored;
        }
        card
    }

    /// Moves on once a scored round has been dealt with: after the tenth
    /// round the game is over, otherwise a new round starts, led by the
    /// player who took the last one.
    pub fn next_round(&mut self)
        requires
            old(self).wf(),
            old(self).phase == Phase::Scored,
        ensures
            final(self).wf(),
            final(self).state.hands == old(self).state.hands,
            final(self).state.played_cards == old(self).state.played_cards,
            final(self).state.trump == old(self).state.trump,
            final(self).state.score == old(self).state.score,
            final(self).leader == old(self).leader,
            final(self).rounds == old(self).rounds,
            old(self).rounds == NUM_CARDS_PER_HAND ==> {
                &&& final(self).phase == Phase::Finished
                &&& final(self).state.round == old(self).state.round
                &&& final(self).turn == old(self).turn
            },
            old(self).rounds < NUM_CARDS_PER_HAND ==> {
                &&& final(self).phase == Phase::Playing
                &&& final(self).turn == 0
                &&& final(self).state.round.suit is None
                &&& all_empty(final(self).state.round.played_cards@)
            },
    {
        if self.rounds == NUM_CARDS_PER_HAND {
            self.phase = Phase::Finished;
        } else {
            self.state.round = Round::new();
            self.turn = 0;
            self.phase = Phase::Playing;
            proof {
                lemma_empty_round_points(self.state.round.played_cards@);
            }
        }
    }
}

/// All through a game the two teams' scores add up to at most the deck's 120 points.
pub proof fn lemma_scores_bounded(game: Game)
    requires
        game.wf(),
    ensures
        game.state.score.0 + game.state.score.1 <= 120,
{
    let s = game.state;
    lemma_points_nonneg(s.hands@[0]@);
    lemma_points_nonneg(s.hands@[1]@);
    lemma_points_nonneg(s.hands@[2]@);
    lemma_points_nonneg(s.hands@[3]@);
    lemma_round_points_bound(s.round.played_cards@, 4);
}

/// When the game is over, every one of the deck's 120 points has gone to a team.
pub proof fn lemma_final_scores_total(game: Game)
    requires
        game.wf(),
        game.phase == Phase::Finished,
    ensures
        game.state.score.0 + game.state.score.1 == 120,
{
    let s = game.state;
    assert(s.hands@[0]@.len() == 0);
    assert(s.hands@[1]@.len() == 0);
    assert(s.hands@[2]@.len() == 0);
    assert(s.hands@[3]@.len() == 0);
}

} // verus!
