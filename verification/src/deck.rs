//! The deck: building it, shuffling it, and what its cards are worth.

use vstd::prelude::*;
use rand::distributions::{Distribution, Uniform};
use crate::card::{Card, NUM_CARDS, rank_points, suit_of};

verus! {

broadcast use vstd::seq_lib::group_to_multiset_ensures;

/// Total points of a sequence of cards.
pub open spec fn points_of(cards: Seq<Card>) -> int
    decreases cards.len(),
{
    if cards.len() == 0 {
        0
    } else {
        points_of(cards.drop_last()) + cards.last().worth()
    }
}

/// The card whose id is `i`.
pub open spec fn card_with_id(i: int) -> Card {
    Card { id: i as u8, value: (i % 10) as u8, suit: suit_of(i / 10) }
}

/// The 40 cards in order of their ids.
pub open spec fn full_deck() -> Seq<Card> {
    Seq::new(NUM_CARDS as nat, |i: int| card_with_id(i))
}

/// `deck` holds each card of the full deck exactly once, in any order.
pub open spec fn is_full_deck(deck: Seq<Card>) -> bool {
    deck.to_multiset() == full_deck().to_multiset()
}

/// `s` with the cards at positions `i` and `j` exchanged, in the order the
/// shuffle writes them: position `j` first, then position `i`.
pub open spec fn swap_at(s: Seq<Card>, i: int, j: int) -> Seq<Card> {
    s.update(j, s[i]).update(i, s[j])
}

/// `s` after exchanging, for each `k` in turn, position `k` with position `picks[k]`.
pub open spec fn swapped(s: Seq<Card>, picks: Seq<usize>) -> Seq<Card>
    decreases picks.len(),
{
    if picks.len() == 0 {
        s
    } else {
        swap_at(swapped(s, picks.drop_last()), picks.len() - 1, picks.last() as int)
    }
}

/// Sum of the points of the ranks `0 .. n % 10` repeated over `n` cards.
spec fn rank_points_upto(n: nat) -> int
    decreases n,
{
    if n == 0 {
        0
    } else {
        rank_points_upto((n - 1) as nat) + rank_points(((n - 1) % 10) as int)
    }
}

proof fn lemma_full_deck_prefix_points(n: nat)
    requires
        n <= NUM_CARDS,
    ensures
        points_of(full_deck().take(n as int)) == rank_points_upto(n),
    decreases n,
{
    if n > 0 {
        lemma_full_deck_prefix_points((n - 1) as nat);
        assert(full_deck().take(n as int).drop_last() =~= full_deck().take(n - 1));
    }
}

/// The whole deck is worth 120 points.
pub proof fn lemma_full_deck_points()
    ensures
        points_of(full_deck()) == 120,
{
    lemma_full_deck_prefix_points(40);
    assert(full_deck().take(40) =~= full_deck());
    reveal_with_fuel(rank_points_upto, 41);
}

/// Points add up over concatenation.
pub proof fn lemma_points_concat(a: Seq<Card>, b: Seq<Card>)
    ensures
        points_of(a + b) == points_of(a) + points_of(b),
    decreases b.len(),
{
    if b.len() > 0 {
        lemma_points_concat(a, b.drop_last());
        assert((a + b).drop_last() =~= a + b.drop_last());
    }
}

/// No sequence of cards is worth less than nothing.
pub proof fn lemma_points_nonneg(s: Seq<Card>)
    ensures
        points_of(s) >= 0,
    decreases s.len(),
{
    if s.len() > 0 {
        lemma_points_nonneg(s.drop_last());
    }
}

spec fn add_worth(acc: int, c: Card) -> int {
    acc + c.worth()
}

proof fn lemma_points_fold(s: Seq<Card>)
    ensures
        points_of(s) == s.fold_left(0int, |acc: int, c: Card| add_worth(acc, c)),
    decreases s.len(),
{
    if s.len() > 0 {
        lemma_points_fold(s.drop_last());
    }
}

/// Two sequences that hold the same cards are worth the same.
pub proof fn lemma_points_permutation(a: Seq<Card>, b: Seq<Card>)
    requires
        a.to_multiset() == b.to_multiset(),
    ensures
        points_of(a) == points_of(b),
{
    let f = |acc: int, c: Card| add_worth(acc, c);
    assert(vstd::seq_lib::commutative_foldl(f));
    lemma_points_fold(a);
    lemma_points_fold(b);
    vstd::seq_lib::lemma_fold_left_permutation(a, b, f, 0int);
}

/// Every card of a full deck is one of the 40 cards.
pub proof fn lemma_full_deck_cards_wf(deck: Seq<Card>, k: int)
    requires
        is_full_deck(deck),
        0 <= k < deck.len(),
    ensures
        deck[k].wf(),
{
    assert(deck.to_multiset().count(deck[k]) > 0);
    assert(full_deck().contains(deck[k]));
    let j = choose|j: int| 0 <= j < full_deck().len() && full_deck()[j] == deck[k];
    assert((j as u8) as int == j);
}

/// A full deck has 40 cards and is worth 120 points.
pub proof fn lemma_full_deck_shape(deck: Seq<Card>)
    requires
        is_full_deck(deck),
    ensures
        deck.len() == NUM_CARDS,
        points_of(deck) == 120,
{
    assert(deck.to_multiset().len() == full_deck().to_multiset().len());
    lemma_points_permutation(deck, full_deck());
    lemma_full_deck_points();
}

/// Exchanging two cards keeps the same cards.
pub proof fn lemma_swapped_permutes(s: Seq<Card>, picks: Seq<usize>)
    requires
        picks.len() <= s.len(),
        forall|k: int| 0 <= k < picks.len() ==> picks[k] < s.len(),
    ensures
        swapped(s, picks).len() == s.len(),
        swapped(s, picks).to_multiset() == s.to_multiset(),
    decreases picks.len(),
{
    broadcast use vstd::multiset::group_multiset_properties;
    if picks.len() > 0 {
        let t = swapped(s, picks.drop_last());
        lemma_swapped_permutes(s, picks.drop_last());
        let i = picks.len() - 1;
        let j = picks.last() as int;
        let u = t.update(j, t[i]);
        assert(u[i] == t[i] || i == j);
        assert(u.to_multiset() == t.to_multiset().insert(t[i]).remove(t[j]));
        assert(u.update(i, t[j]).to_multiset() == u.to_multiset().insert(t[j]).remove(u[i]));
        if i == j {
            assert(swap_at(t, i, j) =~= t);
        } else {
            assert(u.to_multiset().insert(t[j]).remove(t[i]) =~= t.to_multiset());
        }
    }
}

/// How many entries of `s` are `true`.
spec fn count_true(s: Seq<bool>) -> int
    decreases s.len(),
{
    if s.len() == 0 {
        0
    } else {
        count_true(s.drop_last()) + if s.last() { 1int } else { 0int }
    }
}

proof fn lemma_count_true_set(s: Seq<bool>, k: int)
    requires
        0 <= k < s.len(),
        !s[k],
    ensures
        count_true(s.update(k, true)) == count_true(s) + 1,
    decreases s.len(),
{
    if k < s.len() - 1 {
        lemma_count_true_set(s.drop_last(), k);
        assert(s.update(k, true).drop_last() =~= s.drop_last().update(k, true));
    } else {
        assert(s.update(k, true).drop_last() =~= s.drop_last());
    }
}

proof fn lemma_count_true_none(s: Seq<bool>)
    requires
        forall|k: int| 0 <= k < s.len() ==> !s[k],
    ensures
        count_true(s) == 0,
    decreases s.len(),
{
    if s.len() > 0 {
        lemma_count_true_none(s.drop_last());
    }
}

proof fn lemma_count_true_full(s: Seq<bool>)
    ensures
        count_true(s) <= s.len(),
        count_true(s) == s.len() ==> forall|k: int| 0 <= k < s.len() ==> s[k],
    decreases s.len(),
{
    if s.len() > 0 {
        lemma_count_true_full(s.drop_last());
        assert forall|k: int| 0 <= k < s.len() - 1 implies s.drop_last()[k] == s[k] by {}
    }
}

/// No card occurs twice in the ordered deck.
proof fn lemma_full_deck_no_duplicates()
    ensures
        full_deck().no_duplicates(),
{
    let f = full_deck();
    assert forall|a: int, b: int| 0 <= a < f.len() && 0 <= b < f.len() && a != b implies f[a] != f[b] by {
        assert((a as u8) as int == a);
        assert((b as u8) as int == b);
    }
}

/// A full deck has 40 cards, all of them among the 40, with distinct ids.
pub proof fn lemma_full_deck_facts(deck: Seq<Card>)
    requires
        is_full_deck(deck),
    ensures
        deck.len() == NUM_CARDS,
        forall|j: int| 0 <= j < deck.len() ==> (#[trigger] deck[j]).wf(),
        forall|j1: int, j2: int| 0 <= j1 < deck.len() && 0 <= j2 < deck.len() && j1 != j2 ==> #[trigger] deck[j1].id != #[trigger] deck[j2].id,
{
    lemma_full_deck_shape(deck);
    assert forall|j: int| 0 <= j < deck.len() implies (#[trigger] deck[j]).wf() by {
        lemma_full_deck_cards_wf(deck, j);
    }
    let f = full_deck();
    lemma_full_deck_no_duplicates();
    f.lemma_multiset_has_no_duplicates();
    deck.lemma_multiset_has_no_duplicates_conv();
    assert forall|j1: int, j2: int| 0 <= j1 < deck.len() && 0 <= j2 < deck.len() && j1 != j2 implies #[trigger] deck[j1].id != #[trigger] deck[j2].id by {
        assert(deck[j1] != deck[j2]);
    }
}

/// Whether `deck` holds each of the 40 cards exactly once.
pub fn holds_full_deck(deck: &Vec<Card>) -> (ok: bool)
    ensures
        ok == is_full_deck(deck@),
{
    proof {
        if is_full_deck(deck@) {
            lemma_full_deck_facts(deck@);
        }
    }
    if deck.len() != NUM_CARDS {
        return false;
    }
    let mut seen: Vec<bool> = vec![false; NUM_CARDS];
    proof {
        lemma_count_true_none(seen@);
    }
    let mut i: usize = 0;
    while i < NUM_CARDS
        invariant
            deck@.len() == NUM_CARDS,
            i <= NUM_CARDS,
            seen@.len() == NUM_CARDS,
            forall|j: int| 0 <= j < i ==> (#[trigger] deck@[j]).wf(),
            forall|k: int| 0 <= k < NUM_CARDS ==> (#[trigger] seen@[k] <==> exists|j: int| 0 <= j < i && deck@[j].id == k),
            forall|j1: int, j2: int| 0 <= j1 < i && 0 <= j2 < i && j1 != j2 ==> #[trigger] deck@[j1].id != #[trigger] deck@[j2].id,
            count_true(seen@) == i,
            is_full_deck(deck@) ==> {
                &&& forall|j: int| 0 <= j < deck@.len() ==> (#[trigger] deck@[j]).wf()
                &&& forall|j1: int, j2: int| 0 <= j1 < deck@.len() && 0 <= j2 < deck@.len() && j1 != j2 ==> #[trigger] deck@[j1].id != #[trigger] deck@[j2].id
            },
        decreases NUM_CARDS - i,
    {
        let card = deck[i];
        if card.id as usize >= NUM_CARDS {
            return false;
        }
        let expected = Card::new(card.id);
        if expected.value != card.value || expected.suit != card.suit {
            return false;
        }
        let id = card.id as usize;
        if seen[id] {
            proof {
                let j = choose|j: int| 0 <= j < i && deck@[j].id == id;
                assert(deck@[j].id == deck@[i as int].id);
            }
            return false;
        }
        proof {
            lemma_count_true_set(seen@, id as int);
        }
        seen.set(id, true);
        i = i + 1;
        assert forall|k: int| 0 <= k < NUM_CARDS implies (#[trigger] seen@[k] <==> exists|j: int| 0 <= j < i && deck@[j].id == k) by {
            if k == id {
                assert(deck@[i - 1].id == k);
            } else if seen@[k] {
                let j = choose|j: int| 0 <= j < i - 1 && deck@[j].id == k;
                assert(0 <= j < i && deck@[j].id == k);
            }
        }
    }
    proof {
        lemma_count_true_full(seen@);
        let d = deck@;
        let f = full_deck();
        assert(d.no_duplicates());
        lemma_full_deck_no_duplicates();
        d.lemma_multiset_has_no_duplicates();
        f.lemma_multiset_has_no_duplicates();
        assert forall|x: Card| #[trigger] d.to_multiset().count(x) == f.to_multiset().count(x) by {
            if d.contains(x) {
                let j = choose|j: int| 0 <= j < d.len() && d[j] == x;
                assert(d[j].wf());
                assert(f[x.id as int] == x);
                assert(f.contains(x));
            } else if f.contains(x) {
                let k = choose|k: int| 0 <= k < f.len() && f[k] == x;
                assert((k as u8) as int == k);
                assert(seen@[k]);
                let j = choose|j: int| 0 <= j < 40 && d[j].id == k;
                assert(d[j].wf());
                assert(d[j] == x);
            }
        }
        assert(d.to_multiset() =~= f.to_multiset());
    }
    true
}

/// The deck of 40 cards, card `i` having id `i`.
pub fn generate_deck() -> (deck: Vec<Card>)
    ensures
        deck@ == full_deck(),
        is_full_deck(deck@),
{
    let mut deck: Vec<Card> = Vec::with_capacity(NUM_CARDS);
    let mut i: usize = 0;
    while i < NUM_CARDS
        invariant
            i <= NUM_CARDS,
            deck@ =~= full_deck().take(i as int),
        decreases NUM_CARDS - i,
    {
        deck.push(Card::new(i as u8));
        i = i + 1;
        assert(deck@ =~= full_deck().take(i as int));
    }
    assert(full_deck().take(40) =~= full_deck());
    deck
}

/// Exchanges, for each `k` in turn, the cards at positions `k` and `picks[k]`.
pub fn shuffle_with(deck: &mut Vec<Card>, picks: &Vec<usize>)
    requires
        picks.len() <= old(deck).len(),
        forall|k: int| 0 <= k < picks.len() ==> picks[k] < old(deck).len(),
    ensures
        final(deck)@ == swapped(old(deck)@, picks@),
        final(deck)@.to_multiset() == old(deck)@.to_multiset(),
{
    proof {
        lemma_swapped_permutes(old(deck)@, picks@);
    }
    let mut i: usize = 0;
    while i < picks.len()
        invariant
            i <= picks.len(),
            picks.len() <= old(deck).len(),
            forall|k: int| 0 <= k < picks.len() ==> picks[k] < old(deck).len(),
            deck@ == swapped(old(deck)@, picks@.take(i as int)),
            deck@.len() == old(deck)@.len(),
        decreases picks.len() - i,
    {
        let j = picks[i];
        let v = deck[j];
        let w = deck[i];
        deck.set(j, w);
        deck.set(i, v);
        i = i + 1;
        assert(picks@.take(i as int).drop_last() =~= picks@.take(i - 1));
    }
    assert(picks@.take(picks.len() as int) =~= picks@);
}

#[verifier::external_type_specification]
#[verifier::external_body]
pub struct ExThreadRng(rand::rngs::ThreadRng);

/// `rand::thread_rng`: a handle to the thread's random number generator.
/// Nothing is claimed of it.
#[verifier::external_body]
fn new_thread_rng() -> rand::rngs::ThreadRng {
    rand::thread_rng()
}

/// `rand::distributions::Uniform::new(0, n)` sampled once with `Distribution::sample`:
/// a random index. The only claim is that it lies in `0 .. n`, as the crate
/// documents for the half-open range; `Uniform::new` panics when `n == 0`,
/// which `requires` leaves out.
#[verifier::external_body]
fn uniform_index(rng: &mut rand::rngs::ThreadRng, n: usize) -> (r: usize)
    requires
        n > 0,
    ensures
        r < n,
{
    Uniform::new(0usize, n).sample(rng)
}

/// Shuffles the deck: for each position `i` below `len - 2`, the card there
/// is exchanged with the card at a uniformly drawn position.
pub fn deck_shuffle(deck: &mut Vec<Card>)
    requires
        old(deck).len() >= 2,
    ensures
        final(deck)@.len() == old(deck)@.len(),
        final(deck)@.to_multiset() == old(deck)@.to_multiset(),
        exists|picks: Seq<usize>|
            {
                &&& picks.len() == old(deck)@.len() - 2
                &&& forall|k: int| 0 <= k < picks.len() ==> picks[k] < old(deck)@.len()
                &&& final(deck)@ == swapped(old(deck)@, picks)
            },
{
    let mut rng = new_thread_rng();
    let n = deck.len();
    let mut picks: Vec<usize> = Vec::with_capacity(n - 2);
    let mut i: usize = 0;
    while i < n - 2
        invariant
            n >= 2,
            i <= n - 2,
            picks@.len() == i,
            forall|k: int| 0 <= k < picks.len() ==> picks[k] < n,
        decreases n - 2 - i,
    {
        let j = uniform_index(&mut rng, n);
        picks.push(j);
        i = i + 1;
    }
    shuffle_with(deck, &picks);
    proof {
        lemma_swapped_permutes(old(deck)@, picks@);
    }
}

} // verus!
