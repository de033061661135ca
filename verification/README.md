# sueca

A verified library for the Portuguese card game Sueca, and a program that
trains a Q-learning player for it by self-play.

- `src/card.rs`: the 40 cards, their points and their strength in a round.
- `src/deck.rs`: the ordered deck, its check, its shuffle, and the facts
  about card sequences (the deck is worth 120 points; equal multisets are
  worth the same).
- `src/round.rs`: a round (trick), who takes it and what it is worth.
- `src/state.rs`: the table's state, the bookkeeping of a played card and
  of a scored round, and the 320-bit encoding of a player's view.
- `src/game.rs`: the game as a state machine with its invariant: no card
  is lost or duplicated, every player plays once per round, and at the end
  the two teams share exactly 120 points.
- `app/main.rs`: the neural network (rusty-machine), the floating-point
  learning rule, the card choice and the output.
