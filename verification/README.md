# mtg_engine

A rules engine for a trading card game, with its behaviour stated in
contracts and proved.

- `src/card.rs`, `src/cards.rs`: card definitions, card identifiers, and the
  bookkeeping of which definition each card in play has.
- `src/sequence.rs`: the fixed sequences of a turn (phases, beginning steps,
  untap events, combat steps, end steps) and the frame that walks them.
- `src/state.rs`: the game state, the state-stack frames, `State::new`,
  `State::tick` and `State::input`.
- `src/model.rs`: the game state as mathematical values and what one tick
  does to it; `tick` is proved to do exactly that, and to terminate.
- `src/laws.rs`: properties proved of ticks and of the step sequences (no
  card is ever lost or duplicated, identifiers stay distinct, passing
  priority hands it round the table, turns pass in order, pending actions
  are first in, first out, each sequence is walked in order, and a card
  builder records exactly the identifiers it has handed out).
- `src/walks.rs`: a step sequence is walked in order, each step once, even
  when its steps push frames of their own.
- `src/reachable.rs`: the shape every state reached by play has, kept by
  every tick, and a round of priority played out tick by tick.
- `src/game.rs`: the standard two-player game, command-line actions and the
  messages of their errors.
- `app/`: the `mtg` command line, which keeps a game in `game.json`.
