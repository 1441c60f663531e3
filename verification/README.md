# arena_engine

The rule layer of a headless card-battle match engine: the card data
model, the card database, the game state's shape, action encoding, and
the rules that act on them. The library in `src/` is written in Verus;
every function carries a contract and is proved against it.

It lists the legal actions of a state (`apply::legal_actions`, with the
neutral, table-id and mask forms and the hand and board presentation built
on it). Usable PP is the regular PP plus the bonus orb while it is switched
on and unspent. Playability checks the card, its form, the PP and the
board or the spell's choices; it does not re-run a scan for engine
constructs that a card may not use, since every card enters a match
through such a check when the match is built.

What it does not hold: the match driver. There is no way here to start a
match (deck building, opening hands), to step a state by an action, to
resolve a card's effect list or to queue and run triggered abilities, and
no random source. The state type carries the fields the rules here read
and write, not the trigger queue, pending work or generator state such a
driver would keep.

## Layout

- `src/card.rs`, `src/ids.rs`, `src/limits.rs`: card schema, ids, traits
  algebra, card id text.
- `src/db.rs`, `src/refs.rs`: the card database and the check that every
  bound name a card uses is produced on the same card.
- `src/state.rs`, `src/event.rs`, `src/error.rs`: game state, the event
  log, typed errors.
- `src/action.rs`, `src/action_id.rs`, `src/trace.rs`: actions, their
  neutral form and their fixed table ids.
- `src/apply.rs`, `src/select.rs`, `src/eval.rs`, `src/effects.rs`,
  `src/form.rs`, `src/fusion.rs`, `src/lasting.rs`, `src/playable.rs`:
  rules (hand limit, Bonus PP, attack targets, turn start, damage, target
  selection, conditions and amounts, play forms, fusion, timed effects).
- `src/info.rs`, `src/gates.rs`, `src/encode.rs`, `src/lethal.rs`,
  `src/oracle.rs`, `src/play.rs`, `src/determinize.rs`: presentation,
  gate reports, encoding layout, lethal-search ordering, replay reports.
- `app/`: loading cards, crests and catalog facts from JSON files (serde
  forms of the card types and their conversions).
- `tests/`: tests on concrete values.
