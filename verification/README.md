# cellwar_engine

A turn-based strategy game on a rectangular grid, with its rules proved in
Verus. Players command infantry, fortifications and factories; the last
player with units wins.

## Layout

- `src/types.rs`: the game's data types and their mathematical views
  (`GameModel`, `SnapshotModel`, `ErrorModel`).
- `src/board.rs`: board geometry and the well-formedness invariant `wf`
  (board and unit table agree, ids below `next_unit_id`, owners active).
- `src/rules.rs`: the rules as spec functions (`action_outcome`,
  `end_turn_outcome`, `removal_outcome`, `rollback_outcome`, `winner`,
  `valid_actions`, `tile`). Every engine operation is proved to compute
  exactly these.
- `src/actions.rs`, `src/turns.rs`, `src/query.rs`, `src/setup.rs`: the
  engine operations (`apply_action`, `end_player_turn`, `remove_player`,
  `rollback_to_snapshot`, `get_valid_actions`, `get_visible_state`,
  `get_winner`, `new_game`).
- `src/invariants.rs`, `src/roster.rs`: proofs that every operation keeps `wf`.
- `src/laws.rs`: properties that span operations (a refused action changes
  nothing but a fortification sent onto its own side, which has already
  become infantry; a unit acts once per turn; turns pass in a fixed order;
  rolling back to the snapshot a turn's end stored changes nothing; a draw
  cannot arise; a view reveals nothing out of sight; removing a player twice
  is removing it once; a disconnect followed by a rollback restores the
  snapshot without the leaver; ...).
- `src/console.rs`, `src/input.rs`, `src/display.rs`, `src/notation.rs`,
  `src/text.rs`: the decisions of the console client (which units may act,
  closing a turn), reading typed input, drawing the board, and the text form
  of each value.
- `app/`: the console program itself (prompts, bot processes speaking JSON,
  serialisable copies of the types).
- `tests/`: executable tests of the library.
