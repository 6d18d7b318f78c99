//! Applying a unit's action.
use crate::board::{apply_delta, board_ok, cell_at, put_cell, wf};
use crate::invariants::lemma_action_wf;
use crate::query::get_winner;
use crate::rules::{action_outcome, has_unacted_combat, infantry_move, produces};
use crate::types::{Action, Cell, GameError, GameState, Position, Unit, UnitType, outcome};
use std::collections::HashMap;
use vstd::prelude::*;
use vstd::std_specs::iter::IteratorSpec;

verus! {

broadcast use vstd::std_specs::hash::group_hash_axioms;

/// The infantry `unit_id` standing on `from` is sent onto `target`: it enters
/// an empty cell, destroys an enemy infantry or factory and takes its cell,
/// or is destroyed by an enemy fortification, which becomes infantry. An own
/// unit on `target` refuses the move.
fn apply_infantry_move(
    state: &mut GameState,
    unit_id: u32,
    from: &Position,
    target: &Position,
) -> (r: Result<(), GameError>)
    requires
        wf(old(state)@),
        old(state)@.units.contains_key(unit_id),
        *from == old(state)@.units[unit_id].position,
        target.x < old(state).config.width,
        target.y < old(state).config.height,
    ensures
        (final(state)@, outcome(r)) == infantry_move(old(state)@, unit_id, *from, *target),
{
    let me = match state.units.get(&unit_id) {
        Some(u) => *u,
        None => {
            return Err(GameError::UnitNotFound);
        },
    };
    let player_id = me.owner;
    match cell_at(&state.cells, target.x, target.y) {
        Cell::Empty => {
            put_cell(&mut state.cells, from.x, from.y, Cell::Empty);
            put_cell(&mut state.cells, target.x, target.y, Cell::Unit(unit_id));
            state.units.insert(unit_id, Unit { position: *target, acted: true, ..me });
            Ok(())
        },
        Cell::Unit(target_id) => {
            assert(state@.units.contains_key(target_id));
            let foe = match state.units.get(&target_id) {
                Some(u) => *u,
                None => {
                    return Err(GameError::UnitNotFound);
                },
            };
            if foe.owner == player_id {
                return Err(GameError::InvalidAction("Cannot attack own unit".to_owned()));
            }
            match foe.unit_type {
                UnitType::Fortification { .. } => {
                    state.units.remove(&unit_id);
                    put_cell(&mut state.cells, from.x, from.y, Cell::Empty);
                    state.units.insert(target_id, Unit { unit_type: UnitType::Infantry, ..foe });
                    Ok(())
                },
                _ => {
                    state.units.remove(&target_id);
                    put_cell(&mut state.cells, from.x, from.y, Cell::Empty);
                    put_cell(&mut state.cells, target.x, target.y, Cell::Unit(unit_id));
                    state.units.insert(unit_id, Unit { position: *target, acted: true, ..me });
                    Ok(())
                },
            }
        },
    }
}

/// Whether player `pid` has a combat unit that has not acted yet.
fn combat_waiting(units: &HashMap<u32, Unit>, pid: u8) -> (r: bool)
    ensures
        r == has_unacted_combat(units@, pid),
{
    let values = units.values();
    let ghost all = IteratorSpec::remaining(&values);
    let ghost mut seen: int = 0;
    assert(all.unref().to_set() == units@.values());
    for u in it: values
        invariant
            it.seq() == all,
            all.unref().to_set() == units@.values(),
            seen == it.index(),
            forall|j: int|
                0 <= j < seen && (*#[trigger] all[j]).owner == pid && !all[j].acted
                    ==> all[j].unit_type == UnitType::Factory,
    {
        let is_factory = match u.unit_type {
            UnitType::Factory => true,
            _ => false,
        };
        if u.owner == pid && !u.acted && !is_factory {
            assert(units@.values().contains(*u)) by {
                assert(all.unref().to_set().contains(*u));
            }
            let ghost k = choose|k: u32| units@.contains_key(k) && units@[k] == *u;
            assert(units@.contains_key(k));
            return true;
        }
        proof {
            seen = seen + 1;
        }
    }
    assert(seen == all.len());
    assert forall|k: u32| #[trigger]
        units@.contains_key(k) && units@[k].owner == pid && !units@[k].acted implies units@[k].unit_type
        == UnitType::Factory by {
        assert(units@.values().contains(units@[k]));
        assert(all.unref().to_set().contains(units@[k]));
    }
    false
}

/// Whether applying `action` to the unit `unit_id` on behalf of `player_id`
/// would make that factory produce a new unit, which takes a fresh id.
pub fn would_produce(state: &GameState, player_id: u8, unit_id: u32, action: Action) -> (r: bool)
    requires
        board_ok(state@),
        state.current_player_index < state.players.len(),
    ensures
        r == produces(state@, player_id, unit_id, action),
{
    if get_winner(state).is_some() {
        return false;
    }
    if state.players[state.current_player_index] != player_id {
        return false;
    }
    let unit = match state.units.get(&unit_id) {
        Some(u) => *u,
        None => {
            return false;
        },
    };
    assert(state@.units.contains_key(unit_id));
    if unit.owner != player_id || unit.acted {
        return false;
    }
    let dx = action.dx;
    let dy = action.dy;
    if dx < -1 || dx > 1 || dy < -1 || dy > 1 {
        return false;
    }
    match unit.unit_type {
        UnitType::Factory => {},
        _ => {
            return false;
        },
    }
    if combat_waiting(&state.units, player_id) {
        return false;
    }
    if dx == 0 && dy == 0 {
        return false;
    }
    match apply_delta(&unit.position, dx, dy, state.config.width, state.config.height) {
        Some(t) => {
            match cell_at(&state.cells, t.x, t.y) {
                Cell::Empty => true,
                Cell::Unit(_) => false,
            }
        },
        None => false,
    }
}

/// Applies `action` to the unit `unit_id` of player `player_id`. The vector
/// is read by the unit's kind and the target cell: infantry staying becomes a
/// fortification; a fortification staying counts up and at three becomes a
/// factory; a fortification moving becomes infantry first; infantry moves or
/// attacks; a factory produces a new infantry on an empty cell, once every
/// combat unit of its player has acted. Each component of the vector must be
/// -1, 0 or 1. A unit that leaves its cell is recorded in `departures`, so
/// that its old sight lasts until the turn ends. A refusal states why. See
/// `action_outcome` for the exact rules.
pub fn apply_action(
    state: &mut GameState,
    player_id: u8,
    unit_id: u32,
    action: Action,
) -> (r: Result<(), GameError>)
    requires
        wf(old(state)@),
        old(state)@.players.len() > 0,
        produces(old(state)@, player_id, unit_id, action) ==> old(state).next_unit_id < u32::MAX,
    ensures
        (final(state)@, outcome(r)) == action_outcome(old(state)@, player_id, unit_id, action),
        wf(final(state)@),
{
    proof {
        lemma_action_wf(state@, player_id, unit_id, action);
    }
    if get_winner(state).is_some() {
        return Err(GameError::GameOver);
    }
    if state.players[state.current_player_index] != player_id {
        return Err(GameError::NotYourTurn);
    }
    let unit = match state.units.get(&unit_id) {
        Some(u) => *u,
        None => {
            return Err(GameError::UnitNotFound);
        },
    };
    if unit.owner != player_id {
        return Err(GameError::UnitNotFound);
    }
    if unit.acted {
        return Err(GameError::UnitAlreadyActed);
    }
    let dx = action.dx;
    let dy = action.dy;
    if dx < -1 || dx > 1 || dy < -1 || dy > 1 {
        return Err(GameError::InvalidAction("Vector out of range".to_owned()));
    }
    let pos = unit.position;
    let w = state.config.width;
    let h = state.config.height;

    match unit.unit_type {
        UnitType::Infantry => {
            if dx == 0 && dy == 0 {
                state.units.insert(
                    unit_id,
                    Unit {
                        unit_type: UnitType::Fortification { turns_standing: 1 },
                        acted: true,
                        ..unit
                    },
                );
            } else {
                let target = match apply_delta(&pos, dx, dy, w, h) {
                    Some(t) => t,
                    None => {
                        return Err(GameError::InvalidAction("Out of bounds".to_owned()));
                    },
                };
                let r = apply_infantry_move(state, unit_id, &pos, &target);
                if r.is_ok() {
                    state.departures.push(unit);
                }
                return r;
            }
        },
        UnitType::Fortification { turns_standing } => {
            if dx == 0 && dy == 0 {
                let next_type = if turns_standing >= 3 {
                    UnitType::Factory
                } else {
                    UnitType::Fortification { turns_standing: turns_standing + 1 }
                };
                state.units.insert(unit_id, Unit { unit_type: next_type, acted: true, ..unit });
            } else {
                let target = match apply_delta(&pos, dx, dy, w, h) {
                    Some(t) => t,
                    None => {
                        return Err(GameError::InvalidAction("Out of bounds".to_owned()));
                    },
                };
                state.units.insert(unit_id, Unit { unit_type: UnitType::Infantry, ..unit });
                proof {
                    crate::invariants::lemma_with_unit_wf(
                        old(state)@,
                        unit_id,
                        Unit { unit_type: UnitType::Infantry, ..unit },
                    );
                }
                let r = apply_infantry_move(state, unit_id, &pos, &target);
                if r.is_ok() {
                    state.departures.push(unit);
                }
                return r;
            }
        },
        UnitType::Factory => {
            if combat_waiting(&state.units, player_id) {
                return Err(
                    GameError::InvalidAction("Combat units must act before factories".to_owned()),
                );
            }
            if dx == 0 && dy == 0 {
                return Err(GameError::InvalidAction("Factory cannot stay".to_owned()));
            }
            let target = match apply_delta(&pos, dx, dy, w, h) {
                Some(t) => t,
                None => {
                    return Err(GameError::InvalidAction("Out of bounds".to_owned()));
                },
            };
            match cell_at(&state.cells, target.x, target.y) {
                Cell::Empty => {
                    let new_id = state.next_unit_id;
                    state.next_unit_id = state.next_unit_id + 1;
                    let fresh = Unit {
                        id: new_id,
                        owner: player_id,
                        unit_type: UnitType::Infantry,
                        position: target,
                        acted: true,
                    };
                    put_cell(&mut state.cells, target.x, target.y, Cell::Unit(new_id));
                    state.units.insert(new_id, fresh);
                    state.units.insert(unit_id, Unit { acted: true, ..unit });
                },
                Cell::Unit(_) => {
                    return Err(
                        GameError::InvalidAction("Factory target cell not empty".to_owned()),
                    );
                },
            }
        },
    }
    Ok(())
}

} // verus!
