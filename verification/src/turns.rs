//! Ending a turn, removing a player and rolling back to a snapshot.
use crate::board::{
    apply_delta, board_consistent, cell_at, copy_cells, grid_shaped, has_free_neighbour, neighbour,
    neighbour_vector, put_cell, set_cell, shifted, wf,
};
use crate::invariants::{
    lemma_culled_consistent, lemma_end_turn_wf, lemma_find_from, lemma_removal_wf, lemma_rollback_wf,
};
use crate::query::{get_winner, ids_below};
use crate::rules::{
    cleared_of, culled, departures_without, end_turn_outcome, players_without, ready_for, removal_outcome, unacted_ids,
    unacted_message, units_of, units_without, rollback_outcome, without_missing, find_from,
};
use crate::text::list_string;
use crate::types::{
    Cell, GameError, GameState, Position, Snapshot, SnapshotModel, Unit, UnitType, grid_of, outcome,
};
use std::collections::HashMap;
use vstd::prelude::*;

verus! {

broadcast use vstd::std_specs::hash::group_hash_axioms;

/// The ids below `next_id` of the units of `pid` that have not acted, ascending.
fn unacted_units(units: &HashMap<u32, Unit>, next_id: u32, pid: u8) -> (r: Vec<u32>)
    ensures
        r@ == unacted_ids(units@, pid, next_id as nat),
{
    let mut ids: Vec<u32> = Vec::new();
    let mut k: u32 = 0;
    while k < next_id
        invariant
            k <= next_id,
            ids@ == unacted_ids(units@, pid, k as nat),
        decreases next_id - k,
    {
        match units.get(&k) {
            Some(u) => {
                if u.owner == pid && !u.acted {
                    ids.push(k);
                }
            },
            None => {},
        }
        k = k + 1;
    }
    ids
}

/// Whether some neighbour of `pos` is on the board and empty.
fn has_free_cell(cells: &Vec<Vec<Cell>>, pos: &Position, w: u32, h: u32) -> (r: bool)
    requires
        grid_shaped(grid_of(*cells), w, h),
        pos.x < w,
        pos.y < h,
    ensures
        r == has_free_neighbour(grid_of(*cells), *pos, w, h),
{
    let mut i: usize = 0;
    while i < 8
        invariant
            grid_shaped(grid_of(*cells), w, h),
            i <= 8,
            forall|j: int|
                0 <= j < i ==> match #[trigger] shifted(*pos, neighbour(j).0, neighbour(j).1, w, h) {
                    Some(t) => grid_of(*cells)[t.y as int][t.x as int] != Cell::Empty,
                    None => true,
                },
        decreases 8 - i,
    {
        let (dx, dy) = neighbour_vector(i);
        match apply_delta(pos, dx, dy, w, h) {
            Some(t) => {
                if cell_at(cells, t.x, t.y) == Cell::Empty {
                    return true;
                }
            },
            None => {},
        }
        i = i + 1;
    }
    false
}

/// Removes the factories of `pid` that have no empty neighbour cell, each
/// judged on the board as it stood before any of them was removed.
fn cull_factories(state: &mut GameState, pid: u8)
    requires
        wf(old(state)@),
    ensures
        (grid_of(final(state).cells), final(state).units@) == culled(
            grid_of(old(state).cells),
            old(state).units@,
            pid,
            old(state).config.width,
            old(state).config.height,
            old(state).next_unit_id as nat,
        ),
        final(state).config == old(state).config,
        final(state).next_unit_id == old(state).next_unit_id,
        final(state).players == old(state).players,
        final(state).current_player_index == old(state).current_player_index,
        final(state).round == old(state).round,
        final(state).snapshots == old(state).snapshots,
        final(state).departures == old(state).departures,
{
    let ghost g0 = grid_of(state.cells);
    let ghost u0 = state.units@;
    let w = state.config.width;
    let h = state.config.height;
    let next_id = state.next_unit_id;
    let board = copy_cells(&state.cells);
    let mut k: u32 = 0;
    proof {
        lemma_culled_consistent(g0, u0, pid, w, h, 0, next_id);
    }
    while k < next_id
        invariant
            k <= next_id,
            w == state.config.width,
            h == state.config.height,
            next_id == state.next_unit_id,
            state.config == old(state).config,
            state.next_unit_id == old(state).next_unit_id,
            state.players == old(state).players,
            state.current_player_index == old(state).current_player_index,
            state.round == old(state).round,
            state.snapshots == old(state).snapshots,
            state.departures == old(state).departures,
            board_consistent(g0, u0, w, h, next_id),
            g0 == grid_of(old(state).cells),
            grid_of(board) == g0,
            u0 == old(state).units@,
            (grid_of(state.cells), state.units@) == culled(g0, u0, pid, w, h, k as nat),
            board_consistent(grid_of(state.cells), state.units@, w, h, next_id),
            forall|j: u32| #[trigger] state.units@.contains_key(j) ==> u0.contains_key(j)
                && state.units@[j] == u0[j],
            forall|j: u32| j >= k ==> (#[trigger] state.units@.contains_key(j) == u0.contains_key(j)),
        decreases next_id - k,
    {
        proof {
            lemma_culled_consistent(g0, u0, pid, w, h, (k + 1) as nat, next_id);
        }
        match state.units.get(&k) {
            Some(u) => {
                let unit = *u;
                assert(state.units@.contains_key(k));
                assert(u0.contains_key(k));
                let is_factory = match unit.unit_type {
                    UnitType::Factory => true,
                    _ => false,
                };
                if unit.owner == pid && is_factory {
                    if !has_free_cell(&board, &unit.position, w, h) {
                        put_cell(&mut state.cells, unit.position.x, unit.position.y, Cell::Empty);
                        state.units.remove(&k);
                    }
                }
            },
            None => {},
        }
        k = k + 1;
    }
}

/// Lets the units of `p` act again.
fn reset_acted(state: &mut GameState, p: u8)
    requires
        ids_below(old(state).units@, old(state).next_unit_id),
    ensures
        final(state).units@ == ready_for(old(state).units@, p),
        final(state).cells == old(state).cells,
        final(state).config == old(state).config,
        final(state).next_unit_id == old(state).next_unit_id,
        final(state).players == old(state).players,
        final(state).current_player_index == old(state).current_player_index,
        final(state).round == old(state).round,
        final(state).snapshots == old(state).snapshots,
        final(state).departures == old(state).departures,
{
    let ghost u0 = state.units@;
    let next_id = state.next_unit_id;
    let mut k: u32 = 0;
    while k < next_id
        invariant
            k <= next_id,
            next_id == state.next_unit_id,
            ids_below(u0, next_id),
            u0 == old(state).units@,
            state.cells == old(state).cells,
            state.config == old(state).config,
            state.next_unit_id == old(state).next_unit_id,
            state.players == old(state).players,
            state.current_player_index == old(state).current_player_index,
            state.round == old(state).round,
            state.snapshots == old(state).snapshots,
            state.departures == old(state).departures,
            state.units@ == Map::new(
                |j: u32| u0.contains_key(j),
                |j: u32|
                    if j < k && u0[j].owner == p {
                        Unit { acted: false, ..u0[j] }
                    } else {
                        u0[j]
                    },
            ),
        decreases next_id - k,
    {
        match state.units.get(&k) {
            Some(u) => {
                let unit = *u;
                if unit.owner == p {
                    state.units.insert(k, Unit { acted: false, ..unit });
                }
            },
            None => {},
        }
        assert(state.units@ =~= Map::new(
            |j: u32| u0.contains_key(j),
            |j: u32|
                if j < k + 1 && u0[j].owner == p {
                    Unit { acted: false, ..u0[j] }
                } else {
                    u0[j]
                },
        ));
        k = k + 1;
    }
    assert(state.units@ =~= ready_for(u0, p));
}

/// Ends the turn of `player_id`. Every unit of the player must have acted.
/// Every factory of the player without an empty neighbour cell on the board
/// as the turn ended dies; the turn passes to the next player in the fixed
/// order (a new round starts when the order wraps), whose units may act
/// again; a snapshot of the board, the units and the round that follows is
/// stored, and the record of departures is cleared. See `end_turn_outcome`
/// for the exact rules.
pub fn end_player_turn(state: &mut GameState, player_id: u8) -> (r: Result<(), GameError>)
    requires
        wf(old(state)@),
        old(state)@.players.len() > 0,
        old(state).round < u32::MAX || (old(state).current_player_index + 1) % (old(
            state,
        ).players@.len() as int) != 0,
    ensures
        (final(state)@, outcome(r)) == end_turn_outcome(old(state)@, player_id),
        wf(final(state)@),
{
    proof {
        lemma_end_turn_wf(state@, player_id);
    }
    if get_winner(state).is_some() {
        return Err(GameError::GameOver);
    }
    if state.players[state.current_player_index] != player_id {
        return Err(GameError::NotYourTurn);
    }
    let unacted = unacted_units(&state.units, state.next_unit_id, player_id);
    if unacted.len() > 0 {
        let mut msg = "Units have not acted: ".to_owned();
        let list = list_string(&unacted);
        msg.append(list.as_str());
        proof {
            reveal_strlit("Units have not acted: ");
        }
        assert(msg@ == unacted_message(unacted@));
        return Err(GameError::InvalidAction(msg));
    }
    let ghost m0 = state@;
    cull_factories(state, player_id);
    proof {
        lemma_culled_consistent(
            m0.grid,
            m0.units,
            player_id,
            m0.config.width,
            m0.config.height,
            m0.next_unit_id as nat,
            m0.next_unit_id,
        );
    }
    assert(state.current_player_index < state.players.len());
    state.current_player_index = (state.current_player_index + 1) % state.players.len();
    if state.current_player_index == 0 {
        state.round = state.round + 1;
    }
    let snap = Snapshot {
        player_id,
        round: state.round,
        cells: copy_cells(&state.cells),
        units: state.units.clone(),
    };
    let ghost snaps0 = state.snapshots@;
    state.snapshots.push(snap);
    assert(state.snapshots@.map_values(|s: Snapshot| s@) =~= snaps0.map_values(
        |s: Snapshot| s@,
    ).push(snap@));
    state.departures = Vec::new();
    let next_player = state.players[state.current_player_index];
    reset_acted(state, next_player);
    assert(state@ =~= end_turn_outcome(m0, player_id).0);
    Ok(())
}

/// Removes player `player_id`: its units leave the board, it leaves the turn
/// order and its recorded departures are forgotten. If it was its turn, the
/// turn passes to the player after it in the order; otherwise the current
/// player keeps the turn.
pub fn remove_player(state: &mut GameState, player_id: u8)
    requires
        wf(old(state)@),
        old(state)@.players.len() > 0,
    ensures
        final(state)@ == removal_outcome(old(state)@, player_id),
        wf(final(state)@),
{
    proof {
        lemma_removal_wf(state@, player_id);
    }
    let ghost m0 = state@;
    let ghost g0 = m0.grid;
    let ghost u0 = m0.units;
    let w = state.config.width;
    let h = state.config.height;
    let next_id = state.next_unit_id;

    // Take the player's units off the board.
    let mut k: u32 = 0;
    while k < next_id
        invariant
            k <= next_id,
            m0 == old(state)@,
            wf(m0),
            g0 == m0.grid,
            u0 == m0.units,
            w == state.config.width,
            h == state.config.height,
            next_id == state.next_unit_id,
            state.next_unit_id == old(state).next_unit_id,
            state.config == old(state).config,
            state.players == old(state).players,
            state.current_player_index == old(state).current_player_index,
            state.round == old(state).round,
            state.snapshots == old(state).snapshots,
            state.departures == old(state).departures,
            grid_shaped(grid_of(state.cells), w, h),
            state.units@ == Map::new(
                |j: u32| u0.contains_key(j) && !(j < k && u0[j].owner == player_id),
                |j: u32| u0[j],
            ),
            forall|x: int, y: int|
                0 <= x < w && 0 <= y < h ==> #[trigger] grid_of(state.cells)[y][x] == match g0[y][x] {
                    Cell::Unit(j) => if j < k && u0.contains_key(j) && u0[j].owner == player_id {
                        Cell::Empty
                    } else {
                        g0[y][x]
                    },
                    Cell::Empty => Cell::Empty,
                },
        decreases next_id - k,
    {
        match state.units.get(&k) {
            Some(u) => {
                let unit = *u;
                if unit.owner == player_id {
                    assert(u0.contains_key(k));
                    assert(unit == u0[k]);
                    assert(board_consistent(m0.grid, m0.units, w, h, next_id));
                    assert(u0[k].position.x < w && u0[k].position.y < h);
                    let ghost before = grid_of(state.cells);
                    proof {
                        crate::invariants::lemma_set_cell_shape(
                            before,
                            w,
                            h,
                            unit.position.x as int,
                            unit.position.y as int,
                            Cell::Empty,
                        );
                    }
                    put_cell(&mut state.cells, unit.position.x, unit.position.y, Cell::Empty);
                    state.units.remove(&k);
                    assert forall|x: int, y: int| 0 <= x < w && 0 <= y < h implies #[trigger] grid_of(
                        state.cells,
                    )[y][x] == match g0[y][x] {
                        Cell::Unit(j) => if j < k + 1 && u0.contains_key(j) && u0[j].owner
                            == player_id {
                            Cell::Empty
                        } else {
                            g0[y][x]
                        },
                        Cell::Empty => Cell::Empty,
                    } by {
                        let c = g0[y][x];
                        let b = before[y][x];
                        if c == Cell::Unit(k) {
                            assert(u0[k].position == Position { x: x as u32, y: y as u32 });
                        }
                    }
                } else {
                    assert forall|x: int, y: int| 0 <= x < w && 0 <= y < h implies #[trigger] grid_of(
                        state.cells,
                    )[y][x] == match g0[y][x] {
                        Cell::Unit(j) => if j < k + 1 && u0.contains_key(j) && u0[j].owner
                            == player_id {
                            Cell::Empty
                        } else {
                            g0[y][x]
                        },
                        Cell::Empty => Cell::Empty,
                    } by {
                        let c = g0[y][x];
                    }
                }
            },
            None => {
                assert forall|x: int, y: int| 0 <= x < w && 0 <= y < h implies #[trigger] grid_of(
                    state.cells,
                )[y][x] == match g0[y][x] {
                    Cell::Unit(j) => if j < k + 1 && u0.contains_key(j) && u0[j].owner == player_id {
                        Cell::Empty
                    } else {
                        g0[y][x]
                    },
                    Cell::Empty => Cell::Empty,
                } by {
                    let c = g0[y][x];
                }
            },
        }
        assert(state.units@ =~= Map::new(
            |j: u32| u0.contains_key(j) && !(j < k + 1 && u0[j].owner == player_id),
            |j: u32| u0[j],
        ));
        k = k + 1;
    }
    assert(state.units@ =~= units_without(u0, player_id));
    assert(grid_of(state.cells) =~= cleared_of(g0, u0, player_id)) by {
        assert forall|y: int| 0 <= y < h implies #[trigger] grid_of(state.cells)[y] =~= cleared_of(
            g0,
            u0,
            player_id,
        )[y] by {
            assert forall|x: int| 0 <= x < w implies #[trigger] grid_of(state.cells)[y][x]
                == cleared_of(g0, u0, player_id)[y][x] by {
                let c = g0[y][x];
            }
        }
    }

    // Take the player out of the turn order.
    let old_index = state.current_player_index;
    let was_current = state.players[old_index] == player_id;
    let mut remaining: Vec<u8> = Vec::new();
    let mut seen_before = false;
    let mut i: usize = 0;
    while i < state.players.len()
        invariant
            i <= state.players@.len(),
            state.players == old(state).players,
            old_index == old(state).current_player_index,
            remaining@ == players_without(state.players@.take(i as int), player_id),
            seen_before == exists|j: int| 0 <= j < i && j < old_index && state.players@[j] == player_id,
        decreases state.players@.len() - i,
    {
        let p = state.players[i];
        if p != player_id {
            remaining.push(p);
        } else if i < old_index {
            seen_before = true;
        }
        assert(state.players@.take(i + 1).drop_last() =~= state.players@.take(i as int));
        i = i + 1;
    }
    assert(state.players@.take(state.players@.len() as int) =~= state.players@);
    assert(seen_before == m0.players.take(old_index as int).contains(player_id)) by {
        if seen_before {
            let j = choose|j: int| 0 <= j < m0.players.len() && j < old_index && m0.players[j] == player_id;
            assert(m0.players.take(old_index as int)[j] == player_id);
        }
        if m0.players.take(old_index as int).contains(player_id) {
            let j = choose|j: int|
                0 <= j < m0.players.take(old_index as int).len() && m0.players.take(
                    old_index as int,
                )[j] == player_id;
            assert(m0.players[j] == player_id);
        }
    }
    state.players = remaining;

    // Forget the sight of the player's units that left their cells.
    let mut kept: Vec<Unit> = Vec::new();
    let mut d: usize = 0;
    while d < state.departures.len()
        invariant
            d <= state.departures@.len(),
            state.departures == old(state).departures,
            kept@ == departures_without(state.departures@.take(d as int), player_id),
        decreases state.departures@.len() - d,
    {
        let u = state.departures[d];
        if u.owner != player_id {
            kept.push(u);
        }
        assert(state.departures@.take(d + 1).drop_last() =~= state.departures@.take(d as int));
        d = d + 1;
    }
    assert(state.departures@.take(state.departures@.len() as int) =~= state.departures@);
    state.departures = kept;
    if state.players.len() == 0 {
        state.current_player_index = 0;
    } else if was_current {
        state.current_player_index = old_index % state.players.len();
    } else if seen_before {
        state.current_player_index = old_index - 1;
    } else {
        state.current_player_index = old_index;
    }
    assert(state@ =~= removal_outcome(m0, player_id));
}


/// Whether `p` is one of `players`.
pub(crate) fn includes(players: &Vec<u8>, p: u8) -> (r: bool)
    ensures
        r == players@.contains(p),
{
    let mut i: usize = 0;
    while i < players.len()
        invariant
            i <= players@.len(),
            forall|j: int| 0 <= j < i ==> players@[j] != p,
        decreases players@.len() - i,
    {
        if players[i] == p {
            assert(players@[i as int] == p);
            return true;
        }
        i = i + 1;
    }
    false
}

/// Restores the snapshot at `snapshot_index`: its board, units and round,
/// without the units of players that are no longer active (they stay out of
/// the turn order). Later snapshots are dropped, the record of departures is
/// cleared, and the turn goes to the player after the one whose turn the
/// snapshot closed, whose units may act.
pub fn rollback_to_snapshot(state: &mut GameState, snapshot_index: usize)
    requires
        wf(old(state)@),
        old(state)@.players.len() > 0,
        snapshot_index < old(state)@.snapshots.len(),
    ensures
        final(state)@ == rollback_outcome(old(state)@, snapshot_index as int),
        final(state).round == old(state).snapshots@[snapshot_index as int].round,
        wf(final(state)@),
{
    proof {
        lemma_rollback_wf(state@, snapshot_index as int);
        lemma_find_from(state@.players, state@.snapshots[snapshot_index as int].player_id, 0);
    }
    let ghost m0 = state@;
    let ghost s = m0.snapshots[snapshot_index as int];
    let w = state.config.width;
    let h = state.config.height;
    let next_id = state.next_unit_id;
    let snap_player = state.snapshots[snapshot_index].player_id;
    let snap_round = state.snapshots[snapshot_index].round;
    let mut cells = copy_cells(&state.snapshots[snapshot_index].cells);
    assert(board_consistent(s.grid, s.units, w, h, next_id));

    // The snapshot's units of players still active.
    let mut units: HashMap<u32, Unit> = HashMap::new();
    let mut k: u32 = 0;
    while k < next_id
        invariant
            k <= next_id,
            m0 == old(state)@,
            state@ == m0,
            s == m0.snapshots[snapshot_index as int],
            snapshot_index < m0.snapshots.len(),
            units@ == Map::new(
                |j: u32| j < k && s.units.contains_key(j) && m0.players.contains(s.units[j].owner),
                |j: u32| s.units[j],
            ),
        decreases next_id - k,
    {
        match state.snapshots[snapshot_index].units.get(&k) {
            Some(u) => {
                let unit = *u;
                if includes(&state.players, unit.owner) {
                    units.insert(k, unit);
                }
            },
            None => {},
        }
        assert(units@ =~= Map::new(
            |j: u32| j < k + 1 && s.units.contains_key(j) && m0.players.contains(s.units[j].owner),
            |j: u32| s.units[j],
        ));
        k = k + 1;
    }
    assert(units@ =~= units_of(s.units, m0.players));

    // Empty the cells of units that were not restored.
    let mut y: u32 = 0;
    while y < h
        invariant
            y <= h,
            grid_shaped(s.grid, w, h),
            grid_shaped(grid_of(cells), w, h),
            forall|yy: int, xx: int|
                0 <= yy < h && 0 <= xx < w ==> #[trigger] grid_of(cells)[yy][xx] == if yy < y {
                    without_missing(s.grid, units@)[yy][xx]
                } else {
                    s.grid[yy][xx]
                },
        decreases h - y,
    {
        let mut x: u32 = 0;
        while x < w
            invariant
                y < h,
                x <= w,
                grid_shaped(s.grid, w, h),
                grid_shaped(grid_of(cells), w, h),
                forall|yy: int, xx: int|
                    0 <= yy < h && 0 <= xx < w ==> #[trigger] grid_of(cells)[yy][xx] == if yy < y
                        || (yy == y && xx < x) {
                        without_missing(s.grid, units@)[yy][xx]
                    } else {
                        s.grid[yy][xx]
                    },
            decreases w - x,
        {
            match cell_at(&cells, x, y) {
                Cell::Unit(uid) => {
                    if !units.contains_key(&uid) {
                        proof {
                            crate::invariants::lemma_set_cell_shape(
                                grid_of(cells),
                                w,
                                h,
                                x as int,
                                y as int,
                                Cell::Empty,
                            );
                        }
                        put_cell(&mut cells, x, y, Cell::Empty);
                    }
                },
                Cell::Empty => {},
            }
            x = x + 1;
        }
        y = y + 1;
    }
    assert(grid_of(cells) =~= without_missing(s.grid, units@)) by {
        assert forall|yy: int| 0 <= yy < h implies #[trigger] grid_of(cells)[yy] =~= without_missing(
            s.grid,
            units@,
        )[yy] by {
            assert forall|xx: int| 0 <= xx < w implies #[trigger] grid_of(cells)[yy][xx]
                == without_missing(s.grid, units@)[yy][xx] by {
            }
        }
    }

    state.cells = cells;
    state.round = snap_round;
    state.units = units;
    state.departures = Vec::new();
    let ghost snaps0 = state.snapshots@;
    assert(state.snapshots@.len() == m0.snapshots.len());
    let count = state.snapshots.len();
    assert(snapshot_index < count);
    state.snapshots.truncate(snapshot_index + 1);
    assert(state.snapshots@.map_values(|q: Snapshot| q@) =~= snaps0.map_values(|q: Snapshot| q@).take(
        snapshot_index + 1,
    ));

    // The turn goes to the player after the snapshot's player.
    let mut next_index: usize = 0;
    let mut i: usize = 0;
    while i < state.players.len()
        invariant_except_break
            i <= state.players@.len(),
            forall|j: int| 0 <= j < i ==> state.players@[j] != snap_player,
            next_index == 0,
        invariant
            state.players@ == m0.players,
            m0.players.len() > 0,
            next_index < m0.players.len(),
            snap_player == s.player_id,
            match find_from(m0.players, s.player_id, 0) {
                Some(j) => j < m0.players.len() && m0.players[j as int] == s.player_id && forall|l: int|
                    0 <= l < j ==> m0.players[l] != s.player_id,
                None => forall|l: int| 0 <= l < m0.players.len() ==> m0.players[l] != s.player_id,
            },
        ensures
            next_index == match find_from(m0.players, s.player_id, 0) {
                Some(j) => ((j + 1) % m0.players.len()) as usize,
                None => 0usize,
            },
        decreases state.players@.len() - i,
    {
        if state.players[i] == snap_player {
            next_index = (i + 1) % state.players.len();
            break;
        }
        i = i + 1;
    }
    state.current_player_index = next_index;
    let next_player = state.players[next_index];
    reset_acted(state, next_player);
    assert(state@ =~= rollback_outcome(m0, snapshot_index as int));
}

} // verus!
