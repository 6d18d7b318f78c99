//! Read-only questions about a game: legal actions, the fog-of-war view and
//! the winner.
use crate::board::{
    apply_delta, cell_at, current_player, neighbour, neighbour_vector, visibility_radius, board_ok,
};
use crate::rules::{
    covers, has_units, move_allowed, moves_upto, owned_units, players_with_units, saw_before, seen_below,
    sees, tile, valid_actions, winner,
};
use crate::types::{
    Action, Cell, GameModel, GameState, PlayerView, TileVisibility, Unit, UnitType, grid_of,
};
use std::collections::HashMap;
use vstd::prelude::*;
use vstd::std_specs::iter::IteratorSpec;

verus! {

broadcast use vstd::std_specs::hash::group_hash_axioms;

/// Every key of `units` is below `n`.
pub open spec fn ids_below(units: Map<u32, Unit>, n: u32) -> bool {
    forall|k: u32| #[trigger] units.contains_key(k) ==> k < n
}

/// Whether some unit of `units` belongs to `p`.
pub(crate) fn owns_some_unit(units: &HashMap<u32, Unit>, p: u8) -> (r: bool)
    ensures
        r == has_units(units@, p),
{
    let values = units.values();
    let ghost all = IteratorSpec::remaining(&values);
    let ghost mut seen: int = 0;
    assert(all.unref().to_set() == units@.values());
    for u in it: values
        invariant
            it.seq() == all,
            all.unref().to_set() == units@.values(),
            seen == it.index(),
            forall|j: int| 0 <= j < seen ==> (*#[trigger] all[j]).owner != p,
    {
        if u.owner == p {
            assert(units@.values().contains(*u)) by {
                assert(all.unref().to_set().contains(*u));
            }
            let ghost k = choose|k: u32| units@.contains_key(k) && units@[k] == *u;
            assert(units@.contains_key(k));
            return true;
        }
        proof {
            seen = seen + 1;
        }
    }
    assert(seen == all.len());
    assert forall|k: u32| #[trigger] units@.contains_key(k) implies units@[k].owner != p by {
        assert(units@.values().contains(units@[k]));
        assert(all.unref().to_set().contains(units@[k]));
    }
    false
}

/// Whether player `player_id` still has a unit on the board.
pub fn player_has_units(state: &GameState, player_id: u8) -> (r: bool)
    ensures
        r == has_units(state@.units, player_id),
{
    owns_some_unit(&state.units, player_id)
}

/// The winner: the only player of the turn order that still has units.
pub fn get_winner(state: &GameState) -> (r: Option<u8>)
    ensures
        r == winner(state@),
{
    let mut active: Vec<u8> = Vec::new();
    let mut i: usize = 0;
    while i < state.players.len()
        invariant
            i <= state.players@.len(),
            active@ == players_with_units(state.players@.take(i as int), state.units@),
        decreases state.players@.len() - i,
    {
        let pid = state.players[i];
        if owns_some_unit(&state.units, pid) {
            active.push(pid);
        }
        assert(state.players@.take(i + 1).drop_last() =~= state.players@.take(i as int));
        i = i + 1;
    }
    assert(state.players@.take(state.players@.len() as int) =~= state.players@);
    if active.len() == 1 {
        Some(active[0])
    } else {
        None
    }
}

/// Whether the unit of `player_id` on `unit` may be sent by the `i`-th
/// neighbour vector.
fn allowed_exec(state: &GameState, player_id: u8, unit: &Unit, i: usize, factory: bool) -> (r: (
    bool,
    i32,
    i32,
))
    requires
        board_ok(state@),
        i < 8,
        unit.position.x < state.config.width,
        unit.position.y < state.config.height,
    ensures
        (r.1, r.2) == neighbour(i as int),
        r.0 == move_allowed(state@, player_id, unit.position, neighbour(i as int), factory),
{
    let (dx, dy) = neighbour_vector(i);
    match apply_delta(&unit.position, dx, dy, state.config.width, state.config.height) {
        None => (false, dx, dy),
        Some(target) => {
            match cell_at(&state.cells, target.x, target.y) {
                Cell::Empty => (true, dx, dy),
                Cell::Unit(tid) => {
                    if factory {
                        (false, dx, dy)
                    } else {
                        match state.units.get(&tid) {
                            Some(tu) => (tu.owner != player_id, dx, dy),
                            None => (false, dx, dy),
                        }
                    }
                },
            }
        },
    }
}

/// All actions that player `player_id` may give its unit `unit_id`, in a
/// fixed order: for a combat unit, staying first, then each neighbour vector
/// onto an empty or enemy cell; for a factory, each vector onto an empty cell.
pub fn get_valid_actions(state: &GameState, player_id: u8, unit_id: u32) -> (r: Vec<Action>)
    requires
        board_ok(state@),
    ensures
        r@ == valid_actions(state@, player_id, unit_id),
{
    let unit = match state.units.get(&unit_id) {
        Some(u) => {
            if u.owner == player_id {
                *u
            } else {
                return Vec::new();
            }
        },
        None => {
            return Vec::new();
        },
    };
    assert(state@.units.contains_key(unit_id));
    let factory = match unit.unit_type {
        UnitType::Factory => true,
        _ => false,
    };
    let mut actions: Vec<Action> = Vec::new();
    if !factory {
        actions.push(Action { unit_id, dx: 0, dy: 0 });
    }
    let ghost prefix: Seq<Action> = actions@;
    let mut i: usize = 0;
    while i < 8
        invariant
            board_ok(state@),
            i <= 8,
            unit == state@.units[unit_id],
            state@.units.contains_key(unit_id),
            unit.position.x < state.config.width,
            unit.position.y < state.config.height,
            actions@ == prefix + moves_upto(state@, player_id, unit_id, unit.position, factory, i as nat),
        decreases 8 - i,
    {
        let (ok, dx, dy) = allowed_exec(state, player_id, &unit, i, factory);
        if ok {
            actions.push(Action { unit_id, dx, dy });
        }
        i = i + 1;
    }
    assert(factory ==> prefix =~= Seq::<Action>::empty());
    actions
}

/// Marks in `visible` the cells on the board that `u` sees.
fn mark_sight(visible: &mut Vec<Vec<bool>>, u: &Unit, w: u32, h: u32)
    requires
        old(visible)@.len() == h,
        forall|y: int| 0 <= y < h ==> (#[trigger] old(visible)@[y])@.len() == w,
    ensures
        final(visible)@.len() == h,
        forall|y: int| 0 <= y < h ==> (#[trigger] final(visible)@[y])@.len() == w,
        forall|x: int, y: int|
            0 <= x < w && 0 <= y < h ==> (#[trigger] final(visible)@[y]@[x]) == (old(
                visible,
            )@[y]@[x] || covers(*u, x, y)),
{
    let r = visibility_radius(&u.unit_type) as u64;
    let px = u.position.x as u64;
    let py = u.position.y as u64;
    let x1: u64 = if px + r < w as u64 {
        px + r + 1
    } else {
        w as u64
    };
    let x0: u64 = if px < r {
        0
    } else if px - r > x1 {
        x1
    } else {
        px - r
    };
    let y1: u64 = if py + r < h as u64 {
        py + r + 1
    } else {
        h as u64
    };
    let y0: u64 = if py < r {
        0
    } else if py - r > y1 {
        y1
    } else {
        py - r
    };
    let mut y: u64 = y0;
    while y < y1
        invariant
            y0 <= y <= y1 <= h,
            x0 <= x1 <= w,
            r == crate::board::radius(u.unit_type),
            px == u.position.x,
            py == u.position.y,
            x1 == (if px + r < w { px + r + 1 } else { w as int }),
            x0 == (if px < r { 0 } else if px - r > x1 { x1 as int } else { px - r }),
            y1 == (if py + r < h { py + r + 1 } else { h as int }),
            y0 == (if py < r { 0 } else if py - r > y1 { y1 as int } else { py - r }),
            visible@.len() == h,
            forall|yy: int| 0 <= yy < h ==> (#[trigger] visible@[yy])@.len() == w,
            forall|xx: int, yy: int|
                0 <= xx < w && 0 <= yy < h ==> (#[trigger] visible@[yy]@[xx]) == (old(
                    visible,
                )@[yy]@[xx] || (covers(*u, xx, yy) && yy < y)),
        decreases y1 - y,
    {
        let mut x: u64 = x0;
        while x < x1
            invariant
                y0 <= y < y1 <= h,
                x0 <= x <= x1 <= w,
                r == crate::board::radius(u.unit_type),
                px == u.position.x,
                py == u.position.y,
                x1 == (if px + r < w { px + r + 1 } else { w as int }),
                x0 == (if px < r { 0 } else if px - r > x1 { x1 as int } else { px - r }),
                y1 == (if py + r < h { py + r + 1 } else { h as int }),
                y0 == (if py < r { 0 } else if py - r > y1 { y1 as int } else { py - r }),
                visible@.len() == h,
                forall|yy: int| 0 <= yy < h ==> (#[trigger] visible@[yy])@.len() == w,
                forall|xx: int, yy: int|
                    0 <= xx < w && 0 <= yy < h ==> (#[trigger] visible@[yy]@[xx]) == (old(
                        visible,
                    )@[yy]@[xx] || (covers(*u, xx, yy) && (yy < y || (yy == y && xx < x)))),
            decreases x1 - x,
        {
            visible[y as usize][x as usize] = true;
            x = x + 1;
        }
        y = y + 1;
    }
}

/// Which cells player `player_id` sees: those within sight of one of its
/// units, or of a cell such a unit has left this turn.
pub(crate) fn sight_grid(state: &GameState, player_id: u8) -> (visible: Vec<Vec<bool>>)
    requires
        board_ok(state@),
    ensures
        visible@.len() == state.config.height,
        forall|y: int| 0 <= y < state.config.height ==> (#[trigger] visible@[y])@.len() == state.config.width,
        forall|x: int, y: int|
            0 <= x < state.config.width && 0 <= y < state.config.height ==> (#[trigger] visible@[y]@[x])
                == (sees(state@.units, player_id, x, y) || saw_before(
                state@.departures,
                player_id,
                x,
                y,
            )),
{
    let w = state.config.width;
    let h = state.config.height;
    let ghost m = state@;

    let mut visible: Vec<Vec<bool>> = Vec::new();
    let mut yi: u32 = 0;
    while yi < h
        invariant
            yi <= h,
            visible@.len() == yi,
            forall|y: int| 0 <= y < yi ==> (#[trigger] visible@[y])@.len() == w,
            forall|x: int, y: int| 0 <= x < w && 0 <= y < yi ==> !(#[trigger] visible@[y]@[x]),
        decreases h - yi,
    {
        let mut row: Vec<bool> = Vec::new();
        let mut xi: u32 = 0;
        while xi < w
            invariant
                xi <= w,
                row@.len() == xi,
                forall|x: int| 0 <= x < xi ==> !(#[trigger] row@[x]),
            decreases w - xi,
        {
            row.push(false);
            xi = xi + 1;
        }
        visible.push(row);
        yi = yi + 1;
    }

    let mut k: u32 = 0;
    while k < state.next_unit_id
        invariant
            board_ok(state@),
            m == state@,
            w == state.config.width,
            h == state.config.height,
            k <= state.next_unit_id,
            visible@.len() == h,
            forall|y: int| 0 <= y < h ==> (#[trigger] visible@[y])@.len() == w,
            forall|x: int, y: int|
                0 <= x < w && 0 <= y < h ==> (#[trigger] visible@[y]@[x]) == seen_below(
                    m.units,
                    player_id,
                    k as int,
                    x,
                    y,
                ),
        decreases state.next_unit_id - k,
    {
        match state.units.get(&k) {
            Some(u) => {
                assert(m.units.contains_key(k));
                if u.owner == player_id {
                    mark_sight(&mut visible, u, w, h);
                    assert forall|x: int, y: int|
                        0 <= x < w && 0 <= y < h implies (#[trigger] visible@[y]@[x])
                        == seen_below(m.units, player_id, k + 1, x, y) by {
                        if covers(*u, x, y) {
                            assert(m.units.contains_key(k));
                        }
                        if seen_below(m.units, player_id, k + 1, x, y) && !covers(*u, x, y) {
                            let j = choose|j: u32|
                                j < k + 1 && #[trigger] m.units.contains_key(j)
                                    && m.units[j].owner == player_id && covers(m.units[j], x, y);
                            assert(j < k);
                        }
                    }
                } else {
                    assert forall|x: int, y: int|
                        0 <= x < w && 0 <= y < h implies (#[trigger] visible@[y]@[x])
                        == seen_below(m.units, player_id, k + 1, x, y) by {
                        if seen_below(m.units, player_id, k + 1, x, y) {
                            let j = choose|j: u32|
                                j < k + 1 && #[trigger] m.units.contains_key(j)
                                    && m.units[j].owner == player_id && covers(m.units[j], x, y);
                            assert(j < k);
                        }
                    }
                }
            },
            None => {
                assert forall|x: int, y: int|
                    0 <= x < w && 0 <= y < h implies (#[trigger] visible@[y]@[x]) == seen_below(
                        m.units,
                        player_id,
                        k + 1,
                        x,
                        y,
                    ) by {
                    if seen_below(m.units, player_id, k + 1, x, y) {
                        let j = choose|j: u32|
                            j < k + 1 && #[trigger] m.units.contains_key(j) && m.units[j].owner
                                == player_id && covers(m.units[j], x, y);
                        assert(j < k);
                    }
                }
            },
        }
        k = k + 1;
    }

    // The sight this player's units had from cells they left this turn.
    let mut d: usize = 0;
    while d < state.departures.len()
        invariant
            board_ok(state@),
            m == state@,
            w == state.config.width,
            h == state.config.height,
            k == state.next_unit_id,
            d <= m.departures.len(),
            visible@.len() == h,
            forall|y: int| 0 <= y < h ==> (#[trigger] visible@[y])@.len() == w,
            forall|x: int, y: int|
                0 <= x < w && 0 <= y < h ==> (#[trigger] visible@[y]@[x]) == (seen_below(
                    m.units,
                    player_id,
                    k as int,
                    x,
                    y,
                ) || saw_before(m.departures.take(d as int), player_id, x, y)),
        decreases m.departures.len() - d,
    {
        let u = state.departures[d];
        if u.owner == player_id {
            mark_sight(&mut visible, &u, w, h);
        }
        assert forall|x: int, y: int|
            0 <= x < w && 0 <= y < h implies (#[trigger] visible@[y]@[x]) == (seen_below(
                m.units,
                player_id,
                k as int,
                x,
                y,
            ) || saw_before(m.departures.take(d + 1), player_id, x, y)) by {
            let before = m.departures.take(d as int);
            let after = m.departures.take(d + 1);
            if saw_before(before, player_id, x, y) {
                let i = choose|i: int|
                    0 <= i < before.len() && #[trigger] before[i].owner == player_id && covers(
                        before[i],
                        x,
                        y,
                    );
                assert(after[i] == before[i]);
            }
            if saw_before(after, player_id, x, y) {
                let i = choose|i: int|
                    0 <= i < after.len() && #[trigger] after[i].owner == player_id && covers(
                        after[i],
                        x,
                        y,
                    );
                if i < d {
                    assert(before[i] == after[i]);
                } else {
                    assert(after[i] == u);
                }
            }
            if u.owner == player_id && covers(u, x, y) {
                assert(after[d as int] == u);
            }
        }
        d = d + 1;
    }
    assert(m.departures.take(m.departures.len() as int) =~= m.departures);

    assert forall|x: int, y: int| 0 <= x < w && 0 <= y < h implies (#[trigger] visible@[y]@[x])
        == (sees(m.units, player_id, x, y) || saw_before(m.departures, player_id, x, y)) by {
        if sees(m.units, player_id, x, y) {
            let j = choose|j: u32|
                #[trigger] m.units.contains_key(j) && m.units[j].owner == player_id && covers(
                    m.units[j],
                    x,
                    y,
                );
            assert(seen_below(m.units, player_id, k as int, x, y));
        }
    }
    visible
}

/// What player `player_id` sees: each cell within sight of one of its units,
/// or of a cell one of them has left this turn, is visible with its content,
/// every other cell is fog; its units in ascending id order; whose turn it
/// is, the round and the winner.
pub fn get_visible_state(state: &GameState, player_id: u8) -> (r: PlayerView)
    requires
        board_ok(state@),
        state.current_player_index < state.players.len(),
    ensures
        r.player_id == player_id,
        r.width == state.config.width,
        r.height == state.config.height,
        r.tiles@.len() == state.config.height,
        forall|y: int|
            0 <= y < state.config.height ==> (#[trigger] r.tiles@[y])@.len() == state.config.width,
        forall|x: int, y: int|
            0 <= x < state.config.width && 0 <= y < state.config.height ==> (#[trigger] r.tiles@[y]@[x])
                == tile(state@, player_id, x, y),
        r.my_units@ == owned_units(state@.units, player_id, state.next_unit_id as nat),
        r.current_player == current_player(state@),
        r.round == state.round,
        r.winner == winner(state@),
{
    let w = state.config.width;
    let h = state.config.height;
    let ghost m = state@;

    let visible = sight_grid(state, player_id);
    let mut k: u32 = 0;
    let mut mine: Vec<Unit> = Vec::new();
    while k < state.next_unit_id
        invariant
            m == state@,
            k <= state.next_unit_id,
            mine@ == owned_units(m.units, player_id, k as nat),
        decreases state.next_unit_id - k,
    {
        match state.units.get(&k) {
            Some(u) => {
                if u.owner == player_id {
                    mine.push(*u);
                }
            },
            None => {},
        }
        k = k + 1;
    }

    let mut tiles: Vec<Vec<TileVisibility>> = Vec::new();
    let mut y: u32 = 0;
    while y < h
        invariant
            board_ok(state@),
            m == state@,
            w == state.config.width,
            h == state.config.height,
            y <= h,
            visible@.len() == h,
            forall|yy: int| 0 <= yy < h ==> (#[trigger] visible@[yy])@.len() == w,
            forall|xx: int, yy: int|
                0 <= xx < w && 0 <= yy < h ==> (#[trigger] visible@[yy]@[xx]) == (sees(
                    m.units,
                    player_id,
                    xx,
                    yy,
                ) || saw_before(m.departures, player_id, xx, yy)),
            tiles@.len() == y,
            forall|yy: int| 0 <= yy < y ==> (#[trigger] tiles@[yy])@.len() == w,
            forall|xx: int, yy: int|
                0 <= xx < w && 0 <= yy < y ==> (#[trigger] tiles@[yy]@[xx]) == tile(
                    m,
                    player_id,
                    xx,
                    yy,
                ),
        decreases h - y,
    {
        let mut row: Vec<TileVisibility> = Vec::new();
        let mut x: u32 = 0;
        while x < w
            invariant
                board_ok(state@),
                m == state@,
                w == state.config.width,
                h == state.config.height,
                y < h,
                x <= w,
                    visible@.len() == h,
                forall|yy: int| 0 <= yy < h ==> (#[trigger] visible@[yy])@.len() == w,
                forall|xx: int, yy: int|
                    0 <= xx < w && 0 <= yy < h ==> (#[trigger] visible@[yy]@[xx]) == (sees(
                        m.units,
                        player_id,
                        xx,
                        yy,
                    ) || saw_before(m.departures, player_id, xx, yy)),
                row@.len() == x,
                forall|xx: int| 0 <= xx < x ==> (#[trigger] row@[xx]) == tile(m, player_id, xx, y as int),
            decreases w - x,
        {
            let c = cell_at(&state.cells, x, y);
            let seen = visible[y as usize][x as usize];
            if seen {
                row.push(TileVisibility::Visible(c));
            } else {
                row.push(TileVisibility::Fog);
            }
            x = x + 1;
        }
        tiles.push(row);
        y = y + 1;
    }

    let current = state.players[state.current_player_index];
    PlayerView {
        player_id,
        width: w,
        height: h,
        tiles,
        my_units: mine,
        current_player: current,
        round: state.round,
        winner: get_winner(state),
    }
}

} // verus!
