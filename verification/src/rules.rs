//! The rules of the game as mathematical functions on `GameModel`. Each
//! operation of the engine is proved to compute exactly these.
use crate::board::{has_free_neighbour, neighbour, radius, set_cell, shifted};
use crate::types::{
    Action, Cell, ErrorModel, GameModel, Position, SnapshotModel, TileVisibility, Unit, UnitType,
};
use vstd::prelude::*;

verus! {

// ─── Winner ─────────────────────────────────────────────────────────────

/// Player `p` has at least one unit.
pub open spec fn has_units(units: Map<u32, Unit>, p: u8) -> bool {
    exists|k: u32| #[trigger] units.contains_key(k) && units[k].owner == p
}

/// The players of `ps` that still have units, in turn order.
pub open spec fn players_with_units(ps: Seq<u8>, units: Map<u32, Unit>) -> Seq<u8>
    decreases ps.len(),
{
    if ps.len() == 0 {
        Seq::empty()
    } else {
        let rest = players_with_units(ps.drop_last(), units);
        if has_units(units, ps.last()) {
            rest.push(ps.last())
        } else {
            rest
        }
    }
}

/// The winner: the only active player that still has units, if there is
/// exactly one.
pub open spec fn winner(m: GameModel) -> Option<u8> {
    let active = players_with_units(m.players, m.units);
    if active.len() == 1 {
        Some(active[0])
    } else {
        None
    }
}

// ─── Actions ────────────────────────────────────────────────────────────

/// The refusal of an invalid action with message `msg`.
pub open spec fn invalid(msg: Seq<char>) -> Result<(), ErrorModel> {
    Err(ErrorModel::InvalidAction(msg))
}

/// `m` with the unit `uid` replaced by `u`.
pub open spec fn with_unit(m: GameModel, uid: u32, u: Unit) -> GameModel {
    GameModel { units: m.units.insert(uid, u), ..m }
}

/// The unit `uid` moves from `from` onto `t`, which becomes its cell, and
/// has acted.
pub open spec fn moved(m: GameModel, uid: u32, from: Position, t: Position) -> GameModel {
    let u = m.units[uid];
    GameModel {
        grid: set_cell(
            set_cell(m.grid, from.x as int, from.y as int, Cell::Empty),
            t.x as int,
            t.y as int,
            Cell::Unit(uid),
        ),
        units: m.units.insert(uid, Unit { position: t, acted: true, ..u }),
        ..m
    }
}

/// The infantry rules for the infantry `uid` standing on `from` and sent
/// onto the cell `t`: an empty cell is entered; an enemy infantry or factory
/// is destroyed and its cell taken; an enemy fortification destroys the
/// attacker and becomes infantry; an own unit refuses the move.
pub open spec fn infantry_move(m: GameModel, uid: u32, from: Position, t: Position) -> (
    GameModel,
    Result<(), ErrorModel>,
) {
    match m.grid[t.y as int][t.x as int] {
        Cell::Empty => (moved(m, uid, from, t), Ok(())),
        Cell::Unit(tid) => {
            let target = m.units[tid];
            if target.owner == m.units[uid].owner {
                (m, invalid("Cannot attack own unit"@))
            } else {
                match target.unit_type {
                    UnitType::Fortification { .. } => (
                        GameModel {
                            grid: set_cell(m.grid, from.x as int, from.y as int, Cell::Empty),
                            units: m.units.remove(uid).insert(
                                tid,
                                Unit { unit_type: UnitType::Infantry, ..target },
                            ),
                            ..m
                        },
                        Ok(()),
                    ),
                    _ => (moved(GameModel { units: m.units.remove(tid), ..m }, uid, from, t), Ok(())),
                }
            }
        },
    }
}

/// The factory `uid` of player `pid` produces an infantry on `t`. The new
/// unit takes the next id and may not act this turn.
pub open spec fn produced(m: GameModel, pid: u8, uid: u32, t: Position) -> GameModel {
    let nid = m.next_unit_id;
    let fresh = Unit {
        id: nid,
        owner: pid,
        unit_type: UnitType::Infantry,
        position: t,
        acted: true,
    };
    GameModel {
        next_unit_id: (nid + 1) as u32,
        grid: set_cell(m.grid, t.x as int, t.y as int, Cell::Unit(nid)),
        units: m.units.insert(nid, fresh).insert(uid, Unit { acted: true, ..m.units[uid] }),
        ..m
    }
}

/// Player `pid` has a combat unit (infantry or fortification) that has not
/// acted yet.
pub open spec fn has_unacted_combat(units: Map<u32, Unit>, pid: u8) -> bool {
    exists|k: u32|
        #[trigger] units.contains_key(k) && units[k].owner == pid && !units[k].acted
            && units[k].unit_type != UnitType::Factory
}

/// Each component of the vector `a` is -1, 0 or 1.
pub open spec fn unit_step(a: Action) -> bool {
    -1 <= a.dx <= 1 && -1 <= a.dy <= 1
}

/// Applying `a` to the unit `uid` on behalf of `pid` makes that factory
/// produce a new unit: every check passes and the target cell is empty.
pub open spec fn produces(m: GameModel, pid: u8, uid: u32, a: Action) -> bool {
    &&& winner(m) is None
    &&& m.players[m.current_player_index as int] == pid
    &&& m.units.contains_key(uid)
    &&& m.units[uid].owner == pid
    &&& !m.units[uid].acted
    &&& unit_step(a)
    &&& m.units[uid].unit_type == UnitType::Factory
    &&& !has_unacted_combat(m.units, pid)
    &&& !(a.dx == 0 && a.dy == 0)
    &&& match shifted(m.units[uid].position, a.dx, a.dy, m.config.width, m.config.height) {
        Some(t) => m.grid[t.y as int][t.x as int] == Cell::Empty,
        None => false,
    }
}

/// A successful move of `u` records where it stood, so that its player keeps
/// that sight until the turn ends.
pub open spec fn departed(res: (GameModel, Result<(), ErrorModel>), u: Unit) -> (
    GameModel,
    Result<(), ErrorModel>,
) {
    if res.1 is Ok {
        (GameModel { departures: res.0.departures.push(u), ..res.0 }, res.1)
    } else {
        res
    }
}

/// What applying `a` to the unit `uid` on behalf of `pid` yields: the next
/// state and the answer.
pub open spec fn action_outcome(m: GameModel, pid: u8, uid: u32, a: Action) -> (
    GameModel,
    Result<(), ErrorModel>,
) {
    if winner(m) is Some {
        (m, Err(ErrorModel::GameOver))
    } else if m.players[m.current_player_index as int] != pid {
        (m, Err(ErrorModel::NotYourTurn))
    } else if !m.units.contains_key(uid) || m.units[uid].owner != pid {
        (m, Err(ErrorModel::UnitNotFound))
    } else if m.units[uid].acted {
        (m, Err(ErrorModel::UnitAlreadyActed))
    } else if !unit_step(a) {
        (m, invalid("Vector out of range"@))
    } else {
        let u = m.units[uid];
        let stay = a.dx == 0 && a.dy == 0;
        let target = shifted(u.position, a.dx, a.dy, m.config.width, m.config.height);
        match u.unit_type {
            UnitType::Infantry => {
                if stay {
                    (
                        with_unit(
                            m,
                            uid,
                            Unit {
                                unit_type: UnitType::Fortification { turns_standing: 1 },
                                acted: true,
                                ..u
                            },
                        ),
                        Ok(()),
                    )
                } else {
                    match target {
                        None => (m, invalid("Out of bounds"@)),
                        Some(t) => departed(infantry_move(m, uid, u.position, t), u),
                    }
                }
            },
            UnitType::Fortification { turns_standing } => {
                if stay {
                    let next_type = if turns_standing >= 3 {
                        UnitType::Factory
                    } else {
                        UnitType::Fortification { turns_standing: (turns_standing + 1) as u8 }
                    };
                    (with_unit(m, uid, Unit { unit_type: next_type, acted: true, ..u }), Ok(()))
                } else {
                    match target {
                        None => (m, invalid("Out of bounds"@)),
                        Some(t) => departed(
                            infantry_move(
                                with_unit(m, uid, Unit { unit_type: UnitType::Infantry, ..u }),
                                uid,
                                u.position,
                                t,
                            ),
                            u,
                        ),
                    }
                }
            },
            UnitType::Factory => {
                if has_unacted_combat(m.units, pid) {
                    (m, invalid("Combat units must act before factories"@))
                } else if stay {
                    (m, invalid("Factory cannot stay"@))
                } else {
                    match target {
                        None => (m, invalid("Out of bounds"@)),
                        Some(t) => if m.grid[t.y as int][t.x as int] == Cell::Empty {
                            (produced(m, pid, uid, t), Ok(()))
                        } else {
                            (m, invalid("Factory target cell not empty"@))
                        },
                    }
                }
            },
        }
    }
}

// ─── Ending a turn ──────────────────────────────────────────────────────

/// The ids below `n` of the units of `pid` that have not acted, ascending.
pub open spec fn unacted_ids(units: Map<u32, Unit>, pid: u8, n: nat) -> Seq<u32>
    decreases n,
{
    if n == 0 {
        Seq::empty()
    } else {
        let rest = unacted_ids(units, pid, (n - 1) as nat);
        let k = (n - 1) as u32;
        if units.contains_key(k) && units[k].owner == pid && !units[k].acted {
            rest.push(k)
        } else {
            rest
        }
    }
}

/// The digit character for `d < 10`.
pub open spec fn digit_char(d: nat) -> char {
    if d == 0 {
        '0'
    } else if d == 1 {
        '1'
    } else if d == 2 {
        '2'
    } else if d == 3 {
        '3'
    } else if d == 4 {
        '4'
    } else if d == 5 {
        '5'
    } else if d == 6 {
        '6'
    } else if d == 7 {
        '7'
    } else if d == 8 {
        '8'
    } else {
        '9'
    }
}

/// The decimal digits of `n`.
pub open spec fn decimal(n: nat) -> Seq<char>
    decreases n,
{
    if n < 10 {
        seq![digit_char(n)]
    } else {
        decimal(n / 10) + seq![digit_char(n % 10)]
    }
}

/// The numbers of `s` in decimal, separated by `", "`.
pub open spec fn joined(s: Seq<u32>) -> Seq<char>
    decreases s.len(),
{
    if s.len() == 0 {
        Seq::empty()
    } else if s.len() == 1 {
        decimal(s[0] as nat)
    } else {
        joined(s.drop_last()) + ", "@ + decimal(s.last() as nat)
    }
}

/// A list of numbers written as `[a, b, c]`.
pub open spec fn list_text(s: Seq<u32>) -> Seq<char> {
    "["@ + joined(s) + "]"@
}

/// The message that refuses to end a turn while the units `ids` have not acted.
pub open spec fn unacted_message(ids: Seq<u32>) -> Seq<char> {
    "Units have not acted: "@ + list_text(ids)
}

/// The unit `k` is a factory of `pid` with no empty neighbour cell on the
/// board `g`.
pub open spec fn doomed(
    g: Seq<Seq<Cell>>,
    units: Map<u32, Unit>,
    pid: u8,
    w: u32,
    h: u32,
    k: u32,
) -> bool {
    &&& units.contains_key(k)
    &&& units[k].owner == pid
    &&& units[k].unit_type == UnitType::Factory
    &&& !has_free_neighbour(g, units[k].position, w, h)
}

/// Removes, among the ids below `n`, every factory of `pid` that has no empty
/// neighbour cell on the board `g` as the turn ended, together with its cell.
/// Each factory is judged on that same board, so the order of removal does
/// not matter.
pub open spec fn culled(
    g: Seq<Seq<Cell>>,
    units: Map<u32, Unit>,
    pid: u8,
    w: u32,
    h: u32,
    n: nat,
) -> (Seq<Seq<Cell>>, Map<u32, Unit>)
    decreases n,
{
    if n == 0 {
        (g, units)
    } else {
        let (g1, u1) = culled(g, units, pid, w, h, (n - 1) as nat);
        let k = (n - 1) as u32;
        if doomed(g, units, pid, w, h, k) {
            let p = units[k].position;
            (set_cell(g1, p.x as int, p.y as int, Cell::Empty), u1.remove(k))
        } else {
            (g1, u1)
        }
    }
}

/// The units of `p` may act again; the others are unchanged.
pub open spec fn ready_for(units: Map<u32, Unit>, p: u8) -> Map<u32, Unit> {
    units.map_values(|u: Unit| if u.owner == p { Unit { acted: false, ..u } } else { u })
}

/// What ending the turn of `pid` yields.
pub open spec fn end_turn_outcome(m: GameModel, pid: u8) -> (GameModel, Result<(), ErrorModel>) {
    let ids = unacted_ids(m.units, pid, m.next_unit_id as nat);
    if winner(m) is Some {
        (m, Err(ErrorModel::GameOver))
    } else if m.players[m.current_player_index as int] != pid {
        (m, Err(ErrorModel::NotYourTurn))
    } else if ids.len() > 0 {
        (m, invalid(unacted_message(ids)))
    } else {
        let (g1, u1) = culled(
            m.grid,
            m.units,
            pid,
            m.config.width,
            m.config.height,
            m.next_unit_id as nat,
        );
        let next = ((m.current_player_index + 1) % (m.players.len() as int)) as usize;
        let round = if next == 0 {
            (m.round + 1) as u32
        } else {
            m.round
        };
        let snap = SnapshotModel { player_id: pid, round, grid: g1, units: u1 };
        (
            GameModel {
                grid: g1,
                units: ready_for(u1, m.players[next as int]),
                snapshots: m.snapshots.push(snap),
                current_player_index: next,
                round,
                departures: Seq::empty(),
                ..m
            },
            Ok(()),
        )
    }
}

// ─── Disconnection and rollback ─────────────────────────────────────────

/// `ps` without `p`, order kept.
pub open spec fn players_without(ps: Seq<u8>, p: u8) -> Seq<u8>
    decreases ps.len(),
{
    if ps.len() == 0 {
        Seq::empty()
    } else {
        let rest = players_without(ps.drop_last(), p);
        if ps.last() == p {
            rest
        } else {
            rest.push(ps.last())
        }
    }
}

/// The board with the cells of `p`'s units emptied.
pub open spec fn cleared_of(g: Seq<Seq<Cell>>, units: Map<u32, Unit>, p: u8) -> Seq<Seq<Cell>> {
    g.map_values(
        |row: Seq<Cell>|
            row.map_values(
                |c: Cell|
                    match c {
                        Cell::Unit(k) => if units.contains_key(k) && units[k].owner == p {
                            Cell::Empty
                        } else {
                            c
                        },
                        Cell::Empty => c,
                    },
            ),
    )
}

/// The units that do not belong to `p`.
pub open spec fn units_without(units: Map<u32, Unit>, p: u8) -> Map<u32, Unit> {
    Map::new(|k: u32| units.contains_key(k) && units[k].owner != p, |k: u32| units[k])
}

/// The recorded departures that are not of player `p`, order kept.
pub open spec fn departures_without(d: Seq<Unit>, p: u8) -> Seq<Unit>
    decreases d.len(),
{
    if d.len() == 0 {
        Seq::empty()
    } else {
        let rest = departures_without(d.drop_last(), p);
        if d.last().owner == p {
            rest
        } else {
            rest.push(d.last())
        }
    }
}

/// What removing player `pid` yields: its units leave the board, it leaves
/// the turn order, its departures are forgotten, and the turn stays with the
/// current player, or, when the removed player was the current one, passes to
/// the player after it.
pub open spec fn removal_outcome(m: GameModel, pid: u8) -> GameModel {
    let ps = players_without(m.players, pid);
    let old_index = m.current_player_index as int;
    let index = if ps.len() == 0 {
        0
    } else if m.players[old_index] == pid {
        old_index % (ps.len() as int)
    } else if m.players.take(old_index).contains(pid) {
        old_index - 1
    } else {
        old_index
    };
    GameModel {
        grid: cleared_of(m.grid, m.units, pid),
        units: units_without(m.units, pid),
        players: ps,
        current_player_index: index as usize,
        departures: departures_without(m.departures, pid),
        ..m
    }
}

/// The first index at or after `i` where `ps` holds `p`.
pub open spec fn find_from(ps: Seq<u8>, p: u8, i: nat) -> Option<nat>
    decreases ps.len() - i,
{
    if i >= ps.len() {
        None
    } else if ps[i as int] == p {
        Some(i)
    } else {
        find_from(ps, p, i + 1)
    }
}

/// The units whose owner is one of `ps`.
pub open spec fn units_of(units: Map<u32, Unit>, ps: Seq<u8>) -> Map<u32, Unit> {
    Map::new(|k: u32| units.contains_key(k) && ps.contains(units[k].owner), |k: u32| units[k])
}

/// The board with every cell that names a unit missing from `units` emptied.
pub open spec fn without_missing(g: Seq<Seq<Cell>>, units: Map<u32, Unit>) -> Seq<Seq<Cell>> {
    g.map_values(
        |row: Seq<Cell>|
            row.map_values(
                |c: Cell|
                    match c {
                        Cell::Unit(k) => if units.contains_key(k) {
                            c
                        } else {
                            Cell::Empty
                        },
                        Cell::Empty => c,
                    },
            ),
    )
}

/// What rolling back to snapshot `i` yields: the board, units and round of
/// that snapshot, without the units of players no longer active; later
/// snapshots are dropped, no departures are recorded, and the turn goes to
/// the player after the one whose turn the snapshot closed.
pub open spec fn rollback_outcome(m: GameModel, i: int) -> GameModel {
    let s = m.snapshots[i];
    let units = units_of(s.units, m.players);
    let next = match find_from(m.players, s.player_id, 0) {
        Some(j) => ((j + 1) % m.players.len()) as usize,
        None => 0usize,
    };
    GameModel {
        grid: without_missing(s.grid, units),
        units: ready_for(units, m.players[next as int]),
        round: s.round,
        snapshots: m.snapshots.take(i + 1),
        current_player_index: next,
        departures: Seq::empty(),
        ..m
    }
}

} // verus!

verus! {

// ─── Queries ────────────────────────────────────────────────────────────

/// A unit of player `pid` standing on `p` may be sent by the vector `d`: the
/// target is on the board and empty, or, for a combat unit, holds an enemy.
pub open spec fn move_allowed(m: GameModel, pid: u8, p: Position, d: (i32, i32), factory: bool) -> bool {
    match shifted(p, d.0, d.1, m.config.width, m.config.height) {
        None => false,
        Some(t) => match m.grid[t.y as int][t.x as int] {
            Cell::Empty => true,
            Cell::Unit(tid) => !factory && m.units.contains_key(tid) && m.units[tid].owner != pid,
        },
    }
}

/// The allowed vectors among the first `n` neighbour vectors, in scan order.
pub open spec fn moves_upto(
    m: GameModel,
    pid: u8,
    uid: u32,
    p: Position,
    factory: bool,
    n: nat,
) -> Seq<Action>
    decreases n,
{
    if n == 0 {
        Seq::empty()
    } else {
        let rest = moves_upto(m, pid, uid, p, factory, (n - 1) as nat);
        let d = neighbour((n - 1) as int);
        if move_allowed(m, pid, p, d, factory) {
            rest.push(Action { unit_id: uid, dx: d.0, dy: d.1 })
        } else {
            rest
        }
    }
}

/// The actions player `pid` may give its unit `uid`: for a combat unit,
/// staying and every vector onto an empty or enemy cell; for a factory,
/// every vector onto an empty cell. None for a unit that is not `pid`'s.
pub open spec fn valid_actions(m: GameModel, pid: u8, uid: u32) -> Seq<Action> {
    if !m.units.contains_key(uid) || m.units[uid].owner != pid {
        Seq::empty()
    } else {
        let u = m.units[uid];
        match u.unit_type {
            UnitType::Factory => moves_upto(m, pid, uid, u.position, true, 8),
            _ => seq![Action { unit_id: uid, dx: 0, dy: 0 }] + moves_upto(
                m,
                pid,
                uid,
                u.position,
                false,
                8,
            ),
        }
    }
}

/// The cell `(x, y)` lies within the sight of unit `u`.
pub open spec fn covers(u: Unit, x: int, y: int) -> bool {
    let r = radius(u.unit_type);
    &&& u.position.x - r <= x <= u.position.x + r
    &&& u.position.y - r <= y <= u.position.y + r
}

/// Some unit of `pid` with an id below `n` sees `(x, y)`.
pub open spec fn seen_below(units: Map<u32, Unit>, pid: u8, n: int, x: int, y: int) -> bool {
    exists|k: u32|
        k < n && #[trigger] units.contains_key(k) && units[k].owner == pid && covers(units[k], x, y)
}

/// Some unit of `pid` sees `(x, y)`.
pub open spec fn sees(units: Map<u32, Unit>, pid: u8, x: int, y: int) -> bool {
    exists|k: u32| #[trigger] units.contains_key(k) && units[k].owner == pid && covers(units[k], x, y)
}

/// Some unit of `pid` saw `(x, y)` from a cell it has left this turn.
pub open spec fn saw_before(departures: Seq<Unit>, pid: u8, x: int, y: int) -> bool {
    exists|i: int|
        0 <= i < departures.len() && #[trigger] departures[i].owner == pid && covers(
            departures[i],
            x,
            y,
        )
}

/// What player `pid` is shown of the cell `(x, y)`: the cell as it is now
/// when a unit of the player sees it, or saw it this turn from a cell it has
/// since left; fog otherwise.
pub open spec fn tile(m: GameModel, pid: u8, x: int, y: int) -> TileVisibility {
    if sees(m.units, pid, x, y) || saw_before(m.departures, pid, x, y) {
        TileVisibility::Visible(m.grid[y][x])
    } else {
        TileVisibility::Fog
    }
}

/// The units of `pid` with an id below `n`, ascending.
pub open spec fn owned_units(units: Map<u32, Unit>, pid: u8, n: nat) -> Seq<Unit>
    decreases n,
{
    if n == 0 {
        Seq::empty()
    } else {
        let rest = owned_units(units, pid, (n - 1) as nat);
        let k = (n - 1) as u32;
        if units.contains_key(k) && units[k].owner == pid {
            rest.push(units[k])
        } else {
            rest
        }
    }
}

} // verus!
