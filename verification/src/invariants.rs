//! Every operation keeps the board and the unit table in agreement.
use crate::board::{
    board_consistent, grid_shaped, has_free_neighbour, owners_active, set_cell, shifted, wf,
};
use crate::rules::{
    action_outcome, culled, doomed, has_unacted_combat, unit_step, end_turn_outcome, infantry_move, moved, produced, produces, ready_for,
    removal_outcome, rollback_outcome, units_of, with_unit, without_missing, winner, find_from,
};
use crate::roster::lemma_players_without;
use crate::types::{Action, Cell, GameModel, Position, Unit, UnitType};
use vstd::prelude::*;

verus! {

/// Writing one in-bounds cell keeps the board's shape.
pub proof fn lemma_set_cell_shape(g: Seq<Seq<Cell>>, w: u32, h: u32, x: int, y: int, c: Cell)
    requires
        grid_shaped(g, w, h),
        0 <= x < w,
        0 <= y < h,
    ensures
        grid_shaped(set_cell(g, x, y, c), w, h),
        forall|xx: int, yy: int|
            0 <= xx < w && 0 <= yy < h ==> #[trigger] set_cell(g, x, y, c)[yy][xx] == if xx == x
                && yy == y {
                c
            } else {
                g[yy][xx]
            },
{
}

/// Replacing a unit by one with the same id, owner and position keeps the
/// invariant.
pub proof fn lemma_with_unit_wf(m: GameModel, uid: u32, u: Unit)
    requires
        wf(m),
        m.units.contains_key(uid),
        u.id == uid,
        u.owner == m.units[uid].owner,
        u.position == m.units[uid].position,
    ensures
        wf(with_unit(m, uid, u)),
{
    let m2 = with_unit(m, uid, u);
    assert(board_consistent(m2.grid, m2.units, m.config.width, m.config.height, m.next_unit_id));
}

/// A unit moving onto an empty cell keeps the invariant.
pub proof fn lemma_moved_wf(m: GameModel, uid: u32, t: Position)
    requires
        wf(m),
        m.units.contains_key(uid),
        t.x < m.config.width,
        t.y < m.config.height,
        m.grid[t.y as int][t.x as int] == Cell::Empty,
    ensures
        wf(moved(m, uid, m.units[uid].position, t)),
{
    let w = m.config.width;
    let h = m.config.height;
    let from = m.units[uid].position;
    let g1 = set_cell(m.grid, from.x as int, from.y as int, Cell::Empty);
    lemma_set_cell_shape(m.grid, w, h, from.x as int, from.y as int, Cell::Empty);
    lemma_set_cell_shape(g1, w, h, t.x as int, t.y as int, Cell::Unit(uid));
    let m2 = moved(m, uid, from, t);
    assert forall|k: u32| #[trigger] m2.units.contains_key(k) implies {
        let u = m2.units[k];
        &&& u.id == k
        &&& k < m.next_unit_id
        &&& u.position.x < w
        &&& u.position.y < h
        &&& m2.grid[u.position.y as int][u.position.x as int] == Cell::Unit(k)
    } by {
        if k != uid {
            assert(m.units.contains_key(k));
        }
    }
    assert forall|x: int, y: int| 0 <= x < w && 0 <= y < h implies match #[trigger] m2.grid[y][x] {
        Cell::Unit(k) => m2.units.contains_key(k) && m2.units[k].position == Position {
            x: x as u32,
            y: y as u32,
        },
        Cell::Empty => true,
    } by {
        let c = m.grid[y][x];
    }
    assert(board_consistent(m2.grid, m2.units, w, h, m.next_unit_id));
    assert(owners_active(m2.units, m2.players)) by {
        assert forall|k: u32| #[trigger] m2.units.contains_key(k) implies m2.players.contains(
            m2.units[k].owner,
        ) by {
            assert(m.units.contains_key(k));
        }
    }
}


/// An attacker taking the cell of the enemy unit `tid` keeps the invariant.
pub proof fn lemma_capture_wf(m: GameModel, uid: u32, tid: u32)
    requires
        wf(m),
        m.units.contains_key(uid),
        m.units.contains_key(tid),
        uid != tid,
    ensures
        wf(
            moved(
                GameModel { units: m.units.remove(tid), ..m },
                uid,
                m.units[uid].position,
                m.units[tid].position,
            ),
        ),
{
    let w = m.config.width;
    let h = m.config.height;
    let from = m.units[uid].position;
    let t = m.units[tid].position;
    let g1 = set_cell(m.grid, from.x as int, from.y as int, Cell::Empty);
    lemma_set_cell_shape(m.grid, w, h, from.x as int, from.y as int, Cell::Empty);
    lemma_set_cell_shape(g1, w, h, t.x as int, t.y as int, Cell::Unit(uid));
    let m1 = GameModel { units: m.units.remove(tid), ..m };
    let m2 = moved(m1, uid, from, t);
    assert(from != t) by {
        assert(m.grid[from.y as int][from.x as int] == Cell::Unit(uid));
        assert(m.grid[t.y as int][t.x as int] == Cell::Unit(tid));
    }
    assert forall|k: u32| #[trigger] m2.units.contains_key(k) implies {
        let u = m2.units[k];
        &&& u.id == k
        &&& k < m.next_unit_id
        &&& u.position.x < w
        &&& u.position.y < h
        &&& m2.grid[u.position.y as int][u.position.x as int] == Cell::Unit(k)
    } by {
        if k != uid {
            assert(m.units.contains_key(k));
            let p = m.units[k].position;
            assert(m.grid[p.y as int][p.x as int] == Cell::Unit(k));
        }
    }
    assert forall|x: int, y: int| 0 <= x < w && 0 <= y < h implies match #[trigger] m2.grid[y][x] {
        Cell::Unit(k) => m2.units.contains_key(k) && m2.units[k].position == Position {
            x: x as u32,
            y: y as u32,
        },
        Cell::Empty => true,
    } by {
        let c = m.grid[y][x];
    }
    assert(board_consistent(m2.grid, m2.units, w, h, m.next_unit_id));
    assert(owners_active(m2.units, m2.players)) by {
        assert forall|k: u32| #[trigger] m2.units.contains_key(k) implies m2.players.contains(
            m2.units[k].owner,
        ) by {
            assert(m.units.contains_key(k));
        }
    }
}

/// An attacker destroyed by the fortification `tid`, which becomes infantry,
/// keeps the invariant.
pub proof fn lemma_repulse_wf(m: GameModel, uid: u32, tid: u32)
    requires
        wf(m),
        m.units.contains_key(uid),
        m.units.contains_key(tid),
        uid != tid,
    ensures
        wf(
            GameModel {
                grid: set_cell(
                    m.grid,
                    m.units[uid].position.x as int,
                    m.units[uid].position.y as int,
                    Cell::Empty,
                ),
                units: m.units.remove(uid).insert(
                    tid,
                    Unit { unit_type: UnitType::Infantry, ..m.units[tid] },
                ),
                ..m
            },
        ),
{
    let w = m.config.width;
    let h = m.config.height;
    let from = m.units[uid].position;
    lemma_set_cell_shape(m.grid, w, h, from.x as int, from.y as int, Cell::Empty);
    let m2 = GameModel {
        grid: set_cell(m.grid, from.x as int, from.y as int, Cell::Empty),
        units: m.units.remove(uid).insert(tid, Unit { unit_type: UnitType::Infantry, ..m.units[tid] }),
        ..m
    };
    assert forall|k: u32| #[trigger] m2.units.contains_key(k) implies {
        let u = m2.units[k];
        &&& u.id == k
        &&& k < m.next_unit_id
        &&& u.position.x < w
        &&& u.position.y < h
        &&& m2.grid[u.position.y as int][u.position.x as int] == Cell::Unit(k)
    } by {
        assert(m.units.contains_key(k));
        let p = m.units[k].position;
        assert(m.grid[p.y as int][p.x as int] == Cell::Unit(k));
        assert(m.grid[from.y as int][from.x as int] == Cell::Unit(uid));
    }
    assert forall|x: int, y: int| 0 <= x < w && 0 <= y < h implies match #[trigger] m2.grid[y][x] {
        Cell::Unit(k) => m2.units.contains_key(k) && m2.units[k].position == Position {
            x: x as u32,
            y: y as u32,
        },
        Cell::Empty => true,
    } by {
        let c = m.grid[y][x];
    }
    assert(board_consistent(m2.grid, m2.units, w, h, m.next_unit_id));
    assert(owners_active(m2.units, m2.players)) by {
        assert forall|k: u32| #[trigger] m2.units.contains_key(k) implies m2.players.contains(
            m2.units[k].owner,
        ) by {
            assert(m.units.contains_key(k));
        }
    }
}

/// A factory of an active player producing onto an empty cell keeps the
/// invariant.
pub proof fn lemma_produced_wf(m: GameModel, pid: u8, uid: u32, t: Position)
    requires
        wf(m),
        m.units.contains_key(uid),
        m.players.contains(pid),
        t.x < m.config.width,
        t.y < m.config.height,
        m.grid[t.y as int][t.x as int] == Cell::Empty,
        m.next_unit_id < u32::MAX,
    ensures
        wf(produced(m, pid, uid, t)),
{
    let w = m.config.width;
    let h = m.config.height;
    let nid = m.next_unit_id;
    lemma_set_cell_shape(m.grid, w, h, t.x as int, t.y as int, Cell::Unit(nid));
    let m2 = produced(m, pid, uid, t);
    assert(!m.units.contains_key(nid));
    assert forall|k: u32| #[trigger] m2.units.contains_key(k) implies {
        let u = m2.units[k];
        &&& u.id == k
        &&& k < m2.next_unit_id
        &&& u.position.x < w
        &&& u.position.y < h
        &&& m2.grid[u.position.y as int][u.position.x as int] == Cell::Unit(k)
    } by {
        if k != nid {
            assert(m.units.contains_key(k));
            let p = m.units[k].position;
            assert(m.grid[p.y as int][p.x as int] == Cell::Unit(k));
        }
    }
    assert forall|x: int, y: int| 0 <= x < w && 0 <= y < h implies match #[trigger] m2.grid[y][x] {
        Cell::Unit(k) => m2.units.contains_key(k) && m2.units[k].position == Position {
            x: x as u32,
            y: y as u32,
        },
        Cell::Empty => true,
    } by {
        let c = m.grid[y][x];
    }
    assert(board_consistent(m2.grid, m2.units, w, h, m2.next_unit_id));
    assert(owners_active(m2.units, m2.players)) by {
        assert forall|k: u32| #[trigger] m2.units.contains_key(k) implies m2.players.contains(
            m2.units[k].owner,
        ) by {
            if k != nid {
                assert(m.units.contains_key(k));
            }
        }
    }
    assert forall|i: int| 0 <= i < m2.snapshots.len() implies board_consistent(
        #[trigger] m2.snapshots[i].grid,
        m2.snapshots[i].units,
        w,
        h,
        m2.next_unit_id,
    ) by {
        assert(board_consistent(m.snapshots[i].grid, m.snapshots[i].units, w, h, nid));
    }
}


/// The infantry rules keep the invariant.
pub proof fn lemma_infantry_move_wf(m: GameModel, uid: u32, t: Position)
    requires
        wf(m),
        m.units.contains_key(uid),
        t.x < m.config.width,
        t.y < m.config.height,
    ensures
        wf(infantry_move(m, uid, m.units[uid].position, t).0),
{
    match m.grid[t.y as int][t.x as int] {
        Cell::Empty => {
            lemma_moved_wf(m, uid, t);
        },
        Cell::Unit(tid) => {
            assert(m.units.contains_key(tid));
            assert(m.units[tid].position == t);
            if m.units[tid].owner != m.units[uid].owner {
                match m.units[tid].unit_type {
                    UnitType::Fortification { .. } => {
                        lemma_repulse_wf(m, uid, tid);
                    },
                    _ => {
                        lemma_capture_wf(m, uid, tid);
                    },
                }
            }
        },
    }
}

/// Every action, applied or refused, keeps the invariant.
pub proof fn lemma_action_wf(m: GameModel, pid: u8, uid: u32, a: Action)
    requires
        wf(m),
        m.players.len() > 0,
        produces(m, pid, uid, a) ==> m.next_unit_id < u32::MAX,
    ensures
        wf(action_outcome(m, pid, uid, a).0),
{
    if winner(m) is None && m.players[m.current_player_index as int] == pid
        && m.units.contains_key(uid) && m.units[uid].owner == pid && !m.units[uid].acted
        && unit_step(a) {
        let u = m.units[uid];
        let stay = a.dx == 0 && a.dy == 0;
        let target = shifted(u.position, a.dx, a.dy, m.config.width, m.config.height);
        match u.unit_type {
            UnitType::Infantry => {
                if stay {
                    lemma_with_unit_wf(
                        m,
                        uid,
                        Unit {
                            unit_type: UnitType::Fortification { turns_standing: 1 },
                            acted: true,
                            ..u
                        },
                    );
                } else if let Some(t) = target {
                    lemma_infantry_move_wf(m, uid, t);
                }
            },
            UnitType::Fortification { turns_standing } => {
                if stay {
                    let next_type = if turns_standing >= 3 {
                        UnitType::Factory
                    } else {
                        UnitType::Fortification { turns_standing: (turns_standing + 1) as u8 }
                    };
                    lemma_with_unit_wf(m, uid, Unit { unit_type: next_type, acted: true, ..u });
                } else if let Some(t) = target {
                    let m1 = with_unit(m, uid, Unit { unit_type: UnitType::Infantry, ..u });
                    lemma_with_unit_wf(m, uid, Unit { unit_type: UnitType::Infantry, ..u });
                    lemma_infantry_move_wf(m1, uid, t);
                }
            },
            UnitType::Factory => {
                if !stay && !has_unacted_combat(m.units, pid) {
                    if let Some(t) = target {
                        if m.grid[t.y as int][t.x as int] == Cell::Empty {
                            assert(m.players.contains(pid)) by {
                                assert(m.players[m.current_player_index as int] == pid);
                            }
                            lemma_produced_wf(m, pid, uid, t);
                        }
                    }
                }
            },
        }
    }
}


/// Removing a unit and emptying its cell keeps the board and the table in
/// agreement.
pub proof fn lemma_remove_unit_consistent(
    g: Seq<Seq<Cell>>,
    units: Map<u32, Unit>,
    k: u32,
    w: u32,
    h: u32,
    next_id: u32,
)
    requires
        board_consistent(g, units, w, h, next_id),
        units.contains_key(k),
    ensures
        board_consistent(
            set_cell(g, units[k].position.x as int, units[k].position.y as int, Cell::Empty),
            units.remove(k),
            w,
            h,
            next_id,
        ),
{
    let p = units[k].position;
    lemma_set_cell_shape(g, w, h, p.x as int, p.y as int, Cell::Empty);
    let g2 = set_cell(g, p.x as int, p.y as int, Cell::Empty);
    let u2 = units.remove(k);
    assert forall|j: u32| #[trigger] u2.contains_key(j) implies {
        let u = u2[j];
        &&& u.id == j
        &&& j < next_id
        &&& u.position.x < w
        &&& u.position.y < h
        &&& g2[u.position.y as int][u.position.x as int] == Cell::Unit(j)
    } by {
        assert(units.contains_key(j));
        let q = units[j].position;
        assert(g[q.y as int][q.x as int] == Cell::Unit(j));
    }
    assert forall|x: int, y: int| 0 <= x < w && 0 <= y < h implies match #[trigger] g2[y][x] {
        Cell::Unit(j) => u2.contains_key(j) && u2[j].position == Position {
            x: x as u32,
            y: y as u32,
        },
        Cell::Empty => true,
    } by {
        let c = g[y][x];
    }
}

/// Culling factories keeps the board and the table in agreement, and only
/// removes units.
pub proof fn lemma_culled_consistent(
    g: Seq<Seq<Cell>>,
    units: Map<u32, Unit>,
    pid: u8,
    w: u32,
    h: u32,
    n: nat,
    next_id: u32,
)
    requires
        board_consistent(g, units, w, h, next_id),
        n <= next_id,
    ensures
        board_consistent(culled(g, units, pid, w, h, n).0, culled(g, units, pid, w, h, n).1, w, h, next_id),
        forall|k: u32| #[trigger] culled(g, units, pid, w, h, n).1.contains_key(k) ==> units.contains_key(k)
            && culled(g, units, pid, w, h, n).1[k] == units[k],
        forall|k: u32|
            k >= n ==> (#[trigger] culled(g, units, pid, w, h, n).1.contains_key(k)
                == units.contains_key(k)),
    decreases n,
{
    if n > 0 {
        lemma_culled_consistent(g, units, pid, w, h, (n - 1) as nat, next_id);
        let (g1, u1) = culled(g, units, pid, w, h, (n - 1) as nat);
        let k = (n - 1) as u32;
        if doomed(g, units, pid, w, h, k) {
            assert(culled(g, units, pid, w, h, (n - 1) as nat).1.contains_key(k) == units.contains_key(
                k,
            ));
            lemma_remove_unit_consistent(g1, u1, k, w, h, next_id);
        }
    }
}

/// Letting a player's units act again keeps the board and the table in
/// agreement.
pub proof fn lemma_ready_consistent(
    g: Seq<Seq<Cell>>,
    units: Map<u32, Unit>,
    p: u8,
    w: u32,
    h: u32,
    next_id: u32,
)
    requires
        board_consistent(g, units, w, h, next_id),
    ensures
        board_consistent(g, ready_for(units, p), w, h, next_id),
{
    let u2 = ready_for(units, p);
    assert forall|k: u32| #[trigger] u2.contains_key(k) implies {
        let u = u2[k];
        &&& u.id == k
        &&& k < next_id
        &&& u.position.x < w
        &&& u.position.y < h
        &&& g[u.position.y as int][u.position.x as int] == Cell::Unit(k)
    } by {
        assert(units.contains_key(k));
    }
    assert forall|x: int, y: int| 0 <= x < w && 0 <= y < h implies match #[trigger] g[y][x] {
        Cell::Unit(k) => u2.contains_key(k) && u2[k].position == Position {
            x: x as u32,
            y: y as u32,
        },
        Cell::Empty => true,
    } by {
        let c = g[y][x];
    }
}

/// Ending a turn keeps the invariant.
pub proof fn lemma_end_turn_wf(m: GameModel, pid: u8)
    requires
        wf(m),
        m.players.len() > 0,
    ensures
        wf(end_turn_outcome(m, pid).0),
{
    let w = m.config.width;
    let h = m.config.height;
    let n = m.next_unit_id as nat;
    lemma_culled_consistent(m.grid, m.units, pid, w, h, n, m.next_unit_id);
    let (g1, u1) = culled(m.grid, m.units, pid, w, h, n);
    let next = ((m.current_player_index + 1) % (m.players.len() as int)) as usize;
    lemma_ready_consistent(g1, u1, m.players[next as int], w, h, m.next_unit_id);
    let m2 = end_turn_outcome(m, pid).0;
    if m2 != m {
        assert(owners_active(m2.units, m2.players)) by {
            assert forall|k: u32| #[trigger] m2.units.contains_key(k) implies m2.players.contains(
                m2.units[k].owner,
            ) by {
                assert(u1.contains_key(k));
                assert(m.units.contains_key(k));
            }
        }
        assert forall|i: int| 0 <= i < m2.snapshots.len() implies board_consistent(
            #[trigger] m2.snapshots[i].grid,
            m2.snapshots[i].units,
            w,
            h,
            m2.next_unit_id,
        ) by {
            if i < m.snapshots.len() {
                assert(m2.snapshots[i] == m.snapshots[i]);
            }
        }
    }
}


/// Removing a player keeps the invariant.
pub proof fn lemma_removal_wf(m: GameModel, pid: u8)
    requires
        wf(m),
        m.players.len() > 0,
    ensures
        wf(removal_outcome(m, pid)),
{
    let w = m.config.width;
    let h = m.config.height;
    let m2 = removal_outcome(m, pid);
    lemma_players_without(m.players, pid);
    let g2 = m2.grid;
    let u2 = m2.units;
    assert forall|k: u32| #[trigger] u2.contains_key(k) implies {
        let u = u2[k];
        &&& u.id == k
        &&& k < m.next_unit_id
        &&& u.position.x < w
        &&& u.position.y < h
        &&& g2[u.position.y as int][u.position.x as int] == Cell::Unit(k)
    } by {
        assert(m.units.contains_key(k));
        let q = m.units[k].position;
        assert(m.grid[q.y as int][q.x as int] == Cell::Unit(k));
    }
    assert forall|x: int, y: int| 0 <= x < w && 0 <= y < h implies match #[trigger] g2[y][x] {
        Cell::Unit(k) => u2.contains_key(k) && u2[k].position == Position {
            x: x as u32,
            y: y as u32,
        },
        Cell::Empty => true,
    } by {
        let c = m.grid[y][x];
    }
    assert(board_consistent(g2, u2, w, h, m.next_unit_id));
    assert forall|k: u32| #[trigger] u2.contains_key(k) implies m2.players.contains(
        u2[k].owner,
    ) by {
        assert(m.units.contains_key(k));
    }
    let old_index = m.current_player_index as int;
    if m2.players.len() > 0 && m.players[old_index] != pid {
        if m.players.contains(pid) {
            let j = choose|j: int| 0 <= j < m.players.len() && m.players[j] == pid;
            if m.players.take(old_index).contains(pid) {
            } else {
                if j < old_index {
                    assert(m.players.take(old_index)[j] == pid);
                }
                assert(j != old_index);
            }
        }
    }
}


/// `find_from` finds an index holding the player, the first at or after `i`.
pub proof fn lemma_find_from(ps: Seq<u8>, p: u8, i: nat)
    ensures
        match find_from(ps, p, i) {
            Some(j) => i <= j < ps.len() && ps[j as int] == p && forall|l: int|
                i <= l < j ==> ps[l] != p,
            None => forall|l: int| i <= l < ps.len() ==> ps[l] != p,
        },
    decreases ps.len() - i,
{
    if i < ps.len() && ps[i as int] != p {
        lemma_find_from(ps, p, i + 1);
    }
}

/// Rolling back to a snapshot keeps the invariant.
pub proof fn lemma_rollback_wf(m: GameModel, i: int)
    requires
        wf(m),
        m.players.len() > 0,
        0 <= i < m.snapshots.len(),
    ensures
        wf(rollback_outcome(m, i)),
{
    let w = m.config.width;
    let h = m.config.height;
    let s = m.snapshots[i];
    assert(board_consistent(s.grid, s.units, w, h, m.next_unit_id));
    let units = units_of(s.units, m.players);
    let g2 = without_missing(s.grid, units);
    assert forall|k: u32| #[trigger] units.contains_key(k) implies {
        let u = units[k];
        &&& u.id == k
        &&& k < m.next_unit_id
        &&& u.position.x < w
        &&& u.position.y < h
        &&& g2[u.position.y as int][u.position.x as int] == Cell::Unit(k)
    } by {
        assert(s.units.contains_key(k));
        let q = s.units[k].position;
        assert(s.grid[q.y as int][q.x as int] == Cell::Unit(k));
    }
    assert forall|x: int, y: int| 0 <= x < w && 0 <= y < h implies match #[trigger] g2[y][x] {
        Cell::Unit(k) => units.contains_key(k) && units[k].position == Position {
            x: x as u32,
            y: y as u32,
        },
        Cell::Empty => true,
    } by {
        let c = s.grid[y][x];
    }
    assert(board_consistent(g2, units, w, h, m.next_unit_id));
    lemma_find_from(m.players, s.player_id, 0);
    let m2 = rollback_outcome(m, i);
    lemma_ready_consistent(g2, units, m.players[m2.current_player_index as int], w, h, m.next_unit_id);
    assert forall|k: u32| #[trigger] m2.units.contains_key(k) implies m2.players.contains(
        m2.units[k].owner,
    ) by {
        assert(units.contains_key(k));
    }
    assert forall|j: int| 0 <= j < m2.snapshots.len() implies board_consistent(
        #[trigger] m2.snapshots[j].grid,
        m2.snapshots[j].units,
        w,
        h,
        m2.next_unit_id,
    ) by {
        assert(m2.snapshots[j] == m.snapshots[j]);
    }
}

} // verus!
