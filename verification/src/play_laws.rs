//! Laws on single operations, stated directly over the board, the units and
//! their fields: what a rollback restores, what each kind of action does to
//! the acting unit and its target, what a turn's end removes and stores, how
//! far each kind of unit sees, who wins, what removing a player takes away,
//! how games start, how kinds and fog are drawn, which units the console
//! offers, and that typed numbers read back as themselves.
use crate::board::{current_player, has_free_neighbour, neighbour, shifted, wf};
use crate::rules::{action_outcome, end_turn_outcome, rollback_outcome, tile};
use crate::types::{Action, Cell, GameModel, Position, TileVisibility, Unit, UnitType};
use vstd::prelude::*;

verus! {

// ─── Rollback ───────────────────────────────────────────────────────────

/// Rolling back to snapshot `i` restores that snapshot: its round, its units
/// of the players still active (each with the owner, kind and cell it had
/// there; only the units of the player to move may act again) and its board
/// without the cells of units that are gone; the snapshots after `i` are
/// dropped, the turn order, configuration and id counter stay, and the turn
/// goes to the player after the one whose turn the snapshot closed.
pub proof fn law_rollback_restores_snapshot(m: GameModel, i: int)
    requires
        wf(m),
        m.players.len() > 0,
        m.players.len() <= usize::MAX,
        0 <= i < m.snapshots.len(),
    ensures
        ({
            let m2 = rollback_outcome(m, i);
            let s = m.snapshots[i];
            &&& m2.round == s.round
            &&& m2.snapshots == m.snapshots.take(i + 1)
            &&& m2.players == m.players
            &&& m2.config == m.config
            &&& m2.next_unit_id == m.next_unit_id
            &&& m2.departures.len() == 0
            &&& forall|j: int|
                0 <= j < m.players.len() && m.players[j] == s.player_id ==> m2.current_player_index
                    == (j + 1) % (m.players.len() as int)
            &&& forall|k: u32|
                #[trigger] m2.units.contains_key(k) == (s.units.contains_key(k) && m.players.contains(
                    s.units[k].owner,
                ))
            &&& forall|k: u32|
                #[trigger] m2.units.contains_key(k) ==> {
                    &&& m2.units[k].id == s.units[k].id
                    &&& m2.units[k].owner == s.units[k].owner
                    &&& m2.units[k].unit_type == s.units[k].unit_type
                    &&& m2.units[k].position == s.units[k].position
                    &&& m2.units[k].acted == (s.units[k].acted && s.units[k].owner != current_player(
                        m2,
                    ))
                }
            &&& forall|x: int, y: int|
                0 <= x < m.config.width && 0 <= y < m.config.height ==> #[trigger] m2.grid[y][x]
                    == match s.grid[y][x] {
                    Cell::Unit(k) => if m2.units.contains_key(k) {
                        Cell::Unit(k)
                    } else {
                        Cell::Empty
                    },
                    Cell::Empty => Cell::Empty,
                }
        }),
{
    let m2 = rollback_outcome(m, i);
    let s = m.snapshots[i];
    crate::invariants::lemma_find_from(m.players, s.player_id, 0);
    assert forall|j: int|
        0 <= j < m.players.len() && m.players[j] == s.player_id implies m2.current_player_index == (j
            + 1) % (m.players.len() as int) by {
        assert(m.players.no_duplicates());
        match crate::rules::find_from(m.players, s.player_id, 0) {
            Some(jj) => {
                assert(jj == j) by {
                    if jj != j {
                        assert(m.players[jj as int] == m.players[j]);
                    }
                }
                let r = (j + 1) % (m.players.len() as int);
                assert(0 <= r < m.players.len()) by (nonlinear_arith)
                    requires
                        m.players.len() > 0,
                        r == (j + 1) % (m.players.len() as int),
                ;
                assert(r < usize::MAX + 1);
                assert(m2.current_player_index == r as usize);
            },
            None => {
                assert(m.players[j] != s.player_id);
            },
        }
    }
    assert(0 <= m2.current_player_index < m.players.len()) by {
        match crate::rules::find_from(m.players, s.player_id, 0) {
            Some(jj) => {
                assert(0 <= (jj as int + 1) % (m.players.len() as int) < m.players.len()) by (nonlinear_arith)
                    requires
                        m.players.len() > 0,
                ;
            },
            None => {},
        }
    }
    assert(crate::board::board_consistent(
        m.snapshots[i].grid,
        m.snapshots[i].units,
        m.config.width,
        m.config.height,
        m.next_unit_id,
    ));
    assert forall|x: int, y: int|
        0 <= x < m.config.width && 0 <= y < m.config.height implies #[trigger] m2.grid[y][x]
            == match s.grid[y][x] {
            Cell::Unit(k) => if m2.units.contains_key(k) {
                Cell::Unit(k)
            } else {
                Cell::Empty
            },
            Cell::Empty => Cell::Empty,
        } by {
        let c = s.grid[y][x];
        assert(s.grid[y].len() == m.config.width);
    }
}

// ─── Actions ────────────────────────────────────────────────────────────

/// Infantry that stays becomes a fortification that has stood one turn, on
/// the same cell, and has acted; nothing else changes.
pub proof fn law_infantry_stays(m: GameModel, pid: u8, uid: u32, a: Action)
    requires
        action_outcome(m, pid, uid, a).1 is Ok,
        m.units.contains_key(uid),
        m.units[uid].unit_type == UnitType::Infantry,
        a.dx == 0,
        a.dy == 0,
    ensures
        ({
            let m2 = action_outcome(m, pid, uid, a).0;
            let u = m.units[uid];
            &&& m2.units[uid] == Unit {
                unit_type: UnitType::Fortification { turns_standing: 1 },
                acted: true,
                ..u
            }
            &&& m2.units.dom() == m.units.dom()
            &&& forall|k: u32| k != uid && #[trigger] m.units.contains_key(k) ==> m2.units[k] == m.units[k]
            &&& m2.grid == m.grid
            &&& m2.next_unit_id == m.next_unit_id
        }),
{
    let m2 = action_outcome(m, pid, uid, a).0;
    assert(m2.units.dom() =~= m.units.dom());
}

/// A fortification that stays counts one more turn, and one that has stood
/// three turns becomes a factory; it keeps its cell and has acted.
pub proof fn law_fortification_stays(m: GameModel, pid: u8, uid: u32, a: Action, ts: u8)
    requires
        action_outcome(m, pid, uid, a).1 is Ok,
        m.units.contains_key(uid),
        m.units[uid].unit_type == (UnitType::Fortification { turns_standing: ts }),
        a.dx == 0,
        a.dy == 0,
    ensures
        ({
            let m2 = action_outcome(m, pid, uid, a).0;
            let u = m.units[uid];
            &&& m2.units.contains_key(uid)
            &&& m2.units[uid].unit_type == if ts >= 3 {
                UnitType::Factory
            } else {
                UnitType::Fortification { turns_standing: (ts + 1) as u8 }
            }
            &&& ts < 3 ==> m2.units[uid].unit_type->turns_standing == ts + 1
            &&& m2.units[uid].position == u.position
            &&& m2.units[uid].owner == u.owner
            &&& m2.units[uid].acted
            &&& m2.grid == m.grid
        }),
{
}

/// A combat unit sent onto an empty cell moves there as infantry and has
/// acted; the cell it left is empty.
pub proof fn law_step_onto_empty(m: GameModel, pid: u8, uid: u32, a: Action, t: Position)
    requires
        wf(m),
        action_outcome(m, pid, uid, a).1 is Ok,
        m.units.contains_key(uid),
        m.units[uid].unit_type != UnitType::Factory,
        a.dx != 0 || a.dy != 0,
        shifted(m.units[uid].position, a.dx, a.dy, m.config.width, m.config.height) == Some(t),
        m.grid[t.y as int][t.x as int] == Cell::Empty,
    ensures
        ({
            let m2 = action_outcome(m, pid, uid, a).0;
            let u = m.units[uid];
            &&& m2.units.contains_key(uid)
            &&& m2.units[uid].position == t
            &&& m2.units[uid].unit_type == UnitType::Infantry
            &&& m2.units[uid].owner == u.owner
            &&& m2.units[uid].acted
            &&& m2.grid[t.y as int][t.x as int] == Cell::Unit(uid)
            &&& m2.grid[u.position.y as int][u.position.x as int] == Cell::Empty
            &&& m2.units.dom() == m.units.dom()
        }),
{
    let m2 = action_outcome(m, pid, uid, a).0;
    let u = m.units[uid];
    assert(t != u.position);
    assert(m2.units.dom() =~= m.units.dom());
}

/// A combat unit that attacks an enemy fortification, whatever its count,
/// is destroyed, and the fortification becomes infantry on its own cell,
/// keeping its owner; the attacker's cell is empty.
pub proof fn law_attack_on_fortification(
    m: GameModel,
    pid: u8,
    uid: u32,
    a: Action,
    t: Position,
    tid: u32,
)
    requires
        wf(m),
        action_outcome(m, pid, uid, a).1 is Ok,
        m.units.contains_key(uid),
        m.units[uid].unit_type != UnitType::Factory,
        a.dx != 0 || a.dy != 0,
        shifted(m.units[uid].position, a.dx, a.dy, m.config.width, m.config.height) == Some(t),
        m.grid[t.y as int][t.x as int] == Cell::Unit(tid),
        m.units[tid].unit_type is Fortification,
    ensures
        ({
            let m2 = action_outcome(m, pid, uid, a).0;
            let u = m.units[uid];
            &&& !m2.units.contains_key(uid)
            &&& m2.units.contains_key(tid)
            &&& m2.units[tid].unit_type == UnitType::Infantry
            &&& m2.units[tid].owner == m.units[tid].owner
            &&& m2.units[tid].owner != pid
            &&& m2.units[tid].position == t
            &&& m2.units[tid].acted == m.units[tid].acted
            &&& m2.grid[t.y as int][t.x as int] == Cell::Unit(tid)
            &&& m2.grid[u.position.y as int][u.position.x as int] == Cell::Empty
        }),
{
    let u = m.units[uid];
    assert(t != u.position);
    assert(m.units.contains_key(tid));
}

/// A combat unit that attacks an enemy infantry or factory destroys it and
/// takes its cell as infantry that has acted; the cell it left is empty.
pub proof fn law_attack_destroys(
    m: GameModel,
    pid: u8,
    uid: u32,
    a: Action,
    t: Position,
    tid: u32,
)
    requires
        wf(m),
        action_outcome(m, pid, uid, a).1 is Ok,
        m.units.contains_key(uid),
        m.units[uid].unit_type != UnitType::Factory,
        a.dx != 0 || a.dy != 0,
        shifted(m.units[uid].position, a.dx, a.dy, m.config.width, m.config.height) == Some(t),
        m.grid[t.y as int][t.x as int] == Cell::Unit(tid),
        !(m.units[tid].unit_type is Fortification),
    ensures
        ({
            let m2 = action_outcome(m, pid, uid, a).0;
            let u = m.units[uid];
            &&& m.units[tid].owner != pid
            &&& !m2.units.contains_key(tid)
            &&& m2.units.contains_key(uid)
            &&& m2.units[uid].position == t
            &&& m2.units[uid].unit_type == UnitType::Infantry
            &&& m2.units[uid].acted
            &&& m2.grid[t.y as int][t.x as int] == Cell::Unit(uid)
            &&& m2.grid[u.position.y as int][u.position.x as int] == Cell::Empty
        }),
{
    let u = m.units[uid];
    assert(t != u.position);
    assert(m.units.contains_key(tid));
}

/// A factory sent onto an empty cell produces there a new infantry of its
/// player, numbered with the next id, that may not act this turn; the factory
/// stays on its cell, still a factory, and has acted.
pub proof fn law_factory_produces(m: GameModel, pid: u8, uid: u32, a: Action, t: Position)
    requires
        wf(m),
        action_outcome(m, pid, uid, a).1 is Ok,
        m.units.contains_key(uid),
        m.units[uid].unit_type == UnitType::Factory,
        shifted(m.units[uid].position, a.dx, a.dy, m.config.width, m.config.height) == Some(t),
    ensures
        ({
            let m2 = action_outcome(m, pid, uid, a).0;
            let u = m.units[uid];
            let nid = m.next_unit_id;
            &&& m.grid[t.y as int][t.x as int] == Cell::Empty
            &&& m2.units.contains_key(nid)
            &&& m2.units[nid] == Unit {
                id: nid,
                owner: pid,
                unit_type: UnitType::Infantry,
                position: t,
                acted: true,
            }
            &&& m2.grid[t.y as int][t.x as int] == Cell::Unit(nid)
            &&& m2.units[uid] == Unit { acted: true, ..u }
            &&& m2.grid[u.position.y as int][u.position.x as int] == Cell::Unit(uid)
            &&& m2.units.dom() == m.units.dom().insert(nid)
        }),
{
    let m2 = action_outcome(m, pid, uid, a).0;
    let u = m.units[uid];
    let nid = m.next_unit_id;
    assert(!m.units.contains_key(nid));
    assert(t != u.position);
    assert(m2.units.dom() =~= m.units.dom().insert(nid));
}

// ─── Turn end ───────────────────────────────────────────────────────────

/// A cell next to `p` (one of the eight around it) is on the board and
/// empty exactly when the board has a free neighbour of `p`.
pub proof fn law_free_neighbour_is_any_of_eight(g: Seq<Seq<Cell>>, p: Position, w: u32, h: u32)
    ensures
        has_free_neighbour(g, p, w, h) <==> exists|dx: int, dy: int|
            -1 <= dx <= 1 && -1 <= dy <= 1 && !(dx == 0 && dy == 0) && 0 <= p.x + dx < w && 0 <= p.y
                + dy < h && #[trigger] g[p.y + dy][p.x + dx] == Cell::Empty,
{
    if has_free_neighbour(g, p, w, h) {
        let i = choose|i: int|
            0 <= i < 8 && match #[trigger] shifted(p, neighbour(i).0, neighbour(i).1, w, h) {
                Some(t) => g[t.y as int][t.x as int] == Cell::Empty,
                None => false,
            };
        let dx = neighbour(i).0 as int;
        let dy = neighbour(i).1 as int;
        assert(g[p.y + dy][p.x + dx] == Cell::Empty);
    }
    if exists|dx: int, dy: int|
        -1 <= dx <= 1 && -1 <= dy <= 1 && !(dx == 0 && dy == 0) && 0 <= p.x + dx < w && 0 <= p.y + dy
            < h && #[trigger] g[p.y + dy][p.x + dx] == Cell::Empty {
        let (dx, dy) = choose|dx: int, dy: int|
            -1 <= dx <= 1 && -1 <= dy <= 1 && !(dx == 0 && dy == 0) && 0 <= p.x + dx < w && 0 <= p.y
                + dy < h && #[trigger] g[p.y + dy][p.x + dx] == Cell::Empty;
        let i: int = if dy == -1 {
            dx + 1
        } else if dy == 0 {
            if dx == -1 {
                3
            } else {
                4
            }
        } else {
            dx + 6
        };
        assert(neighbour(i) == (dx as i32, dy as i32));
        assert(match shifted(p, neighbour(i).0, neighbour(i).1, w, h) {
            Some(t) => g[t.y as int][t.x as int] == Cell::Empty,
            None => false,
        });
    }
}

/// Ending a turn removes exactly the factories of the player with no empty
/// cell among the eight around them on the board as the turn ended; every
/// other unit stays with its owner, kind and cell, and no unit appears. The
/// units of the player now to move may act; the others keep their flag.
pub proof fn law_turn_end_removes_blocked_factories(m: GameModel, pid: u8)
    requires
        wf(m),
        m.players.len() > 0,
        end_turn_outcome(m, pid).1 is Ok,
    ensures
        ({
            let m2 = end_turn_outcome(m, pid).0;
            &&& forall|k: u32| #[trigger] m2.units.contains_key(k) ==> m.units.contains_key(k)
            &&& forall|k: u32|
                #[trigger] m.units.contains_key(k) ==> (m2.units.contains_key(k) <==> !({
                    let u = m.units[k];
                    &&& u.owner == pid
                    &&& u.unit_type == UnitType::Factory
                    &&& !exists|dx: int, dy: int|
                        -1 <= dx <= 1 && -1 <= dy <= 1 && !(dx == 0 && dy == 0) && 0 <= u.position.x
                            + dx < m.config.width && 0 <= u.position.y + dy < m.config.height
                            && #[trigger] m.grid[u.position.y + dy][u.position.x + dx] == Cell::Empty
                }))
            &&& forall|k: u32|
                #[trigger] m2.units.contains_key(k) ==> {
                    &&& m2.units[k].owner == m.units[k].owner
                    &&& m2.units[k].unit_type == m.units[k].unit_type
                    &&& m2.units[k].position == m.units[k].position
                    &&& m2.units[k].acted == (m.units[k].acted && m.units[k].owner != current_player(
                        m2,
                    ))
                }
        }),
{
    let m2 = end_turn_outcome(m, pid).0;
    let w = m.config.width;
    let h = m.config.height;
    let n = m.next_unit_id as nat;
    crate::invariants::lemma_culled_consistent(m.grid, m.units, pid, w, h, n, m.next_unit_id);
    lemma_culled_keys(m.grid, m.units, pid, w, h, n);
    assert forall|k: u32| #[trigger] m.units.contains_key(k) implies (m2.units.contains_key(k) <==> !({
        let u = m.units[k];
        &&& u.owner == pid
        &&& u.unit_type == UnitType::Factory
        &&& !exists|dx: int, dy: int|
            -1 <= dx <= 1 && -1 <= dy <= 1 && !(dx == 0 && dy == 0) && 0 <= u.position.x + dx
                < m.config.width && 0 <= u.position.y + dy < m.config.height && #[trigger] m.grid[u.position.y
                + dy][u.position.x + dx] == Cell::Empty
    })) by {
        law_free_neighbour_is_any_of_eight(m.grid, m.units[k].position, w, h);
        assert(k < m.next_unit_id);
    }
}

/// After culling the ids below `n`, a unit is kept exactly when it was there
/// and is not, with an id below `n`, a blocked factory of the player.
pub proof fn lemma_culled_keys(
    g: Seq<Seq<Cell>>,
    units: Map<u32, Unit>,
    pid: u8,
    w: u32,
    h: u32,
    n: nat,
)
    requires
        n <= u32::MAX + 1,
    ensures
        forall|k: u32|
            #[trigger] crate::rules::culled(g, units, pid, w, h, n).1.contains_key(k) == (
            units.contains_key(k) && !(k < n && crate::rules::doomed(g, units, pid, w, h, k))),
    decreases n,
{
    if n > 0 {
        lemma_culled_keys(g, units, pid, w, h, (n - 1) as nat);
        let k = (n - 1) as u32;
        assert(k == n - 1);
        let u1 = crate::rules::culled(g, units, pid, w, h, (n - 1) as nat).1;
        assert forall|j: u32|
            #[trigger] crate::rules::culled(g, units, pid, w, h, n).1.contains_key(j) == (
            units.contains_key(j) && !(j < n && crate::rules::doomed(g, units, pid, w, h, j))) by {
            assert(u1.contains_key(j) == (units.contains_key(j) && !(j < n - 1
                && crate::rules::doomed(g, units, pid, w, h, j))));
        }
    }
}

// ─── Sight ──────────────────────────────────────────────────────────────

/// A player sees a cell exactly when one of its units, or a cell such a unit
/// has left this turn, lies within two cells of it (in both axes) for a
/// fortification and within one cell for infantry and factories; what it
/// sees there is the cell's content.
pub proof fn law_sight_radii(m: GameModel, pid: u8, x: int, y: int)
    ensures
        (tile(m, pid, x, y) is Visible) <==> ((exists|k: u32|
            #[trigger] m.units.contains_key(k) && m.units[k].owner == pid && {
                let u = m.units[k];
                let r: int = if u.unit_type is Fortification {
                    2
                } else {
                    1
                };
                u.position.x - r <= x <= u.position.x + r && u.position.y - r <= y <= u.position.y
                    + r
            }) || (exists|i: int|
            0 <= i < m.departures.len() && #[trigger] m.departures[i].owner == pid && {
                let u = m.departures[i];
                let r: int = if u.unit_type is Fortification {
                    2
                } else {
                    1
                };
                u.position.x - r <= x <= u.position.x + r && u.position.y - r <= y <= u.position.y
                    + r
            })),
        tile(m, pid, x, y) is Visible ==> tile(m, pid, x, y) == TileVisibility::Visible(m.grid[y][x]),
{
}

// ─── Drawing ────────────────────────────────────────────────────────────

/// The letter that starts the board code of a unit kind.
pub open spec fn kind_letter(t: UnitType) -> char {
    match t {
        UnitType::Infantry => 'I',
        UnitType::Fortification { .. } => 'F',
        UnitType::Factory => 'A',
    }
}

/// Reading the digits of `n` back gives `n`.
pub proof fn lemma_decimal_reads_back(n: nat)
    ensures
        crate::input::natural(crate::rules::decimal(n)) == Some(n as int),
    decreases n,
{
    let s = crate::rules::decimal(n);
    if n < 10 {
        assert(s == seq![crate::rules::digit_char(n)]);
        assert(s.drop_last() =~= Seq::<char>::empty());
    } else {
        lemma_decimal_reads_back(n / 10);
        let head = crate::rules::decimal(n / 10);
        assert(s.drop_last() =~= head);
        assert(s.last() == crate::rules::digit_char(n % 10));
    }
    let d: nat = n % 10;
    assert(d < 10);
    assert((crate::rules::digit_char(d) as u32) == d + 48) by {
        if d == 0 {
        } else if d == 1 {
        } else if d == 2 {
        } else if d == 3 {
        } else if d == 4 {
        } else if d == 5 {
        } else if d == 6 {
        } else if d == 7 {
        } else if d == 8 {
        } else {
        }
    }
    assert(s.len() > 0);
    assert(s.last() == crate::rules::digit_char(d));
    if n < 10 {
        assert(d == n);
        assert(crate::input::digits_value(s.drop_last()) == 0);
    } else {
        let head = crate::rules::decimal(n / 10);
        assert(crate::input::digits_value(head) == n / 10);
        assert(crate::input::digits_value(s.drop_last()) == n / 10);
        assert(n == (n / 10) * 10 + n % 10) by (nonlinear_arith);
    }
    assert(crate::input::digits_value(s) == crate::input::digits_value(s.drop_last()) * 10 + ((
    s.last() as u32) - 48));
    assert(crate::input::digits_value(s) == n);
    assert forall|i: int| 0 <= i < s.len() implies crate::input::is_digit(#[trigger] s[i]) by {
        if n >= 10 && i < s.len() - 1 {
            assert(s[i] == crate::rules::decimal(n / 10)[i]);
        }
    }
}

/// Unit kinds are told apart on the board: each code starts with the kind's
/// letter (`I` for infantry, `F` for a fortification, `A` for a factory),
/// infantry and factory codes are that letter alone, a fortification's
/// letter is followed by its standing count in decimal, and different kinds
/// or counts never share a code.
pub proof fn law_kind_codes(t1: UnitType, t2: UnitType)
    ensures
        crate::display::kind_code(t1).len() >= 1,
        crate::display::kind_code(t1)[0] == kind_letter(t1),
        !(t1 is Fortification) ==> crate::display::kind_code(t1).len() == 1,
        t1 matches UnitType::Fortification { turns_standing } ==> crate::input::natural(
            crate::display::kind_code(t1).drop_first(),
        ) == Some(turns_standing as int),
        t1 != t2 ==> crate::display::kind_code(t1) != crate::display::kind_code(t2),
{
    reveal_strlit("I");
    reveal_strlit("F");
    reveal_strlit("A");
    if let UnitType::Fortification { turns_standing } = t1 {
        lemma_decimal_reads_back(turns_standing as nat);
        assert(crate::display::kind_code(t1).drop_first() =~= crate::rules::decimal(
            turns_standing as nat,
        ));
    }
    if let UnitType::Fortification { turns_standing } = t2 {
        lemma_decimal_reads_back(turns_standing as nat);
        assert(crate::display::kind_code(t2).drop_first() =~= crate::rules::decimal(
            turns_standing as nat,
        ));
    }
    if t1 != t2 && crate::display::kind_code(t1) == crate::display::kind_code(t2) {
        assert(crate::display::kind_code(t1)[0] == crate::display::kind_code(t2)[0]);
        assert(crate::display::kind_code(t1).drop_first() == crate::display::kind_code(t2).drop_first());
    }
}

/// On the board, a unit's cell shows, after its owner's colour and number
/// and the bold mark, the letter of its kind; its entry in the list under the
/// board starts with two spaces and that letter.
pub proof fn law_drawn_kind(m: GameModel, k: u32)
    requires
        m.units.contains_key(k),
    ensures
        ({
            let u = m.units[k];
            let lead = crate::console::color_code(u.owner) + crate::rules::decimal(u.owner as nat)
                + "\x1b[1m"@;
            &&& crate::display::cell_text(m, Cell::Unit(k))[lead.len() as int] == kind_letter(u.unit_type)
            &&& crate::display::unit_entry(u)[2] == kind_letter(u.unit_type)
        }),
{
    let u = m.units[k];
    law_kind_codes(u.unit_type, u.unit_type);
    reveal_strlit("  ");
    let lead = crate::console::color_code(u.owner) + crate::rules::decimal(u.owner as nat)
        + "\x1b[1m"@;
    let code = crate::display::kind_code(u.unit_type);
    let text = crate::display::cell_text(m, Cell::Unit(k));
    assert(text[lead.len() as int] == code[0]);
    let entry = crate::display::unit_entry(u);
    assert(entry[2] == code[0]);
}

// ─── Lists ──────────────────────────────────────────────────────────────

/// The units of `pid` with ids below `n` come in strictly ascending id order,
/// each being the unit stored under its id, and every such unit is listed.
pub proof fn law_own_units_listed(units: Map<u32, Unit>, pid: u8, n: nat)
    requires
        forall|k: u32| #[trigger] units.contains_key(k) ==> units[k].id == k,
        n <= u32::MAX + 1,
    ensures
        ({
            let s = crate::rules::owned_units(units, pid, n);
            &&& forall|i: int, j: int| 0 <= i < j < s.len() ==> s[i].id < s[j].id
            &&& forall|i: int|
                0 <= i < s.len() ==> s[i].id < n && units.contains_key(#[trigger] s[i].id)
                    && units[s[i].id] == s[i] && s[i].owner == pid
            &&& forall|k: u32|
                #[trigger] units.contains_key(k) && units[k].owner == pid && k < n ==> s.contains(
                    units[k],
                )
        }),
    decreases n,
{
    if n > 0 {
        law_own_units_listed(units, pid, (n - 1) as nat);
        let rest = crate::rules::owned_units(units, pid, (n - 1) as nat);
        let s = crate::rules::owned_units(units, pid, n);
        let k = (n - 1) as u32;
        assert(k == n - 1);
        assert forall|j: u32|
            #[trigger] units.contains_key(j) && units[j].owner == pid && j < n implies s.contains(
            units[j]) by {
            if j < n - 1 {
                let i = choose|i: int| 0 <= i < rest.len() && rest[i] == units[j];
                assert(s[i] == units[j]);
            } else {
                assert(s[s.len() - 1] == units[j]);
            }
        }
    }
}

/// The ids below `n` of the units of `pid` that have not acted come in
/// strictly ascending order, each of such a unit, and none is left out.
pub proof fn law_unacted_listed(units: Map<u32, Unit>, pid: u8, n: nat)
    requires
        n <= u32::MAX + 1,
    ensures
        ({
            let s = crate::rules::unacted_ids(units, pid, n);
            &&& forall|i: int, j: int| 0 <= i < j < s.len() ==> s[i] < s[j]
            &&& forall|i: int|
                0 <= i < s.len() ==> s[i] < n && units.contains_key(#[trigger] s[i])
                    && units[s[i]].owner == pid && !units[s[i]].acted
            &&& forall|k: u32|
                #[trigger] units.contains_key(k) && units[k].owner == pid && !units[k].acted && k < n
                    ==> s.contains(k)
        }),
    decreases n,
{
    if n > 0 {
        law_unacted_listed(units, pid, (n - 1) as nat);
        let rest = crate::rules::unacted_ids(units, pid, (n - 1) as nat);
        let s = crate::rules::unacted_ids(units, pid, n);
        let k = (n - 1) as u32;
        assert(k == n - 1);
        assert forall|j: u32|
            #[trigger] units.contains_key(j) && units[j].owner == pid && !units[j].acted && j < n implies s.contains(
            j) by {
            if j < n - 1 {
                let i = choose|i: int| 0 <= i < rest.len() && rest[i] == j;
                assert(s[i] == j);
            } else {
                assert(s[s.len() - 1] == j);
            }
        }
    }
}

/// The ids below `n` of the units of `pid` still waiting in one class
/// (factories, or combat units) come in strictly ascending order, each of
/// such a unit, and none is left out.
pub proof fn lemma_waiting_listed(units: Map<u32, Unit>, pid: u8, factories: bool, n: nat)
    requires
        n <= u32::MAX + 1,
    ensures
        ({
            let s = crate::console::waiting_ids(units, pid, factories, n);
            &&& forall|i: int, j: int| 0 <= i < j < s.len() ==> s[i] < s[j]
            &&& forall|i: int|
                0 <= i < s.len() ==> s[i] < n && units.contains_key(#[trigger] s[i])
                    && units[s[i]].owner == pid && !units[s[i]].acted && (units[s[i]].unit_type
                    == UnitType::Factory) == factories
            &&& forall|k: u32|
                #[trigger] units.contains_key(k) && units[k].owner == pid && !units[k].acted && (
                units[k].unit_type == UnitType::Factory) == factories && k < n ==> s.contains(k)
        }),
    decreases n,
{
    if n > 0 {
        lemma_waiting_listed(units, pid, factories, (n - 1) as nat);
        let rest = crate::console::waiting_ids(units, pid, factories, (n - 1) as nat);
        let s = crate::console::waiting_ids(units, pid, factories, n);
        let k = (n - 1) as u32;
        assert(k == n - 1);
        assert forall|j: u32|
            #[trigger] units.contains_key(j) && units[j].owner == pid && !units[j].acted && (
            units[j].unit_type == UnitType::Factory) == factories && j < n implies s.contains(j) by {
            if j < n - 1 {
                let i = choose|i: int| 0 <= i < rest.len() && rest[i] == j;
                assert(s[i] == j);
            } else {
                assert(s[s.len() - 1] == j);
            }
        }
    }
}

/// The console offers, in ascending id order, every combat unit of the
/// player that has not acted; only once there is none, every factory that has
/// not acted; and nothing else.
pub proof fn law_ready_units(m: GameModel, pid: u8)
    requires
        wf(m),
    ensures
        ({
            let r = crate::console::ready_ids(m, pid);
            let combat_left = crate::rules::has_unacted_combat(m.units, pid);
            &&& forall|i: int, j: int| 0 <= i < j < r.len() ==> r[i] < r[j]
            &&& forall|k: u32|
                #[trigger] r.contains(k) <==> (m.units.contains_key(k) && m.units[k].owner == pid
                    && !m.units[k].acted && (m.units[k].unit_type == UnitType::Factory) == !combat_left)
        }),
{
    let n = m.next_unit_id as nat;
    lemma_waiting_listed(m.units, pid, false, n);
    lemma_waiting_listed(m.units, pid, true, n);
    let combat = crate::console::waiting_ids(m.units, pid, false, n);
    let combat_left = crate::rules::has_unacted_combat(m.units, pid);
    assert(combat.len() > 0 <==> combat_left) by {
        if combat_left {
            let k = choose|k: u32|
                #[trigger] m.units.contains_key(k) && m.units[k].owner == pid && !m.units[k].acted
                    && m.units[k].unit_type != UnitType::Factory;
            assert(k < m.next_unit_id);
            assert(combat.contains(k));
        }
        if combat.len() > 0 {
            assert(m.units.contains_key(combat[0]));
        }
    }
    let r = crate::console::ready_ids(m, pid);
    assert forall|k: u32|
        #[trigger] r.contains(k) <==> (m.units.contains_key(k) && m.units[k].owner == pid
            && !m.units[k].acted && (m.units[k].unit_type == UnitType::Factory) == !combat_left) by {
        if r.contains(k) {
            let i = choose|i: int| 0 <= i < r.len() && r[i] == k;
            assert(m.units.contains_key(r[i]));
        }
        if m.units.contains_key(k) {
            assert(k < m.next_unit_id);
        }
    }
}

/// Ending a turn stores one more snapshot, keeping the earlier ones: it
/// belongs to the player whose turn ended and holds the round, the board and
/// the units (each with its owner, kind and cell) that the turn's end left.
pub proof fn law_turn_end_stores_snapshot(m: GameModel, pid: u8)
    requires
        wf(m),
        m.players.len() > 0,
        end_turn_outcome(m, pid).1 is Ok,
    ensures
        ({
            let m2 = end_turn_outcome(m, pid).0;
            let s = m2.snapshots.last();
            &&& m2.snapshots.len() == m.snapshots.len() + 1
            &&& m2.snapshots.take(m.snapshots.len() as int) == m.snapshots
            &&& s.player_id == pid
            &&& s.round == m2.round
            &&& s.grid == m2.grid
            &&& s.units.dom() == m2.units.dom()
            &&& forall|k: u32|
                #[trigger] s.units.contains_key(k) ==> {
                    &&& m2.units[k].owner == s.units[k].owner
                    &&& m2.units[k].unit_type == s.units[k].unit_type
                    &&& m2.units[k].position == s.units[k].position
                }
        }),
{
    let m2 = end_turn_outcome(m, pid).0;
    assert(m2.snapshots.take(m.snapshots.len() as int) =~= m.snapshots);
    assert(m2.snapshots.last().units.dom() =~= m2.units.dom());
}

// ─── Console ────────────────────────────────────────────────────────────

/// Marking a player's units as having acted changes no one's holding of
/// units, so the active players stay the same.
pub proof fn lemma_marked_keeps_active(ps: Seq<u8>, units: Map<u32, Unit>, pid: u8)
    ensures
        crate::rules::players_with_units(ps, crate::console::marked_acted(units, pid))
            == crate::rules::players_with_units(ps, units),
    decreases ps.len(),
{
    let mk = crate::console::marked_acted(units, pid);
    assert forall|p: u8| crate::rules::has_units(mk, p) == crate::rules::has_units(units, p) by {
        if crate::rules::has_units(units, p) {
            let k = choose|k: u32| #[trigger] units.contains_key(k) && units[k].owner == p;
            assert(mk.contains_key(k));
        }
        if crate::rules::has_units(mk, p) {
            let k = choose|k: u32| #[trigger] mk.contains_key(k) && mk[k].owner == p;
            assert(units.contains_key(k));
        }
    }
    if ps.len() > 0 {
        lemma_marked_keeps_active(ps.drop_last(), units, pid);
        assert(crate::rules::has_units(mk, ps.last()) == crate::rules::has_units(units, ps.last()));
    }
}

/// Closing the turn of the player to move, while nobody has won, always ends
/// that turn: one more snapshot is stored, of that player; afterwards, unless
/// the game is won, the player either still has units or has left the turn
/// order.
pub proof fn law_close_turn_ends_the_turn(m: GameModel, pid: u8)
    requires
        wf(m),
        m.players.len() > 0,
        crate::rules::winner(m) is None,
        current_player(m) == pid,
    ensures
        ({
            let m3 = crate::console::close_outcome(m, pid).0;
            &&& m3.snapshots.len() == m.snapshots.len() + 1
            &&& m3.snapshots.last().player_id == pid
            &&& crate::rules::winner(m3) is None ==> (crate::rules::has_units(m3.units, pid)
                || !m3.players.contains(pid))
        }),
{
    let (m1, r1) = end_turn_outcome(m, pid);
    if r1 is Err {
        let mm = GameModel { units: crate::console::marked_acted(m.units, pid), ..m };
        lemma_marked_keeps_active(m.players, m.units, pid);
        assert(crate::rules::winner(mm) == crate::rules::winner(m));
        law_unacted_listed(mm.units, pid, mm.next_unit_id as nat);
        let ids = crate::rules::unacted_ids(mm.units, pid, mm.next_unit_id as nat);
        if ids.len() > 0 {
            assert(mm.units.contains_key(ids[0]));
        }
        assert(end_turn_outcome(mm, pid).1 is Ok);
    }
    let m2 = if r1 is Err {
        end_turn_outcome(
            GameModel { units: crate::console::marked_acted(m.units, pid), ..m },
            pid,
        ).0
    } else {
        m1
    };
    assert(m2.snapshots.len() == m.snapshots.len() + 1);
    assert(m2.snapshots.last().player_id == pid);
    crate::roster::lemma_players_without(m2.players, pid);
    assert(crate::console::close_outcome(m, pid).0.snapshots == m2.snapshots);
}

/// A cell the player cannot see is drawn as a question mark after the dark
/// grey colour; an empty cell it sees is drawn as a dot after the dim mark.
pub proof fn law_drawn_fog_and_empty(m: GameModel, pid: u8, x: int, y: int)
    ensures
        tile(m, pid, x, y) is Fog ==> crate::display::shown_text(m, pid, x, y)[5] == '?',
        tile(m, pid, x, y) == TileVisibility::Visible(Cell::Empty) ==> crate::display::shown_text(
            m,
            pid,
            x,
            y,
        )[4] == '.',
{
    reveal_strlit("\x1b[90m?  \x1b[0m");
    reveal_strlit("\x1b[2m.  \x1b[0m");
}

// ─── Winner ─────────────────────────────────────────────────────────────

/// The players of the order that still have units are those listed, in
/// order and without repeats when the order has none.
pub proof fn lemma_active_players(ps: Seq<u8>, units: Map<u32, Unit>)
    ensures
        forall|q: u8|
            #[trigger] crate::rules::players_with_units(ps, units).contains(q) <==> (ps.contains(q)
                && crate::rules::has_units(units, q)),
        ps.no_duplicates() ==> crate::rules::players_with_units(ps, units).no_duplicates(),
    decreases ps.len(),
{
    if ps.len() > 0 {
        let init = ps.drop_last();
        lemma_active_players(init, units);
        let rest = crate::rules::players_with_units(init, units);
        let out = crate::rules::players_with_units(ps, units);
        assert(ps =~= init.push(ps.last()));
        assert forall|q: u8| #[trigger] out.contains(q) <==> (ps.contains(q) && crate::rules::has_units(
            units,
            q,
        )) by {
            if ps.contains(q) && crate::rules::has_units(units, q) {
                let j = choose|j: int| 0 <= j < ps.len() && ps[j] == q;
                if j < ps.len() - 1 {
                    assert(init[j] == q);
                    assert(rest.contains(q));
                    let jj = choose|jj: int| 0 <= jj < rest.len() && rest[jj] == q;
                    assert(out[jj] == q);
                } else {
                    assert(out[out.len() - 1] == q);
                }
            }
            if out.contains(q) {
                let j = choose|j: int| 0 <= j < out.len() && out[j] == q;
                if j < rest.len() {
                    assert(rest[j] == q);
                    assert(rest.contains(q));
                    let jj = choose|jj: int| 0 <= jj < init.len() && init[jj] == q;
                    assert(ps[jj] == q);
                } else {
                    assert(ps[ps.len() - 1] == q);
                }
            }
        }
        if ps.no_duplicates() {
            assert(init.no_duplicates());
            if crate::rules::has_units(units, ps.last()) {
                assert(!rest.contains(ps.last())) by {
                    if rest.contains(ps.last()) {
                        let jj = choose|jj: int| 0 <= jj < init.len() && init[jj] == ps.last();
                        assert(ps[jj] == ps[ps.len() - 1]);
                    }
                }
            }
        }
    }
}

/// A player wins exactly when it is in the turn order, has units, and no
/// other player of the order has any.
pub proof fn law_winner_is_sole_survivor(m: GameModel, p: u8)
    requires
        m.players.no_duplicates(),
    ensures
        crate::rules::winner(m) == Some(p) <==> (m.players.contains(p) && crate::rules::has_units(
            m.units,
            p,
        ) && forall|q: u8|
            #[trigger] m.players.contains(q) && q != p ==> !crate::rules::has_units(m.units, q)),
{
    lemma_active_players(m.players, m.units);
    let active = crate::rules::players_with_units(m.players, m.units);
    if crate::rules::winner(m) == Some(p) {
        assert(active.contains(p)) by {
            assert(active[0] == p);
        }
        assert forall|q: u8| #[trigger] m.players.contains(q) && q != p implies !crate::rules::has_units(
            m.units,
            q,
        ) by {
            if crate::rules::has_units(m.units, q) {
                assert(active.contains(q));
                let j = choose|j: int| 0 <= j < active.len() && active[j] == q;
                assert(j == 0);
            }
        }
    }
    if m.players.contains(p) && crate::rules::has_units(m.units, p) && forall|q: u8|
        #[trigger] m.players.contains(q) && q != p ==> !crate::rules::has_units(m.units, q) {
        assert(active.contains(p));
        let j = choose|j: int| 0 <= j < active.len() && active[j] == p;
        assert forall|i: int| 0 <= i < active.len() implies active[i] == p by {
            assert(active.contains(active[i]));
        }
        assert(active.len() == 1) by {
            if active.len() > 1 {
                let o = if j == 0 {
                    1int
                } else {
                    0int
                };
                assert(active[o] == p);
                assert(active[o] == active[j]);
            }
        }
        assert(active[0] == p);
    }
}

// ─── Removal ────────────────────────────────────────────────────────────

/// Removing a player takes exactly its units off the board: every other
/// unit stays unchanged, the leaver's cells become empty, every other cell
/// keeps its content, and the configuration, counter, round and snapshots
/// stay.
pub proof fn law_removal_takes_only_the_leavers_units(m: GameModel, pid: u8)
    requires
        wf(m),
    ensures
        ({
            let m2 = crate::rules::removal_outcome(m, pid);
            &&& forall|k: u32|
                #[trigger] m2.units.contains_key(k) == (m.units.contains_key(k) && m.units[k].owner
                    != pid)
            &&& forall|k: u32| #[trigger] m2.units.contains_key(k) ==> m2.units[k] == m.units[k]
            &&& forall|x: int, y: int|
                0 <= x < m.config.width && 0 <= y < m.config.height ==> #[trigger] m2.grid[y][x]
                    == match m.grid[y][x] {
                    Cell::Unit(k) => if m.units[k].owner == pid {
                        Cell::Empty
                    } else {
                        Cell::Unit(k)
                    },
                    Cell::Empty => Cell::Empty,
                }
            &&& m2.config == m.config
            &&& m2.next_unit_id == m.next_unit_id
            &&& m2.round == m.round
            &&& m2.snapshots == m.snapshots
        }),
{
    let m2 = crate::rules::removal_outcome(m, pid);
    assert forall|x: int, y: int|
        0 <= x < m.config.width && 0 <= y < m.config.height implies #[trigger] m2.grid[y][x]
            == match m.grid[y][x] {
            Cell::Unit(k) => if m.units[k].owner == pid {
                Cell::Empty
            } else {
                Cell::Unit(k)
            },
            Cell::Empty => Cell::Empty,
        } by {
        assert(m.grid[y].len() == m.config.width);
        let c = m.grid[y][x];
    }
}

// ─── Setup ──────────────────────────────────────────────────────────────

/// Player `k` starts with one infantry that has not acted, numbered `k`,
/// inside the board on the ring one cell in from its edge: with two players
/// the first at `(1, 1)` and the second at `(width - 2, height - 2)`.
pub proof fn law_starting_units(config: crate::types::GameConfig, k: u32)
    requires
        crate::setup::config_supported(config),
        1 <= k <= config.player_count,
    ensures
        ({
            let u = crate::setup::starting_unit(config, k);
            let p = u.position;
            &&& u.id == k
            &&& u.owner == k
            &&& u.unit_type == UnitType::Infantry
            &&& !u.acted
            &&& p.x < config.width && p.y < config.height
            &&& p.x == 1 || p.x == config.width - 2 || p.y == 1 || p.y == config.height - 2
            &&& config.player_count == 2 && k == 1 ==> p == Position { x: 1, y: 1 }
            &&& config.player_count == 2 && k == 2 ==> p == Position {
                x: (config.width - 2) as u32,
                y: (config.height - 2) as u32,
            }
        }),
{
    let w = config.width;
    let h = config.height;
    let n = config.player_count;
    let i = k - 1;
    if n != 2 {
        let len = crate::setup::ring_len(w, h);
        let step = len / (n as int);
        assert(len > 0);
        assert(0 <= step);
        assert(i * step < len) by (nonlinear_arith)
            requires
                0 <= i < n,
                step == len / (n as int),
                len > 0,
                n > 0,
        ;
        assert(0 <= i * step) by (nonlinear_arith)
            requires
                0 <= i,
                0 <= step,
        ;
    }
}

// ─── Reading input ──────────────────────────────────────────────────────

/// Every character of `n`'s decimal digits is a digit.
pub proof fn lemma_decimal_digits(n: nat)
    ensures
        crate::rules::decimal(n).len() > 0,
        forall|i: int|
            0 <= i < crate::rules::decimal(n).len() ==> crate::input::is_digit(
                #[trigger] crate::rules::decimal(n)[i],
            ),
{
    lemma_decimal_reads_back(n);
}

/// A text with no `sep` in it is one piece.
pub proof fn lemma_one_piece(s: Seq<char>, sep: char)
    requires
        !s.contains(sep),
    ensures
        crate::input::pieces(s, sep) == seq![s],
    decreases s.len(),
{
    if s.len() > 0 {
        assert(!s.drop_last().contains(sep)) by {
            if s.drop_last().contains(sep) {
                let j = choose|j: int| 0 <= j < s.drop_last().len() && s.drop_last()[j] == sep;
                assert(s[j] == sep);
            }
        }
        lemma_one_piece(s.drop_last(), sep);
        assert(s[s.len() - 1] != sep);
        assert(s.drop_last().push(s.last()) =~= s);
    } else {
        assert(s =~= Seq::<char>::empty());
    }
}

/// Two texts without `sep`, joined by one `sep`, are two pieces.
pub proof fn lemma_two_pieces(a: Seq<char>, b: Seq<char>, sep: char)
    requires
        !a.contains(sep),
        !b.contains(sep),
    ensures
        crate::input::pieces(a + seq![sep] + b, sep) == seq![a, b],
    decreases b.len(),
{
    let s = a + seq![sep] + b;
    if b.len() == 0 {
        lemma_one_piece(a, sep);
        assert(s.drop_last() =~= a);
        assert(b =~= Seq::<char>::empty());
        assert(crate::input::pieces(s, sep) =~= seq![a, b]);
    } else {
        assert(!b.drop_last().contains(sep)) by {
            if b.drop_last().contains(sep) {
                let j = choose|j: int| 0 <= j < b.drop_last().len() && b.drop_last()[j] == sep;
                assert(b[j] == sep);
            }
        }
        lemma_two_pieces(a, b.drop_last(), sep);
        assert(s.drop_last() =~= a + seq![sep] + b.drop_last());
        assert(s.last() == b.last());
        assert(b[b.len() - 1] != sep);
        assert(b.drop_last().push(b.last()) =~= b);
        assert(crate::input::pieces(s, sep) =~= seq![a, b]);
    }
}

/// A text that neither starts nor ends with white space is its own trim.
pub proof fn lemma_trim_nothing(s: Seq<char>)
    requires
        s.len() > 0,
        !crate::input::is_white(s[0]),
        !crate::input::is_white(s[s.len() - 1]),
    ensures
        crate::input::trimmed(s) == s,
{
}

/// `v` written in decimal (with a leading `-` when negative) reads back as
/// `v`, and holds neither a separator nor white space.
pub proof fn lemma_signed_reads_back(v: int, signed: bool)
    requires
        signed || v >= 0,
    ensures
        crate::input::integer(crate::notation::signed_decimal(v), signed) == Some(v),
        crate::input::trimmed(crate::notation::signed_decimal(v))
            == crate::notation::signed_decimal(v),
        !crate::notation::signed_decimal(v).contains(','),
        !crate::notation::signed_decimal(v).contains('x'),
{
    reveal_strlit("-");
    let s = crate::notation::signed_decimal(v);
    let m: nat = if v < 0 {
        (-v) as nat
    } else {
        v as nat
    };
    lemma_decimal_digits(m);
    lemma_decimal_reads_back(m);
    let d = crate::rules::decimal(m);
    if v < 0 {
        assert(s == "-"@ + d);
        assert(s.drop_first() =~= d);
        assert(s[0] == '-');
    } else {
        assert(s == d);
        assert(crate::input::is_digit(s[0]));
    }
    assert(crate::input::is_digit(s[s.len() - 1])) by {
        assert(s[s.len() - 1] == d[d.len() - 1]);
    }
    lemma_trim_nothing(s);
    assert forall|i: int| 0 <= i < s.len() implies s[i] != ',' && s[i] != 'x' by {
        if v < 0 && i == 0 {
        } else if v < 0 {
            assert(s[i] == d[i - 1]);
        } else {
            assert(s[i] == d[i]);
        }
    }
}

/// A vector typed as its two components in decimal, separated by a comma,
/// reads back as that vector.
pub proof fn law_vector_reads_back(dx: i32, dy: i32)
    ensures
        crate::input::vector(
            crate::notation::signed_decimal(dx as int) + ","@ + crate::notation::signed_decimal(
                dy as int,
            ),
        ) == Some((dx, dy)),
{
    reveal_strlit(",");
    let a = crate::notation::signed_decimal(dx as int);
    let b = crate::notation::signed_decimal(dy as int);
    lemma_signed_reads_back(dx as int, true);
    lemma_signed_reads_back(dy as int, true);
    assert(a + ","@ + b == a + seq![','] + b);
    lemma_two_pieces(a, b, ',');
    let parts = seq![a, b];
    assert(parts.drop_last() =~= seq![a]);
    assert(seq![a].drop_last() =~= Seq::<Seq<char>>::empty());
    assert(crate::input::numbers(Seq::<Seq<char>>::empty(), true, i32::MIN as int, i32::MAX as int)
        == Seq::<int>::empty());
    assert(seq![a].last() == a);
    assert(crate::input::integer_in(crate::input::trimmed(a), true, i32::MIN as int, i32::MAX as int) == Some(dx as int));
    assert(crate::input::numbers(seq![a], true, i32::MIN as int, i32::MAX as int) =~= seq![dx as int]);
    assert(crate::input::numbers(parts, true, i32::MIN as int, i32::MAX as int) =~= seq![dx as int, dy as int]);
    assert(crate::input::numbers_in(a + ","@ + b, ',', true, i32::MIN as int, i32::MAX as int) == seq![dx as int, dy as int]);
}

/// A cell typed as its two coordinates in decimal, separated by a comma,
/// reads back as that cell.
pub proof fn law_cell_reads_back(x: u32, y: u32)
    ensures
        crate::input::cell_coordinates(
            crate::rules::decimal(x as nat) + ","@ + crate::rules::decimal(y as nat),
        ) == Some((x, y)),
{
    reveal_strlit(",");
    let a = crate::rules::decimal(x as nat);
    let b = crate::rules::decimal(y as nat);
    lemma_signed_reads_back(x as int, true);
    lemma_signed_reads_back(y as int, true);
    assert(crate::notation::signed_decimal(x as int) == a);
    assert(crate::notation::signed_decimal(y as int) == b);
    assert(a + ","@ + b == a + seq![','] + b);
    lemma_two_pieces(a, b, ',');
    let parts = seq![a, b];
    assert(parts.drop_last() =~= seq![a]);
    assert(seq![a].drop_last() =~= Seq::<Seq<char>>::empty());
    assert(crate::input::numbers(Seq::<Seq<char>>::empty(), true, i64::MIN as int, i64::MAX as int)
        == Seq::<int>::empty());
    assert(seq![a].last() == a);
    assert(crate::input::integer_in(crate::input::trimmed(a), true, i64::MIN as int, i64::MAX as int) == Some(x as int));
    assert(crate::input::numbers(seq![a], true, i64::MIN as int, i64::MAX as int) =~= seq![x as int]);
    assert(crate::input::numbers(parts, true, i64::MIN as int, i64::MAX as int) =~= seq![x as int, y as int]);
    assert(crate::input::numbers_in(a + ","@ + b, ',', true, i64::MIN as int, i64::MAX as int) == seq![x as int, y as int]);
}

/// A board size typed as width and height in decimal, separated by `x`,
/// reads back as that size.
pub proof fn law_map_size_reads_back(w: u32, h: u32)
    ensures
        crate::input::map_size(crate::rules::decimal(w as nat) + "x"@ + crate::rules::decimal(h as nat))
            == Some((w, h)),
{
    reveal_strlit("x");
    let a = crate::rules::decimal(w as nat);
    let b = crate::rules::decimal(h as nat);
    lemma_signed_reads_back(w as int, false);
    lemma_signed_reads_back(h as int, false);
    assert(crate::notation::signed_decimal(w as int) == a);
    assert(crate::notation::signed_decimal(h as int) == b);
    assert(a + "x"@ + b == a + seq!['x'] + b);
    lemma_two_pieces(a, b, 'x');
    let parts = seq![a, b];
    assert(parts.drop_last() =~= seq![a]);
    assert(seq![a].drop_last() =~= Seq::<Seq<char>>::empty());
    assert(crate::input::numbers(Seq::<Seq<char>>::empty(), false, 0, u32::MAX as int)
        == Seq::<int>::empty());
    assert(seq![a].last() == a);
    assert(crate::input::integer_in(crate::input::trimmed(a), false, 0, u32::MAX as int) == Some(w as int));
    assert(crate::input::numbers(seq![a], false, 0, u32::MAX as int) =~= seq![w as int]);
    assert(crate::input::numbers(parts, false, 0, u32::MAX as int) =~= seq![w as int, h as int]);
    assert(crate::input::numbers_in(a + "x"@ + b, 'x', false, 0, u32::MAX as int) == seq![w as int, h as int]);
}

/// A number of players typed in decimal reads back as that number, raised
/// to two when smaller.
pub proof fn law_player_count_reads_back(n: u8)
    ensures
        crate::input::player_count(crate::rules::decimal(n as nat)) == if n < 2 {
            2
        } else {
            n
        },
{
    lemma_signed_reads_back(n as int, false);
    assert(crate::notation::signed_decimal(n as int) == crate::rules::decimal(n as nat));
}

} // verus!
