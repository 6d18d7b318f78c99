//! Properties of the game that span operations or hold of every state.
use crate::board::{current_player, neighbour, set_cell, shifted, wf};
use crate::rules::{
    action_outcome, end_turn_outcome, has_unacted_combat, has_units, infantry_move, move_allowed, moves_upto,
    players_with_units,
    ready_for, removal_outcome, rollback_outcome, unacted_ids, valid_actions, winner, with_unit,
};
use crate::types::{Action, Cell, ErrorModel, GameModel, Position, Unit, UnitType};
use vstd::prelude::*;

verus! {

/// A refused action leaves the game as it was. The one exception is a
/// fortification sent onto a cell of its own side: it has already turned into
/// infantry when the move is refused.
pub proof fn law_refused_action_changes_nothing(m: GameModel, pid: u8, uid: u32, a: Action)
    requires
        action_outcome(m, pid, uid, a).1 is Err,
        !(m.units.contains_key(uid) && m.units[uid].unit_type is Fortification && (a.dx != 0
            || a.dy != 0)),
    ensures
        action_outcome(m, pid, uid, a).0 == m,
{
}

/// A fortification refused because it was sent onto its own side has become
/// infantry, and nothing else changed.
pub proof fn law_refused_fortification_turns_infantry(m: GameModel, pid: u8, uid: u32, a: Action)
    requires
        action_outcome(m, pid, uid, a).1 is Err,
        m.units.contains_key(uid),
        m.units[uid].unit_type is Fortification,
        a.dx != 0 || a.dy != 0,
    ensures
        action_outcome(m, pid, uid, a).0 == m || action_outcome(m, pid, uid, a).0 == with_unit(
            m,
            uid,
            Unit { unit_type: UnitType::Infantry, ..m.units[uid] },
        ),
{
}

/// A unit acts at most once per turn: once an action of it succeeded and it
/// is still on the board, it has acted, and any further action of it is
/// refused (because it already acted, or because the game is over).
pub proof fn law_unit_acts_once(m: GameModel, pid: u8, uid: u32, a: Action, b: Action)
    requires
        action_outcome(m, pid, uid, a).1 is Ok,
        action_outcome(m, pid, uid, a).0.units.contains_key(uid),
    ensures
        action_outcome(m, pid, uid, a).0.units[uid].acted,
        action_outcome(action_outcome(m, pid, uid, a).0, pid, uid, b).1 == if winner(
            action_outcome(m, pid, uid, a).0,
        ) is Some {
            Err::<(), ErrorModel>(ErrorModel::GameOver)
        } else {
            Err::<(), ErrorModel>(ErrorModel::UnitAlreadyActed)
        },
{
}

/// A combat unit given a non-zero vector never stays on its cell: after a
/// successful action its origin cell is empty, and it either stands on the
/// target cell or has been destroyed.
pub proof fn law_mover_leaves_origin(m: GameModel, pid: u8, uid: u32, a: Action)
    requires
        wf(m),
        action_outcome(m, pid, uid, a).1 is Ok,
        a.dx != 0 || a.dy != 0,
        m.units[uid].unit_type != UnitType::Factory,
    ensures
        ({
            let from = m.units[uid].position;
            let m2 = action_outcome(m, pid, uid, a).0;
            &&& m2.grid[from.y as int][from.x as int] == Cell::Empty
            &&& m2.units.contains_key(uid) ==> Some(m2.units[uid].position) == shifted(
                from,
                a.dx,
                a.dy,
                m.config.width,
                m.config.height,
            )
        }),
{
}


/// Ending a turn passes it to the next player of the fixed order (the first
/// after the last, which starts a new round), keeps the order unchanged, and
/// lets every unit of the new current player act.
pub proof fn law_turn_passes_in_order(m: GameModel, pid: u8)
    requires
        wf(m),
        m.players.len() > 0,
        m.players.len() <= usize::MAX,
        m.round < u32::MAX || (m.current_player_index + 1) % (m.players.len() as int) != 0,
        end_turn_outcome(m, pid).1 is Ok,
    ensures
        ({
            let m2 = end_turn_outcome(m, pid).0;
            &&& m2.players == m.players
            &&& m2.current_player_index == (m.current_player_index + 1) % (m.players.len() as int)
            &&& m2.round == if m2.current_player_index == 0 {
                m.round + 1
            } else {
                m.round as int
            }
            &&& forall|k: u32|
                #[trigger] m2.units.contains_key(k) && m2.units[k].owner == current_player(m2)
                    ==> !m2.units[k].acted
        }),
{
    let m2 = end_turn_outcome(m, pid).0;
    let next = ((m.current_player_index + 1) % (m.players.len() as int)) as usize;
    assert(m2.players == m.players);
    assert(m2.current_player_index == next);
    assert(current_player(m2) == m.players[next as int]);
    assert(0 <= (m.current_player_index + 1) % (m.players.len() as int) <= m.current_player_index
        + 1) by (nonlinear_arith)
        requires
            m.players.len() > 0,
    ;
}

/// A turn can only end once every unit of the player has acted.
pub proof fn law_turn_ends_only_when_all_acted(m: GameModel, pid: u8)
    requires
        wf(m),
        end_turn_outcome(m, pid).1 is Ok,
    ensures
        forall|k: u32| #[trigger] m.units.contains_key(k) && m.units[k].owner == pid ==> m.units[k].acted,
{
    assert forall|k: u32| #[trigger] m.units.contains_key(k) && m.units[k].owner == pid implies m.units[k].acted by {
        if !m.units[k].acted {
            lemma_unacted_ids_complete(m.units, pid, m.next_unit_id as nat, k);
        }
    }
}

/// Every unit of `pid` with an id below `n` that has not acted is listed.
pub proof fn lemma_unacted_ids_complete(units: Map<u32, Unit>, pid: u8, n: nat, k: u32)
    requires
        units.contains_key(k),
        units[k].owner == pid,
        !units[k].acted,
        k < n,
    ensures
        unacted_ids(units, pid, n).len() > 0,
    decreases n,
{
    if k < n - 1 {
        lemma_unacted_ids_complete(units, pid, (n - 1) as nat, k);
    }
}


/// Rolling back to the snapshot that a turn's end has just stored changes
/// nothing: board, units, turn order, current player, round, snapshots and
/// the record of departures are those the turn's end produced.
pub proof fn law_rollback_restores_turn_end(m: GameModel, pid: u8)
    requires
        wf(m),
        m.players.len() > 0,
        m.players.len() <= usize::MAX,
        end_turn_outcome(m, pid).1 is Ok,
    ensures
        ({
            let m1 = end_turn_outcome(m, pid).0;
            rollback_outcome(m1, m1.snapshots.len() - 1) == m1
        }),
{
    let m1 = end_turn_outcome(m, pid).0;
    let last = m1.snapshots.len() - 1;
    let s = m1.snapshots[last];
    crate::invariants::lemma_culled_consistent(
        m.grid,
        m.units,
        pid,
        m.config.width,
        m.config.height,
        m.next_unit_id as nat,
        m.next_unit_id,
    );
    assert(crate::rules::units_of(s.units, m1.players) =~= s.units) by {
        assert forall|k: u32| #[trigger] s.units.contains_key(k) implies m1.players.contains(
            s.units[k].owner,
        ) by {
            assert(m.units.contains_key(k));
        }
    }
    assert(crate::rules::without_missing(s.grid, s.units) =~= s.grid) by {
        assert forall|y: int| 0 <= y < s.grid.len() implies #[trigger] crate::rules::without_missing(
            s.grid,
            s.units,
        )[y] =~= s.grid[y] by {
            assert forall|x: int| 0 <= x < s.grid[y].len() implies #[trigger] crate::rules::without_missing(
                s.grid,
                s.units,
            )[y][x] == s.grid[y][x] by {
                assert(y < m.config.height);
                assert(s.grid[y].len() == m.config.width);
                let c = s.grid[y][x];
            }
        }
    }
    crate::invariants::lemma_find_from(m.players, pid, 0);
    let i = m.current_player_index as int;
    assert(crate::rules::find_from(m.players, pid, 0) == Some(i as nat)) by {
        match crate::rules::find_from(m.players, pid, 0) {
            Some(j) => {
                assert(m.players[j as int] == m.players[i]);
            },
            None => {},
        }
    }
    assert(0 <= (m.current_player_index + 1) % (m.players.len() as int) <= m.current_player_index
        + 1) by (nonlinear_arith)
        requires
            m.players.len() > 0,
    ;
    assert(m1.snapshots.take(last + 1) =~= m1.snapshots);
    assert(rollback_outcome(m1, last) =~= m1);
}


/// After a player is removed it has no units and no place in the turn order.
/// If it was not its turn, the current player keeps the turn; if it was, the
/// turn passes to the player after it in the order.
pub proof fn law_removal_turn(m: GameModel, pid: u8)
    requires
        wf(m),
        m.players.len() > 0,
    ensures
        ({
            let m2 = removal_outcome(m, pid);
            let old_index = m.current_player_index as int;
            &&& !m2.players.contains(pid)
            &&& !has_units(m2.units, pid)
            &&& m2.players.len() > 0 && current_player(m) != pid ==> current_player(m2)
                == current_player(m)
            &&& m2.players.len() > 0 && current_player(m) == pid ==> current_player(m2)
                == m.players[(old_index + 1) % (m.players.len() as int)]
        }),
{
    let m2 = removal_outcome(m, pid);
    let ps = m.players;
    let old_index = m.current_player_index as int;
    crate::roster::lemma_players_without(ps, pid);
    if m2.players.len() > 0 {
        if current_player(m) != pid {
            if ps.contains(pid) {
                let j = choose|j: int| 0 <= j < ps.len() && ps[j] == pid;
                if j < old_index {
                    assert(ps.take(old_index)[j] == pid);
                }
            }
            assert(m2.players[old_index - crate::roster::shift_before(ps, pid, old_index)]
                == ps[old_index]);
        } else {
            assert(ps.contains(pid)) by {
                assert(ps[old_index] == pid);
            }
            assert(!ps.take(old_index).contains(pid)) by {
                if ps.take(old_index).contains(pid) {
                    let j = choose|j: int| 0 <= j < ps.take(old_index).len() && ps.take(old_index)[j] == pid;
                    assert(ps[j] == ps[old_index]);
                }
            }
            if old_index + 1 < ps.len() {
                let i = old_index + 1;
                assert(ps[i] != pid);
                assert(ps.take(i).contains(pid)) by {
                    assert(ps.take(i)[old_index] == pid);
                }
                vstd::arithmetic::div_mod::lemma_small_mod(
                    old_index as nat,
                    m2.players.len() as nat,
                );
                vstd::arithmetic::div_mod::lemma_small_mod(i as nat, ps.len() as nat);
                assert(m2.players[i - crate::roster::shift_before(ps, pid, i)] == ps[i]);
            } else {
                assert(ps[0] != pid);
                assert(!ps.take(0).contains(pid));
                assert(m2.players[0 - crate::roster::shift_before(ps, pid, 0)] == ps[0]);
                assert(old_index == m2.players.len());
                vstd::arithmetic::div_mod::lemma_mod_self_0(m2.players.len() as int);
                vstd::arithmetic::div_mod::lemma_mod_self_0(ps.len() as int);
            }
        }
    }
    assert(!m2.players.contains(pid));
    assert(!has_units(m2.units, pid));
    assert(m2.players.len() > 0 && current_player(m) != pid ==> current_player(m2)
                == current_player(m));
}

/// When one of two players leaves, the other wins if it still has units.
pub proof fn law_winner_after_disconnect(m: GameModel, leaver: u8, stayer: u8)
    requires
        wf(m),
        m.players == seq![leaver, stayer] || m.players == seq![stayer, leaver],
        leaver != stayer,
        has_units(m.units, stayer),
    ensures
        winner(removal_outcome(m, leaver)) == Some(stayer),
{
    let m2 = removal_outcome(m, leaver);
    crate::roster::lemma_players_without(m.players, leaver);
    assert(m2.players =~= seq![stayer]) by {
        assert(m2.players.contains(stayer));
        assert(m.players.contains(leaver));
        assert(m2.players.len() == 1);
    }
    let k = choose|k: u32| #[trigger] m.units.contains_key(k) && m.units[k].owner == stayer;
    assert(m2.units.contains_key(k));
    assert(has_units(m2.units, stayer));
    assert(m2.players.drop_last() =~= Seq::<u8>::empty());
    reveal_with_fuel(players_with_units, 2);
    assert(players_with_units(m2.players, m2.units) =~= seq![stayer]);
}


/// An action is among the first `n` allowed moves exactly when it is one of
/// the first `n` neighbour vectors, for this unit, and allowed.
pub proof fn lemma_moves_upto_contains(
    m: GameModel,
    pid: u8,
    uid: u32,
    p: Position,
    factory: bool,
    n: nat,
    a: Action,
)
    requires
        n <= 8,
    ensures
        moves_upto(m, pid, uid, p, factory, n).contains(a) <==> (a.unit_id == uid && exists|i: int|
            0 <= i < n && #[trigger] neighbour(i) == (a.dx, a.dy) && move_allowed(
                m,
                pid,
                p,
                neighbour(i),
                factory,
            )),
    decreases n,
{
    if n > 0 {
        lemma_moves_upto_contains(m, pid, uid, p, factory, (n - 1) as nat, a);
        let rest = moves_upto(m, pid, uid, p, factory, (n - 1) as nat);
        let d = neighbour((n - 1) as int);
        if move_allowed(m, pid, p, d, factory) {
            let full = rest.push(Action { unit_id: uid, dx: d.0, dy: d.1 });
            if full.contains(a) {
                let j = choose|j: int| 0 <= j < full.len() && full[j] == a;
                if j < rest.len() {
                    assert(rest[j] == a);
                    assert(rest.contains(a));
                }
            }
            if rest.contains(a) {
                let j = choose|j: int| 0 <= j < rest.len() && rest[j] == a;
                assert(full[j] == a);
            }
            if a == (Action { unit_id: uid, dx: d.0, dy: d.1 }) {
                assert(full[rest.len() as int] == a);
            }
        }
    }
}

/// Every action that `get_valid_actions` lists for a unit that may act now
/// (a factory only once its player's combat units have all acted) is
/// accepted by `apply_action`.
pub proof fn law_valid_actions_are_accepted(m: GameModel, pid: u8, uid: u32, a: Action)
    requires
        wf(m),
        winner(m) is None,
        current_player(m) == pid,
        m.units.contains_key(uid),
        !m.units[uid].acted,
        m.units[uid].unit_type == UnitType::Factory ==> !has_unacted_combat(m.units, pid),
        valid_actions(m, pid, uid).contains(a),
    ensures
        action_outcome(m, pid, uid, a).1 is Ok,
{
    let u = m.units[uid];
    let factory = u.unit_type == UnitType::Factory;
    let stay = Action { unit_id: uid, dx: 0, dy: 0 };
    lemma_moves_upto_contains(m, pid, uid, u.position, factory, 8, a);
    if !factory && a == stay {
    } else {
        if !factory {
            let full = seq![stay] + moves_upto(m, pid, uid, u.position, false, 8);
            let j = choose|j: int| 0 <= j < full.len() && full[j] == a;
            assert(j != 0);
            assert(moves_upto(m, pid, uid, u.position, false, 8)[j - 1] == a);
            assert(moves_upto(m, pid, uid, u.position, false, 8).contains(a));
        }
        let i = choose|i: int|
            0 <= i < 8 && #[trigger] neighbour(i) == (a.dx, a.dy) && move_allowed(
                m,
                pid,
                u.position,
                neighbour(i),
                factory,
            );
        let t = shifted(u.position, a.dx, a.dy, m.config.width, m.config.height)->0;
        match m.grid[t.y as int][t.x as int] {
            Cell::Empty => {},
            Cell::Unit(tid) => {
                assert(tid != uid) by {
                    assert(m.units[tid].owner != pid);
                }
            },
        }
    }
}

/// An accepted action with a vector of length at most one per axis is one
/// of the actions that `get_valid_actions` lists.
pub proof fn law_accepted_steps_are_valid(m: GameModel, pid: u8, uid: u32, a: Action)
    requires
        wf(m),
        a.unit_id == uid,
        -1 <= a.dx <= 1,
        -1 <= a.dy <= 1,
        action_outcome(m, pid, uid, a).1 is Ok,
    ensures
        valid_actions(m, pid, uid).contains(a),
{
    let u = m.units[uid];
    let factory = u.unit_type == UnitType::Factory;
    let stay = Action { unit_id: uid, dx: 0, dy: 0 };
    lemma_moves_upto_contains(m, pid, uid, u.position, factory, 8, a);
    if a.dx == 0 && a.dy == 0 {
        assert(!factory);
        assert(a == stay);
        assert((seq![stay] + moves_upto(m, pid, uid, u.position, false, 8))[0] == a);
    } else {
        let i: int = if a.dy == -1 {
            a.dx + 1
        } else if a.dy == 0 {
            if a.dx == -1 {
                3
            } else {
                4
            }
        } else {
            a.dx + 6
        };
        assert(neighbour(i) == (a.dx, a.dy));
        let t = shifted(u.position, a.dx, a.dy, m.config.width, m.config.height)->0;
        match m.grid[t.y as int][t.x as int] {
            Cell::Empty => {},
            Cell::Unit(tid) => {
                assert(m.units.contains_key(tid));
                assert(m.units[tid].position == t);
                assert(tid != uid) by {
                    if tid == uid {
                        assert(t == u.position);
                    }
                }
            },
        }
        assert(move_allowed(m, pid, u.position, neighbour(i), factory));
        if !factory {
            let rest = moves_upto(m, pid, uid, u.position, false, 8);
            let j = choose|j: int| 0 <= j < rest.len() && rest[j] == a;
            assert((seq![stay] + rest)[j + 1] == a);
        }
    }
}


/// A player of the order that has units is among the active players.
pub proof fn lemma_active_nonempty(ps: Seq<u8>, units: Map<u32, Unit>, p: u8)
    requires
        ps.contains(p),
        has_units(units, p),
    ensures
        players_with_units(ps, units).len() > 0,
    decreases ps.len(),
{
    if ps.last() != p {
        assert(ps.drop_last().contains(p)) by {
            let j = choose|j: int| 0 <= j < ps.len() && ps[j] == p;
            assert(ps.drop_last()[j] == p);
        }
        lemma_active_nonempty(ps.drop_last(), units, p);
    }
}

/// No action leaves the board without units of an active player: a draw
/// cannot come from an action.
pub proof fn law_action_leaves_a_survivor(m: GameModel, pid: u8, uid: u32, a: Action)
    requires
        wf(m),
        action_outcome(m, pid, uid, a).1 is Ok,
    ensures
        players_with_units(
            action_outcome(m, pid, uid, a).0.players,
            action_outcome(m, pid, uid, a).0.units,
        ).len() > 0,
{
    let m2 = action_outcome(m, pid, uid, a).0;
    let u = m.units[uid];
    if m2.units.contains_key(uid) {
        assert(m2.units[uid].owner == u.owner);
        assert(m.players.contains(u.owner));
        lemma_active_nonempty(m2.players, m2.units, u.owner);
    } else {
        let t = shifted(u.position, a.dx, a.dy, m.config.width, m.config.height)->0;
        let tid = m.grid[t.y as int][t.x as int]->0;
        assert(m2.units.contains_key(tid));
        assert(m.players.contains(m.units[tid].owner));
        lemma_active_nonempty(m2.players, m2.units, m.units[tid].owner);
    }
}

/// Culling the factories of `pid` keeps every unit of the other players.
pub proof fn lemma_culled_keeps_others(
    g: Seq<Seq<Cell>>,
    units: Map<u32, Unit>,
    pid: u8,
    w: u32,
    h: u32,
    n: nat,
    k: u32,
)
    requires
        units.contains_key(k),
        units[k].owner != pid,
    ensures
        crate::rules::culled(g, units, pid, w, h, n).1.contains_key(k),
        crate::rules::culled(g, units, pid, w, h, n).1[k] == units[k],
    decreases n,
{
    if n > 0 {
        lemma_culled_keeps_others(g, units, pid, w, h, (n - 1) as nat, k);
    }
}

/// Ending a turn never leaves the board without units of an active player
/// while another player than the one ending the turn has units: a draw cannot
/// come from a turn's end either.
pub proof fn law_turn_end_leaves_a_survivor(m: GameModel, pid: u8, other: u8)
    requires
        wf(m),
        m.players.contains(other),
        other != pid,
        has_units(m.units, other),
    ensures
        players_with_units(end_turn_outcome(m, pid).0.players, end_turn_outcome(m, pid).0.units).len()
            > 0,
{
    let m2 = end_turn_outcome(m, pid).0;
    let k = choose|k: u32| #[trigger] m.units.contains_key(k) && m.units[k].owner == other;
    lemma_culled_keeps_others(
        m.grid,
        m.units,
        pid,
        m.config.width,
        m.config.height,
        m.next_unit_id as nat,
        k,
    );
    assert(m2.units.contains_key(k));
    assert(m2.units[k].owner == other);
    lemma_active_nonempty(m2.players, m2.units, other);
}

/// A player always sees the cells of its own units.
pub proof fn law_own_units_visible(m: GameModel, pid: u8, k: u32)
    requires
        wf(m),
        m.units.contains_key(k),
        m.units[k].owner == pid,
    ensures
        crate::rules::tile(m, pid, m.units[k].position.x as int, m.units[k].position.y as int)
            == crate::types::TileVisibility::Visible(Cell::Unit(k)),
{
    let p = m.units[k].position;
    assert(crate::rules::covers(m.units[k], p.x as int, p.y as int));
}

/// A cell more than two cells away (in either axis) from every unit of the
/// player, and from every cell such a unit has left this turn, is fog to it.
pub proof fn law_far_cells_fogged(m: GameModel, pid: u8, x: int, y: int)
    requires
        forall|k: u32|
            #[trigger] m.units.contains_key(k) && m.units[k].owner == pid ==> {
                let p = m.units[k].position;
                x < p.x - 2 || x > p.x + 2 || y < p.y - 2 || y > p.y + 2
            },
        forall|i: int|
            0 <= i < m.departures.len() && #[trigger] m.departures[i].owner == pid ==> {
                let p = m.departures[i].position;
                x < p.x - 2 || x > p.x + 2 || y < p.y - 2 || y > p.y + 2
            },
    ensures
        crate::rules::tile(m, pid, x, y) == crate::types::TileVisibility::Fog,
{
}

/// What a player is shown depends only on what lies within its sight: two
/// games in which the player has the same units and the same record of
/// departures, and whose boards agree on every cell the player sees, show
/// that player the same tiles and the same list of units.
pub proof fn law_view_shows_only_sight(m1: GameModel, m2: GameModel, pid: u8)
    requires
        forall|k: u32|
            (#[trigger] m1.units.contains_key(k) && m1.units[k].owner == pid) == (
            m2.units.contains_key(k) && m2.units[k].owner == pid),
        forall|k: u32|
            #[trigger] m1.units.contains_key(k) && m1.units[k].owner == pid ==> m1.units[k]
                == m2.units[k],
        m1.departures == m2.departures,
        forall|x: int, y: int|
            crate::rules::sees(m1.units, pid, x, y) || crate::rules::saw_before(
                m1.departures,
                pid,
                x,
                y,
            ) ==> #[trigger] m1.grid[y][x] == m2.grid[y][x],
    ensures
        forall|x: int, y: int|
            #[trigger] crate::rules::tile(m1, pid, x, y) == crate::rules::tile(m2, pid, x, y),
        forall|n: nat|
            #[trigger] crate::rules::owned_units(m1.units, pid, n) == crate::rules::owned_units(
                m2.units,
                pid,
                n,
            ),
{
    assert forall|x: int, y: int| #[trigger]
        crate::rules::sees(m1.units, pid, x, y) == crate::rules::sees(m2.units, pid, x, y) by {
        if crate::rules::sees(m1.units, pid, x, y) {
            let k = choose|k: u32|
                #[trigger] m1.units.contains_key(k) && m1.units[k].owner == pid && crate::rules::covers(
                    m1.units[k],
                    x,
                    y,
                );
            assert(m2.units.contains_key(k) && m2.units[k].owner == pid);
        }
        if crate::rules::sees(m2.units, pid, x, y) {
            let k = choose|k: u32|
                #[trigger] m2.units.contains_key(k) && m2.units[k].owner == pid && crate::rules::covers(
                    m2.units[k],
                    x,
                    y,
                );
            assert((m1.units.contains_key(k) && m1.units[k].owner == pid) == (m2.units.contains_key(
                k,
            ) && m2.units[k].owner == pid));
            assert(m1.units.contains_key(k) && m1.units[k].owner == pid);
        }
    }
    assert forall|x: int, y: int|
        #[trigger] crate::rules::tile(m1, pid, x, y) == crate::rules::tile(m2, pid, x, y) by {
        assert(crate::rules::sees(m1.units, pid, x, y) == crate::rules::sees(m2.units, pid, x, y));
    }
    assert forall|n: nat|
        #[trigger] crate::rules::owned_units(m1.units, pid, n) == crate::rules::owned_units(
            m2.units,
            pid,
            n,
        ) by {
        lemma_owned_units_agree(m1.units, m2.units, pid, n);
    }
}

/// Two unit tables that agree on the units of `pid` list the same units of
/// `pid`.
pub proof fn lemma_owned_units_agree(u1: Map<u32, Unit>, u2: Map<u32, Unit>, pid: u8, n: nat)
    requires
        forall|k: u32|
            (#[trigger] u1.contains_key(k) && u1[k].owner == pid) == (u2.contains_key(k)
                && u2[k].owner == pid),
        forall|k: u32| #[trigger] u1.contains_key(k) && u1[k].owner == pid ==> u1[k] == u2[k],
    ensures
        crate::rules::owned_units(u1, pid, n) == crate::rules::owned_units(u2, pid, n),
    decreases n,
{
    if n > 0 {
        lemma_owned_units_agree(u1, u2, pid, (n - 1) as nat);
        let k = (n - 1) as u32;
        assert((u1.contains_key(k) && u1[k].owner == pid) == (u2.contains_key(k) && u2[k].owner
            == pid));
    }
}

/// Unit ids are never reused: the only unit an action can add is the one a
/// factory produces, which takes the id `next_unit_id` and is a fresh
/// infantry of the player on the target cell that may not act this turn; the
/// counter grows by one exactly when that happens and stays put otherwise.
pub proof fn law_unit_ids(m: GameModel, pid: u8, uid: u32, a: Action)
    requires
        wf(m),
        crate::rules::produces(m, pid, uid, a) ==> m.next_unit_id < u32::MAX,
    ensures
        ({
            let m2 = action_outcome(m, pid, uid, a).0;
            let nid = m.next_unit_id;
            &&& forall|k: u32| #[trigger] m2.units.contains_key(k) ==> m.units.contains_key(k) || k == nid
            &&& m2.units.contains_key(nid) ==> {
                &&& m2.next_unit_id == nid + 1
                &&& crate::rules::produces(m, pid, uid, a)
                &&& m2.units[nid] == Unit {
                    id: nid,
                    owner: pid,
                    unit_type: UnitType::Infantry,
                    position: shifted(m.units[uid].position, a.dx, a.dy, m.config.width, m.config.height)->0,
                    acted: true,
                }
            }
            &&& !m2.units.contains_key(nid) ==> m2.next_unit_id == nid
        }),
{
    let m2 = action_outcome(m, pid, uid, a).0;
    let nid = m.next_unit_id;
    assert(!m.units.contains_key(nid));
    if crate::rules::produces(m, pid, uid, a) {
        assert(m2.units.contains_key(nid));
    } else if winner(m) is None && m.players[m.current_player_index as int] == pid
        && m.units.contains_key(uid) && m.units[uid].owner == pid && !m.units[uid].acted
        && crate::rules::unit_step(a) {
        let u = m.units[uid];
        let target = shifted(u.position, a.dx, a.dy, m.config.width, m.config.height);
        if u.unit_type != UnitType::Factory && !(a.dx == 0 && a.dy == 0) {
            if let Some(t) = target {
                let m0 = if u.unit_type == UnitType::Infantry {
                    m
                } else {
                    with_unit(m, uid, Unit { unit_type: UnitType::Infantry, ..u })
                };
                match m0.grid[t.y as int][t.x as int] {
                    Cell::Empty => {},
                    Cell::Unit(tid) => {
                        assert(m.units.contains_key(tid));
                    },
                }
            }
        }
    }
}

/// A player who leaves on its own turn, followed by a rollback to the last
/// snapshot (taken when the player before it ended its turn), hands the turn
/// to the player after the leaver; the leaver has no units and no place in
/// the turn order. The units are exactly those of the snapshot whose owners
/// are still playing, each with the kind and cell it had there, and the board
/// is the snapshot's with every other unit's cell emptied; when no other
/// player has left since the snapshot, that is the snapshot's board with the
/// leaver's units cleared.
pub proof fn law_disconnect_rollback(m: GameModel, leaver: u8)
    requires
        wf(m),
        m.players.len() >= 2,
        current_player(m) == leaver,
        m.snapshots.len() > 0,
        m.snapshots.last().player_id == (if m.current_player_index == 0 {
            m.players.last()
        } else {
            m.players[m.current_player_index - 1]
        }),
    ensures
        ({
            let m1 = removal_outcome(m, leaver);
            let m2 = rollback_outcome(m1, m1.snapshots.len() - 1);
            let c = m.current_player_index as int;
            &&& current_player(m2) == (if c + 1 < m.players.len() {
                m.players[c + 1]
            } else {
                m.players[0]
            })
            &&& !m2.players.contains(leaver)
            &&& forall|k: u32| #[trigger] m2.units.contains_key(k) ==> m2.units[k].owner != leaver
            &&& wf(m2)
            &&& forall|k: u32|
                #[trigger] m2.units.contains_key(k) == (m.snapshots.last().units.contains_key(k)
                    && m.snapshots.last().units[k].owner != leaver && m.players.contains(
                    m.snapshots.last().units[k].owner,
                ))
            &&& forall|k: u32|
                #[trigger] m2.units.contains_key(k) ==> {
                    &&& m2.units[k].owner == m.snapshots.last().units[k].owner
                    &&& m2.units[k].unit_type == m.snapshots.last().units[k].unit_type
                    &&& m2.units[k].position == m.snapshots.last().units[k].position
                }
            &&& forall|x: int, y: int|
                0 <= x < m.config.width && 0 <= y < m.config.height ==> #[trigger] m2.grid[y][x]
                    == match m.snapshots.last().grid[y][x] {
                    Cell::Unit(k) => if m2.units.contains_key(k) {
                        Cell::Unit(k)
                    } else {
                        Cell::Empty
                    },
                    Cell::Empty => Cell::Empty,
                }
            &&& (forall|k: u32|
                #[trigger] m.snapshots.last().units.contains_key(k) ==> m.players.contains(
                    m.snapshots.last().units[k].owner,
                )) ==> forall|x: int, y: int|
                0 <= x < m.config.width && 0 <= y < m.config.height ==> #[trigger] m2.grid[y][x]
                    == crate::rules::cleared_of(
                    m.snapshots.last().grid,
                    m.snapshots.last().units,
                    leaver,
                )[y][x]
        }),
{
    let ps = m.players;
    let n = ps.len() as int;
    let c = m.current_player_index as int;
    let m1 = removal_outcome(m, leaver);
    let last = m1.snapshots.len() - 1;
    let m2 = rollback_outcome(m1, last);
    let q = m.snapshots.last().player_id;
    crate::roster::lemma_players_without(ps, leaver);
    crate::invariants::lemma_removal_wf(m, leaver);
    let ps1 = m1.players;
    assert(ps.contains(leaver)) by {
        assert(ps[c] == leaver);
    }
    assert(ps1.len() == n - 1);
    crate::invariants::lemma_rollback_wf(m1, last);
    assert(m1.snapshots[last] == m.snapshots.last());
    // Where the player before the leaver stands once the leaver is gone.
    let pq = if c == 0 {
        n - 1
    } else {
        c - 1
    };
    assert(ps[pq] == q);
    assert(q != leaver) by {
        assert(ps[pq] != ps[c]);
    }
    let jq = pq - crate::roster::shift_before(ps, leaver, pq);
    assert(ps1[jq] == q);
    if c == 0 {
        assert(ps.take(pq)[0] == leaver);
        assert(jq == n - 2);
    } else {
        assert(!ps.take(pq).contains(leaver)) by {
            if ps.take(pq).contains(leaver) {
                let j = choose|j: int| 0 <= j < ps.take(pq).len() && ps.take(pq)[j] == leaver;
                assert(ps[j] == ps[c]);
            }
        }
        assert(jq == c - 1);
    }
    crate::invariants::lemma_find_from(ps1, q, 0);
    let found = crate::rules::find_from(ps1, q, 0);
    assert(found == Some(jq as nat)) by {
        match found {
            Some(j) => {
                if j != jq {
                    assert(ps1[j as int] == ps1[jq]);
                }
            },
            None => {
                assert(ps1[jq] == q);
            },
        }
    }
    let next = (jq + 1) % (n - 1);
    assert(m2.current_player_index == next as usize);
    assert(ps1.contains(q)) by {
        assert(ps1[jq] == q);
    }
    if jq + 1 < n - 1 {
        vstd::arithmetic::div_mod::lemma_small_mod((jq + 1) as nat, (n - 1) as nat);
    } else {
        vstd::arithmetic::div_mod::lemma_mod_self_0(n - 1);
    }
    if c == 0 {
        // next is 0, and the first remaining player is the second of the order.
        assert(ps[1] != leaver) by {
            assert(ps[1] != ps[0]);
        }
        assert(ps.take(1)[0] == leaver);
        assert(ps1[1 - crate::roster::shift_before(ps, leaver, 1)] == ps[1]);
    } else if c + 1 < n {
        assert(ps[c + 1] != leaver) by {
            assert(ps[c + 1] != ps[c]);
        }
        assert(ps.take(c + 1)[c] == leaver);
        assert(ps1[c + 1 - crate::roster::shift_before(ps, leaver, c + 1)] == ps[c + 1]);
    } else {
        assert(ps[0] != leaver) by {
            assert(ps[0] != ps[c]);
        }
        assert(!ps.take(0).contains(leaver));
        assert(ps1[0 - crate::roster::shift_before(ps, leaver, 0)] == ps[0]);
    }
    let s = m.snapshots.last();
    assert forall|k: u32| #[trigger] m2.units.contains_key(k) implies m2.units[k].owner != leaver by {
        assert(ps1.contains(s.units[k].owner));
    }
    assert forall|k: u32|
        #[trigger] m2.units.contains_key(k) == (s.units.contains_key(k) && s.units[k].owner != leaver
            && m.players.contains(s.units[k].owner)) by {
        if s.units.contains_key(k) {
            assert(ps1.contains(s.units[k].owner) == (ps.contains(s.units[k].owner)
                && s.units[k].owner != leaver));
        }
    }
    assert(crate::board::board_consistent(
        m.snapshots[m.snapshots.len() - 1].grid,
        m.snapshots[m.snapshots.len() - 1].units,
        m.config.width,
        m.config.height,
        m.next_unit_id,
    ));
    assert forall|x: int, y: int|
        0 <= x < m.config.width && 0 <= y < m.config.height implies #[trigger] m2.grid[y][x]
            == match s.grid[y][x] {
            Cell::Unit(k) => if m2.units.contains_key(k) {
                Cell::Unit(k)
            } else {
                Cell::Empty
            },
            Cell::Empty => Cell::Empty,
        } by {
        let c = s.grid[y][x];
        assert(s.grid[y].len() == m.config.width);
    }
    if forall|k: u32| #[trigger] s.units.contains_key(k) ==> m.players.contains(s.units[k].owner) {
        assert forall|x: int, y: int|
            0 <= x < m.config.width && 0 <= y < m.config.height implies #[trigger] m2.grid[y][x]
                == crate::rules::cleared_of(s.grid, s.units, leaver)[y][x] by {
            let c = s.grid[y][x];
            assert(s.grid[y].len() == m.config.width);
            match c {
                Cell::Unit(k) => {
                    assert(s.units.contains_key(k));
                    assert(m2.units.contains_key(k) == (s.units.contains_key(k) && s.units[k].owner
                        != leaver && m.players.contains(s.units[k].owner)));
                },
                Cell::Empty => {},
            }
        }
    }
}

/// Removing a player twice is removing it once: the second removal finds no
/// units, no place in the turn order and no departures of that player, and
/// changes nothing.
pub proof fn law_removal_idempotent(m: GameModel, pid: u8)
    requires
        wf(m),
        m.players.len() > 0,
    ensures
        removal_outcome(removal_outcome(m, pid), pid) == removal_outcome(m, pid),
{
    let m1 = removal_outcome(m, pid);
    let m2 = removal_outcome(m1, pid);
    crate::invariants::lemma_removal_wf(m, pid);
    crate::roster::lemma_players_without(m.players, pid);
    assert(!m1.players.contains(pid));
    lemma_players_without_absent(m1.players, pid);
    lemma_departures_without_twice(m.departures, pid);
    assert(m2.players == m1.players);
    assert(m2.units =~= m1.units);
    if m1.players.len() > 0 {
        assert(m1.current_player_index < m1.players.len());
        assert(m1.players[m1.current_player_index as int] != pid) by {
            if m1.players[m1.current_player_index as int] == pid {
                assert(m1.players.contains(pid));
            }
        }
        assert(!m1.players.take(m1.current_player_index as int).contains(pid)) by {
            if m1.players.take(m1.current_player_index as int).contains(pid) {
                let j = choose|j: int|
                    0 <= j < m1.players.take(m1.current_player_index as int).len() && m1.players.take(
                        m1.current_player_index as int,
                    )[j] == pid;
                assert(m1.players[j] == pid);
            }
        }
    }
    assert(m2.grid =~= m1.grid) by {
        assert forall|y: int| 0 <= y < m1.grid.len() implies #[trigger] m2.grid[y] =~= m1.grid[y] by {
            assert forall|x: int| 0 <= x < m1.grid[y].len() implies #[trigger] m2.grid[y][x]
                == m1.grid[y][x] by {
                let c = m.grid[y][x];
            }
        }
    }
    assert(m2 =~= m1);
}

/// Without `p` in it, the turn order is left as it is by removing `p`.
pub proof fn lemma_players_without_absent(ps: Seq<u8>, p: u8)
    requires
        !ps.contains(p),
    ensures
        crate::rules::players_without(ps, p) == ps,
    decreases ps.len(),
{
    if ps.len() > 0 {
        assert(!ps.drop_last().contains(p)) by {
            if ps.drop_last().contains(p) {
                let j = choose|j: int| 0 <= j < ps.drop_last().len() && ps.drop_last()[j] == p;
                assert(ps[j] == p);
            }
        }
        lemma_players_without_absent(ps.drop_last(), p);
        assert(ps.last() != p) by {
            assert(ps[ps.len() - 1] == ps.last());
        }
        assert(ps.drop_last().push(ps.last()) =~= ps);
    }
}

/// Forgetting the departures of `p` a second time changes nothing.
pub proof fn lemma_departures_without_twice(d: Seq<Unit>, p: u8)
    ensures
        crate::rules::departures_without(crate::rules::departures_without(d, p), p)
            == crate::rules::departures_without(d, p),
    decreases d.len(),
{
    if d.len() > 0 {
        lemma_departures_without_twice(d.drop_last(), p);
        let rest = crate::rules::departures_without(d.drop_last(), p);
        if d.last().owner != p {
            assert(rest.push(d.last()).drop_last() =~= rest);
        }
    }
}

} // verus!
