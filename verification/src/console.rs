//! The decisions of the console client: which units may move now, which unit
//! stands on a chosen cell, how a turn is closed, and player colours.
use crate::board::{board_ok, wf};
use crate::query::{get_winner, player_has_units};
use crate::rules::{end_turn_outcome, has_units, removal_outcome, winner};
use crate::turns::{end_player_turn, remove_player};
use crate::types::{Action, ErrorModel, GameError, GameModel, GameState, Unit, UnitType, outcome};
use vstd::prelude::*;
use vstd::std_specs::iter::IteratorSpec;

verus! {

broadcast use vstd::std_specs::hash::group_hash_axioms;

/// The ids below `n` of the units of `pid` that have not acted, among the
/// factories when `factories` holds and among the combat units otherwise,
/// ascending.
pub open spec fn waiting_ids(units: Map<u32, Unit>, pid: u8, factories: bool, n: nat) -> Seq<u32>
    decreases n,
{
    if n == 0 {
        Seq::empty()
    } else {
        let rest = waiting_ids(units, pid, factories, (n - 1) as nat);
        let k = (n - 1) as u32;
        if units.contains_key(k) && units[k].owner == pid && !units[k].acted && (
        units[k].unit_type == UnitType::Factory) == factories {
            rest.push(k)
        } else {
            rest
        }
    }
}

/// The units of `pid` that may move now: the combat units that have not
/// acted, or, once all of them have, the factories that have not.
pub open spec fn ready_ids(m: GameModel, pid: u8) -> Seq<u32> {
    let combat = waiting_ids(m.units, pid, false, m.next_unit_id as nat);
    if combat.len() > 0 {
        combat
    } else {
        waiting_ids(m.units, pid, true, m.next_unit_id as nat)
    }
}

/// The first of `ids` whose unit stands on `(x, y)`.
pub open spec fn first_at(ids: Seq<u32>, units: Map<u32, Unit>, x: u32, y: u32) -> Option<u32>
    decreases ids.len(),
{
    if ids.len() == 0 {
        None
    } else if units[ids[0]].position.x == x && units[ids[0]].position.y == y {
        Some(ids[0])
    } else {
        first_at(ids.drop_first(), units, x, y)
    }
}

/// Every unit of `pid` has acted.
pub open spec fn all_acted(units: Map<u32, Unit>, pid: u8) -> bool {
    forall|k: u32| #[trigger] units.contains_key(k) && units[k].owner == pid ==> units[k].acted
}

/// The units of `pid` marked as having acted.
pub open spec fn marked_acted(units: Map<u32, Unit>, pid: u8) -> Map<u32, Unit> {
    units.map_values(|u: Unit| if u.owner == pid { Unit { acted: true, ..u } } else { u })
}

/// What closing the turn of `pid` yields: the turn ends; if that is refused,
/// every unit of the player is marked as having acted and the turn is ended
/// again (whatever the answer). Then, unless the game is won, a player left
/// without units leaves the turn order. The answer is that of the first try.
pub open spec fn close_outcome(m: GameModel, pid: u8) -> (GameModel, Result<(), ErrorModel>) {
    let (m1, r1) = end_turn_outcome(m, pid);
    let m2 = if r1 is Err {
        end_turn_outcome(GameModel { units: marked_acted(m.units, pid), ..m }, pid).0
    } else {
        m1
    };
    let m3 = if winner(m2) is None && !has_units(m2.units, pid) && m2.players.contains(pid) {
        removal_outcome(m2, pid)
    } else {
        m2
    };
    (m3, r1)
}

/// Every listed id is that of a unit.
proof fn lemma_waiting_ids_keys(units: Map<u32, Unit>, pid: u8, factories: bool, n: nat)
    ensures
        forall|j: int|
            0 <= j < waiting_ids(units, pid, factories, n).len() ==> units.contains_key(
                #[trigger] waiting_ids(units, pid, factories, n)[j],
            ),
    decreases n,
{
    if n > 0 {
        lemma_waiting_ids_keys(units, pid, factories, (n - 1) as nat);
        let rest = waiting_ids(units, pid, factories, (n - 1) as nat);
        let all = waiting_ids(units, pid, factories, n);
        assert forall|j: int| 0 <= j < all.len() implies units.contains_key(#[trigger] all[j]) by {
            if j < rest.len() {
                assert(all[j] == rest[j]);
            }
        }
    }
}

/// The ids below `next_id` of the units of `pid` still waiting, combat units
/// or factories, ascending.
fn waiting(units: &std::collections::HashMap<u32, Unit>, next_id: u32, pid: u8, factories: bool) -> (r:
    Vec<u32>)
    ensures
        r@ == waiting_ids(units@, pid, factories, next_id as nat),
{
    let mut ids: Vec<u32> = Vec::new();
    let mut k: u32 = 0;
    while k < next_id
        invariant
            k <= next_id,
            ids@ == waiting_ids(units@, pid, factories, k as nat),
        decreases next_id - k,
    {
        match units.get(&k) {
            Some(u) => {
                let is_factory = match u.unit_type {
                    UnitType::Factory => true,
                    _ => false,
                };
                if u.owner == pid && !u.acted && is_factory == factories {
                    ids.push(k);
                }
            },
            None => {},
        }
        k = k + 1;
    }
    ids
}

/// The units of `player_id` that may move now, ascending: combat units act
/// before factories, so factories are offered only once every combat unit
/// has acted.
pub fn ready_units(state: &GameState, player_id: u8) -> (r: Vec<u32>)
    ensures
        r@ == ready_ids(state@, player_id),
{
    let combat = waiting(&state.units, state.next_unit_id, player_id, false);
    if combat.len() > 0 {
        combat
    } else {
        waiting(&state.units, state.next_unit_id, player_id, true)
    }
}

/// The unit among those that `player_id` may move now that stands on
/// `(x, y)`, if any.
pub fn ready_unit_at(state: &GameState, player_id: u8, x: u32, y: u32) -> (r: Option<u32>)
    requires
        board_ok(state@),
    ensures
        r == first_at(ready_ids(state@, player_id), state@.units, x, y),
{
    let ids = ready_units(state, player_id);
    let ghost all = ids@;
    proof {
        lemma_waiting_ids_keys(state@.units, player_id, false, state.next_unit_id as nat);
        lemma_waiting_ids_keys(state@.units, player_id, true, state.next_unit_id as nat);
        assert(all.skip(0) =~= all);
    }
    let mut i: usize = 0;
    while i < ids.len()
        invariant
            board_ok(state@),
            i <= ids@.len(),
            ids@ == all,
            all == ready_ids(state@, player_id),
            forall|j: int| 0 <= j < all.len() ==> state@.units.contains_key(#[trigger] all[j]),
            first_at(all, state@.units, x, y) == first_at(all.skip(i as int), state@.units, x, y),
        decreases ids@.len() - i,
    {
        let id = ids[i];
        let unit = match state.units.get(&id) {
            Some(u) => *u,
            None => {
                return None;
            },
        };
        assert(all.skip(i as int).drop_first() =~= all.skip(i + 1));
        if unit.position.x == x && unit.position.y == y {
            return Some(id);
        }
        i = i + 1;
    }
    None
}

/// Whether `(dx, dy)` is the vector of one of `actions`: the console accepts
/// a typed move only when it is among the unit's valid actions.
pub fn offers_vector(actions: &Vec<Action>, dx: i32, dy: i32) -> (r: bool)
    ensures
        r == exists|j: int| 0 <= j < actions@.len() && #[trigger] actions@[j].dx == dx && actions@[j].dy == dy,
{
    let mut i: usize = 0;
    while i < actions.len()
        invariant
            i <= actions@.len(),
            forall|j: int| 0 <= j < i ==> !(#[trigger] actions@[j].dx == dx && actions@[j].dy == dy),
        decreases actions@.len() - i,
    {
        if actions[i].dx == dx && actions[i].dy == dy {
            return true;
        }
        i = i + 1;
    }
    false
}

/// Whether every unit of `player_id` has acted.
pub fn all_units_acted(state: &GameState, player_id: u8) -> (r: bool)
    ensures
        r == all_acted(state@.units, player_id),
{
    let values = state.units.values();
    let ghost all = IteratorSpec::remaining(&values);
    let ghost mut seen: int = 0;
    assert(all.unref().to_set() == state@.units.values());
    for u in it: values
        invariant
            it.seq() == all,
            all.unref().to_set() == state@.units.values(),
            seen == it.index(),
            forall|j: int| 0 <= j < seen && (*#[trigger] all[j]).owner == player_id ==> all[j].acted,
    {
        if u.owner == player_id && !u.acted {
            assert(state@.units.values().contains(*u)) by {
                assert(all.unref().to_set().contains(*u));
            }
            let ghost k = choose|k: u32| state@.units.contains_key(k) && state@.units[k] == *u;
            assert(state@.units.contains_key(k));
            return false;
        }
        proof {
            seen = seen + 1;
        }
    }
    assert(seen == all.len());
    assert forall|k: u32| #[trigger]
        state@.units.contains_key(k) && state@.units[k].owner == player_id implies state@.units[k].acted by {
        assert(state@.units.values().contains(state@.units[k]));
        assert(all.unref().to_set().contains(state@.units[k]));
    }
    true
}

/// Marks every unit of `pid` as having acted.
fn mark_acted(state: &mut GameState, pid: u8)
    requires
        wf(old(state)@),
    ensures
        final(state)@ == (GameModel { units: marked_acted(old(state)@.units, pid), ..old(state)@ }),
        wf(final(state)@),
{
    let ghost m0 = state@;
    let ghost u0 = m0.units;
    let next_id = state.next_unit_id;
    let mut k: u32 = 0;
    while k < next_id
        invariant
            k <= next_id,
            m0 == old(state)@,
            wf(m0),
            u0 == m0.units,
            next_id == state.next_unit_id,
            state@ == (GameModel {
                units: Map::new(
                    |j: u32| u0.contains_key(j),
                    |j: u32|
                        if j < k && u0[j].owner == pid {
                            Unit { acted: true, ..u0[j] }
                        } else {
                            u0[j]
                        },
                ),
                ..m0
            }),
        decreases next_id - k,
    {
        match state.units.get(&k) {
            Some(u) => {
                let unit = *u;
                if unit.owner == pid {
                    state.units.insert(k, Unit { acted: true, ..unit });
                }
            },
            None => {},
        }
        assert(state.units@ =~= Map::new(
            |j: u32| u0.contains_key(j),
            |j: u32|
                if j < k + 1 && u0[j].owner == pid {
                    Unit { acted: true, ..u0[j] }
                } else {
                    u0[j]
                },
        ));
        k = k + 1;
    }
    assert(state.units@ =~= marked_acted(u0, pid));
    proof {
        let m2 = state@;
        assert forall|j: u32| #[trigger] m2.units.contains_key(j) implies {
            let u = m2.units[j];
            &&& u.id == j
            &&& j < m2.next_unit_id
            &&& u.position.x < m2.config.width
            &&& u.position.y < m2.config.height
            &&& m2.grid[u.position.y as int][u.position.x as int] == crate::types::Cell::Unit(j)
        } by {
            assert(u0.contains_key(j));
        }
        assert forall|x: int, y: int|
            0 <= x < m2.config.width && 0 <= y < m2.config.height implies match #[trigger] m2.grid[y][x] {
            crate::types::Cell::Unit(j) => m2.units.contains_key(j) && m2.units[j].position
                == crate::types::Position { x: x as u32, y: y as u32 },
            crate::types::Cell::Empty => true,
        } by {
            let c = m0.grid[y][x];
        }
        assert forall|j: u32| #[trigger] m2.units.contains_key(j) implies m2.players.contains(
            m2.units[j].owner,
        ) by {
            assert(u0.contains_key(j));
        }
    }
}

/// Closes the turn of `player_id` as the console does after the player's
/// moves: ends the turn; if that is refused, marks every unit of the player
/// as having acted and ends the turn again. Then, unless the game is won, a
/// player left without units leaves the turn order. Returns the answer of
/// the first attempt.
pub fn close_turn(state: &mut GameState, player_id: u8) -> (r: Result<(), GameError>)
    requires
        wf(old(state)@),
        old(state)@.players.len() > 0,
        old(state).round < u32::MAX || (old(state).current_player_index + 1) % (old(
            state,
        ).players@.len() as int) != 0,
    ensures
        (final(state)@, outcome(r)) == close_outcome(old(state)@, player_id),
        wf(final(state)@),
{
    let r = end_player_turn(state, player_id);
    if r.is_err() {
        mark_acted(state, player_id);
        let _ = end_player_turn(state, player_id);
    }
    if get_winner(state).is_none() && !player_has_units(state, player_id)
        && crate::turns::includes(&state.players, player_id) {
        remove_player(state, player_id);
    }
    r
}

/// The terminal colour escape of a player: blue, red, green, yellow, then
/// magenta for every further player.
pub open spec fn color_code(player_id: u8) -> Seq<char> {
    if player_id == 1 {
        "\x1b[34m"@
    } else if player_id == 2 {
        "\x1b[31m"@
    } else if player_id == 3 {
        "\x1b[32m"@
    } else if player_id == 4 {
        "\x1b[33m"@
    } else {
        "\x1b[35m"@
    }
}

/// The terminal colour escape of a player.
pub fn player_color(player_id: u8) -> (r: &'static str)
    ensures
        r@ == color_code(player_id),
{
    match player_id {
        1 => "\x1b[34m",
        2 => "\x1b[31m",
        3 => "\x1b[32m",
        4 => "\x1b[33m",
        _ => "\x1b[35m",
    }
}

} // verus!
