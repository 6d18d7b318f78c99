//! Creating a game: the board, the starting units and the turn order.
use crate::board::{board_consistent, grid_shaped, owners_active, wf};
use crate::types::{Cell, GameConfig, GameState, Position, Unit, UnitType, grid_of};
use std::collections::HashMap;
use vstd::prelude::*;

verus! {

broadcast use vstd::std_specs::hash::group_hash_axioms;

/// The number of cells on the ring one cell in from the border, walked
/// along the top, the right side, the bottom and the left side (corners are
/// met twice).
pub open spec fn ring_len(w: u32, h: u32) -> int {
    2 * (w - 2) + 2 * (h - 2)
}

/// The `k`-th cell of that walk: the top row left to right, the right column
/// top to bottom, the bottom row right to left, the left column bottom to top.
pub open spec fn ring_point(w: u32, h: u32, k: int) -> Position {
    let a = w - 2;
    let b = h - 2;
    if k < a {
        Position { x: (1 + k) as u32, y: 1 }
    } else if k < a + b {
        Position { x: (w - 2) as u32, y: (1 + (k - a)) as u32 }
    } else if k < 2 * a + b {
        Position { x: (w - 2 - (k - a - b)) as u32, y: (h - 2) as u32 }
    } else {
        Position { x: 1, y: (h - 2 - (k - 2 * a - b)) as u32 }
    }
}

/// Where player `i + 1` starts: with two players, the top-left and
/// bottom-right cells one in from the corners; otherwise evenly spaced along
/// the ring.
pub open spec fn start_position(config: GameConfig, i: int) -> Position {
    let w = config.width;
    let h = config.height;
    if config.player_count == 2 {
        if i == 0 {
            Position { x: 1, y: 1 }
        } else {
            Position { x: (w - 2) as u32, y: (h - 2) as u32 }
        }
    } else {
        ring_point(w, h, i * (ring_len(w, h) / config.player_count as int))
    }
}

/// The content of `(x, y)` after the first `k` starting units are placed,
/// each on its start cell.
pub open spec fn placed(config: GameConfig, x: int, y: int, k: nat) -> Cell
    decreases k,
{
    if k == 0 {
        Cell::Empty
    } else if start_position(config, k - 1) == (Position { x: x as u32, y: y as u32 }) {
        Cell::Unit(k as u32)
    } else {
        placed(config, x, y, (k - 1) as nat)
    }
}

/// The starting unit of player `k` (its id is `k` too).
pub open spec fn starting_unit(config: GameConfig, k: u32) -> Unit {
    Unit {
        id: k,
        owner: k as u8,
        unit_type: UnitType::Infantry,
        position: start_position(config, k - 1),
        acted: false,
    }
}

/// No two players start on the same cell.
pub open spec fn starts_distinct(config: GameConfig) -> bool {
    forall|i: int, j: int|
        0 <= i < j < config.player_count ==> start_position(config, i) != start_position(config, j)
}

/// The board sizes and player counts for which setting up a game is defined:
/// both sides at least two, and for other than two players at least one
/// player and a ring that is not empty.
pub open spec fn config_supported(config: GameConfig) -> bool {
    &&& config.width >= 2
    &&& config.height >= 2
    &&& config.player_count == 2 || (config.player_count >= 1 && (config.width >= 3
        || config.height >= 3))
}

proof fn lemma_ring_point_inside(w: u32, h: u32, k: int)
    requires
        w >= 2,
        h >= 2,
        0 <= k < ring_len(w, h),
    ensures
        1 <= ring_point(w, h, k).x || w == 2,
        ring_point(w, h, k).x < w,
        ring_point(w, h, k).y < h,
{
}

proof fn lemma_start_inside(config: GameConfig, i: int)
    requires
        config_supported(config),
        0 <= i < config.player_count,
    ensures
        start_position(config, i).x < config.width,
        start_position(config, i).y < config.height,
{
    let w = config.width;
    let h = config.height;
    if config.player_count != 2 {
        let n = config.player_count as int;
        let len = ring_len(w, h);
        let step = len / n;
        assert(0 <= i * step < len) by (nonlinear_arith)
            requires
                0 <= i < n,
                step == len / n,
                len >= 1,
                n >= 1,
        {
            assert(step * n <= len);
            assert(i * step <= (n - 1) * step);
        }
        lemma_ring_point_inside(w, h, i * step);
    }
}

proof fn lemma_placed(config: GameConfig, x: int, y: int, k: nat)
    requires
        k <= config.player_count,
    ensures
        placed(config, x, y, k) matches Cell::Unit(j) ==> 1 <= j <= k && start_position(
            config,
            j - 1,
        ) == (Position { x: x as u32, y: y as u32 }),
        starts_distinct(config) ==> forall|j: int|
            1 <= j <= k && #[trigger] start_position(config, j - 1) == (Position {
                x: x as u32,
                y: y as u32,
            })
                ==> placed(config, x, y, k) == Cell::Unit(j as u32),
    decreases k,
{
    if k > 0 {
        lemma_placed(config, x, y, (k - 1) as nat);
    }
}

/// The start cell of each player, in player order.
fn start_positions(config: GameConfig) -> (positions: Vec<Position>)
    requires
        config_supported(config),
    ensures
        positions@.len() == config.player_count,
        forall|j: int|
            0 <= j < config.player_count ==> #[trigger] positions@[j] == start_position(config, j),
{
    let w = config.width;
    let h = config.height;
    let n = config.player_count;

    let mut positions: Vec<Position> = Vec::new();
    if n == 2 {
        positions.push(Position { x: 1, y: 1 });
        positions.push(Position { x: w - 2, y: h - 2 });
    } else {
        let mut ring: Vec<Position> = Vec::new();
        let mut x: u32 = 1;
        while x < w - 1
            invariant
                w == config.width,
                h == config.height,
                w >= 2,
                h >= 2,
                1 <= x <= w - 1,
                ring@.len() == x - 1,
                forall|k: int| 0 <= k < ring@.len() ==> #[trigger] ring@[k] == ring_point(w, h, k),
            decreases w - x,
        {
            ring.push(Position { x, y: 1 });
            x = x + 1;
        }
        let mut y: u32 = 1;
        while y < h - 1
            invariant
                w == config.width,
                h == config.height,
                w >= 2,
                h >= 2,
                1 <= y <= h - 1,
                ring@.len() == (w - 2) + (y - 1),
                forall|k: int| 0 <= k < ring@.len() ==> #[trigger] ring@[k] == ring_point(w, h, k),
            decreases h - y,
        {
            ring.push(Position { x: w - 2, y });
            y = y + 1;
        }
        let mut x: u32 = w - 1;
        while x > 1
            invariant
                w == config.width,
                h == config.height,
                w >= 2,
                h >= 2,
                1 <= x <= w - 1,
                ring@.len() == (w - 2) + (h - 2) + (w - 1 - x),
                forall|k: int| 0 <= k < ring@.len() ==> #[trigger] ring@[k] == ring_point(w, h, k),
            decreases x,
        {
            x = x - 1;
            ring.push(Position { x, y: h - 2 });
        }
        let mut y: u32 = h - 1;
        while y > 1
            invariant
                w == config.width,
                h == config.height,
                w >= 2,
                h >= 2,
                1 <= y <= h - 1,
                ring@.len() == 2 * (w - 2) + (h - 2) + (h - 1 - y),
                forall|k: int| 0 <= k < ring@.len() ==> #[trigger] ring@[k] == ring_point(w, h, k),
            decreases y,
        {
            y = y - 1;
            ring.push(Position { x: 1, y });
        }
        let step = ring.len() / (n as usize);
        let mut i: u8 = 0;
        while i < n
            invariant
                w == config.width,
                h == config.height,
                n == config.player_count,
                config_supported(config),
                n != 2,
                i <= n,
                ring@.len() == ring_len(w, h),
                step == ring_len(w, h) / (n as int),
                forall|k: int| 0 <= k < ring@.len() ==> #[trigger] ring@[k] == ring_point(w, h, k),
                positions@.len() == i,
                forall|j: int| 0 <= j < i ==> #[trigger] positions@[j] == start_position(config, j),
            decreases n - i,
        {
            let len = ring.len();
            assert((i as int) * (step as int) < len) by (nonlinear_arith)
                requires
                    0 <= i < n,
                    step == (len as int) / (n as int),
                    len >= 1,
                    n >= 1,
            {
                assert(step * n <= len);
                assert(i * step <= (n - 1) * step);
            }
            let index = (i as usize) * step;
            positions.push(ring[index]);
            i = i + 1;
        }
    }

    positions
}

/// Whether the board size and player count are ones for which a game can be
/// set up.
pub fn config_is_supported(config: GameConfig) -> (r: bool)
    ensures
        r == config_supported(config),
{
    config.width >= 2 && config.height >= 2 && (config.player_count == 2 || (config.player_count
        >= 1 && (config.width >= 3 || config.height >= 3)))
}

/// Whether every player starts on a cell of its own.
pub fn starts_are_distinct(config: GameConfig) -> (r: bool)
    requires
        config_supported(config),
    ensures
        r == starts_distinct(config),
{
    let positions = start_positions(config);
    let n = positions.len();
    let mut i: usize = 0;
    while i < n
        invariant
            i <= n,
            n == config.player_count,
            positions@.len() == n,
            forall|j: int| 0 <= j < n ==> #[trigger] positions@[j] == start_position(config, j),
            forall|a: int, b: int|
                0 <= a < b < n && a < i ==> start_position(config, a) != start_position(config, b),
        decreases n - i,
    {
        let mut j: usize = i + 1;
        while j < n
            invariant
                i < n,
                i + 1 <= j <= n,
                n == config.player_count,
                positions@.len() == n,
                forall|l: int| 0 <= l < n ==> #[trigger] positions@[l] == start_position(config, l),
                forall|a: int, b: int|
                    0 <= a < b < n && a < i ==> start_position(config, a) != start_position(config, b),
                forall|b: int| i < b < j ==> start_position(config, i as int) != start_position(config, b),
            decreases n - j,
        {
            if positions[i] == positions[j] {
                assert(start_position(config, i as int) == start_position(config, j as int));
                return false;
            }
            j = j + 1;
        }
        i = i + 1;
    }
    true
}

/// Creates a game: an empty board with one infantry per player. Player `k`
/// gets unit `k`, on `start_position(config, k - 1)`; players move in the
/// order 1, 2, …, player 1 first, in round 1.
pub fn new_game(config: GameConfig) -> (r: GameState)
    requires
        config_supported(config),
    ensures
        r.config == config,
        grid_shaped(grid_of(r.cells), config.width, config.height),
        forall|x: int, y: int|
            0 <= x < config.width && 0 <= y < config.height ==> #[trigger] grid_of(r.cells)[y][x]
                == placed(config, x, y, config.player_count as nat),
        r.units@ == Map::new(
            |k: u32| 1 <= k <= config.player_count,
            |k: u32| starting_unit(config, k),
        ),
        r.next_unit_id == config.player_count + 1,
        r.players@ == Seq::new(config.player_count as nat, |i: int| (i + 1) as u8),
        r.current_player_index == 0,
        r.round == 1,
        r.snapshots@.len() == 0,
        r.departures@.len() == 0,
        starts_distinct(config) ==> wf(r@),
{
    let w = config.width;
    let h = config.height;
    let n = config.player_count;

    let positions = start_positions(config);

    let mut cells: Vec<Vec<Cell>> = Vec::new();
    let mut yy: u32 = 0;
    while yy < h
        invariant
            yy <= h,
            cells@.len() == yy,
            forall|j: int| 0 <= j < yy ==> (#[trigger] cells@[j])@ == Seq::new(w as nat, |x: int| Cell::Empty),
        decreases h - yy,
    {
        let mut row: Vec<Cell> = Vec::new();
        let mut xx: u32 = 0;
        while xx < w
            invariant
                xx <= w,
                row@ == Seq::new(xx as nat, |x: int| Cell::Empty),
            decreases w - xx,
        {
            row.push(Cell::Empty);
            assert(row@ =~= Seq::new((xx + 1) as nat, |x: int| Cell::Empty));
            xx = xx + 1;
        }
        cells.push(row);
        yy = yy + 1;
    }

    let mut units: HashMap<u32, Unit> = HashMap::new();
    let mut next_unit_id: u32 = 1;
    let mut i: u8 = 0;
    while i < n
        invariant
            w == config.width,
            h == config.height,
            n == config.player_count,
            config_supported(config),
            i <= n,
            next_unit_id == i + 1,
            positions@.len() == n,
            forall|j: int| 0 <= j < n ==> #[trigger] positions@[j] == start_position(config, j),
            grid_shaped(grid_of(cells), w, h),
            forall|x: int, y: int|
                0 <= x < w && 0 <= y < h ==> #[trigger] grid_of(cells)[y][x] == placed(
                    config,
                    x,
                    y,
                    i as nat,
                ),
            units@ == Map::new(|k: u32| 1 <= k <= i, |k: u32| starting_unit(config, k)),
        decreases n - i,
    {
        let pos = positions[i as usize];
        proof {
            lemma_start_inside(config, i as int);
        }
        let unit = Unit {
            id: next_unit_id,
            owner: i + 1,
            unit_type: UnitType::Infantry,
            position: pos,
            acted: false,
        };
        crate::board::put_cell(&mut cells, pos.x, pos.y, Cell::Unit(next_unit_id));
        units.insert(next_unit_id, unit);
        assert(units@ =~= Map::new(|k: u32| 1 <= k <= i + 1, |k: u32| starting_unit(config, k)));
        next_unit_id = next_unit_id + 1;
        i = i + 1;
    }

    let mut players: Vec<u8> = Vec::new();
    let mut q: u8 = 0;
    while q < n
        invariant
            q <= n,
            players@ == Seq::new(q as nat, |j: int| (j + 1) as u8),
        decreases n - q,
    {
        players.push(q + 1);
        assert(players@ =~= Seq::new((q + 1) as nat, |j: int| (j + 1) as u8));
        q = q + 1;
    }

    let state = GameState {
        config,
        cells,
        units,
        next_unit_id,
        players,
        current_player_index: 0,
        round: 1,
        snapshots: Vec::new(),
        departures: Vec::new(),
    };
    proof {
        if starts_distinct(config) {
            lemma_new_game_wf(state);
        }
    }
    state
}

proof fn lemma_new_game_wf(state: GameState)
    requires
        config_supported(state.config),
        starts_distinct(state.config),
        grid_shaped(grid_of(state.cells), state.config.width, state.config.height),
        forall|x: int, y: int|
            0 <= x < state.config.width && 0 <= y < state.config.height
                ==> #[trigger] grid_of(state.cells)[y][x] == placed(
                state.config,
                x,
                y,
                state.config.player_count as nat,
            ),
        state.units@ == Map::new(
            |k: u32| 1 <= k <= state.config.player_count,
            |k: u32| starting_unit(state.config, k),
        ),
        state.next_unit_id == state.config.player_count + 1,
        state.players@ == Seq::new(state.config.player_count as nat, |i: int| (i + 1) as u8),
        state.current_player_index == 0,
        state.snapshots@.len() == 0,
    ensures
        wf(state@),
{
    let m = state@;
    let config = state.config;
    let n = config.player_count;
    let w = config.width;
    let h = config.height;
    assert forall|k: u32| #[trigger] m.units.contains_key(k) implies {
        let u = m.units[k];
        &&& u.id == k
        &&& k < m.next_unit_id
        &&& u.position.x < w
        &&& u.position.y < h
        &&& m.grid[u.position.y as int][u.position.x as int] == Cell::Unit(k)
    } by {
        lemma_start_inside(config, k - 1);
        let p = start_position(config, k - 1);
        lemma_placed(config, p.x as int, p.y as int, n as nat);
    }
    assert forall|x: int, y: int| 0 <= x < w && 0 <= y < h implies match #[trigger] m.grid[y][x] {
        Cell::Unit(k) => m.units.contains_key(k) && m.units[k].position == Position {
            x: x as u32,
            y: y as u32,
        },
        Cell::Empty => true,
    } by {
        lemma_placed(config, x, y, n as nat);
    }
    assert(board_consistent(m.grid, m.units, w, h, m.next_unit_id));
    assert forall|k: u32| #[trigger] m.units.contains_key(k) implies m.players.contains(
        m.units[k].owner,
    ) by {
        assert(m.players[k - 1] == k as u8);
    }
    assert(owners_active(m.units, m.players));
    assert(m.players.no_duplicates());
}

} // verus!
