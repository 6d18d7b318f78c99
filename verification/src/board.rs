use crate::types::{Cell, GameConfig, GameModel, Position, SnapshotModel, Unit, UnitType, grid_of};
use vstd::prelude::*;

verus! {

broadcast use vstd::std_specs::hash::group_hash_axioms;

// ─── Geometry ───────────────────────────────────────────────────────────

/// The cell reached from `p` by the vector `(dx, dy)`, if it lies on a
/// `w × h` board.
pub open spec fn shifted(p: Position, dx: i32, dy: i32, w: u32, h: u32) -> Option<Position> {
    let nx = p.x + dx;
    let ny = p.y + dy;
    if 0 <= nx < w && 0 <= ny < h {
        Some(Position { x: nx as u32, y: ny as u32 })
    } else {
        None
    }
}

/// The eight neighbour vectors `(dx, dy)`, rows from top to bottom and each
/// row from left to right.
pub open spec fn neighbour(i: int) -> (i32, i32) {
    if i == 0 {
        (-1i32, -1i32)
    } else if i == 1 {
        (0i32, -1i32)
    } else if i == 2 {
        (1i32, -1i32)
    } else if i == 3 {
        (-1i32, 0i32)
    } else if i == 4 {
        (1i32, 0i32)
    } else if i == 5 {
        (-1i32, 1i32)
    } else if i == 6 {
        (0i32, 1i32)
    } else {
        (1i32, 1i32)
    }
}

/// How far (in both axes) a unit of this kind sees.
pub open spec fn radius(t: UnitType) -> int {
    match t {
        UnitType::Infantry => 1,
        UnitType::Fortification { .. } => 2,
        UnitType::Factory => 1,
    }
}

/// The board with the cell at `(x, y)` replaced by `c`.
pub open spec fn set_cell(g: Seq<Seq<Cell>>, x: int, y: int, c: Cell) -> Seq<Seq<Cell>> {
    g.update(y, g[y].update(x, c))
}

/// Some neighbour of `p` is on the board and empty.
pub open spec fn has_free_neighbour(g: Seq<Seq<Cell>>, p: Position, w: u32, h: u32) -> bool {
    exists|i: int|
        0 <= i < 8 && match #[trigger] shifted(p, neighbour(i).0, neighbour(i).1, w, h) {
            Some(t) => g[t.y as int][t.x as int] == Cell::Empty,
            None => false,
        }
}

// ─── Well-formedness ────────────────────────────────────────────────────

/// `g` has `h` rows of `w` cells.
pub open spec fn grid_shaped(g: Seq<Seq<Cell>>, w: u32, h: u32) -> bool {
    &&& g.len() == h
    &&& forall|y: int| 0 <= y < h ==> #[trigger] g[y].len() == w
}

/// The board and the unit table describe the same placement: each unit sits
/// on the cell that names it, each named cell holds that unit, and every id
/// is below `next_id`.
pub open spec fn board_consistent(
    g: Seq<Seq<Cell>>,
    units: Map<u32, Unit>,
    w: u32,
    h: u32,
    next_id: u32,
) -> bool {
    &&& grid_shaped(g, w, h)
    &&& forall|k: u32|
        #![trigger units.contains_key(k)]
        units.contains_key(k) ==> {
            let u = units[k];
            &&& u.id == k
            &&& k < next_id
            &&& u.position.x < w
            &&& u.position.y < h
            &&& g[u.position.y as int][u.position.x as int] == Cell::Unit(k)
        }
    &&& forall|x: int, y: int|
        0 <= x < w && 0 <= y < h ==> match #[trigger] g[y][x] {
            Cell::Unit(k) => units.contains_key(k) && units[k].position == Position {
                x: x as u32,
                y: y as u32,
            },
            Cell::Empty => true,
        }
}

/// Every live unit belongs to an active player.
pub open spec fn owners_active(units: Map<u32, Unit>, players: Seq<u8>) -> bool {
    forall|k: u32| #[trigger] units.contains_key(k) ==> players.contains(units[k].owner)
}

/// The board and the unit table of `m` agree: what the read-only queries
/// need of a state.
pub open spec fn board_ok(m: GameModel) -> bool {
    board_consistent(m.grid, m.units, m.config.width, m.config.height, m.next_unit_id)
}

/// The invariant that every state built by this library keeps.
pub open spec fn wf(m: GameModel) -> bool {
    &&& board_consistent(m.grid, m.units, m.config.width, m.config.height, m.next_unit_id)
    &&& owners_active(m.units, m.players)
    &&& m.players.no_duplicates()
    &&& m.players.len() == 0 || m.current_player_index < m.players.len()
    &&& forall|i: int|
        0 <= i < m.snapshots.len() ==> board_consistent(
            #[trigger] m.snapshots[i].grid,
            m.snapshots[i].units,
            m.config.width,
            m.config.height,
            m.next_unit_id,
        )
}

/// The player whose turn it is.
pub open spec fn current_player(m: GameModel) -> u8 {
    m.players[m.current_player_index as int]
}

// ─── Exec helpers ───────────────────────────────────────────────────────

/// Applies a vector to a position; `None` when it leaves the board.
pub fn apply_delta(pos: &Position, dx: i32, dy: i32, width: u32, height: u32) -> (r: Option<
    Position,
>)
    ensures
        r == shifted(*pos, dx, dy, width, height),
{
    let nx = pos.x as i64 + dx as i64;
    let ny = pos.y as i64 + dy as i64;
    if nx < 0 || ny < 0 || nx >= width as i64 || ny >= height as i64 {
        None
    } else {
        Some(Position { x: nx as u32, y: ny as u32 })
    }
}

/// How far a unit of this kind sees.
pub fn visibility_radius(unit_type: &UnitType) -> (r: u32)
    ensures
        r == radius(*unit_type),
{
    match unit_type {
        UnitType::Infantry => 1,
        UnitType::Fortification { .. } => 2,
        UnitType::Factory => 1,
    }
}

/// The `i`-th neighbour vector.
pub(crate) fn neighbour_vector(i: usize) -> (r: (i32, i32))
    requires
        i < 8,
    ensures
        r == neighbour(i as int),
{
    if i == 0 {
        (-1, -1)
    } else if i == 1 {
        (0, -1)
    } else if i == 2 {
        (1, -1)
    } else if i == 3 {
        (-1, 0)
    } else if i == 4 {
        (1, 0)
    } else if i == 5 {
        (-1, 1)
    } else if i == 6 {
        (0, 1)
    } else {
        (1, 1)
    }
}

/// Reads the cell at `(x, y)`.
pub(crate) fn cell_at(cells: &Vec<Vec<Cell>>, x: u32, y: u32) -> (c: Cell)
    requires
        y < grid_of(*cells).len(),
        x < grid_of(*cells)[y as int].len(),
    ensures
        c == grid_of(*cells)[y as int][x as int],
{
    cells[y as usize][x as usize]
}

/// Writes `c` into the cell at `(x, y)`.
pub(crate) fn put_cell(cells: &mut Vec<Vec<Cell>>, x: u32, y: u32, c: Cell)
    requires
        y < grid_of(*old(cells)).len(),
        x < grid_of(*old(cells))[y as int].len(),
    ensures
        grid_of(*final(cells)) == set_cell(grid_of(*old(cells)), x as int, y as int, c),
{
    cells[y as usize][x as usize] = c;
    assert(grid_of(*cells) =~= set_cell(grid_of(*old(cells)), x as int, y as int, c)) by {
        assert(grid_of(*cells)[y as int] =~= grid_of(*old(cells))[y as int].update(x as int, c));
    }
}

/// A copy of the board.
pub(crate) fn copy_cells(cells: &Vec<Vec<Cell>>) -> (r: Vec<Vec<Cell>>)
    ensures
        grid_of(r) == grid_of(*cells),
{
    let mut out: Vec<Vec<Cell>> = Vec::new();
    let mut y: usize = 0;
    while y < cells.len()
        invariant
            y <= cells@.len(),
            out@.len() == y,
            forall|j: int| 0 <= j < y ==> (#[trigger] out@[j])@ == cells@[j]@,
        decreases cells@.len() - y,
    {
        let row = &cells[y];
        let mut copy: Vec<Cell> = Vec::new();
        let mut x: usize = 0;
        while x < row.len()
            invariant
                x <= row@.len(),
                copy@ == row@.take(x as int),
            decreases row@.len() - x,
        {
            copy.push(row[x]);
            assert(row@.take(x + 1) =~= row@.take(x as int).push(row@[x as int]));
            x = x + 1;
        }
        assert(row@.take(row@.len() as int) =~= row@);
        out.push(copy);
        y = y + 1;
    }
    assert(grid_of(out) =~= grid_of(*cells));
    out
}

} // verus!
