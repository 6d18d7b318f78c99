//! The console's text: the board drawn in characters with terminal colours,
//! unit kind names, and per-unit reports for programs playing a side.
use crate::board::board_ok;
use crate::console::color_code;
use crate::query::get_valid_actions;
use crate::rules::{decimal, owned_units, saw_before, sees, tile, valid_actions};
use crate::text::append_decimal;
use crate::types::{Action, Cell, GameModel, GameState, TileVisibility, Unit, UnitType};
use vstd::prelude::*;

verus! {

broadcast use vstd::std_specs::hash::group_hash_axioms;

// ─── Specification ──────────────────────────────────────────────────────

/// `n` spaces.
pub open spec fn spaces(n: nat) -> Seq<char>
    decreases n,
{
    if n == 0 {
        Seq::empty()
    } else {
        spaces((n - 1) as nat).push(' ')
    }
}

/// `s` right-aligned in a field of `width` characters.
pub open spec fn pad_left(s: Seq<char>, width: nat) -> Seq<char> {
    if s.len() < width {
        spaces((width - s.len()) as nat) + s
    } else {
        s
    }
}

/// The one- or two-part code of a unit kind on the board: `I`, `F` and the
/// standing count, or `A`.
pub open spec fn kind_code(t: UnitType) -> Seq<char> {
    match t {
        UnitType::Infantry => "I"@,
        UnitType::Fortification { turns_standing } => "F"@ + decimal(turns_standing as nat),
        UnitType::Factory => "A"@,
    }
}

/// The name of a unit kind, with a fortification's count in parentheses.
pub open spec fn kind_name(t: UnitType) -> Seq<char> {
    match t {
        UnitType::Infantry => "Infantry"@,
        UnitType::Fortification { turns_standing } => "Fortification("@ + decimal(
            turns_standing as nat,
        ) + ")"@,
        UnitType::Factory => "Factory"@,
    }
}

/// The name of a unit kind, with a fortification's count in brackets.
pub open spec fn kind_title(t: UnitType) -> Seq<char> {
    match t {
        UnitType::Infantry => "Infantry"@,
        UnitType::Fortification { turns_standing } => "Fortification["@ + decimal(
            turns_standing as nat,
        ) + "]"@,
        UnitType::Factory => "Factory"@,
    }
}

/// How one cell is drawn: a dim dot for an empty cell; for a unit, the
/// owner's number in the owner's colour, then in bold the kind's code and a
/// star once it has acted.
pub open spec fn cell_text(m: GameModel, c: Cell) -> Seq<char> {
    match c {
        Cell::Empty => "\x1b[2m.  \x1b[0m"@,
        Cell::Unit(id) => {
            let u = m.units[id];
            color_code(u.owner) + decimal(u.owner as nat) + "\x1b[1m"@ + kind_code(u.unit_type) + (
            if u.acted {
                "*"@
            } else {
                " "@
            }) + "\x1b[0m"@
        },
    }
}

/// The column numbers of the first `k` columns, each in three characters.
pub open spec fn header_cells(k: nat) -> Seq<char>
    decreases k,
{
    if k == 0 {
        Seq::empty()
    } else {
        header_cells((k - 1) as nat) + pad_left(decimal((k - 1) as nat), 3)
    }
}

/// A cell hidden by fog: a dark grey question mark.
pub open spec fn fog_text() -> Seq<char> {
    "\x1b[90m?  \x1b[0m"@
}

/// How `(x, y)` is drawn for player `pid`: the cell when the player sees it,
/// fog otherwise.
pub open spec fn shown_text(m: GameModel, pid: u8, x: int, y: int) -> Seq<char> {
    match tile(m, pid, x, y) {
        TileVisibility::Visible(c) => cell_text(m, c),
        _ => fog_text(),
    }
}

/// The first `k` cells of row `y` as player `pid` is shown them.
pub open spec fn row_cells(m: GameModel, pid: u8, y: int, k: nat) -> Seq<char>
    decreases k,
{
    if k == 0 {
        Seq::empty()
    } else {
        row_cells(m, pid, y, (k - 1) as nat) + shown_text(m, pid, k - 1, y)
    }
}

/// Row `y`: its number in two characters, a space, its cells, a line break.
pub open spec fn row_text(m: GameModel, pid: u8, y: int) -> Seq<char> {
    pad_left(decimal(y as nat), 2) + " "@ + row_cells(m, pid, y, m.config.width as nat) + "\n"@
}

/// The first `k` rows.
pub open spec fn rows_text(m: GameModel, pid: u8, k: nat) -> Seq<char>
    decreases k,
{
    if k == 0 {
        Seq::empty()
    } else {
        rows_text(m, pid, (k - 1) as nat) + row_text(m, pid, k - 1)
    }
}

/// One unit in the list under the board: its kind's code, a star once it has
/// acted, and its cell.
pub open spec fn unit_entry(u: Unit) -> Seq<char> {
    "  "@ + kind_code(u.unit_type) + (if u.acted {
        "*"@
    } else {
        ""@
    }) + "@("@ + decimal(u.position.x as nat) + ","@ + decimal(u.position.y as nat) + ") "@
}

/// The entries of the units `us`, in order.
pub open spec fn unit_entries(us: Seq<Unit>) -> Seq<char>
    decreases us.len(),
{
    if us.len() == 0 {
        Seq::empty()
    } else {
        unit_entries(us.drop_last()) + unit_entry(us.last())
    }
}

/// The whole drawing: the column numbers, the rows as the current player
/// sees them (fog drawn as `?`), a blank line, then in the current player's
/// colour the list of its units, ascending by id.
pub open spec fn board_text(m: GameModel, current: u8) -> Seq<char> {
    "   "@ + header_cells(m.config.width as nat) + "\n"@ + rows_text(
        m,
        current,
        m.config.height as nat,
    )
        + "\n"@ + color_code(current) + "Player "@ + decimal(current as nat) + " units:\x1b[0m "@
        + unit_entries(owned_units(m.units, current, m.next_unit_id as nat)) + "\n\n"@
}


// ─── Exec ───────────────────────────────────────────────────────────────

/// The number of decimal digits of `n`.
fn digit_count(n: u32) -> (r: usize)
    ensures
        r == decimal(n as nat).len(),
        1 <= r,
        n < 10 ==> r == 1,
        n >= 10 ==> r <= n,
    decreases n,
{
    if n >= 10 {
        let k = digit_count(n / 10);
        assert(decimal(n as nat) == decimal((n / 10) as nat) + seq![crate::rules::digit_char((n % 10) as nat)]);
        k + 1
    } else {
        1
    }
}


/// Appends `n` spaces.
fn append_spaces(s: &mut String, n: usize)
    ensures
        final(s)@ == old(s)@ + spaces(n as nat),
{
    let mut i: usize = 0;
    while i < n
        invariant
            i <= n,
            s@ == old(s)@ + spaces(i as nat),
        decreases n - i,
    {
        proof {
            reveal_strlit(" ");
        }
        s.append(" ");
        assert(s@ =~= old(s)@ + spaces((i + 1) as nat));
        i = i + 1;
    }
}

/// Appends `n` in decimal, right-aligned in `width` characters.
fn append_padded(s: &mut String, n: u32, width: usize)
    ensures
        final(s)@ == old(s)@ + pad_left(decimal(n as nat), width as nat),
{
    let len = digit_count(n);
    if len < width {
        append_spaces(s, width - len);
    }
    append_decimal(s, n);
    assert(final(s)@ =~= old(s)@ + pad_left(decimal(n as nat), width as nat));
}

/// Appends the board code of a unit kind.
fn append_kind_code(s: &mut String, t: &UnitType)
    ensures
        final(s)@ == old(s)@ + kind_code(*t),
{
    match t {
        UnitType::Infantry => s.append("I"),
        UnitType::Fortification { turns_standing } => {
            s.append("F");
            append_decimal(s, *turns_standing as u32);
            assert(final(s)@ =~= old(s)@ + kind_code(*t));
        },
        UnitType::Factory => s.append("A"),
    }
}

/// The name of a unit kind, a fortification's count in parentheses.
pub fn unit_kind_name(t: &UnitType) -> (r: String)
    ensures
        r@ == kind_name(*t),
{
    match t {
        UnitType::Infantry => "Infantry".to_owned(),
        UnitType::Fortification { turns_standing } => {
            let mut s = "Fortification(".to_owned();
            append_decimal(&mut s, *turns_standing as u32);
            s.append(")");
            assert(s@ =~= kind_name(*t));
            s
        },
        UnitType::Factory => "Factory".to_owned(),
    }
}

/// The name of a unit kind, a fortification's count in brackets.
pub fn unit_kind_title(t: &UnitType) -> (r: String)
    ensures
        r@ == kind_title(*t),
{
    match t {
        UnitType::Infantry => "Infantry".to_owned(),
        UnitType::Fortification { turns_standing } => {
            let mut s = "Fortification[".to_owned();
            append_decimal(&mut s, *turns_standing as u32);
            s.append("]");
            assert(s@ =~= kind_title(*t));
            s
        },
        UnitType::Factory => "Factory".to_owned(),
    }
}

/// Appends the drawing of one cell.
fn append_cell(s: &mut String, state: &GameState, c: Cell)
    requires
        match c {
            Cell::Unit(id) => state@.units.contains_key(id),
            Cell::Empty => true,
        },
    ensures
        final(s)@ == old(s)@ + cell_text(state@, c),
{
    match c {
        Cell::Empty => s.append("\x1b[2m.  \x1b[0m"),
        Cell::Unit(id) => {
            let u = match state.units.get(&id) {
                Some(u) => *u,
                None => {
                    return;
                },
            };
            s.append(crate::console::player_color(u.owner));
            append_decimal(s, u.owner as u32);
            s.append("\x1b[1m");
            append_kind_code(s, &u.unit_type);
            if u.acted {
                s.append("*");
            } else {
                s.append(" ");
            }
            s.append("\x1b[0m");
            assert(final(s)@ =~= old(s)@ + cell_text(state@, c));
        },
    }
}

/// Appends the list entry of one unit.
fn append_unit_entry(s: &mut String, u: &Unit)
    ensures
        final(s)@ == old(s)@ + unit_entry(*u),
{
    s.append("  ");
    append_kind_code(s, &u.unit_type);
    if u.acted {
        s.append("*");
    } else {
        s.append("");
    }
    s.append("@(");
    append_decimal(s, u.position.x);
    s.append(",");
    append_decimal(s, u.position.y);
    s.append(") ");
    assert(final(s)@ =~= old(s)@ + unit_entry(*u));
}

/// The board drawn for the console, with the list of `current`'s units.
pub fn draw_board(state: &GameState, current: u8) -> (r: String)
    requires
        board_ok(state@),
    ensures
        r@ == board_text(state@, current),
{
    let ghost m = state@;
    let w = state.config.width;
    let h = state.config.height;
    let mut s = "   ".to_owned();
    let mut x: u32 = 0;
    while x < w
        invariant
            x <= w,
            s@ == "   "@ + header_cells(x as nat),
        decreases w - x,
    {
        append_padded(&mut s, x, 3);
        assert(s@ =~= "   "@ + header_cells((x + 1) as nat));
        x = x + 1;
    }
    s.append("\n");
    let visible = crate::query::sight_grid(state, current);
    let ghost top = s@;
    assert(top == "   "@ + header_cells(w as nat) + "\n"@);
    let mut y: u32 = 0;
    while y < h
        invariant
            board_ok(state@),
            m == state@,
            w == state.config.width,
            h == state.config.height,
            y <= h,
            visible@.len() == h,
            forall|yy: int| 0 <= yy < h ==> (#[trigger] visible@[yy])@.len() == w,
            forall|xx: int, yy: int|
                0 <= xx < w && 0 <= yy < h ==> (#[trigger] visible@[yy]@[xx]) == (sees(
                    m.units,
                    current,
                    xx,
                    yy,
                ) || saw_before(m.departures, current, xx, yy)),
            s@ == top + rows_text(m, current, y as nat),
        decreases h - y,
    {
        let ghost before = s@;
        append_padded(&mut s, y, 2);
        s.append(" ");
        let ghost row_start = s@;
        let mut x: u32 = 0;
        while x < w
            invariant
                board_ok(state@),
                m == state@,
                w == state.config.width,
                h == state.config.height,
                y < h,
                x <= w,
                visible@.len() == h,
                forall|yy: int| 0 <= yy < h ==> (#[trigger] visible@[yy])@.len() == w,
                forall|xx: int, yy: int|
                    0 <= xx < w && 0 <= yy < h ==> (#[trigger] visible@[yy]@[xx]) == (sees(
                        m.units,
                        current,
                        xx,
                        yy,
                    ) || saw_before(m.departures, current, xx, yy)),
                s@ == row_start + row_cells(m, current, y as int, x as nat),
            decreases w - x,
        {
            if visible[y as usize][x as usize] {
                let c = crate::board::cell_at(&state.cells, x, y);
                append_cell(&mut s, state, c);
            } else {
                s.append("\x1b[90m?  \x1b[0m");
            }
            assert(s@ =~= row_start + row_cells(m, current, y as int, (x + 1) as nat));
            x = x + 1;
        }
        s.append("\n");
        assert(s@ =~= top + rows_text(m, current, (y + 1) as nat));
        y = y + 1;
    }
    s.append("\n");
    s.append(crate::console::player_color(current));
    s.append("Player ");
    append_decimal(&mut s, current as u32);
    s.append(" units:\x1b[0m ");
    let ghost list_start = s@;
    let mut k: u32 = 0;
    while k < state.next_unit_id
        invariant
            m == state@,
            k <= state.next_unit_id,
            s@ == list_start + unit_entries(owned_units(m.units, current, k as nat)),
        decreases state.next_unit_id - k,
    {
        match state.units.get(&k) {
            Some(u) => {
                if u.owner == current {
                    append_unit_entry(&mut s, u);
                    assert(owned_units(m.units, current, (k + 1) as nat).drop_last() =~= owned_units(
                        m.units,
                        current,
                        k as nat,
                    ));
                    assert(s@ =~= list_start + unit_entries(
                        owned_units(m.units, current, (k + 1) as nat),
                    ));
                }
            },
            None => {},
        }
        k = k + 1;
    }
    s.append("\n\n");
    assert(s@ =~= board_text(m, current));
    s
}


/// What a program playing a side is told about one of its units.
pub struct UnitReport {
    pub id: u32,
    pub kind: String,
    pub x: u32,
    pub y: u32,
    pub acted: bool,
    pub moves: Vec<(i32, i32)>,
}

/// The report on unit `u` of player `pid`.
pub open spec fn reports_unit(r: UnitReport, m: GameModel, pid: u8, u: Unit) -> bool {
    &&& r.id == u.id
    &&& r.kind@ == kind_name(u.unit_type)
    &&& r.x == u.position.x
    &&& r.y == u.position.y
    &&& r.acted == u.acted
    &&& r.moves@ == valid_actions(m, pid, u.id).map_values(|a: Action| (a.dx, a.dy))
}

/// A report on each unit of `player_id`, ascending by id: its kind, cell,
/// whether it has acted, and the vectors it may be given.
pub fn unit_reports(state: &GameState, player_id: u8) -> (r: Vec<UnitReport>)
    requires
        board_ok(state@),
    ensures
        r@.len() == owned_units(state@.units, player_id, state.next_unit_id as nat).len(),
        forall|i: int|
            0 <= i < r@.len() ==> reports_unit(
                #[trigger] r@[i],
                state@,
                player_id,
                owned_units(state@.units, player_id, state.next_unit_id as nat)[i],
            ),
{
    let ghost m = state@;
    let mut out: Vec<UnitReport> = Vec::new();
    let mut k: u32 = 0;
    while k < state.next_unit_id
        invariant
            board_ok(state@),
            m == state@,
            k <= state.next_unit_id,
            out@.len() == owned_units(m.units, player_id, k as nat).len(),
            forall|i: int|
                0 <= i < out@.len() ==> reports_unit(
                    #[trigger] out@[i],
                    m,
                    player_id,
                    owned_units(m.units, player_id, k as nat)[i],
                ),
        decreases state.next_unit_id - k,
    {
        match state.units.get(&k) {
            Some(u) => {
                if u.owner == player_id {
                    let unit = *u;
                    let actions = get_valid_actions(state, player_id, unit.id);
                    let mut moves: Vec<(i32, i32)> = Vec::new();
                    let mut j: usize = 0;
                    while j < actions.len()
                        invariant
                            j <= actions@.len(),
                            moves@ == actions@.take(j as int).map_values(|a: Action| (a.dx, a.dy)),
                        decreases actions@.len() - j,
                    {
                        moves.push((actions[j].dx, actions[j].dy));
                        assert(actions@.take(j + 1) =~= actions@.take(j as int).push(actions@[j as int]));
                        assert(moves@ =~= actions@.take(j + 1).map_values(|a: Action| (a.dx, a.dy)));
                        j = j + 1;
                    }
                    assert(actions@.take(actions@.len() as int) =~= actions@);
                    let report = UnitReport {
                        id: unit.id,
                        kind: unit_kind_name(&unit.unit_type),
                        x: unit.position.x,
                        y: unit.position.y,
                        acted: unit.acted,
                        moves,
                    };
                    assert(m.units.contains_key(k));
                    out.push(report);
                    assert(owned_units(m.units, player_id, (k + 1) as nat) == owned_units(
                        m.units,
                        player_id,
                        k as nat,
                    ).push(unit));
                    assert forall|i: int| 0 <= i < out@.len() implies reports_unit(
                        #[trigger] out@[i],
                        m,
                        player_id,
                        owned_units(m.units, player_id, (k + 1) as nat)[i],
                    ) by {

                    }
                }
            },
            None => {},
        }
        k = k + 1;
    }
    out
}

} // verus!
