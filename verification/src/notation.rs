//! How the engine's values are written as text: a `to_string` method on each
//! type, with the exact text stated over the type's fields.
use crate::display::{kind_name, unit_kind_name};
use crate::rules::decimal;
use crate::text::append_decimal;
use crate::types::{Action, Cell, ErrorModel, GameConfig, GameError, Position, TileVisibility, Unit, UnitType};
use vstd::prelude::*;

verus! {

// ─── Specification ──────────────────────────────────────────────────────

/// `v` in decimal, with a leading `-` when negative.
pub open spec fn signed_decimal(v: int) -> Seq<char> {
    if v < 0 {
        "-"@ + decimal((-v) as nat)
    } else {
        decimal(v as nat)
    }
}

/// `true` or `false`.
pub open spec fn bool_text(b: bool) -> Seq<char> {
    if b {
        "true"@
    } else {
        "false"@
    }
}

/// A position written as `(x, y)`.
pub open spec fn position_text(p: Position) -> Seq<char> {
    "("@ + decimal(p.x as nat) + ", "@ + decimal(p.y as nat) + ")"@
}

/// A unit written with all its fields.
pub open spec fn unit_text(u: Unit) -> Seq<char> {
    "Unit(id="@ + decimal(u.id as nat) + ", owner="@ + decimal(u.owner as nat) + ", type="@
        + kind_name(u.unit_type) + ", pos="@ + position_text(u.position) + ", acted="@
        + bool_text(u.acted) + ")"@
}

/// An action written with its unit and vector.
pub open spec fn action_text(a: Action) -> Seq<char> {
    "Action(unit="@ + decimal(a.unit_id as nat) + ", dx="@ + signed_decimal(a.dx as int)
        + ", dy="@ + signed_decimal(a.dy as int) + ")"@
}

/// A configuration written as `GameConfig(WxH, N players)`.
pub open spec fn config_text(c: GameConfig) -> Seq<char> {
    "GameConfig("@ + decimal(c.width as nat) + "x"@ + decimal(c.height as nat) + ", "@ + decimal(
        c.player_count as nat,
    ) + " players)"@
}

/// A cell written as `Empty` or `Unit(id)`.
pub open spec fn cell_name(c: Cell) -> Seq<char> {
    match c {
        Cell::Empty => "Empty"@,
        Cell::Unit(k) => "Unit("@ + decimal(k as nat) + ")"@,
    }
}

/// What a player is shown of a cell, written out.
pub open spec fn tile_text(t: TileVisibility) -> Seq<char> {
    match t {
        TileVisibility::Visible(c) => "Visible("@ + cell_name(c) + ")"@,
        TileVisibility::LastKnown(c) => "LastKnown("@ + cell_name(c) + ")"@,
        TileVisibility::Fog => "Fog"@,
    }
}

/// A refusal written out; an invalid action carries its message.
pub open spec fn error_text(e: ErrorModel) -> Seq<char> {
    match e {
        ErrorModel::InvalidAction(msg) => "InvalidAction: "@ + msg,
        ErrorModel::NotYourTurn => "NotYourTurn"@,
        ErrorModel::UnitAlreadyActed => "UnitAlreadyActed"@,
        ErrorModel::UnitNotFound => "UnitNotFound"@,
        ErrorModel::GameOver => "GameOver"@,
    }
}

// ─── Writers ────────────────────────────────────────────────────────────

/// Appends `v` in decimal, with a leading `-` when negative.
fn append_signed(s: &mut String, v: i32)
    ensures
        final(s)@ == old(s)@ + signed_decimal(v as int),
{
    proof {
        reveal_strlit("-");
    }
    if v < 0 {
        s.append("-");
        let magnitude: i64 = 0i64 - (v as i64);
        append_decimal(s, magnitude as u32);
    } else {
        append_decimal(s, v as u32);
    }
    assert(final(s)@ =~= old(s)@ + signed_decimal(v as int));
}

/// Appends a position as `(x, y)`.
fn append_position(s: &mut String, p: &Position)
    ensures
        final(s)@ == old(s)@ + position_text(*p),
{
    proof {
        reveal_strlit("(");
        reveal_strlit(", ");
        reveal_strlit(")");
    }
    s.append("(");
    append_decimal(s, p.x);
    s.append(", ");
    append_decimal(s, p.y);
    s.append(")");
    assert(final(s)@ =~= old(s)@ + position_text(*p));
}

/// Appends a cell as `Empty` or `Unit(id)`.
fn append_cell_name(s: &mut String, c: &Cell)
    ensures
        final(s)@ == old(s)@ + cell_name(*c),
{
    proof {
        reveal_strlit("Empty");
        reveal_strlit("Unit(");
        reveal_strlit(")");
    }
    match c {
        Cell::Empty => s.append("Empty"),
        Cell::Unit(k) => {
            s.append("Unit(");
            append_decimal(s, *k);
            s.append(")");
        },
    }
    assert(final(s)@ =~= old(s)@ + cell_name(*c));
}

impl Position {
    /// The position written as `(x, y)`.
    pub fn to_string(&self) -> (r: String)
        ensures
            r@ == position_text(*self),
    {
        let mut s = String::new();
        append_position(&mut s, self);
        assert(s@ =~= position_text(*self));
        s
    }
}

impl UnitType {
    /// The kind's name, a fortification's count in parentheses.
    pub fn to_string(&self) -> (r: String)
        ensures
            r@ == kind_name(*self),
    {
        unit_kind_name(self)
    }
}

impl Unit {
    /// The unit written with all its fields.
    pub fn to_string(&self) -> (r: String)
        ensures
            r@ == unit_text(*self),
    {
        proof {
            reveal_strlit("Unit(id=");
            reveal_strlit(", owner=");
            reveal_strlit(", type=");
            reveal_strlit(", pos=");
            reveal_strlit(", acted=");
            reveal_strlit("true");
            reveal_strlit("false");
            reveal_strlit(")");
        }
        let mut s = "Unit(id=".to_owned();
        append_decimal(&mut s, self.id);
        s.append(", owner=");
        append_decimal(&mut s, self.owner as u32);
        s.append(", type=");
        let kind = unit_kind_name(&self.unit_type);
        s.append(kind.as_str());
        s.append(", pos=");
        append_position(&mut s, &self.position);
        s.append(", acted=");
        if self.acted {
            s.append("true");
        } else {
            s.append("false");
        }
        s.append(")");
        assert(s@ =~= unit_text(*self));
        s
    }
}

impl Action {
    /// The action written with its unit and vector.
    pub fn to_string(&self) -> (r: String)
        ensures
            r@ == action_text(*self),
    {
        proof {
            reveal_strlit("Action(unit=");
            reveal_strlit(", dx=");
            reveal_strlit(", dy=");
            reveal_strlit(")");
        }
        let mut s = "Action(unit=".to_owned();
        append_decimal(&mut s, self.unit_id);
        s.append(", dx=");
        append_signed(&mut s, self.dx);
        s.append(", dy=");
        append_signed(&mut s, self.dy);
        s.append(")");
        assert(s@ =~= action_text(*self));
        s
    }
}

impl GameConfig {
    /// The configuration written as `GameConfig(WxH, N players)`.
    pub fn to_string(&self) -> (r: String)
        ensures
            r@ == config_text(*self),
    {
        proof {
            reveal_strlit("GameConfig(");
            reveal_strlit("x");
            reveal_strlit(", ");
            reveal_strlit(" players)");
        }
        let mut s = "GameConfig(".to_owned();
        append_decimal(&mut s, self.width);
        s.append("x");
        append_decimal(&mut s, self.height);
        s.append(", ");
        append_decimal(&mut s, self.player_count as u32);
        s.append(" players)");
        assert(s@ =~= config_text(*self));
        s
    }
}

impl Cell {
    /// The cell written as `Empty` or `Unit(id)`.
    pub fn to_string(&self) -> (r: String)
        ensures
            r@ == cell_name(*self),
    {
        let mut s = String::new();
        append_cell_name(&mut s, self);
        assert(s@ =~= cell_name(*self));
        s
    }
}

impl TileVisibility {
    /// What the player is shown, written out.
    pub fn to_string(&self) -> (r: String)
        ensures
            r@ == tile_text(*self),
    {
        proof {
            reveal_strlit("Visible(");
            reveal_strlit("LastKnown(");
            reveal_strlit("Fog");
            reveal_strlit(")");
        }
        let mut s = String::new();
        match self {
            TileVisibility::Visible(c) => {
                s.append("Visible(");
                append_cell_name(&mut s, c);
                s.append(")");
            },
            TileVisibility::LastKnown(c) => {
                s.append("LastKnown(");
                append_cell_name(&mut s, c);
                s.append(")");
            },
            TileVisibility::Fog => s.append("Fog"),
        }
        assert(s@ =~= tile_text(*self));
        s
    }
}

impl GameError {
    /// The refusal written out; an invalid action carries its message.
    pub fn to_string(&self) -> (r: String)
        ensures
            r@ == error_text(self@),
    {
        proof {
            reveal_strlit("InvalidAction: ");
        }
        match self {
            GameError::InvalidAction(msg) => {
                let mut s = "InvalidAction: ".to_owned();
                s.append(msg.as_str());
                s
            },
            GameError::NotYourTurn => "NotYourTurn".to_owned(),
            GameError::UnitAlreadyActed => "UnitAlreadyActed".to_owned(),
            GameError::UnitNotFound => "UnitNotFound".to_owned(),
            GameError::GameOver => "GameOver".to_owned(),
        }
    }
}

} // verus!
