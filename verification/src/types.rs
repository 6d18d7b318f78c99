use std::collections::HashMap;
use vstd::prelude::*;

verus! {

/// A cell coordinate on the board.
#[derive(Debug, Clone, Copy, PartialEq, Eq, Hash, Structural)]
pub struct Position {
    pub x: u32,
    pub y: u32,
}

/// The kind of a unit. A fortification counts how many turns it has stood.
#[derive(Debug, Clone, Copy, PartialEq, Eq, Structural)]
pub enum UnitType {
    Infantry,
    Fortification { turns_standing: u8 },
    Factory,
}

/// A unit on the board.
#[derive(Debug, Clone, Copy)]
pub struct Unit {
    pub id: u32,
    pub owner: u8,
    pub unit_type: UnitType,
    pub position: Position,
    pub acted: bool,
}

/// What a unit does: always a vector; `(0, 0)` means stay.
#[derive(Debug, Clone, Copy, PartialEq, Eq, Structural)]
pub struct Action {
    pub unit_id: u32,
    pub dx: i32,
    pub dy: i32,
}

/// Board dimensions and the number of players.
#[derive(Debug, Clone, Copy)]
pub struct GameConfig {
    pub width: u32,
    pub height: u32,
    pub player_count: u8,
}

/// The content of one board cell.
#[derive(Debug, Clone, Copy, PartialEq, Eq, Structural)]
pub enum Cell {
    Empty,
    Unit(u32),
}

/// The board and units as they stood after one player's turn.
#[derive(Debug, Clone)]
pub struct Snapshot {
    pub player_id: u8,
    pub round: u32,
    pub cells: Vec<Vec<Cell>>,
    pub units: HashMap<u32, Unit>,
}

/// The complete game state. `cells` is indexed `[y][x]`; `players` holds the
/// active players in turn order; `departures` holds the units of the player
/// on turn as they stood before leaving their cell this turn, whose sight that
/// player keeps until the turn ends.
#[derive(Debug, Clone)]
pub struct GameState {
    pub config: GameConfig,
    pub cells: Vec<Vec<Cell>>,
    pub units: HashMap<u32, Unit>,
    pub next_unit_id: u32,
    pub players: Vec<u8>,
    pub current_player_index: usize,
    pub round: u32,
    pub snapshots: Vec<Snapshot>,
    pub departures: Vec<Unit>,
}

/// What one player may see of a cell.
#[derive(Debug, Clone, Copy)]
pub enum TileVisibility {
    Visible(Cell),
    LastKnown(Cell),
    Fog,
}

/// The state as one player sees it, with fog of war applied.
#[derive(Debug, Clone)]
pub struct PlayerView {
    pub player_id: u8,
    pub width: u32,
    pub height: u32,
    pub tiles: Vec<Vec<TileVisibility>>,
    pub my_units: Vec<Unit>,
    pub current_player: u8,
    pub round: u32,
    pub winner: Option<u8>,
}

/// Why a request was refused.
#[derive(Debug, Clone)]
pub enum GameError {
    InvalidAction(String),
    NotYourTurn,
    UnitAlreadyActed,
    UnitNotFound,
    GameOver,
}

// ─── Mathematical models ────────────────────────────────────────────────

/// A refusal, with the message of an invalid action as a character sequence.
pub enum ErrorModel {
    InvalidAction(Seq<char>),
    NotYourTurn,
    UnitAlreadyActed,
    UnitNotFound,
    GameOver,
}

impl View for GameError {
    type V = ErrorModel;

    open spec fn view(&self) -> ErrorModel {
        match self {
            GameError::InvalidAction(s) => ErrorModel::InvalidAction(s@),
            GameError::NotYourTurn => ErrorModel::NotYourTurn,
            GameError::UnitAlreadyActed => ErrorModel::UnitAlreadyActed,
            GameError::UnitNotFound => ErrorModel::UnitNotFound,
            GameError::GameOver => ErrorModel::GameOver,
        }
    }
}

/// The outcome of a request as a mathematical value.
pub open spec fn outcome(r: Result<(), GameError>) -> Result<(), ErrorModel> {
    match r {
        Ok(()) => Ok(()),
        Err(e) => Err(e@),
    }
}

/// A board as rows of cells.
pub open spec fn grid_of(cells: Vec<Vec<Cell>>) -> Seq<Seq<Cell>> {
    cells@.map_values(|row: Vec<Cell>| row@)
}

/// A snapshot as a mathematical value.
#[verifier::ext_equal]
pub struct SnapshotModel {
    pub player_id: u8,
    pub round: u32,
    pub grid: Seq<Seq<Cell>>,
    pub units: Map<u32, Unit>,
}

impl View for Snapshot {
    type V = SnapshotModel;

    open spec fn view(&self) -> SnapshotModel {
        SnapshotModel {
            player_id: self.player_id,
            round: self.round,
            grid: grid_of(self.cells),
            units: self.units@,
        }
    }
}

/// The game state as a mathematical value.
#[verifier::ext_equal]
pub struct GameModel {
    pub config: GameConfig,
    pub grid: Seq<Seq<Cell>>,
    pub units: Map<u32, Unit>,
    pub next_unit_id: u32,
    pub players: Seq<u8>,
    pub current_player_index: usize,
    pub round: u32,
    pub snapshots: Seq<SnapshotModel>,
    pub departures: Seq<Unit>,
}

impl View for GameState {
    type V = GameModel;

    open spec fn view(&self) -> GameModel {
        GameModel {
            config: self.config,
            grid: grid_of(self.cells),
            units: self.units@,
            next_unit_id: self.next_unit_id,
            players: self.players@,
            current_player_index: self.current_player_index,
            round: self.round,
            snapshots: self.snapshots@.map_values(|s: Snapshot| s@),
            departures: self.departures@,
        }
    }
}

} // verus!
