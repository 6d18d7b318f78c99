//! A turn-based grid strategy game engine: units, combat, fog of war,
//! turn order, disconnections and snapshot rollback, with the decisions,
//! input reading and drawing of its console client.

pub mod types;
pub mod board;
pub mod rules;
pub mod invariants;
pub mod roster;
pub mod text;
pub mod query;
pub mod actions;
pub mod turns;
pub mod setup;
pub mod laws;
pub mod play_laws;
pub mod console;
pub mod input;
pub mod display;
pub mod notation;

pub use actions::{apply_action, would_produce};
pub use console::{
    all_units_acted, close_turn, offers_vector, player_color, ready_unit_at, ready_units,
};
pub use display::{draw_board, unit_kind_name, unit_kind_title, unit_reports, UnitReport};
pub use input::{parse_cell, parse_map_size, parse_player_count, parse_vector};
pub use query::{get_valid_actions, get_visible_state, get_winner, player_has_units};
pub use setup::{config_is_supported, new_game, starts_are_distinct};
pub use turns::{end_player_turn, remove_player, rollback_to_snapshot};
pub use types::{
    Action, Cell, ErrorModel, GameConfig, GameError, GameModel, GameState, PlayerView, Position,
    Snapshot, SnapshotModel, TileVisibility, Unit, UnitType,
};
