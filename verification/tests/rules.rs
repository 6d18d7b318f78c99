use cellwar_engine::{
    all_units_acted, apply_action, close_turn, config_is_supported, draw_board, end_player_turn,
    get_valid_actions, get_visible_state, get_winner, new_game, offers_vector, parse_cell,
    parse_map_size,
    parse_player_count, parse_vector, player_color, player_has_units, ready_unit_at, ready_units,
    remove_player, rollback_to_snapshot, starts_are_distinct, unit_kind_name, unit_kind_title,
    unit_reports, would_produce, Action, Cell, GameConfig, GameError, GameState, Position,
    TileVisibility, Unit,
    UnitType,
};
use std::collections::HashMap;

fn config(w: u32, h: u32, n: u8) -> GameConfig {
    GameConfig { width: w, height: h, player_count: n }
}

fn empty_state(w: u32, h: u32, players: Vec<u8>) -> GameState {
    GameState {
        config: config(w, h, players.len() as u8),
        cells: vec![vec![Cell::Empty; w as usize]; h as usize],
        units: HashMap::new(),
        next_unit_id: 1,
        players,
        current_player_index: 0,
        round: 1,
        snapshots: Vec::new(),
        departures: Vec::new(),
    }
}

fn place(state: &mut GameState, owner: u8, unit_type: UnitType, x: u32, y: u32) -> u32 {
    let id = state.next_unit_id;
    state.next_unit_id += 1;
    state.units.insert(
        id,
        Unit { id, owner, unit_type, position: Position { x, y }, acted: false },
    );
    state.cells[y as usize][x as usize] = Cell::Unit(id);
    id
}

fn snapshot_of(state: &GameState) -> (Vec<Vec<Cell>>, Vec<(u32, u8, UnitType, u32, u32, bool)>) {
    let mut units: Vec<_> = state
        .units
        .values()
        .map(|u| (u.id, u.owner, u.unit_type, u.position.x, u.position.y, u.acted))
        .collect();
    units.sort_by_key(|t| t.0);
    (state.cells.clone(), units)
}

fn message(r: Result<(), GameError>) -> String {
    match r {
        Err(GameError::InvalidAction(m)) => m,
        other => panic!("expected an invalid action, got {:?}", other),
    }
}

// ─── Setting up ───────────────────────────────────────────────────────────

#[test]
fn two_players_start_one_in_from_opposite_corners() {
    let state = new_game(config(10, 10, 2));
    assert_eq!(state.units[&1].position, Position { x: 1, y: 1 });
    assert_eq!(state.units[&2].position, Position { x: 8, y: 8 });
    assert_eq!(state.units[&1].owner, 1);
    assert_eq!(state.units[&2].owner, 2);
    assert_eq!(state.next_unit_id, 3);
    assert_eq!(state.players, vec![1, 2]);
    assert!(state.snapshots.is_empty());
}

#[test]
fn three_players_spread_along_the_ring() {
    let state = new_game(config(10, 10, 3));
    assert_eq!(state.units[&1].position, Position { x: 1, y: 1 });
    assert_eq!(state.units[&2].position, Position { x: 8, y: 3 });
    assert_eq!(state.units[&3].position, Position { x: 4, y: 8 });
    assert_eq!(state.cells[3][8], Cell::Unit(2));
    assert_eq!(state.players, vec![1, 2, 3]);
}

#[test]
fn small_boards_and_colliding_starts_are_detected() {
    assert!(config_is_supported(config(2, 2, 2)));
    assert!(!config_is_supported(config(1, 5, 2)));
    assert!(!config_is_supported(config(2, 2, 3)));
    assert!(!config_is_supported(config(5, 5, 0)));
    assert!(starts_are_distinct(config(10, 10, 2)));
    assert!(!starts_are_distinct(config(3, 3, 2)));
    assert!(starts_are_distinct(config(10, 10, 16)));
    assert!(!starts_are_distinct(config(10, 10, 17)));
    assert!(!starts_are_distinct(config(10, 10, 33)));
}

// ─── Actions ──────────────────────────────────────────────────────────────

#[test]
fn infantry_staying_becomes_fortification_of_one() {
    let mut state = empty_state(5, 5, vec![1, 2]);
    let a = place(&mut state, 1, UnitType::Infantry, 1, 1);
    place(&mut state, 2, UnitType::Infantry, 4, 4);
    apply_action(&mut state, 1, a, Action { unit_id: a, dx: 0, dy: 0 }).unwrap();
    assert_eq!(state.units[&a].unit_type, UnitType::Fortification { turns_standing: 1 });
    assert!(state.units[&a].acted);
}

#[test]
fn fortification_counts_up_to_factory() {
    let mut state = empty_state(5, 5, vec![1, 2]);
    let a = place(&mut state, 1, UnitType::Fortification { turns_standing: 1 }, 1, 1);
    place(&mut state, 2, UnitType::Infantry, 4, 4);
    apply_action(&mut state, 1, a, Action { unit_id: a, dx: 0, dy: 0 }).unwrap();
    assert_eq!(state.units[&a].unit_type, UnitType::Fortification { turns_standing: 2 });
    state.units.get_mut(&a).unwrap().acted = false;
    apply_action(&mut state, 1, a, Action { unit_id: a, dx: 0, dy: 0 }).unwrap();
    assert_eq!(state.units[&a].unit_type, UnitType::Fortification { turns_standing: 3 });
    state.units.get_mut(&a).unwrap().acted = false;
    apply_action(&mut state, 1, a, Action { unit_id: a, dx: 0, dy: 0 }).unwrap();
    assert_eq!(state.units[&a].unit_type, UnitType::Factory);
}

#[test]
fn infantry_takes_an_enemy_factory() {
    let mut state = empty_state(5, 5, vec![1, 2]);
    let a = place(&mut state, 1, UnitType::Infantry, 1, 1);
    let f = place(&mut state, 2, UnitType::Factory, 2, 2);
    place(&mut state, 2, UnitType::Infantry, 4, 4);
    apply_action(&mut state, 1, a, Action { unit_id: a, dx: 1, dy: 1 }).unwrap();
    assert!(!state.units.contains_key(&f));
    assert_eq!(state.units[&a].position, Position { x: 2, y: 2 });
    assert_eq!(state.cells[2][2], Cell::Unit(a));
    assert_eq!(state.cells[1][1], Cell::Empty);
}

#[test]
fn a_vector_longer_than_one_cell_is_refused() {
    let mut state = empty_state(5, 5, vec![1, 2]);
    let a = place(&mut state, 1, UnitType::Infantry, 1, 1);
    let b = place(&mut state, 2, UnitType::Infantry, 3, 1);
    let before = snapshot_of(&state);
    let r = apply_action(&mut state, 1, a, Action { unit_id: a, dx: 2, dy: 0 });
    assert_eq!(message(r), "Vector out of range");
    assert_eq!(snapshot_of(&state), before);
    assert_eq!(state.units[&b].position, Position { x: 3, y: 1 });
    assert!(!state.units[&a].acted);
    let r = apply_action(&mut state, 1, a, Action { unit_id: a, dx: 0, dy: i32::MIN });
    assert_eq!(message(r), "Vector out of range");
}

#[test]
fn factories_wait_for_combat_units() {
    let mut state = empty_state(8, 8, vec![1, 2]);
    let f = place(&mut state, 1, UnitType::Factory, 1, 1);
    let a = place(&mut state, 1, UnitType::Infantry, 3, 3);
    place(&mut state, 2, UnitType::Infantry, 6, 6);
    let before = snapshot_of(&state);
    let r = apply_action(&mut state, 1, f, Action { unit_id: f, dx: 1, dy: 0 });
    assert_eq!(message(r), "Combat units must act before factories");
    assert_eq!(snapshot_of(&state), before);
    assert_eq!(state.cells[1][2], Cell::Empty);
    apply_action(&mut state, 1, a, Action { unit_id: a, dx: 0, dy: 0 }).unwrap();
    apply_action(&mut state, 1, f, Action { unit_id: f, dx: 1, dy: 0 }).unwrap();
    assert!(matches!(state.cells[1][2], Cell::Unit(_)));
}

#[test]
fn factory_produces_with_the_next_id() {
    let mut state = empty_state(5, 5, vec![1, 2]);
    let f = place(&mut state, 1, UnitType::Factory, 2, 2);
    place(&mut state, 2, UnitType::Infantry, 4, 4);
    let next = state.next_unit_id;
    apply_action(&mut state, 1, f, Action { unit_id: f, dx: 0, dy: -1 }).unwrap();
    let fresh = state.units[&next];
    assert_eq!(fresh.owner, 1);
    assert_eq!(fresh.unit_type, UnitType::Infantry);
    assert_eq!(fresh.position, Position { x: 2, y: 1 });
    assert!(fresh.acted);
    assert_eq!(state.next_unit_id, next + 1);
    assert!(state.units[&f].acted);
}

#[test]
fn refusals_name_their_reason() {
    let mut state = empty_state(5, 5, vec![1, 2]);
    let a = place(&mut state, 1, UnitType::Infantry, 0, 0);
    let own = place(&mut state, 1, UnitType::Infantry, 1, 0);
    let f = place(&mut state, 1, UnitType::Factory, 4, 0);
    let blocker = place(&mut state, 1, UnitType::Infantry, 3, 0);
    let enemy = place(&mut state, 2, UnitType::Infantry, 4, 4);
    assert_eq!(message(apply_action(&mut state, 1, a, Action { unit_id: a, dx: -1, dy: 0 })), "Out of bounds");
    assert_eq!(message(apply_action(&mut state, 1, a, Action { unit_id: a, dx: 1, dy: 0 })), "Cannot attack own unit");
    state.units.get_mut(&a).unwrap().acted = true;
    state.units.get_mut(&own).unwrap().acted = true;
    state.units.get_mut(&blocker).unwrap().acted = true;
    assert_eq!(message(apply_action(&mut state, 1, f, Action { unit_id: f, dx: 0, dy: 0 })), "Factory cannot stay");
    assert_eq!(message(apply_action(&mut state, 1, f, Action { unit_id: f, dx: -1, dy: 0 })), "Factory target cell not empty");
    state.units.get_mut(&own).unwrap().acted = false;
    assert!(matches!(apply_action(&mut state, 2, enemy, Action { unit_id: enemy, dx: 0, dy: 0 }), Err(GameError::NotYourTurn)));
    assert!(matches!(apply_action(&mut state, 1, enemy, Action { unit_id: enemy, dx: 0, dy: 0 }), Err(GameError::UnitNotFound)));
    assert!(matches!(apply_action(&mut state, 1, 99, Action { unit_id: 99, dx: 0, dy: 0 }), Err(GameError::UnitNotFound)));
    apply_action(&mut state, 1, own, Action { unit_id: own, dx: 0, dy: 1 }).unwrap();
    assert!(matches!(apply_action(&mut state, 1, own, Action { unit_id: own, dx: 0, dy: 0 }), Err(GameError::UnitAlreadyActed)));
    let _ = blocker;
}

#[test]
fn refused_action_changes_nothing() {
    let mut state = empty_state(5, 5, vec![1, 2]);
    let a = place(&mut state, 1, UnitType::Infantry, 0, 0);
    place(&mut state, 1, UnitType::Infantry, 1, 0);
    place(&mut state, 2, UnitType::Infantry, 4, 4);
    let before = snapshot_of(&state);
    assert!(apply_action(&mut state, 1, a, Action { unit_id: a, dx: -1, dy: -1 }).is_err());
    assert!(apply_action(&mut state, 1, a, Action { unit_id: a, dx: 1, dy: 0 }).is_err());
    assert_eq!(snapshot_of(&state), before);
}

#[test]
fn refused_fortification_has_become_infantry() {
    let mut state = empty_state(5, 5, vec![1, 2]);
    let a = place(&mut state, 1, UnitType::Fortification { turns_standing: 2 }, 0, 0);
    place(&mut state, 1, UnitType::Infantry, 1, 0);
    place(&mut state, 2, UnitType::Infantry, 4, 4);
    assert_eq!(message(apply_action(&mut state, 1, a, Action { unit_id: a, dx: 1, dy: 0 })), "Cannot attack own unit");
    assert_eq!(state.units[&a].unit_type, UnitType::Infantry);
    assert!(!state.units[&a].acted);
    assert_eq!(state.units[&a].position, Position { x: 0, y: 0 });
}

#[test]
fn no_action_once_the_game_is_won() {
    let mut state = empty_state(5, 5, vec![1, 2]);
    let a = place(&mut state, 1, UnitType::Infantry, 0, 0);
    assert_eq!(get_winner(&state), Some(1));
    assert!(matches!(apply_action(&mut state, 1, a, Action { unit_id: a, dx: 0, dy: 0 }), Err(GameError::GameOver)));
    assert!(matches!(end_player_turn(&mut state, 1), Err(GameError::GameOver)));
}

#[test]
fn the_capturing_move_that_wins_ends_the_game() {
    let mut state = empty_state(5, 5, vec![1, 2]);
    let a = place(&mut state, 1, UnitType::Infantry, 0, 0);
    place(&mut state, 2, UnitType::Infantry, 1, 1);
    apply_action(&mut state, 1, a, Action { unit_id: a, dx: 1, dy: 1 }).unwrap();
    assert_eq!(get_winner(&state), Some(1));
    assert!(matches!(apply_action(&mut state, 1, a, Action { unit_id: a, dx: 0, dy: 0 }), Err(GameError::GameOver)));
}

#[test]
fn mover_leaves_its_cell_empty() {
    let mut state = empty_state(5, 5, vec![1, 2]);
    let a = place(&mut state, 1, UnitType::Fortification { turns_standing: 1 }, 2, 2);
    let d = place(&mut state, 2, UnitType::Fortification { turns_standing: 1 }, 3, 2);
    place(&mut state, 2, UnitType::Infantry, 4, 4);
    apply_action(&mut state, 1, a, Action { unit_id: a, dx: 1, dy: 0 }).unwrap();
    assert_eq!(state.cells[2][2], Cell::Empty);
    assert!(!state.units.contains_key(&a));
    assert_eq!(state.units[&d].unit_type, UnitType::Infantry);
    assert!(player_has_units(&state, 2));
    assert!(!player_has_units(&state, 1));
}

// ─── Valid actions ────────────────────────────────────────────────────────

#[test]
fn valid_actions_come_in_scan_order() {
    let mut state = empty_state(5, 5, vec![1, 2]);
    let a = place(&mut state, 1, UnitType::Infantry, 1, 1);
    place(&mut state, 1, UnitType::Infantry, 1, 0);
    place(&mut state, 2, UnitType::Infantry, 2, 2);
    let got: Vec<(i32, i32)> = get_valid_actions(&state, 1, a).iter().map(|x| (x.dx, x.dy)).collect();
    assert_eq!(got, vec![(0, 0), (-1, -1), (1, -1), (-1, 0), (1, 0), (-1, 1), (0, 1), (1, 1)]);
    assert!(get_valid_actions(&state, 2, a).is_empty());
    assert!(get_valid_actions(&state, 1, 42).is_empty());
}

#[test]
fn every_valid_action_is_accepted() {
    let mut base = empty_state(5, 5, vec![1, 2]);
    let a = place(&mut base, 1, UnitType::Infantry, 1, 1);
    place(&mut base, 1, UnitType::Infantry, 1, 0);
    place(&mut base, 2, UnitType::Fortification { turns_standing: 1 }, 2, 2);
    place(&mut base, 2, UnitType::Infantry, 4, 4);
    for action in get_valid_actions(&base, 1, a) {
        let mut state = base.clone();
        assert!(apply_action(&mut state, 1, a, action).is_ok());
    }
    let mut state = base.clone();
    assert!(apply_action(&mut state, 1, a, Action { unit_id: a, dx: 0, dy: -1 }).is_err());
}

// ─── Fog of war ───────────────────────────────────────────────────────────

#[test]
fn fog_covers_what_no_unit_sees() {
    let mut state = empty_state(7, 7, vec![1, 2]);
    let a = place(&mut state, 1, UnitType::Infantry, 0, 0);
    place(&mut state, 1, UnitType::Fortification { turns_standing: 1 }, 6, 6);
    place(&mut state, 2, UnitType::Infantry, 3, 3);
    let view = get_visible_state(&state, 1);
    assert!(matches!(view.tiles[0][0], TileVisibility::Visible(Cell::Unit(id)) if id == a));
    assert!(matches!(view.tiles[1][1], TileVisibility::Visible(Cell::Empty)));
    assert!(matches!(view.tiles[2][2], TileVisibility::Fog));
    assert!(matches!(view.tiles[4][4], TileVisibility::Visible(Cell::Empty)));
    assert!(matches!(view.tiles[3][3], TileVisibility::Fog));
    assert_eq!(view.my_units.iter().map(|u| u.id).collect::<Vec<_>>(), vec![1, 2]);
    assert_eq!(view.current_player, 1);
    assert_eq!(view.winner, None);
    assert_eq!((view.width, view.height, view.round), (7, 7, 1));
}

// ─── Turns ────────────────────────────────────────────────────────────────

#[test]
fn turn_cannot_end_before_every_unit_acted() {
    let mut state = empty_state(5, 5, vec![1, 2]);
    let a = place(&mut state, 1, UnitType::Infantry, 0, 0);
    place(&mut state, 1, UnitType::Infantry, 2, 0);
    place(&mut state, 1, UnitType::Infantry, 0, 2);
    place(&mut state, 2, UnitType::Infantry, 4, 4);
    apply_action(&mut state, 1, a, Action { unit_id: a, dx: 0, dy: 0 }).unwrap();
    assert_eq!(message(end_player_turn(&mut state, 1)), "Units have not acted: [2, 3]");
    assert!(!all_units_acted(&state, 1));
    assert!(matches!(end_player_turn(&mut state, 2), Err(GameError::NotYourTurn)));
}

#[test]
fn turns_pass_in_order_and_rounds_count() {
    let mut state = new_game(config(10, 10, 3));
    for (pid, uid) in [(1u8, 1u32), (2, 2), (3, 3)] {
        assert_eq!(state.players[state.current_player_index], pid);
        assert_eq!(state.round, 1);
        apply_action(&mut state, pid, uid, Action { unit_id: uid, dx: 0, dy: 0 }).unwrap();
        end_player_turn(&mut state, pid).unwrap();
    }
    assert_eq!(state.round, 2);
    assert_eq!(state.players[state.current_player_index], 1);
    assert!(!state.units[&1].acted);
    assert!(state.units[&2].acted);
    assert_eq!(state.snapshots.len(), 3);
    assert_eq!(state.snapshots[2].player_id, 3);
    assert_eq!(state.snapshots[2].round, 2);
    assert_eq!(state.snapshots[1].round, 1);
}

#[test]
fn factory_with_a_free_neighbour_survives() {
    let mut state = empty_state(3, 3, vec![1, 2]);
    let f = place(&mut state, 1, UnitType::Factory, 0, 0);
    state.units.get_mut(&f).unwrap().acted = true;
    let b1 = place(&mut state, 1, UnitType::Infantry, 1, 0);
    let b2 = place(&mut state, 1, UnitType::Infantry, 0, 1);
    state.units.get_mut(&b1).unwrap().acted = true;
    state.units.get_mut(&b2).unwrap().acted = true;
    place(&mut state, 2, UnitType::Infantry, 2, 2);
    end_player_turn(&mut state, 1).unwrap();
    assert!(state.units.contains_key(&f));
}

#[test]
fn rollback_gives_back_the_turn_end() {
    let mut state = new_game(config(8, 8, 2));
    apply_action(&mut state, 1, 1, Action { unit_id: 1, dx: 1, dy: 0 }).unwrap();
    end_player_turn(&mut state, 1).unwrap();
    let after = snapshot_of(&state);
    let current = state.current_player_index;
    rollback_to_snapshot(&mut state, 0);
    assert_eq!(snapshot_of(&state), after);
    assert_eq!(state.current_player_index, current);
    assert_eq!(state.snapshots.len(), 1);
    assert_eq!(state.round, 1);
}

#[test]
fn removing_an_earlier_player_keeps_the_current_one() {
    let mut state = new_game(config(10, 10, 3));
    apply_action(&mut state, 1, 1, Action { unit_id: 1, dx: 0, dy: 0 }).unwrap();
    end_player_turn(&mut state, 1).unwrap();
    assert_eq!(state.players[state.current_player_index], 2);
    remove_player(&mut state, 1);
    assert_eq!(state.players, vec![2, 3]);
    assert_eq!(state.players[state.current_player_index], 2);
    assert!(!state.units.values().any(|u| u.owner == 1));
    assert_eq!(state.cells[1][1], Cell::Empty);
}

#[test]
fn removing_the_last_player_on_its_turn_passes_to_the_first() {
    let mut state = new_game(config(10, 10, 3));
    state.current_player_index = 2;
    remove_player(&mut state, 3);
    assert_eq!(state.players, vec![1, 2]);
    assert_eq!(state.players[state.current_player_index], 1);
}

#[test]
fn removing_every_player_leaves_an_empty_order() {
    let mut state = new_game(config(8, 8, 2));
    remove_player(&mut state, 1);
    remove_player(&mut state, 2);
    assert!(state.players.is_empty());
    assert_eq!(state.current_player_index, 0);
    assert!(state.units.is_empty());
}

// ─── Console decisions ────────────────────────────────────────────────────

#[test]
fn combat_units_move_before_factories() {
    let mut state = empty_state(6, 6, vec![1, 2]);
    let f = place(&mut state, 1, UnitType::Factory, 3, 3);
    let a = place(&mut state, 1, UnitType::Infantry, 0, 0);
    let b = place(&mut state, 1, UnitType::Fortification { turns_standing: 1 }, 5, 0);
    place(&mut state, 2, UnitType::Infantry, 5, 5);
    assert_eq!(ready_units(&state, 1), vec![a, b]);
    assert_eq!(ready_unit_at(&state, 1, 3, 3), None);
    assert_eq!(ready_unit_at(&state, 1, 5, 0), Some(b));
    apply_action(&mut state, 1, a, Action { unit_id: a, dx: 0, dy: 0 }).unwrap();
    apply_action(&mut state, 1, b, Action { unit_id: b, dx: 0, dy: 0 }).unwrap();
    assert_eq!(ready_units(&state, 1), vec![f]);
    assert_eq!(ready_unit_at(&state, 1, 3, 3), Some(f));
    apply_action(&mut state, 1, f, Action { unit_id: f, dx: 1, dy: 1 }).unwrap();
    assert!(ready_units(&state, 1).is_empty());
    assert!(all_units_acted(&state, 1));
}

#[test]
fn closing_a_turn_forces_it_and_drops_a_player_without_units() {
    let mut state = empty_state(5, 5, vec![1, 2, 3]);
    place(&mut state, 1, UnitType::Infantry, 0, 0);
    place(&mut state, 2, UnitType::Infantry, 4, 4);
    place(&mut state, 3, UnitType::Infantry, 4, 0);
    let r = close_turn(&mut state, 1);
    assert_eq!(message(r), "Units have not acted: [1]");
    assert_eq!(state.players[state.current_player_index], 2);
    assert_eq!(state.players, vec![1, 2, 3]);

    let mut state = empty_state(5, 5, vec![1, 2, 3]);
    let f = place(&mut state, 1, UnitType::Factory, 0, 0);
    state.units.get_mut(&f).unwrap().acted = true;
    place(&mut state, 2, UnitType::Infantry, 1, 0);
    place(&mut state, 2, UnitType::Infantry, 0, 1);
    place(&mut state, 2, UnitType::Infantry, 1, 1);
    place(&mut state, 3, UnitType::Infantry, 4, 4);
    close_turn(&mut state, 1).unwrap();
    assert_eq!(state.players, vec![2, 3]);
    assert_eq!(state.players[state.current_player_index], 2);
}

#[test]
fn players_have_their_colours() {
    assert_eq!(player_color(1), "\x1b[34m");
    assert_eq!(player_color(2), "\x1b[31m");
    assert_eq!(player_color(3), "\x1b[32m");
    assert_eq!(player_color(4), "\x1b[33m");
    assert_eq!(player_color(9), "\x1b[35m");
}

#[test]
fn unit_kinds_are_named() {
    assert_eq!(unit_kind_name(&UnitType::Infantry), "Infantry");
    assert_eq!(unit_kind_name(&UnitType::Fortification { turns_standing: 2 }), "Fortification(2)");
    assert_eq!(unit_kind_name(&UnitType::Factory), "Factory");
    assert_eq!(unit_kind_title(&UnitType::Fortification { turns_standing: 12 }), "Fortification[12]");
    assert_eq!(unit_kind_title(&UnitType::Infantry), "Infantry");
}

#[test]
fn board_is_drawn_with_colours() {
    let mut state = empty_state(2, 2, vec![1, 2]);
    let a = place(&mut state, 1, UnitType::Fortification { turns_standing: 2 }, 0, 0);
    place(&mut state, 2, UnitType::Infantry, 1, 1);
    state.units.get_mut(&a).unwrap().acted = true;
    let text = draw_board(&state, 1);
    let expected = String::new()
        + "     0  1\n"
        + " 0 \x1b[34m1\x1b[1mF2*\x1b[0m\x1b[2m.  \x1b[0m\n"
        + " 1 \x1b[2m.  \x1b[0m\x1b[31m2\x1b[1mI \x1b[0m\n"
        + "\n"
        + "\x1b[34mPlayer 1 units:\x1b[0m   F2*@(0,0) \n\n";
    assert_eq!(text, expected);
}

#[test]
fn units_are_reported_with_their_moves() {
    let mut state = empty_state(3, 3, vec![1, 2]);
    let f = place(&mut state, 1, UnitType::Factory, 0, 0);
    place(&mut state, 1, UnitType::Infantry, 1, 0);
    place(&mut state, 2, UnitType::Infantry, 2, 2);
    let reports = unit_reports(&state, 1);
    assert_eq!(reports.len(), 2);
    assert_eq!(reports[0].id, f);
    assert_eq!(reports[0].kind, "Factory");
    assert_eq!(reports[0].moves, vec![(0, 1), (1, 1)]);
    assert_eq!(reports[1].kind, "Infantry");
    assert_eq!((reports[1].x, reports[1].y, reports[1].acted), (1, 0, false));
    assert_eq!(reports[1].moves[0], (0, 0));
}

// ─── Reading input ────────────────────────────────────────────────────────

#[test]
fn map_sizes_are_read() {
    assert_eq!(parse_map_size("10x10"), Some((10, 10)));
    assert_eq!(parse_map_size(" 7 x 5 "), Some((7, 5)));
    assert_eq!(parse_map_size("+3x4"), Some((3, 4)));
    assert_eq!(parse_map_size("10xabcx12"), Some((10, 12)));
    assert_eq!(parse_map_size("10x"), None);
    assert_eq!(parse_map_size("-3x4"), None);
    assert_eq!(parse_map_size("4294967296x4"), None);
    assert_eq!(parse_map_size("4294967295x4"), Some((4294967295, 4)));
    assert_eq!(parse_map_size("1x2x3"), None);
    assert_eq!(parse_map_size("\u{3000}6\u{A0}x8"), Some((6, 8)));
}

#[test]
fn player_counts_are_read() {
    assert_eq!(parse_player_count("3"), 3);
    assert_eq!(parse_player_count(""), 2);
    assert_eq!(parse_player_count("1"), 2);
    assert_eq!(parse_player_count("255"), 255);
    assert_eq!(parse_player_count("256"), 2);
    assert_eq!(parse_player_count("two"), 2);
}

#[test]
fn cells_and_vectors_are_read() {
    assert_eq!(parse_cell("2,3"), Some((2, 3)));
    assert_eq!(parse_cell(" 2 , 3 "), Some((2, 3)));
    assert_eq!(parse_cell("-1,3"), Some((4294967295, 3)));
    assert_eq!(parse_cell("2"), None);
    assert_eq!(parse_cell("a,2,3"), Some((2, 3)));
    assert_eq!(parse_vector("1,-1"), Some((1, -1)));
    assert_eq!(parse_vector("-0,+1"), Some((0, 1)));
    assert_eq!(parse_vector("-,1"), None);
    assert_eq!(parse_vector("2147483648,0"), None);
    assert_eq!(parse_vector("-2147483648,0"), Some((-2147483648, 0)));
}

#[test]
fn values_are_written_out() {
    assert_eq!(Position { x: 3, y: 14 }.to_string(), "(3, 14)");
    assert_eq!(UnitType::Fortification { turns_standing: 3 }.to_string(), "Fortification(3)");
    let unit = Unit {
        id: 7,
        owner: 2,
        unit_type: UnitType::Infantry,
        position: Position { x: 0, y: 5 },
        acted: true,
    };
    assert_eq!(unit.to_string(), "Unit(id=7, owner=2, type=Infantry, pos=(0, 5), acted=true)");
    assert_eq!(
        Action { unit_id: 12, dx: -1, dy: 0 }.to_string(),
        "Action(unit=12, dx=-1, dy=0)"
    );
    assert_eq!(
        Action { unit_id: 1, dx: i32::MIN, dy: 105 }.to_string(),
        "Action(unit=1, dx=-2147483648, dy=105)"
    );
    assert_eq!(config(10, 8, 3).to_string(), "GameConfig(10x8, 3 players)");
    assert_eq!(Cell::Empty.to_string(), "Empty");
    assert_eq!(Cell::Unit(40).to_string(), "Unit(40)");
    assert_eq!(TileVisibility::Visible(Cell::Unit(4)).to_string(), "Visible(Unit(4))");
    assert_eq!(TileVisibility::LastKnown(Cell::Empty).to_string(), "LastKnown(Empty)");
    assert_eq!(TileVisibility::Fog.to_string(), "Fog");
    assert_eq!(
        GameError::InvalidAction("Out of bounds".to_string()).to_string(),
        "InvalidAction: Out of bounds"
    );
    assert_eq!(GameError::NotYourTurn.to_string(), "NotYourTurn");
    assert_eq!(GameError::UnitAlreadyActed.to_string(), "UnitAlreadyActed");
    assert_eq!(GameError::UnitNotFound.to_string(), "UnitNotFound");
    assert_eq!(GameError::GameOver.to_string(), "GameOver");
}

#[test]
fn old_sight_stays_until_the_turn_ends() {
    let mut state = new_game(config(10, 10, 2));
    apply_action(&mut state, 1, 1, Action { unit_id: 1, dx: 1, dy: 0 }).unwrap();
    assert_eq!(state.units[&1].position, Position { x: 2, y: 1 });
    let view = get_visible_state(&state, 1);
    for y in 0..3 {
        assert!(matches!(view.tiles[y][0], TileVisibility::Visible(Cell::Empty)));
    }
    assert!(matches!(view.tiles[1][3], TileVisibility::Visible(Cell::Empty)));
    assert!(matches!(view.tiles[1][4], TileVisibility::Fog));
    end_player_turn(&mut state, 1).unwrap();
    let view = get_visible_state(&state, 1);
    assert!(matches!(view.tiles[0][0], TileVisibility::Fog));
    assert!(matches!(view.tiles[1][1], TileVisibility::Visible(Cell::Empty)));
    assert!(state.departures.is_empty());
}

#[test]
fn blocked_factories_all_die_together() {
    let mut state = empty_state(3, 1, vec![1, 2]);
    let a = place(&mut state, 1, UnitType::Factory, 0, 0);
    let b = place(&mut state, 1, UnitType::Factory, 1, 0);
    place(&mut state, 2, UnitType::Infantry, 2, 0);
    state.units.get_mut(&a).unwrap().acted = true;
    state.units.get_mut(&b).unwrap().acted = true;
    end_player_turn(&mut state, 1).unwrap();
    assert!(!state.units.contains_key(&a));
    assert!(!state.units.contains_key(&b));
    assert_eq!(state.cells[0][0], Cell::Empty);
    assert_eq!(state.cells[0][1], Cell::Empty);
}

#[test]
fn rollback_to_the_snapshot_just_taken_changes_nothing() {
    let mut state = new_game(config(8, 8, 2));
    apply_action(&mut state, 1, 1, Action { unit_id: 1, dx: 0, dy: 0 }).unwrap();
    end_player_turn(&mut state, 1).unwrap();
    apply_action(&mut state, 2, 2, Action { unit_id: 2, dx: -1, dy: 0 }).unwrap();
    end_player_turn(&mut state, 2).unwrap();
    assert_eq!(state.round, 2);
    let before = state.clone();
    let last = state.snapshots.len() - 1;
    rollback_to_snapshot(&mut state, last);
    assert_eq!(snapshot_of(&state), snapshot_of(&before));
    assert_eq!(state.players, before.players);
    assert_eq!(state.current_player_index, before.current_player_index);
    assert_eq!(state.round, before.round);
    assert_eq!(state.snapshots.len(), before.snapshots.len());
}

#[test]
fn fog_is_drawn_as_question_marks() {
    let mut state = empty_state(5, 2, vec![1, 2]);
    place(&mut state, 1, UnitType::Infantry, 0, 0);
    place(&mut state, 2, UnitType::Infantry, 4, 1);
    let text = draw_board(&state, 1);
    let fog = "\x1b[90m?  \x1b[0m";
    let dot = "\x1b[2m.  \x1b[0m";
    let row0 = String::from(" 0 ") + "\x1b[34m1\x1b[1mI \x1b[0m" + dot + fog + fog + fog + "\n";
    let row1 = String::from(" 1 ") + dot + dot + fog + fog + fog + "\n";
    assert!(text.contains(&row0));
    assert!(text.contains(&row1));
    assert!(!text.contains("\x1b[31m2"));
}

#[test]
fn leaving_on_ones_turn_then_rolling_back_passes_to_the_next() {
    let mut state = new_game(config(8, 8, 3));
    apply_action(&mut state, 1, 1, Action { unit_id: 1, dx: 1, dy: 0 }).unwrap();
    end_player_turn(&mut state, 1).unwrap();
    apply_action(&mut state, 2, 2, Action { unit_id: 2, dx: 0, dy: 0 }).unwrap();
    remove_player(&mut state, 2);
    let last = state.snapshots.len() - 1;
    rollback_to_snapshot(&mut state, last);
    assert_eq!(state.players, vec![1, 3]);
    assert_eq!(state.players[state.current_player_index], 3);
    assert!(state.units.values().all(|u| u.owner != 2));
    assert!(state.cells.iter().flatten().all(|c| *c != Cell::Unit(2)));
}

#[test]
fn produced_units_take_the_next_id() {
    let mut state = empty_state(5, 5, vec![1, 2]);
    let f = place(&mut state, 1, UnitType::Factory, 2, 2);
    let a = place(&mut state, 1, UnitType::Infantry, 0, 0);
    place(&mut state, 2, UnitType::Infantry, 4, 4);
    let next = state.next_unit_id;
    apply_action(&mut state, 1, a, Action { unit_id: a, dx: 1, dy: 0 }).unwrap();
    assert_eq!(state.next_unit_id, next);
    apply_action(&mut state, 1, f, Action { unit_id: f, dx: 1, dy: 1 }).unwrap();
    assert_eq!(state.next_unit_id, next + 1);
    assert_eq!(state.units[&next].position, Position { x: 3, y: 3 });
    assert_eq!(state.cells[3][3], Cell::Unit(next));
}

#[test]
fn views_ignore_what_lies_out_of_sight() {
    let mut one = empty_state(6, 6, vec![1, 2]);
    place(&mut one, 1, UnitType::Infantry, 0, 0);
    place(&mut one, 2, UnitType::Infantry, 5, 5);
    let mut two = one.clone();
    let far = place(&mut two, 2, UnitType::Fortification { turns_standing: 1 }, 4, 4);
    assert!(far > 0);
    let v1 = get_visible_state(&one, 1);
    let v2 = get_visible_state(&two, 1);
    for y in 0..6 {
        for x in 0..6 {
            assert_eq!(v1.tiles[y][x].to_string(), v2.tiles[y][x].to_string());
        }
    }
    assert_eq!(v1.my_units.len(), v2.my_units.len());
}

#[test]
fn typed_vectors_are_matched_against_the_offer() {
    let offer = vec![Action { unit_id: 1, dx: 0, dy: 0 }, Action { unit_id: 1, dx: -1, dy: 1 }];
    assert!(offers_vector(&offer, -1, 1));
    assert!(offers_vector(&offer, 0, 0));
    assert!(!offers_vector(&offer, 1, -1));
    assert!(!offers_vector(&Vec::new(), 0, 0));
}

#[test]
fn production_is_foreseen() {
    let mut state = empty_state(5, 5, vec![1, 2]);
    let f = place(&mut state, 1, UnitType::Factory, 2, 2);
    let a = place(&mut state, 1, UnitType::Infantry, 0, 0);
    place(&mut state, 2, UnitType::Infantry, 4, 4);
    let step = Action { unit_id: f, dx: 1, dy: 0 };
    assert!(!would_produce(&state, 1, f, step));
    apply_action(&mut state, 1, a, Action { unit_id: a, dx: 0, dy: 1 }).unwrap();
    assert!(would_produce(&state, 1, f, step));
    assert!(!would_produce(&state, 1, f, Action { unit_id: f, dx: 0, dy: 0 }));
    assert!(!would_produce(&state, 1, f, Action { unit_id: f, dx: 2, dy: 0 }));
    assert!(!would_produce(&state, 2, f, step));
    assert!(!would_produce(&state, 1, a, step));
    apply_action(&mut state, 1, f, step).unwrap();
    assert!(!would_produce(&state, 1, f, Action { unit_id: f, dx: -1, dy: 0 }));
}

#[test]
fn removing_a_player_twice_is_removing_it_once() {
    let mut state = new_game(config(8, 8, 3));
    apply_action(&mut state, 1, 1, Action { unit_id: 1, dx: 1, dy: 0 }).unwrap();
    remove_player(&mut state, 2);
    let once = state.clone();
    remove_player(&mut state, 2);
    assert_eq!(snapshot_of(&state), snapshot_of(&once));
    assert_eq!(state.players, once.players);
    assert_eq!(state.current_player_index, once.current_player_index);
    assert_eq!(state.departures.len(), once.departures.len());
}

#[test]
fn rollback_after_leaving_restores_the_snapshot_without_the_leaver() {
    let mut state = new_game(config(8, 8, 3));
    apply_action(&mut state, 1, 1, Action { unit_id: 1, dx: 1, dy: 0 }).unwrap();
    end_player_turn(&mut state, 1).unwrap();
    let snap = state.snapshots[0].clone();
    apply_action(&mut state, 2, 2, Action { unit_id: 2, dx: 0, dy: 1 }).unwrap();
    remove_player(&mut state, 2);
    let last = state.snapshots.len() - 1;
    rollback_to_snapshot(&mut state, last);
    let mut expected = snap.cells.clone();
    let p2 = snap.units[&2].position;
    expected[p2.y as usize][p2.x as usize] = Cell::Empty;
    assert_eq!(state.cells, expected);
    assert_eq!(state.units[&1].position, snap.units[&1].position);
    assert_eq!(state.units[&3].position, snap.units[&3].position);
    assert!(!state.units.contains_key(&2));
}
