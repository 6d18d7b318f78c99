use cellwar_engine::{
    apply_action, end_player_turn, get_valid_actions, get_visible_state, get_winner, new_game,
    remove_player, rollback_to_snapshot, Action, Cell, GameConfig, GameState, Position,
    TileVisibility, Unit, UnitType,
};
use std::collections::HashMap;

fn make_config(w: u32, h: u32, players: u8) -> GameConfig {
    GameConfig { width: w, height: h, player_count: players }
}

#[test]
fn test_new_game_places_units() {
    let state = new_game(make_config(10, 10, 2));
    assert_eq!(state.units.len(), 2);
    let p1: Vec<_> = state.units.values().filter(|u| u.owner == 1).collect();
    let p2: Vec<_> = state.units.values().filter(|u| u.owner == 2).collect();
    assert_eq!(p1.len(), 1);
    assert_eq!(p2.len(), 1);
    assert!(matches!(p1[0].unit_type, UnitType::Infantry));
    assert!(matches!(p2[0].unit_type, UnitType::Infantry));
    assert_ne!(p1[0].position, p2[0].position);
    let pos1 = &p1[0].position;
    let pos2 = &p2[0].position;
    assert_eq!(state.cells[pos1.y as usize][pos1.x as usize], Cell::Unit(p1[0].id));
    assert_eq!(state.cells[pos2.y as usize][pos2.x as usize], Cell::Unit(p2[0].id));
    assert_eq!(state.round, 1);
    assert_eq!(state.players[state.current_player_index], 1);
}

#[test]
fn test_new_game_three_players() {
    let state = new_game(make_config(10, 10, 3));
    assert_eq!(state.units.len(), 3);
    let positions: Vec<_> = state.units.values().map(|u| u.position.clone()).collect();
    for i in 0..positions.len() {
        for j in i + 1..positions.len() {
            assert_ne!(positions[i], positions[j]);
        }
    }
}

#[test]
fn test_valid_actions_infantry() {
    let state = new_game(make_config(10, 10, 2));
    let unit = state.units.values().find(|u| u.owner == 1).unwrap();
    let actions = get_valid_actions(&state, 1, unit.id);
    assert!(actions.iter().any(|a| a.dx == 0 && a.dy == 0));
    assert!(actions.iter().all(|a| a.unit_id == unit.id));
    let mut seen = std::collections::HashSet::new();
    for a in &actions {
        assert!(seen.insert((a.dx, a.dy)), "Duplicate action ({}, {})", a.dx, a.dy);
    }
}

#[test]
fn test_valid_actions_infantry_corner() {
    let mut state = new_game(make_config(5, 5, 2));
    let uid = state.units.values().find(|u| u.owner == 1).unwrap().id;
    let old_pos = state.units[&uid].position.clone();
    state.cells[old_pos.y as usize][old_pos.x as usize] = Cell::Empty;
    state.units.get_mut(&uid).unwrap().position = Position { x: 0, y: 0 };
    state.cells[0][0] = Cell::Unit(uid);

    let actions = get_valid_actions(&state, 1, uid);
    assert!(actions.len() <= 4);
    assert!(actions.iter().any(|a| a.dx == 0 && a.dy == 0));
    for a in &actions {
        let nx = 0i32 + a.dx;
        let ny = 0i32 + a.dy;
        assert!(nx >= 0 && ny >= 0);
    }
}

#[test]
fn test_valid_actions_factory_no_stay() {
    let mut state = new_game(make_config(10, 10, 2));
    let uid = state.units.values().find(|u| u.owner == 1).unwrap().id;
    state.units.get_mut(&uid).unwrap().unit_type = UnitType::Factory;
    let actions = get_valid_actions(&state, 1, uid);
    assert!(!actions.iter().any(|a| a.dx == 0 && a.dy == 0));
    assert!(!actions.is_empty());
}

#[test]
fn test_fog_of_war() {
    let state = new_game(make_config(10, 10, 2));
    let view1 = get_visible_state(&state, 1);
    let view2 = get_visible_state(&state, 2);

    let u1 = state.units.values().find(|u| u.owner == 1).unwrap();
    let pos = &u1.position;
    assert!(matches!(
        view1.tiles[pos.y as usize][pos.x as usize],
        TileVisibility::Visible(_)
    ));

    let u2 = state.units.values().find(|u| u.owner == 2).unwrap();
    let pos2 = &u2.position;
    assert!(matches!(
        view1.tiles[pos2.y as usize][pos2.x as usize],
        TileVisibility::Fog
    ));

    assert!(!view1.my_units.is_empty());
    assert!(!view2.my_units.is_empty());
    assert!(view1.my_units.iter().all(|u| u.owner == 1));
    assert!(view2.my_units.iter().all(|u| u.owner == 2));
}

#[test]
fn test_fog_radius_infantry_vs_fortification() {
    let mut state = new_game(make_config(10, 10, 2));
    let uid = state.units.values().find(|u| u.owner == 1).unwrap().id;
    let pos = state.units[&uid].position.clone();

    let view = get_visible_state(&state, 1);
    if pos.x + 2 < 10 {
        assert!(matches!(
            view.tiles[pos.y as usize][(pos.x + 2) as usize],
            TileVisibility::Fog
        ));
    }

    state.units.get_mut(&uid).unwrap().unit_type =
        UnitType::Fortification { turns_standing: 1 };
    let view2 = get_visible_state(&state, 1);
    if pos.x + 2 < 10 {
        assert!(matches!(
            view2.tiles[pos.y as usize][(pos.x + 2) as usize],
            TileVisibility::Visible(_)
        ));
    }
}

#[test]
fn test_get_winner_none_at_start() {
    let state = new_game(make_config(8, 8, 2));
    assert_eq!(get_winner(&state), None);
}

fn make_state_two_infantry_adjacent() -> (GameState, u32, u32) {
    let config = make_config(5, 5, 2);
    let mut state = GameState {
        config,
        cells: vec![vec![Cell::Empty; 5]; 5],
        units: HashMap::new(),
        next_unit_id: 1,
        players: vec![1, 2],
        current_player_index: 0,
        round: 1,
        snapshots: Vec::new(),
        departures: Vec::new(),
    };
    let u1 = Unit { id: 1, owner: 1, unit_type: UnitType::Infantry,
                    position: Position { x: 1, y: 1 }, acted: false };
    let u2 = Unit { id: 2, owner: 2, unit_type: UnitType::Infantry,
                    position: Position { x: 3, y: 1 }, acted: false };
    state.cells[1][1] = Cell::Unit(1);
    state.cells[1][3] = Cell::Unit(2);
    state.units.insert(1, u1);
    state.units.insert(2, u2);
    state.next_unit_id = 3;
    (state, 1, 2)
}

#[test]
fn test_infantry_attacks_infantry() {
    let (mut state, u1, u2) = make_state_two_infantry_adjacent();
    state.cells[1][3] = Cell::Empty;
    state.units.get_mut(&u2).unwrap().position = Position { x: 2, y: 1 };
    state.cells[1][2] = Cell::Unit(u2);

    let action = Action { unit_id: u1, dx: 1, dy: 0 };
    apply_action(&mut state, 1, u1, action).unwrap();

    assert!(!state.units.contains_key(&u2));
    assert_eq!(state.units[&u1].position, Position { x: 2, y: 1 });
    assert_eq!(state.cells[1][2], Cell::Unit(u1));
    assert_eq!(state.cells[1][1], Cell::Empty);
    assert!(state.units[&u1].acted);
}

#[test]
fn test_infantry_attacks_fortification_first_hit() {
    let (mut state, u1, u2) = make_state_two_infantry_adjacent();
    state.units.get_mut(&u2).unwrap().unit_type = UnitType::Fortification { turns_standing: 1 };
    state.cells[1][3] = Cell::Empty;
    state.units.get_mut(&u2).unwrap().position = Position { x: 2, y: 1 };
    state.cells[1][2] = Cell::Unit(u2);

    let action = Action { unit_id: u1, dx: 1, dy: 0 };
    apply_action(&mut state, 1, u1, action).unwrap();

    assert!(!state.units.contains_key(&u1));
    assert!(state.units.contains_key(&u2));
    assert!(matches!(state.units[&u2].unit_type, UnitType::Infantry));
    assert_eq!(state.units[&u2].position, Position { x: 2, y: 1 });
    assert_eq!(state.cells[1][1], Cell::Empty);
    assert_eq!(state.cells[1][2], Cell::Unit(u2));
}

#[test]
fn test_two_infantry_destroy_fortification() {
    let config = make_config(5, 5, 2);
    let mut state = GameState {
        config,
        cells: vec![vec![Cell::Empty; 5]; 5],
        units: HashMap::new(),
        next_unit_id: 1,
        players: vec![1, 2],
        current_player_index: 0,
        round: 1,
        snapshots: Vec::new(),
        departures: Vec::new(),
    };
    let fort_pos = Position { x: 2, y: 2 };
    let a1 = Unit { id: 1, owner: 1, unit_type: UnitType::Infantry,
                    position: Position { x: 1, y: 2 }, acted: false };
    let a2 = Unit { id: 2, owner: 1, unit_type: UnitType::Infantry,
                    position: Position { x: 2, y: 3 }, acted: false };
    let fort = Unit { id: 3, owner: 2, unit_type: UnitType::Fortification { turns_standing: 1 },
                      position: fort_pos.clone(), acted: false };
    state.cells[2][1] = Cell::Unit(1);
    state.cells[3][2] = Cell::Unit(2);
    state.cells[2][2] = Cell::Unit(3);
    state.units.insert(1, a1);
    state.units.insert(2, a2);
    state.units.insert(3, fort);
    state.next_unit_id = 4;

    apply_action(&mut state, 1, 1, Action { unit_id: 1, dx: 1, dy: 0 }).unwrap();
    assert!(!state.units.contains_key(&1));
    assert!(matches!(state.units[&3].unit_type, UnitType::Infantry));

    apply_action(&mut state, 1, 2, Action { unit_id: 2, dx: 0, dy: -1 }).unwrap();
    assert!(!state.units.contains_key(&3));
    assert!(state.units.contains_key(&2));
    assert_eq!(state.units[&2].position, fort_pos);
}

#[test]
fn test_fortification_becomes_factory() {
    let mut state = new_game(make_config(8, 8, 2));
    let uid = state.units.values().find(|u| u.owner == 1).unwrap().id;

    state.units.get_mut(&uid).unwrap().unit_type = UnitType::Fortification { turns_standing: 2 };

    apply_action(&mut state, 1, uid, Action { unit_id: uid, dx: 0, dy: 0 }).unwrap();
    assert!(matches!(
        state.units[&uid].unit_type,
        UnitType::Fortification { turns_standing: 3 }
    ));
    assert!(state.units[&uid].acted);

    let u2 = state.units.values().find(|u| u.owner == 2).unwrap().id;
    apply_action(&mut state, 1, uid, Action { unit_id: uid, dx: 0, dy: 0 })
        .expect_err("UnitAlreadyActed");
    end_player_turn(&mut state, 1).unwrap();

    apply_action(&mut state, 2, u2, Action { unit_id: u2, dx: 0, dy: 0 }).unwrap();
    end_player_turn(&mut state, 2).unwrap();

    state.units.get_mut(&uid).unwrap().acted = false;
    apply_action(&mut state, 1, uid, Action { unit_id: uid, dx: 0, dy: 0 }).unwrap();
    assert!(matches!(state.units[&uid].unit_type, UnitType::Factory));
}

#[test]
fn test_factory_produces_unit() {
    let mut state = new_game(make_config(8, 8, 2));
    let uid = state.units.values().find(|u| u.owner == 1).unwrap().id;
    state.units.get_mut(&uid).unwrap().unit_type = UnitType::Factory;
    let pos = state.units[&uid].position.clone();

    let count_before = state.units.len();
    apply_action(&mut state, 1, uid, Action { unit_id: uid, dx: 1, dy: 0 }).unwrap();

    assert_eq!(state.units.len(), count_before + 1);
    let new_unit = state.units.values()
        .find(|u| u.owner == 1 && u.id != uid)
        .unwrap();
    assert!(matches!(new_unit.unit_type, UnitType::Infantry));
    assert_eq!(new_unit.position, Position { x: pos.x + 1, y: pos.y });
    assert!(new_unit.acted);
    assert_eq!(state.cells[pos.y as usize][(pos.x + 1) as usize], Cell::Unit(new_unit.id));
}

#[test]
fn test_factory_dies_no_space() {
    let config = make_config(5, 5, 2);
    let mut state = GameState {
        config,
        cells: vec![vec![Cell::Empty; 5]; 5],
        units: HashMap::new(),
        next_unit_id: 1,
        players: vec![1, 2],
        current_player_index: 0,
        round: 1,
        snapshots: Vec::new(),
        departures: Vec::new(),
    };
    let factory = Unit { id: 1, owner: 1, unit_type: UnitType::Factory,
                          position: Position { x: 2, y: 2 }, acted: true };
    state.cells[2][2] = Cell::Unit(1);
    state.units.insert(1, factory);

    let mut next_id = 2u32;
    for dy in -1i32..=1 {
        for dx in -1i32..=1 {
            if dx == 0 && dy == 0 { continue; }
            let nx = (2i32 + dx) as u32;
            let ny = (2i32 + dy) as u32;
            let blocker = Unit { id: next_id, owner: 1, unit_type: UnitType::Infantry,
                                 position: Position { x: nx, y: ny }, acted: true };
            state.cells[ny as usize][nx as usize] = Cell::Unit(next_id);
            state.units.insert(next_id, blocker);
            next_id += 1;
        }
    }

    let u2 = Unit { id: next_id, owner: 2, unit_type: UnitType::Infantry,
                     position: Position { x: 0, y: 4 }, acted: false };
    state.cells[4][0] = Cell::Unit(next_id);
    state.units.insert(next_id, u2);
    next_id += 1;
    state.next_unit_id = next_id;

    end_player_turn(&mut state, 1).unwrap();

    assert!(!state.units.contains_key(&1), "Factory should have died");
    assert_eq!(state.cells[2][2], Cell::Empty);
}

#[test]
fn test_end_turn_advances_player_and_round() {
    let mut state = new_game(make_config(8, 8, 2));
    let u1 = state.units.values().find(|u| u.owner == 1).unwrap().id;
    let u2 = state.units.values().find(|u| u.owner == 2).unwrap().id;

    assert_eq!(state.round, 1);
    assert_eq!(state.players[state.current_player_index], 1);

    apply_action(&mut state, 1, u1, Action { unit_id: u1, dx: 0, dy: 0 }).unwrap();
    end_player_turn(&mut state, 1).unwrap();

    assert_eq!(state.round, 1);
    assert_eq!(state.players[state.current_player_index], 2);
    assert!(!state.units[&u2].acted);

    apply_action(&mut state, 2, u2, Action { unit_id: u2, dx: 0, dy: 0 }).unwrap();
    end_player_turn(&mut state, 2).unwrap();

    assert_eq!(state.round, 2);
    assert_eq!(state.players[state.current_player_index], 1);
    assert!(!state.units[&u1].acted);
}

#[test]
fn test_get_winner_when_one_player_left() {
    let mut state = new_game(make_config(5, 5, 2));
    let u2_ids: Vec<u32> = state.units.values()
        .filter(|u| u.owner == 2)
        .map(|u| u.id)
        .collect();
    for id in u2_ids {
        let pos = state.units[&id].position.clone();
        state.cells[pos.y as usize][pos.x as usize] = Cell::Empty;
        state.units.remove(&id);
    }
    assert_eq!(get_winner(&state), Some(1));
}

#[test]
fn test_fortification_move_becomes_infantry() {
    let mut state = new_game(make_config(8, 8, 2));
    let uid = state.units.values().find(|u| u.owner == 1).unwrap().id;
    let orig_pos = state.units[&uid].position.clone();

    state.units.get_mut(&uid).unwrap().unit_type = UnitType::Fortification { turns_standing: 1 };

    apply_action(&mut state, 1, uid, Action { unit_id: uid, dx: 1, dy: 0 }).unwrap();

    assert!(matches!(state.units[&uid].unit_type, UnitType::Infantry));
    assert_eq!(state.units[&uid].position, Position { x: orig_pos.x + 1, y: orig_pos.y });
    assert_eq!(state.cells[orig_pos.y as usize][orig_pos.x as usize], Cell::Empty);
    assert_eq!(
        state.cells[orig_pos.y as usize][(orig_pos.x + 1) as usize],
        Cell::Unit(uid)
    );
}

#[test]
fn test_remove_player_removes_units_and_cells() {
    let mut state = new_game(make_config(8, 8, 2));
    let u2_pos = state.units.values().find(|u| u.owner == 2).unwrap().position.clone();

    remove_player(&mut state, 2);

    assert!(state.units.values().all(|u| u.owner != 2));
    assert_eq!(state.cells[u2_pos.y as usize][u2_pos.x as usize], Cell::Empty);
    assert!(!state.players.contains(&2));
}

#[test]
fn test_remove_player_during_turn() {
    let mut state = new_game(make_config(8, 8, 2));
    assert_eq!(state.players[state.current_player_index], 1);

    remove_player(&mut state, 1);

    assert!(!state.players.contains(&1));
    let current = state.players[state.current_player_index];
    assert_eq!(current, 2);
}

#[test]
fn test_remove_player_not_during_turn() {
    let mut state = new_game(make_config(8, 8, 3));
    assert_eq!(state.players[state.current_player_index], 1);

    remove_player(&mut state, 3);

    assert_eq!(state.players[state.current_player_index], 1);
    assert!(!state.players.contains(&3));
}

#[test]
fn test_rollback_restores_state() {
    let mut state = new_game(make_config(8, 8, 2));
    let u1 = state.units.values().find(|u| u.owner == 1).unwrap().id;
    let u2 = state.units.values().find(|u| u.owner == 2).unwrap().id;
    let orig_pos1 = state.units[&u1].position.clone();

    apply_action(&mut state, 1, u1, Action { unit_id: u1, dx: 1, dy: 0 }).unwrap();
    end_player_turn(&mut state, 1).unwrap();
    let pos_after_move = state.units[&u1].position.clone();
    assert_ne!(pos_after_move, orig_pos1);

    apply_action(&mut state, 2, u2, Action { unit_id: u2, dx: 0, dy: 0 }).unwrap();
    end_player_turn(&mut state, 2).unwrap();

    rollback_to_snapshot(&mut state, 0);

    assert_eq!(state.units[&u1].position, pos_after_move);
    assert_eq!(state.players[state.current_player_index], 2);
    assert_eq!(state.snapshots.len(), 1);
}

#[test]
fn test_rollback_excludes_removed_player() {
    let mut state = new_game(make_config(8, 8, 2));
    let u1 = state.units.values().find(|u| u.owner == 1).unwrap().id;
    let u2 = state.units.values().find(|u| u.owner == 2).unwrap().id;

    apply_action(&mut state, 1, u1, Action { unit_id: u1, dx: 1, dy: 0 }).unwrap();
    end_player_turn(&mut state, 1).unwrap();

    apply_action(&mut state, 2, u2, Action { unit_id: u2, dx: 0, dy: 0 }).unwrap();
    end_player_turn(&mut state, 2).unwrap();

    remove_player(&mut state, 2);

    rollback_to_snapshot(&mut state, 0);

    assert!(state.units.values().all(|u| u.owner != 2));
    assert!(!state.players.contains(&2));
}

#[test]
fn test_winner_after_disconnect() {
    let mut state = new_game(make_config(8, 8, 2));

    remove_player(&mut state, 2);

    assert_eq!(get_winner(&state), Some(1));
}
