use spaceracers::app_state::AppState;
use spaceracers::control::apply_controls_system;
use spaceracers::game_logic::{game_scheduler_system, spawn_ships, start_game, Lifecycle};
use spaceracers::geometry::{Vec2i, VectorObject};
use spaceracers::map::GameMap;
use spaceracers::network::ControlInput;
use spaceracers::player::PlayerRegistration;

fn reg(name: &str, token: &str) -> PlayerRegistration {
    PlayerRegistration {
        name: name.to_string(),
        team: None,
        password: token.to_string(),
    }
}

fn small_map(name: &str) -> GameMap {
    GameMap {
        name: name.to_string(),
        skin_path: None,
        ship_path: None,
        size: Vec2i { x: 800_000, y: 600_000 },
        gravity: 0,
        obstacles: Vec::new(),
        start_regions: vec![VectorObject {
            position: Vec2i { x: 0, y: 0 },
            polygon: Vec::new(),
        }],
        finish_regions: Vec::new(),
    }
}

fn running_race(tokens: &[(&str, &str)]) -> (AppState, Lifecycle) {
    let mut state = AppState::new();
    let mut lc = Lifecycle::new();
    state.add_map(small_map("Aga"));
    for (name, token) in tokens {
        state.register(reg(name, token));
    }
    game_scheduler_system(&mut state, &mut lc, 10_000);
    spawn_ships(&mut state);
    start_game(&mut state, 10_000);
    (state, lc)
}

fn control(token: &str, thrust: i8, rotation: i8) -> ControlInput {
    ControlInput {
        password: token.to_string(),
        thrust,
        rotation,
    }
}

#[test]
fn unknown_token_is_rejected_without_effect() {
    let (mut state, _lc) = running_race(&[("A", "ta")]);
    let before_ships = state.active_game.as_ref().unwrap().ships.clone();
    let r = state.submit_control(control("nope", 1, -1));
    assert_eq!(r.status, "error");
    assert!(state.control_inputs.is_empty());
    assert_eq!(apply_controls_system(&state).len(), 0);
    assert_eq!(state.active_game.as_ref().unwrap().ships, before_ships);
}

#[test]
fn control_without_active_race_is_rejected() {
    let mut state = AppState::new();
    state.register(reg("A", "ta"));
    let r = state.submit_control(control("ta", 1, 0));
    assert_eq!(r.status, "error");
}

#[test]
fn known_token_scales_into_the_impulse_batch() {
    let (mut state, _lc) = running_race(&[("A", "ta")]);
    let id_a = state.active_game.as_ref().unwrap().players[0].id;
    let r = state.submit_control(control("ta", 1, -1));
    assert_eq!(r.status, "ok");
    let batch = apply_controls_system(&state);
    assert_eq!(batch.len(), 1);
    assert_eq!(batch[0].ship_id, id_a);
    assert_eq!(batch[0].impulse_scale, 8_000_000);
    assert_eq!(batch[0].torque_impulse, -8_000_000);
}

#[test]
fn latest_control_wins() {
    let (mut state, _lc) = running_race(&[("A", "ta")]);
    state.submit_control(control("ta", 1, 0));
    state.submit_control(control("ta", 0, 1));
    let batch = apply_controls_system(&state);
    assert_eq!(batch.len(), 1);
    assert_eq!(batch[0].impulse_scale, 0);
    assert_eq!(batch[0].torque_impulse, 8_000_000);
}

#[test]
fn control_persists_until_superseded() {
    let (mut state, _lc) = running_race(&[("A", "ta")]);
    state.submit_control(control("ta", 1, 0));
    let first = apply_controls_system(&state);
    let second = apply_controls_system(&state);
    assert_eq!(first.len(), 1);
    assert_eq!(second.len(), 1);
    assert_eq!(first[0].impulse_scale, second[0].impulse_scale);
}

#[test]
fn ship_without_input_coasts() {
    let (mut state, _lc) = running_race(&[("A", "ta"), ("B", "tb")]);
    let id_a = state.active_game.as_ref().unwrap().players[0].id;
    state.submit_control(control("ta", 1, 0));
    let batch = apply_controls_system(&state);
    // only the ship with a recorded input gets a command
    assert_eq!(batch.len(), 1);
    assert_eq!(batch[0].ship_id, id_a);
}

#[test]
fn active_player_is_found_by_token() {
    let (state, _lc) = running_race(&[("A", "ta"), ("B", "tb")]);
    let found = state.get_active_player_by_password(&"tb".to_string());
    let (game, player) = found.expect("token should resolve");
    assert_eq!(player.name, "B");
    assert_eq!(game.players.len(), 2);
    assert!(state.get_active_player_by_password(&"zz".to_string()).is_none());
}
