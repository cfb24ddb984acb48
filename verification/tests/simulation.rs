use spaceracers::app_state::AppState;
use spaceracers::game_logic::{handle_collision_events, ContactEvent};
use spaceracers::network::ControlInput;
use spaceracers::control::{apply_controls_system, update_public_game_state_system, ShipInput};
use spaceracers::game_logic::{game_scheduler_system, spawn_ships, start_game, Lifecycle};
use spaceracers::game_state::{FinishEntry, GameState, GameStatus};
use spaceracers::geometry::{Vec2i, VectorObject};
use spaceracers::leaderboard::leaderboard;
use spaceracers::map::GameMap;
use spaceracers::network::{StateQuery, StateResponse};
use spaceracers::physics::apply_bounds_system;
use spaceracers::player::{Player, PlayerRegistration};
use spaceracers::ship::Ship;

fn reg(name: &str, token: &str) -> PlayerRegistration {
    PlayerRegistration {
        name: name.to_string(),
        team: None,
        password: token.to_string(),
    }
}

fn small_map(name: &str) -> GameMap {
    GameMap {
        name: name.to_string(),
        skin_path: None,
        ship_path: None,
        size: Vec2i { x: 800_000, y: 600_000 },
        gravity: 0,
        obstacles: Vec::new(),
        start_regions: vec![VectorObject {
            position: Vec2i { x: 0, y: 0 },
            polygon: Vec::new(),
        }],
        finish_regions: Vec::new(),
    }
}

fn running_race(tokens: &[(&str, &str)]) -> (AppState, Lifecycle) {
    let mut state = AppState::new();
    let mut lc = Lifecycle::new();
    state.add_map(small_map("Aga"));
    for (name, token) in tokens {
        state.register(reg(name, token));
    }
    game_scheduler_system(&mut state, &mut lc, 10_000);
    spawn_ships(&mut state);
    start_game(&mut state, 10_000);
    (state, lc)
}

fn ship(id: u128, x: i64, y: i64) -> Ship {
    Ship {
        id,
        position: Vec2i { x, y },
        velocity: Vec2i { x: 1_000, y: -2_000 },
        orientation: 1_570,
        angular_velocity: -300,
    }
}

#[test]
fn snapshot_replaces_ships_wholesale() {
    let (mut state, _lc) = running_race(&[("A", "ta")]);
    let id_a = state.active_game.as_ref().unwrap().players[0].id;
    update_public_game_state_system(&mut state, vec![ship(id_a, 5_000, -7_000)]);
    let game = state.active_game.as_ref().unwrap();
    assert_eq!(game.ships.len(), 1);
    assert_eq!(game.ships[0].position, Vec2i { x: 5_000, y: -7_000 });
    assert_eq!(game.ships[0].velocity, Vec2i { x: 1_000, y: -2_000 });
}

#[test]
fn bounds_clamp_keeps_the_whole_ship_inside() {
    // half extents: 400_000 and 300_000; the sprite's half extent is 12_500
    let (mut state, _lc) = running_race(&[("A", "ta")]);
    let id_a = state.active_game.as_ref().unwrap().players[0].id;
    update_public_game_state_system(&mut state, vec![ship(id_a, 10_000_000, -10_000_000)]);
    apply_bounds_system(&mut state);
    let game = state.active_game.as_ref().unwrap();
    assert_eq!(game.ships[0].position, Vec2i { x: 387_500, y: -287_500 });
    // a ship already inside is untouched
    update_public_game_state_system(&mut state, vec![ship(id_a, -1_234, 5_678)]);
    apply_bounds_system(&mut state);
    let game = state.active_game.as_ref().unwrap();
    assert_eq!(game.ships[0].position, Vec2i { x: -1_234, y: 5_678 });
}

#[test]
fn finished_ship_no_longer_takes_commands() {
    let (mut state, _lc) = running_race(&[("A", "ta")]);
    let id_a = state.active_game.as_ref().unwrap().players[0].id;
    let r = state.submit_control(ControlInput {
        password: "ta".to_string(),
        thrust: 1,
        rotation: 0,
    });
    assert_eq!(r.status, "ok");
    handle_collision_events(&mut state, &vec![ContactEvent { ship_id: id_a }], 15_000);
    // the ship has been removed from the simulation, so the batch is empty
    assert_eq!(apply_controls_system(&state).len(), 0);
}

#[test]
fn state_query_selects_the_active_race() {
    let (state, _lc) = running_race(&[("A", "ta")]);
    let game_id = state.active_game.as_ref().unwrap().game_id;
    let id_text = uuid::Uuid::from_u128(game_id).to_string();
    let query = StateQuery { game_id: id_text };
    match state.state_response(Some(&query)) {
        StateResponse::Active(public) => assert_eq!(public.game_id, game_id),
        StateResponse::Inactive => panic!("query for the active race should answer Active"),
    }
    let other = StateQuery {
        game_id: "not-a-race".to_string(),
    };
    match state.state_response(Some(&other)) {
        StateResponse::Inactive => {}
        StateResponse::Active(_) => panic!("query for another race should answer Inactive"),
    }
}

#[test]
fn ship_input_default_is_coasting() {
    let input = ShipInput::default();
    assert_eq!(input.thrust, 0);
    assert_eq!(input.rotation, 0);
}

fn player(id: u128, name: &str) -> Player {
    Player {
        id,
        name: name.to_string(),
        team: None,
        password: format!("token-{}", id),
    }
}

#[test]
fn leaderboard_orders_by_time_then_name_with_unfinished_last() {
    let game = GameState {
        game_id: 7,
        players: vec![
            player(1, "Alice"),
            player(2, "Bob"),
            player(3, "Carol"),
            player(4, "Dave"),
        ],
        finish_times: vec![
            FinishEntry {
                player_id: 1,
                time_ms: 20_000,
            },
            FinishEntry {
                player_id: 2,
                time_ms: 12_500,
            },
            FinishEntry {
                player_id: 4,
                time_ms: 20_000,
            },
        ],
        ships: Vec::new(),
        map: small_map("Aga"),
        state: GameStatus::Running,
        started_at_ms: 0,
    };
    let standings = leaderboard(&game);
    let names: Vec<&str> = standings.iter().map(|e| e.name.as_str()).collect();
    assert_eq!(names, vec!["Bob", "Alice", "Dave", "Carol"]);
    assert_eq!(standings[0].finish_time_ms, Some(12_500));
    assert_eq!(standings[1].finish_time_ms, Some(20_000));
    assert_eq!(standings[2].finish_time_ms, Some(20_000));
    assert_eq!(standings[3].finish_time_ms, None);
}

#[test]
fn leaderboard_of_an_untouched_race_keeps_every_player() {
    let (state, _lc) = running_race(&[("A", "ta"), ("B", "tb")]);
    let standings = leaderboard(state.active_game.as_ref().unwrap());
    assert_eq!(standings.len(), 2);
    assert!(standings.iter().all(|e| e.finish_time_ms.is_none()));
}
