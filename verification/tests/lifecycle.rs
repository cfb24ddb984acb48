use spaceracers::app_state::AppState;
use spaceracers::game_logic::{
    check_all_players_finished_system, game_scheduler_system, handle_collision_events, spawn_ships,
    start_game, transition_to_inactive_system, ContactEvent, Lifecycle, ServerState,
};
use spaceracers::game_state::GameStatus;
use spaceracers::geometry::{Vec2i, VectorObject};
use spaceracers::map::GameMap;
use spaceracers::network::StateResponse;
use spaceracers::player::PlayerRegistration;

fn reg(name: &str, token: &str) -> PlayerRegistration {
    PlayerRegistration {
        name: name.to_string(),
        team: None,
        password: token.to_string(),
    }
}

fn small_map(name: &str) -> GameMap {
    GameMap {
        name: name.to_string(),
        skin_path: None,
        ship_path: None,
        size: Vec2i { x: 800_000, y: 600_000 },
        gravity: 0,
        obstacles: Vec::new(),
        start_regions: vec![VectorObject {
            position: Vec2i {
                x: -200_000,
                y: 150_000,
            },
            polygon: Vec::new(),
        }],
        finish_regions: vec![VectorObject {
            position: Vec2i { x: 300_000, y: 0 },
            polygon: Vec::new(),
        }],
    }
}

/// Registers the given players, promotes them, spawns ships and starts
/// the race at clock 10_000 ms.
fn running_race(tokens: &[(&str, &str)]) -> (AppState, Lifecycle) {
    let mut state = AppState::new();
    let mut lc = Lifecycle::new();
    state.add_map(small_map("Aga"));
    for (name, token) in tokens {
        let r = state.register(reg(name, token));
        assert_eq!(r.map, "Aga");
    }
    game_scheduler_system(&mut state, &mut lc, 10_000);
    spawn_ships(&mut state);
    start_game(&mut state, 10_000);
    assert_eq!(lc.server_state, ServerState::Active);
    (state, lc)
}

#[test]
fn promotion_creates_running_race_with_spawned_ships() {
    let (state, _lc) = running_race(&[("Player1", "secret1"), ("Player2", "secret2")]);
    assert!(state.lobby.is_empty());
    let game = state.active_game.as_ref().expect("race should be active");
    assert_eq!(game.state, GameStatus::Running);
    assert_eq!(game.players.len(), 2);
    assert_eq!(game.ships.len(), 2);
    for ship in &game.ships {
        // the only start region of the map
        assert_eq!(
            ship.position,
            Vec2i {
                x: -200_000,
                y: 150_000
            }
        );
        assert_eq!(ship.velocity, Vec2i { x: 0, y: 0 });
        assert_eq!(ship.orientation, 0);
    }
    match state.state_response(None) {
        StateResponse::Active(public) => {
            assert_eq!(public.map_name, "Aga");
            assert_eq!(public.ships.len(), 2);
            assert_eq!(public.state, GameStatus::Running);
        }
        StateResponse::Inactive => panic!("expected an active race"),
    }
}

#[test]
fn scheduler_does_not_fire_before_its_interval() {
    let mut state = AppState::new();
    let mut lc = Lifecycle::new();
    state.add_map(small_map("Aga"));
    state.register(reg("Player1", "secret1"));
    game_scheduler_system(&mut state, &mut lc, 5_000);
    assert_eq!(lc.server_state, ServerState::Inactive);
    assert!(state.active_game.is_none());
    assert_eq!(state.lobby.len(), 1);
}

#[test]
fn promotion_attempt_while_race_active_is_noop() {
    let (mut state, mut lc) = running_race(&[("Player1", "secret1")]);
    let active_id = state.active_game.as_ref().unwrap().game_id;
    let r = state.register(reg("Player3", "secret3"));
    assert_eq!(state.lobby.len(), 1);
    assert_ne!(r.game_id, "already_registered");
    game_scheduler_system(&mut state, &mut lc, 30_000);
    assert_eq!(state.active_game.as_ref().unwrap().game_id, active_id);
    assert_eq!(state.lobby.len(), 1);
    assert_eq!(lc.server_state, ServerState::Active);
}

#[test]
fn promotion_with_unresolvable_map_is_abandoned() {
    let mut state = AppState::new();
    let mut lc = Lifecycle::new();
    // no map is loaded, so the pending match's "default_map" resolves to nothing
    state.register(reg("Player1", "secret1"));
    game_scheduler_system(&mut state, &mut lc, 10_000);
    assert!(state.active_game.is_none());
    assert_eq!(lc.server_state, ServerState::Inactive);
    assert!(state.lobby.is_empty());
}

#[test]
fn finish_time_first_write_wins() {
    let (mut state, _lc) = running_race(&[("A", "ta"), ("B", "tb")]);
    let id_a = state.active_game.as_ref().unwrap().players[0].id;
    // ship A touches the finish region 12.5 s into the race, then again at 14.0 s
    handle_collision_events(&mut state, &vec![ContactEvent { ship_id: id_a }], 10_000 + 12_500);
    let t1 = state.active_game.as_ref().unwrap().lookup_finish_time(id_a);
    assert_eq!(t1, Some(12_500));
    handle_collision_events(&mut state, &vec![ContactEvent { ship_id: id_a }], 10_000 + 14_000);
    let t2 = state.active_game.as_ref().unwrap().lookup_finish_time(id_a);
    assert_eq!(t2, Some(12_500));
    // the finished ship left the simulation
    assert_eq!(state.active_game.as_ref().unwrap().ships.len(), 1);
}

#[test]
fn race_stays_running_until_every_player_finished() {
    let (mut state, mut lc) = running_race(&[("A", "ta"), ("B", "tb")]);
    let id_a = state.active_game.as_ref().unwrap().players[0].id;
    let id_b = state.active_game.as_ref().unwrap().players[1].id;
    handle_collision_events(&mut state, &vec![ContactEvent { ship_id: id_a }], 22_500);
    check_all_players_finished_system(&mut state, &mut lc, 22_500);
    assert_eq!(state.active_game.as_ref().unwrap().state, GameStatus::Running);
    // much later, still running: there is no implicit timeout
    check_all_players_finished_system(&mut state, &mut lc, 1_000_000);
    assert_eq!(state.active_game.as_ref().unwrap().state, GameStatus::Running);
    handle_collision_events(&mut state, &vec![ContactEvent { ship_id: id_b }], 40_000);
    check_all_players_finished_system(&mut state, &mut lc, 40_000);
    assert_eq!(state.active_game.as_ref().unwrap().state, GameStatus::Finished);
}

#[test]
fn settle_window_elapses_before_teardown() {
    let (mut state, mut lc) = running_race(&[("A", "ta")]);
    let id_a = state.active_game.as_ref().unwrap().players[0].id;
    handle_collision_events(&mut state, &vec![ContactEvent { ship_id: id_a }], 22_500);
    check_all_players_finished_system(&mut state, &mut lc, 22_500);
    assert_eq!(state.active_game.as_ref().unwrap().state, GameStatus::Finished);
    // a newcomer queues up while the race settles
    state.register(reg("C", "tc"));
    assert_eq!(state.lobby.len(), 1);
    // one millisecond before the settle deadline nothing happens
    transition_to_inactive_system(&mut state, &mut lc, 32_499);
    assert!(state.active_game.is_some());
    assert_eq!(lc.server_state, ServerState::Active);
    // at the deadline the race is cleared and the queue is untouched
    transition_to_inactive_system(&mut state, &mut lc, 32_500);
    assert!(state.active_game.is_none());
    assert_eq!(lc.server_state, ServerState::Inactive);
    match state.state_response(None) {
        StateResponse::Inactive => {}
        StateResponse::Active(_) => panic!("race should be cleared"),
    }
    assert_eq!(state.lobby.len(), 1);
    assert_eq!(state.lobby[0].players.len(), 1);
}

#[test]
fn next_race_starts_from_the_untouched_queue_after_teardown() {
    let (mut state, mut lc) = running_race(&[("A", "ta")]);
    let first_id = state.active_game.as_ref().unwrap().game_id;
    let id_a = state.active_game.as_ref().unwrap().players[0].id;
    handle_collision_events(&mut state, &vec![ContactEvent { ship_id: id_a }], 22_500);
    check_all_players_finished_system(&mut state, &mut lc, 22_500);
    state.register(reg("C", "tc"));
    transition_to_inactive_system(&mut state, &mut lc, 32_500);
    assert_eq!(lc.server_state, ServerState::Inactive);
    // the scheduler re-armed at teardown: it fires again 10 s later
    game_scheduler_system(&mut state, &mut lc, 42_499);
    assert!(state.active_game.is_none());
    game_scheduler_system(&mut state, &mut lc, 42_500);
    spawn_ships(&mut state);
    start_game(&mut state, 42_500);
    let game = state.active_game.as_ref().expect("the queued match should be promoted");
    assert_ne!(game.game_id, first_id);
    assert_eq!(game.players.len(), 1);
    assert_eq!(game.players[0].name, "C");
    assert_eq!(game.state, GameStatus::Running);
    assert!(state.lobby.is_empty());
}
