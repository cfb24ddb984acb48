use spaceracers::app_state::AppState;
use spaceracers::geometry::{Vec2i, VectorObject};
use spaceracers::map::GameMap;
use spaceracers::player::PlayerRegistration;

fn reg(name: &str, token: &str) -> PlayerRegistration {
    PlayerRegistration {
        name: name.to_string(),
        team: Some("TeamA".to_string()),
        password: token.to_string(),
    }
}

fn small_map(name: &str) -> GameMap {
    GameMap {
        name: name.to_string(),
        skin_path: None,
        ship_path: None,
        size: Vec2i { x: 800_000, y: 600_000 },
        gravity: 0,
        obstacles: Vec::new(),
        start_regions: vec![VectorObject {
            position: Vec2i {
                x: -200_000,
                y: 150_000,
            },
            polygon: Vec::new(),
        }],
        finish_regions: vec![VectorObject {
            position: Vec2i { x: 300_000, y: 0 },
            polygon: Vec::new(),
        }],
    }
}

#[test]
fn two_players_share_one_pending_match() {
    let mut state = AppState::new();
    let r1 = state.register(reg("Player1", "secret1"));
    let r2 = state.register(reg("Player2", "secret2"));
    assert_eq!(r1.player_id, "Player1");
    assert_eq!(r2.player_id, "Player2");
    assert_eq!(r1.game_id, r2.game_id);
    assert_eq!(state.lobby.len(), 1);
    assert_eq!(state.lobby[0].players.len(), 2);
}

#[test]
fn sixth_player_opens_a_new_match() {
    let mut state = AppState::new();
    let first = state.register(reg("Racer1", "t1"));
    for k in 2..=5 {
        let r = state.register(reg(&format!("Racer{}", k), &format!("t{}", k)));
        assert_eq!(r.game_id, first.game_id);
    }
    assert_eq!(state.lobby.len(), 1);
    assert_eq!(state.lobby[0].players.len(), 5);

    let sixth = state.register(reg("Racer6", "t6"));
    assert_ne!(sixth.game_id, first.game_id);
    assert_eq!(state.lobby.len(), 2);
    assert_eq!(state.lobby[0].players.len(), 5);
    assert_eq!(state.lobby[1].players.len(), 1);
}

#[test]
fn duplicate_token_is_rejected_with_sentinel() {
    let mut state = AppState::new();
    let _ = state.register(reg("Player1", "secret"));
    let dup = state.register(reg("Player2", "secret"));
    assert_eq!(dup.player_id, "Player2");
    assert_eq!(dup.game_id, "already_registered");
    assert_eq!(dup.map, "already_registered");
    assert_eq!(state.lobby.len(), 1);
    assert_eq!(state.lobby[0].players.len(), 1);
}

#[test]
fn empty_catalog_falls_back_to_default_map() {
    let mut state = AppState::new();
    let r = state.register(reg("Player1", "secret1"));
    assert_eq!(r.map, "default_map");
}

#[test]
fn match_map_is_drawn_from_the_catalog() {
    let mut state = AppState::new();
    state.add_map(small_map("Aga"));
    let r = state.register(reg("Player1", "secret1"));
    assert_eq!(r.map, "Aga");
}

#[test]
fn match_identifier_is_a_uuid() {
    let mut state = AppState::new();
    let r = state.register(reg("Player1", "secret1"));
    assert!(uuid::Uuid::parse_str(&r.game_id).is_ok());
}
