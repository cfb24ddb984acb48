//! Plain request and response values exchanged with the network layer.
//! The transport itself (HTTP, JSON) lives outside this crate; these
//! types carry only what the game rules decide.

use vstd::prelude::*;
use crate::game_state::{GameState, GameStatus};
use crate::ship::Ship;

verus! {

/// Reply to a registration: the player's name echoed back, the pending
/// match's identifier in text form, and the chosen map.
pub struct LobbyResponse {
    pub player_id: String,
    pub game_id: String,
    pub map: String,
}

/// A control command as it arrives from a client: the player's bearer
/// token and the latest thrust and rotation bytes.
pub struct ControlInput {
    pub password: String,
    pub thrust: i8,
    pub rotation: i8,
}

/// Reply to a control command: `"ok"` when the token resolved to a
/// player of the active race, `"error"` otherwise.
pub struct ShipControlResponse {
    pub status: String,
}

/// Query naming the race a snapshot is asked for, in text form.
pub struct StateQuery {
    pub game_id: String,
}

/// The public view of the active race, served to polling clients.
pub struct PublicGameState {
    pub game_id: u128,
    pub ships: Vec<Ship>,
    pub map_name: String,
    pub state: GameStatus,
}

/// Mathematical model of a `PublicGameState`.
#[verifier::ext_equal]
pub struct PublicGameStateModel {
    pub game_id: u128,
    pub ships: Seq<Ship>,
    pub map_name: Seq<char>,
    pub state: GameStatus,
}

impl View for PublicGameState {
    type V = PublicGameStateModel;

    open spec fn view(&self) -> PublicGameStateModel {
        PublicGameStateModel {
            game_id: self.game_id,
            ships: self.ships@,
            map_name: self.map_name@,
            state: self.state,
        }
    }
}

impl PublicGameState {
    /// The public face of a race: identifier, ship snapshots, map name
    /// and status, nothing else.
    pub fn from_game(game: &GameState) -> (r: PublicGameState)
        ensures
            r@.game_id == game@.game_id,
            r@.ships == game@.ships,
            r@.map_name == game@.map.name,
            r@.state == game@.state,
    {
        let r = PublicGameState {
            game_id: game.game_id,
            ships: game.ships.clone(),
            map_name: game.map.name.clone(),
            state: game.state,
        };
        proof {
            assert(r.ships@ =~= game.ships@);
        }
        r
    }
}

/// A snapshot request's answer: either no race is being simulated, or
/// the public view of the one active race.
pub enum StateResponse {
    Inactive,
    Active(PublicGameState),
}

} // verus!
