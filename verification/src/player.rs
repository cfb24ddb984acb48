//! Players and their registration payloads.

use vstd::prelude::*;
use crate::ids::fresh_id;

verus! {

/// What a client sends to join the lobby. The password is the player's
/// bearer token: compared for equality, never interpreted.
pub struct PlayerRegistration {
    pub name: String,
    pub team: Option<String>,
    pub password: String,
}

/// Mathematical model of a `PlayerRegistration`.
#[verifier::ext_equal]
pub struct PlayerRegistrationModel {
    pub name: Seq<char>,
    pub team: Option<Seq<char>>,
    pub password: Seq<char>,
}

impl View for PlayerRegistration {
    type V = PlayerRegistrationModel;

    open spec fn view(&self) -> PlayerRegistrationModel {
        PlayerRegistrationModel {
            name: self.name@,
            team: self.team.deep_view(),
            password: self.password@,
        }
    }
}

/// A registered player: immutable once created, owned by whichever
/// match currently contains it.
pub struct Player {
    pub id: u128,
    pub name: String,
    pub team: Option<String>,
    pub password: String,
}

/// Mathematical model of a `Player`.
#[verifier::ext_equal]
pub struct PlayerModel {
    pub id: u128,
    pub name: Seq<char>,
    pub team: Option<Seq<char>>,
    pub password: Seq<char>,
}

impl View for Player {
    type V = PlayerModel;

    open spec fn view(&self) -> PlayerModel {
        PlayerModel {
            id: self.id,
            name: self.name@,
            team: self.team.deep_view(),
            password: self.password@,
        }
    }
}

/// The models of a player list, in order.
pub open spec fn player_models(players: Seq<Player>) -> Seq<PlayerModel> {
    players.map_values(|p: Player| p@)
}

impl Player {
    /// Creates a player with a freshly drawn identifier.
    pub fn new(name: String, team: Option<String>, password: String) -> (p: Player)
        ensures
            p.name == name,
            p.team == team,
            p.password == password,
    {
        Player { id: fresh_id(), name, team, password }
    }

    /// Creates the player a registration describes.
    pub fn from_registration(reg: PlayerRegistration) -> (p: Player)
        ensures
            p@.name == reg@.name,
            p@.team == reg@.team,
            p@.password == reg@.password,
    {
        Player::new(reg.name, reg.team, reg.password)
    }
}

impl Clone for Player {
    fn clone(&self) -> (res: Self)
        ensures
            res@ == self@,
    {
        let res = Player {
            id: self.id,
            name: self.name.clone(),
            team: clone_opt_string(&self.team),
            password: self.password.clone(),
        };
        proof {
            assert(res@ =~= self@);
        }
        res
    }
}

/// Clones an optional string, keeping its value.
pub fn clone_opt_string(s: &Option<String>) -> (res: Option<String>)
    ensures
        res.deep_view() == s.deep_view(),
{
    match s {
        Some(v) => Some(v.clone()),
        None => None,
    }
}

} // verus!
