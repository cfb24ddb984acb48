//! The shared race state: the single source of truth read and written
//! by both the network layer and the simulation loop.
//!
//! The surrounding program wraps one `AppState` in its lock; every
//! function here is one critical section's worth of work and does no
//! I/O of its own.

use vstd::prelude::*;
use crate::MAX_PLAYERS;
use crate::control::{ControlEntry, ShipInput, entries_unique, input_of, store_input};
use crate::game_state::{GameState, GameStateModel, PendingGame, PendingGameModel, lobby_models};
use crate::ids::{format_id, uuid_text};
use crate::map::{GameMap, GameMapModel, map_models};
use crate::network::{ControlInput, LobbyResponse, PublicGameState, PublicGameStateModel,
    ShipControlResponse, StateQuery, StateResponse};
use crate::player::{Player, PlayerModel, PlayerRegistration, PlayerRegistrationModel, player_models};
use crate::rng::pick_index;

verus! {

/// A pending match that still has room for another player.
pub open spec fn pending_open(g: PendingGameModel) -> bool {
    g.players.len() < MAX_PLAYERS
}

/// No pending match ever exceeds its capacity.
pub open spec fn lobby_capacity_ok(lobby: Seq<PendingGameModel>) -> bool {
    forall|i: int| 0 <= i < lobby.len() ==> (#[trigger] lobby[i]).players.len() <= MAX_PLAYERS
}

/// Registration fills the open match before creating another, so at
/// most one pending match has room at any time.
pub open spec fn at_most_one_open(lobby: Seq<PendingGameModel>) -> bool {
    forall|i: int, j: int|
        0 <= i < j < lobby.len() ==> !(pending_open(#[trigger] lobby[i]) && pending_open(
            #[trigger] lobby[j],
        ))
}

/// No bearer token appears twice across all pending matches.
pub open spec fn lobby_tokens_unique(lobby: Seq<PendingGameModel>) -> bool {
    forall|i: int, a: int, j: int, b: int|
        0 <= i < lobby.len() && 0 <= a < lobby[i].players.len() && 0 <= j < lobby.len() && 0 <= b
            < lobby[j].players.len() && (i != j || a != b) ==> (#[trigger] lobby[i].players[a]).password
            != (#[trigger] lobby[j].players[b]).password
}

/// Some pending match already holds a player with this token.
pub open spec fn lobby_has_token(lobby: Seq<PendingGameModel>, pw: Seq<char>) -> bool {
    exists|i: int, a: int|
        0 <= i < lobby.len() && 0 <= a < lobby[i].players.len() && (#[trigger] lobby[i].players[a]).password
            == pw
}

/// Some player of the list carries this token.
pub open spec fn has_password(players: Seq<PlayerModel>, pw: Seq<char>) -> bool {
    exists|k: int| 0 <= k < players.len() && (#[trigger] players[k]).password == pw
}

/// The shared race state: loaded maps, the matchmaking lobby, the at
/// most one active race, and the latest control input per player.
pub struct AppState {
    pub maps: Vec<GameMap>,
    pub lobby: Vec<PendingGame>,
    pub active_game: Option<GameState>,
    pub control_inputs: Vec<ControlEntry>,
}

/// Mathematical model of the shared race state.
#[verifier::ext_equal]
pub struct AppStateModel {
    pub maps: Seq<GameMapModel>,
    pub lobby: Seq<PendingGameModel>,
    pub active_game: Option<GameStateModel>,
    pub control_inputs: Seq<ControlEntry>,
}

impl View for AppState {
    type V = AppStateModel;

    open spec fn view(&self) -> AppStateModel {
        AppStateModel {
            maps: map_models(self.maps@),
            lobby: lobby_models(self.lobby@),
            active_game: match self.active_game {
                Some(g) => Some(g@),
                None => None,
            },
            control_inputs: self.control_inputs@,
        }
    }
}

impl AppStateModel {
    /// The standing invariant of the shared race state.
    pub open spec fn wf(self) -> bool {
        &&& forall|i: int| 0 <= i < self.maps.len() ==> (#[trigger] self.maps[i]).wf()
        &&& lobby_capacity_ok(self.lobby)
        &&& at_most_one_open(self.lobby)
        &&& lobby_tokens_unique(self.lobby)
        &&& match self.active_game {
            Some(g) => g.wf(),
            None => true,
        }
        &&& entries_unique(self.control_inputs)
    }
}

/// A new player joined the lobby: either the first open match took one
/// more player, or, when every match was full, a fresh match opened at
/// the end with the newcomer alone and a map drawn from the catalog
/// (or the default name when the catalog is empty).
pub open spec fn joined_at(
    pre: Seq<PendingGameModel>,
    post: Seq<PendingGameModel>,
    i: int,
    reg: PlayerRegistrationModel,
    maps: Seq<GameMapModel>,
) -> bool {
    if i < pre.len() {
        &&& 0 <= i
        &&& post.len() == pre.len()
        &&& pending_open(pre[i])
        &&& (forall|j: int| 0 <= j < i ==> !pending_open(#[trigger] pre[j]))
        &&& post[i].game_id == pre[i].game_id
        &&& post[i].map_name == pre[i].map_name
        &&& post[i].players == pre[i].players.push(post[i].players.last())
        &&& player_matches(post[i].players.last(), reg)
        &&& (forall|j: int| 0 <= j < post.len() && j != i ==> post[j] == #[trigger] pre[j])
    } else {
        &&& i == pre.len()
        &&& post.len() == pre.len() + 1
        &&& (forall|j: int|
            0 <= j < pre.len() ==> post[j] == #[trigger] pre[j] && !pending_open(pre[j]))
        &&& post[i].players.len() == 1
        &&& player_matches(post[i].players[0], reg)
        &&& (maps.len() == 0 ==> post[i].map_name == "default_map"@)
        &&& (maps.len() > 0 ==> exists|m: int|
            0 <= m < maps.len() && post[i].map_name == (#[trigger] maps[m]).name)
    }
}

/// The player is the one the registration described, up to the freshly
/// drawn identifier.
pub open spec fn player_matches(p: PlayerModel, reg: PlayerRegistrationModel) -> bool {
    &&& p.name == reg.name
    &&& p.team == reg.team
    &&& p.password == reg.password
}

/// Scans every pending match for a player carrying `password`.
fn lobby_contains_token(lobby: &Vec<PendingGame>, password: &String) -> (b: bool)
    ensures
        b == lobby_has_token(lobby_models(lobby@), password@),
{
    let ghost model = lobby_models(lobby@);
    let n = lobby.len();
    let mut i: usize = 0;
    while i < n
        invariant
            n == lobby@.len(),
            i <= n,
            model == lobby_models(lobby@),
            forall|gi: int, a: int|
                0 <= gi < i && 0 <= a < model[gi].players.len() ==> (
                #[trigger] model[gi].players[a]).password != password@,
        decreases n - i,
    {
        let game = &lobby[i];
        let m = game.players.len();
        let mut a: usize = 0;
        while a < m
            invariant
                n == lobby@.len(),
                i < n,
                m == game.players@.len(),
                a <= m,
                game == lobby@[i as int],
                model == lobby_models(lobby@),
                forall|b: int| 0 <= b < a ==> model[i as int].players[b].password != password@,
            decreases m - a,
        {
            if game.players[a].password == *password {
                proof {
                    assert(model[i as int].players[a as int].password == password@);
                }
                return true;
            }
            proof {
                assert(model[i as int].players[a as int] == game.players@[a as int]@);
            }
            a += 1;
        }
        i += 1;
    }
    false
}

/// Finds the first pending match with room, if any.
fn find_open_index(lobby: &Vec<PendingGame>) -> (r: Option<usize>)
    ensures
        match r {
            Some(i) => {
                &&& i < lobby@.len()
                &&& pending_open(lobby_models(lobby@)[i as int])
                &&& forall|j: int|
                    0 <= j < i ==> !pending_open(
                        #[trigger] lobby_models(lobby@)[j],
                    )
            },
            None => forall|j: int|
                0 <= j < lobby@.len() ==> !pending_open(
                    #[trigger] lobby_models(lobby@)[j],
                ),
        },
{
    let ghost model = lobby_models(lobby@);
    let n = lobby.len();
    let mut i: usize = 0;
    while i < n
        invariant
            n == lobby@.len(),
            i <= n,
            model == lobby_models(lobby@),
            forall|j: int| 0 <= j < i ==> !pending_open(#[trigger] model[j]),
        decreases n - i,
    {
        if lobby[i].players.len() < MAX_PLAYERS {
            proof {
                assert(model[i as int] == lobby@[i as int]@);
            }
            return Some(i);
        }
        proof {
            assert(model[i as int] == lobby@[i as int]@);
        }
        i += 1;
    }
    None
}

/// Draws the map for a fresh pending match: a random catalog entry, or
/// the default name when no maps are loaded.
fn choose_map_name(maps: &Vec<GameMap>) -> (name: String)
    ensures
        maps@.len() == 0 ==> name@ == "default_map"@,
        maps@.len() > 0 ==> exists|m: int|
            0 <= m < maps@.len() && name@ == (#[trigger] map_models(maps@)[m]).name,
{
    if maps.len() == 0 {
        "default_map".to_owned()
    } else {
        let i = pick_index(maps.len());
        let name = maps[i].name.clone();
        proof {
            assert(map_models(maps@)[i as int] == maps@[i as int]@);
        }
        name
    }
}

/// Finds the first player carrying `password`, by position.
pub fn find_player_index(players: &Vec<Player>, password: &String) -> (r: Option<usize>)
    ensures
        match r {
            Some(k) => {
                &&& k < players@.len()
                &&& player_models(players@)[k as int].password == password@
                &&& forall|j: int|
                    0 <= j < k ==> (#[trigger] player_models(players@)[j]).password
                        != password@
            },
            None => !has_password(player_models(players@), password@),
        },
{
    let ghost model = player_models(players@);
    let n = players.len();
    let mut k: usize = 0;
    while k < n
        invariant
            n == players@.len(),
            k <= n,
            model == player_models(players@),
            forall|j: int| 0 <= j < k ==> (#[trigger] model[j]).password != password@,
        decreases n - k,
    {
        proof {
            assert(model[k as int] == players@[k as int]@);
        }
        if players[k].password == *password {
            return Some(k);
        }
        k += 1;
    }
    None
}

/// For every sequence of registrations the lobby keeps its matchmaking
/// discipline: no pending match ever exceeds `MAX_PLAYERS`, at most
/// one pending match is open at a time — newcomers share the open
/// match until it reaches capacity before a new one appears — and no
/// bearer token occurs twice across pending matches. `AppState::new`
/// establishes `wf` and every operation of the library preserves it,
/// so these hold in every reachable state.
pub proof fn law_lobby_discipline(app: AppStateModel)
    requires
        app.wf(),
    ensures
        lobby_capacity_ok(app.lobby),
        at_most_one_open(app.lobby),
        lobby_tokens_unique(app.lobby),
{
}

/// Pushing the newcomer into the first open match keeps the lobby
/// invariant: capacity is never exceeded, at most one match stays open,
/// and the new token, absent before, collides with no other.
proof fn lemma_register_wf_join(
    pre: Seq<PendingGameModel>,
    post: Seq<PendingGameModel>,
    i: int,
    newp: PlayerModel,
)
    requires
        lobby_capacity_ok(pre),
        at_most_one_open(pre),
        lobby_tokens_unique(pre),
        !lobby_has_token(pre, newp.password),
        0 <= i < pre.len(),
        pending_open(pre[i]),
        post.len() == pre.len(),
        post[i].players == pre[i].players.push(newp),
        forall|j: int| 0 <= j < post.len() && j != i ==> post[j] == #[trigger] pre[j],
    ensures
        lobby_capacity_ok(post),
        at_most_one_open(post),
        lobby_tokens_unique(post),
{
    let na = pre[i].players.len() as int;
    assert forall|x: int| 0 <= x < post.len() implies (#[trigger] post[x]).players.len()
        <= MAX_PLAYERS by {
        if x != i {
            assert(post[x] == pre[x]);
        }
    }
    assert forall|x: int, y: int|
        0 <= x < y < post.len() implies !(pending_open(#[trigger] post[x]) && pending_open(
        #[trigger] post[y],
    )) by {
        if x != i && y != i {
            assert(post[x] == pre[x] && post[y] == pre[y]);
        } else if x == i {
            assert(post[y] == pre[y]);
            assert(!(pending_open(pre[i]) && pending_open(pre[y])));
        } else {
            assert(post[x] == pre[x]);
            assert(!(pending_open(pre[x]) && pending_open(pre[i])));
        }
    }
    assert forall|x: int, a: int|
        0 <= x < pre.len() && 0 <= a < pre[x].players.len() implies (
    #[trigger] pre[x].players[a]).password != newp.password by {
        assert(!lobby_has_token(pre, newp.password));
    }
    assert forall|x: int, a: int, y: int, b: int|
        0 <= x < post.len() && 0 <= a < post[x].players.len() && 0 <= y < post.len() && 0 <= b
            < post[y].players.len() && (x != y || a != b) implies (
    #[trigger] post[x].players[a]).password != (#[trigger] post[y].players[b]).password by {
        let pa = if x == i && a == na {
            newp
        } else {
            pre[x].players[a]
        };
        let pb = if y == i && b == na {
            newp
        } else {
            pre[y].players[b]
        };
        assert(post[x].players[a] == pa);
        assert(post[y].players[b] == pb);
        if (x == i && a == na) && !(y == i && b == na) {
            assert(pb.password != newp.password);
        } else if !(x == i && a == na) && (y == i && b == na) {
            assert(pa.password != newp.password);
        } else if !(x == i && a == na) && !(y == i && b == na) {
            assert(pa.password != pb.password);
        }
    }
}

/// Opening a fresh match for the newcomer at the end of a lobby whose
/// matches are all full keeps the lobby invariant.
proof fn lemma_register_wf_fresh(
    pre: Seq<PendingGameModel>,
    post: Seq<PendingGameModel>,
    newp: PlayerModel,
)
    requires
        lobby_capacity_ok(pre),
        lobby_tokens_unique(pre),
        !lobby_has_token(pre, newp.password),
        post.len() == pre.len() + 1,
        forall|j: int| 0 <= j < pre.len() ==> post[j] == #[trigger] pre[j] && !pending_open(pre[j]),
        post[pre.len() as int].players == seq![newp],
    ensures
        lobby_capacity_ok(post),
        at_most_one_open(post),
        lobby_tokens_unique(post),
{
    let i = pre.len() as int;
    assert(post[i].players.len() == 1);
    assert forall|x: int| 0 <= x < post.len() implies (#[trigger] post[x]).players.len()
        <= MAX_PLAYERS by {
        if x != i {
            assert(post[x] == pre[x]);
        }
    }
    assert forall|x: int, y: int|
        0 <= x < y < post.len() implies !(pending_open(#[trigger] post[x]) && pending_open(
        #[trigger] post[y],
    )) by {
        if x != i {
            assert(post[x] == pre[x]);
            assert(!pending_open(pre[x]));
        }
    }
    assert forall|x: int, a: int|
        0 <= x < pre.len() && 0 <= a < pre[x].players.len() implies (
    #[trigger] pre[x].players[a]).password != newp.password by {
        assert(!lobby_has_token(pre, newp.password));
    }
    assert forall|x: int, a: int, y: int, b: int|
        0 <= x < post.len() && 0 <= a < post[x].players.len() && 0 <= y < post.len() && 0 <= b
            < post[y].players.len() && (x != y || a != b) implies (
    #[trigger] post[x].players[a]).password != (#[trigger] post[y].players[b]).password by {
        if x == i && y == i {
            assert(a == 0 && b == 0);
            assert(false);
        } else if x == i {
            assert(post[y] == pre[y]);
            assert(post[y].players[b].password != newp.password);
        } else if y == i {
            assert(post[x] == pre[x]);
            assert(post[x].players[a].password != newp.password);
        } else {
            assert(post[x] == pre[x] && post[y] == pre[y]);
        }
    }
}

impl AppState {
    /// An empty server: no maps, no lobby, no race, no inputs.
    pub fn new() -> (s: Self)
        ensures
            s@.maps.len() == 0,
            s@.lobby.len() == 0,
            s@.active_game is None,
            s@.control_inputs.len() == 0,
            s@.wf(),
    {
        let s = AppState {
            maps: Vec::new(),
            lobby: Vec::new(),
            active_game: None,
            control_inputs: Vec::new(),
        };
        proof {
            assert(s@.maps =~= Seq::<GameMapModel>::empty());
            assert(s@.lobby =~= Seq::<PendingGameModel>::empty());
        }
        s
    }

    /// Registers one loaded map with the catalog.
    pub fn add_map(&mut self, map: GameMap)
        requires
            old(self)@.wf(),
            map@.wf(),
        ensures
            final(self)@.wf(),
            final(self)@.maps == old(self)@.maps.push(map@),
            final(self)@ == (AppStateModel { maps: final(self)@.maps, ..old(self)@ }),
    {
        let ghost m = map@;
        self.maps.push(map);
        proof {
            assert(self@.maps =~= old(self)@.maps.push(m));
        }
    }

    /// Registers a player: the newcomer joins the first pending match
    /// with room, or a fresh match opened for them once every match is
    /// full. A token already present in some pending match joins
    /// nothing and is answered with the `already_registered` sentinel,
    /// so a duplicate registration has no effect.
    pub fn register(&mut self, reg: PlayerRegistration) -> (r: LobbyResponse)
        requires
            old(self)@.wf(),
        ensures
            final(self)@.wf(),
            final(self)@.maps == old(self)@.maps,
            final(self)@.active_game == old(self)@.active_game,
            final(self)@.control_inputs == old(self)@.control_inputs,
            r.player_id@ == reg@.name,
            lobby_has_token(old(self)@.lobby, reg@.password) ==> {
                &&& final(self)@.lobby == old(self)@.lobby
                &&& r.game_id@ == "already_registered"@
                &&& r.map@ == "already_registered"@
            },
            !lobby_has_token(old(self)@.lobby, reg@.password) ==> exists|i: int|
                {
                    &&& #[trigger] joined_at(
                        old(self)@.lobby,
                        final(self)@.lobby,
                        i,
                        reg@,
                        old(self)@.maps,
                    )
                    &&& r.game_id@ == uuid_text(final(self)@.lobby[i].game_id)
                    &&& r.map@ == final(self)@.lobby[i].map_name
                },
    {
        if lobby_contains_token(&self.lobby, &reg.password) {
            return LobbyResponse {
                player_id: reg.name,
                game_id: "already_registered".to_owned(),
                map: "already_registered".to_owned(),
            };
        }
        let ghost pre = self@.lobby;
        let ghost regm = reg@;
        let idx: usize;
        match find_open_index(&self.lobby) {
            Some(i) => {
                idx = i;
            },
            None => {
                let name = choose_map_name(&self.maps);
                let g = PendingGame::new(name);
                let ghost gnew = g@;
                self.lobby.push(g);
                idx = self.lobby.len() - 1;
                proof {
                    assert(lobby_models(self.lobby@) =~= pre.push(gnew));
                }
            },
        }
        let ghost mid = lobby_models(self.lobby@);
        let echoed = reg.name.clone();
        let player = Player::from_registration(reg);
        let ghost pm = player@;
        let mut g = self.lobby.remove(idx);
        proof {
            assert(g@ == mid[idx as int]);
        }
        g.players.push(player);
        let game_id = g.game_id;
        let map_name = g.map_name.clone();
        let ghost gm = g@;
        self.lobby.insert(idx, g);
        let resp = LobbyResponse { player_id: echoed, game_id: format_id(game_id), map: map_name };
        proof {
            let post = lobby_models(self.lobby@);
            let ii = idx as int;
            assert(post =~= mid.update(ii, gm));
            assert(gm.players =~= mid[ii].players.push(pm));
            assert(gm.players.last() == pm);
            if ii < pre.len() {
                // the newcomer joined the first open match
                assert forall|j: int| 0 <= j < post.len() && j != ii implies post[j] == #[trigger] pre[j] by {
                    assert(post[j] == mid[j]);
                }
                assert(joined_at(pre, post, ii, regm, old(self)@.maps));
                lemma_register_wf_join(pre, post, ii, pm);
            } else {
                // every match was full: a fresh one was opened at the end
                assert(mid == pre.push(mid[ii]));
                assert(mid[ii].players.len() == 0);
                assert(gm.players =~= seq![pm]);
                assert forall|j: int| 0 <= j < pre.len() implies post[j] == #[trigger] pre[j]
                    && !pending_open(pre[j]) by {
                    assert(post[j] == mid[j]);
                    assert(mid[j] == pre[j]);
                }
                assert(joined_at(pre, post, ii, regm, old(self)@.maps));
                lemma_register_wf_fresh(pre, post, pm);
            }
            assert(joined_at(old(self)@.lobby, self@.lobby, ii, reg@, old(self)@.maps));
            assert(resp.game_id@ == uuid_text(self@.lobby[ii].game_id));
            assert(resp.map@ == self@.lobby[ii].map_name);
        }
        resp
    }

    /// Resolves a bearer token to the active race and the first player
    /// of that race carrying it; `None` when no race runs or the token
    /// is unknown.
    pub fn get_active_player_by_password(&self, password: &String) -> (r: Option<
        (GameState, Player),
    >)
        ensures
            match r {
                Some(pair) => {
                    &&& self@.active_game matches Some(g)
                    &&& pair.0@ == g
                    &&& exists|k: int|
                        {
                            &&& 0 <= k < g.players.len()
                            &&& pair.1@ == g.players[k]
                            &&& g.players[k].password == password@
                            &&& forall|j: int|
                                0 <= j < k ==> (#[trigger] g.players[j]).password != password@
                        }
                },
                None => match self@.active_game {
                    Some(g) => !has_password(g.players, password@),
                    None => true,
                },
            },
    {
        match &self.active_game {
            None => None,
            Some(game) => {
                match find_player_index(&game.players, password) {
                    None => None,
                    Some(k) => {
                        let pair = (game.clone(), game.players[k].clone());
                        proof {
                            let g = game@;
                            let ki = k as int;
                            assert(g.players[ki] == player_models(game.players@)[ki]);
                        }
                        Some(pair)
                    },
                }
            },
        }
    }

    /// Accepts or rejects one control command. A token that resolves to
    /// a player of the active race overwrites that player's input and
    /// is answered `"ok"`; any other command changes nothing and is
    /// answered `"error"`.
    pub fn submit_control(&mut self, input: ControlInput) -> (r: ShipControlResponse)
        requires
            old(self)@.wf(),
        ensures
            final(self)@.wf(),
            final(self)@ == (AppStateModel {
                control_inputs: final(self)@.control_inputs,
                ..old(self)@
            }),
            match old(self)@.active_game {
                None => {
                    &&& final(self)@ == old(self)@
                    &&& r.status@ == "error"@
                },
                Some(g) => {
                    if has_password(g.players, input.password@) {
                        &&& r.status@ == "ok"@
                        &&& exists|k: int|
                            {
                                &&& 0 <= k < g.players.len()
                                &&& g.players[k].password == input.password@
                                &&& (forall|j: int|
                                    0 <= j < k ==> (#[trigger] g.players[j]).password
                                        != input.password@)
                                &&& input_of(final(self)@.control_inputs, g.players[k].id)
                                    == Some(ShipInput { thrust: input.thrust, rotation: input.rotation })
                                &&& (forall|other: u128|
                                    other != g.players[k].id ==> input_of(
                                        final(self)@.control_inputs,
                                        other,
                                    ) == input_of(old(self)@.control_inputs, other))
                            }
                    } else {
                        &&& final(self)@ == old(self)@
                        &&& r.status@ == "error"@
                    }
                },
            },
    {
        let id_opt: Option<u128> = match &self.active_game {
            None => None,
            Some(game) => {
                match find_player_index(&game.players, &input.password) {
                    None => None,
                    Some(k) => Some(game.players[k].id),
                }
            },
        };
        match id_opt {
            None => ShipControlResponse { status: "error".to_owned() },
            Some(id) => {
                store_input(
                    &mut self.control_inputs,
                    id,
                    ShipInput { thrust: input.thrust, rotation: input.rotation },
                );
                ShipControlResponse { status: "ok".to_owned() }
            },
        }
    }

    /// Serves the public snapshot: `Inactive` when no race runs or the
    /// query names another race, the public view of the active race
    /// otherwise.
    pub fn state_response(&self, query: Option<&StateQuery>) -> (r: StateResponse)
        ensures
            match self@.active_game {
                None => r is Inactive,
                Some(g) => {
                    let wanted = match query {
                        None => true,
                        Some(q) => q.game_id@ == uuid_text(g.game_id),
                    };
                    if wanted {
                        &&& r matches StateResponse::Active(p)
                        &&& p@ == (PublicGameStateModel {
                            game_id: g.game_id,
                            ships: g.ships,
                            map_name: g.map.name,
                            state: g.state,
                        })
                    } else {
                        r is Inactive
                    }
                },
            },
    {
        match &self.active_game {
            None => StateResponse::Inactive,
            Some(game) => {
                let wanted = match query {
                    None => true,
                    Some(q) => {
                        let id_text = format_id(game.game_id);
                        q.game_id == id_text
                    },
                };
                if wanted {
                    let p = PublicGameState::from_game(game);
                    proof {
                        assert(p@ =~= (PublicGameStateModel {
                            game_id: game@.game_id,
                            ships: game@.ships,
                            map_name: game@.map.name,
                            state: game@.state,
                        }));
                    }
                    StateResponse::Active(p)
                } else {
                    StateResponse::Inactive
                }
            },
        }
    }
}

} // verus!
