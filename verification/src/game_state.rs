//! The active race record and the pending matches that feed it.

use vstd::prelude::*;
use crate::player::{Player, PlayerModel, player_models};
use crate::ship::Ship;
use crate::map::{GameMap, GameMapModel};
use crate::ids::fresh_id;

verus! {

/// Where a race stands: freshly promoted, being simulated, or waiting
/// out the settle window.
#[derive(PartialEq, Eq, Structural, Clone, Copy, Debug)]
pub enum GameStatus {
    Queued,
    Running,
    Finished,
}

/// One recorded finish: a player and the race-elapsed time, in
/// milliseconds, at which that player first touched a finish region.
#[derive(PartialEq, Eq, Structural, Clone, Copy, Debug)]
pub struct FinishEntry {
    pub player_id: u128,
    pub time_ms: u64,
}

/// The finish time recorded for `id`: the first entry with that player
/// id, or `None` when the player has not finished.
pub open spec fn finish_time_of(entries: Seq<FinishEntry>, id: u128) -> Option<u64>
    decreases entries.len(),
{
    if entries.len() == 0 {
        None
    } else if entries[0].player_id == id {
        Some(entries[0].time_ms)
    } else {
        finish_time_of(entries.skip(1), id)
    }
}

/// Finish entries carry pairwise distinct player ids, so
/// `finish_time_of` describes the whole record.
pub open spec fn finish_entries_unique(entries: Seq<FinishEntry>) -> bool {
    forall|i: int, j: int|
        0 <= i < j < entries.len() ==> entries[i].player_id != entries[j].player_id
}

/// Appending an entry for a player without one extends `finish_time_of`
/// with that player and leaves every other player's time untouched.
pub(crate) proof fn lemma_finish_push(pre: Seq<FinishEntry>, id: u128, time_ms: u64)
    requires
        finish_entries_unique(pre),
        forall|k: int| 0 <= k < pre.len() ==> pre[k].player_id != id,
    ensures
        finish_entries_unique(pre.push(FinishEntry { player_id: id, time_ms })),
        finish_time_of(pre.push(FinishEntry { player_id: id, time_ms }), id) == Some(time_ms),
        forall|other: u128|
            other != id ==> finish_time_of(pre.push(FinishEntry { player_id: id, time_ms }), other)
                == finish_time_of(pre, other),
    decreases pre.len(),
{
    let post = pre.push(FinishEntry { player_id: id, time_ms });
    if pre.len() == 0 {
        assert(post[0].player_id == id);
        assert forall|other: u128| other != id implies finish_time_of(post, other)
            == finish_time_of(pre, other) by {
            assert(finish_time_of(post.skip(1), other) == None::<u64>) by {
                assert(post.skip(1) =~= Seq::<FinishEntry>::empty());
            }
        }
    } else {
        let pre1 = pre.skip(1);
        let post1 = post.skip(1);
        assert(post1 =~= pre1.push(FinishEntry { player_id: id, time_ms }));
        lemma_finish_push(pre1, id, time_ms);
        assert(post[0] == pre[0]);
        assert(finish_time_of(post, id) == Some(time_ms));
        assert forall|other: u128| other != id implies finish_time_of(post, other)
            == finish_time_of(pre, other) by {
            if pre[0].player_id != other {
                assert(finish_time_of(post, other) == finish_time_of(post1, other));
                assert(finish_time_of(pre, other) == finish_time_of(pre1, other));
            }
        }
    }
}

/// A player id occurs among the finish entries exactly when
/// `finish_time_of` finds a time for it.
pub(crate) proof fn lemma_finish_time_some_iff_present(entries: Seq<FinishEntry>, id: u128)
    ensures
        (finish_time_of(entries, id) is Some) <==> exists|k: int|
            0 <= k < entries.len() && entries[k].player_id == id,
    decreases entries.len(),
{
    if entries.len() > 0 {
        lemma_finish_time_some_iff_present(entries.skip(1), id);
        if entries[0].player_id != id {
            assert forall|k: int|
                0 <= k < entries.len() && entries[k].player_id == id implies finish_time_of(
                entries,
                id,
            ) is Some by {
                assert(entries.skip(1)[k - 1] == entries[k]);
            }
            if finish_time_of(entries, id) is Some {
                let k = choose|k: int|
                    0 <= k < entries.skip(1).len() && entries.skip(1)[k].player_id == id;
                assert(entries[k + 1].player_id == id);
            }
        }
    }
}

/// A lobby-stage match: players waiting, in join order, for promotion
/// to the active race.
pub struct PendingGame {
    pub game_id: u128,
    pub players: Vec<Player>,
    pub map_name: String,
}

/// Mathematical model of a `PendingGame`.
#[verifier::ext_equal]
pub struct PendingGameModel {
    pub game_id: u128,
    pub players: Seq<PlayerModel>,
    pub map_name: Seq<char>,
}

impl View for PendingGame {
    type V = PendingGameModel;

    open spec fn view(&self) -> PendingGameModel {
        PendingGameModel {
            game_id: self.game_id,
            players: player_models(self.players@),
            map_name: self.map_name@,
        }
    }
}

impl PendingGame {
    /// An empty pending match on the given map, under a freshly drawn
    /// match identifier.
    pub fn new(map_name: String) -> (g: PendingGame)
        ensures
            g@.players.len() == 0,
            g@.map_name == map_name@,
    {
        let g = PendingGame { game_id: fresh_id(), players: Vec::new(), map_name };
        proof {
            assert(g@.players =~= Seq::<PlayerModel>::empty());
        }
        g
    }
}

/// The models of a lobby's pending matches, in order.
pub open spec fn lobby_models(lobby: Seq<PendingGame>) -> Seq<PendingGameModel> {
    lobby.map_values(|g: PendingGame| g@)
}

/// The single active race: players, their public ship snapshots, the
/// simulation-side ship registry, recorded finish times and the status
/// tag. `started_at_ms` anchors race-elapsed time.
pub struct GameState {
    pub game_id: u128,
    pub players: Vec<Player>,
    pub finish_times: Vec<FinishEntry>,
    pub ships: Vec<Ship>,
    pub map: GameMap,
    pub state: GameStatus,
    pub started_at_ms: u64,
}

/// Mathematical model of a `GameState`.
#[verifier::ext_equal]
pub struct GameStateModel {
    pub game_id: u128,
    pub players: Seq<PlayerModel>,
    pub finish_times: Seq<FinishEntry>,
    pub ships: Seq<Ship>,
    pub map: GameMapModel,
    pub state: GameStatus,
    pub started_at_ms: u64,
}

impl View for GameState {
    type V = GameStateModel;

    open spec fn view(&self) -> GameStateModel {
        GameStateModel {
            game_id: self.game_id,
            players: player_models(self.players@),
            finish_times: self.finish_times@,
            ships: self.ships@,
            map: self.map@,
            state: self.state,
            started_at_ms: self.started_at_ms,
        }
    }
}

impl GameStateModel {
    /// Every player whose id is `id`, by position.
    pub open spec fn has_player_id(self, id: u128) -> bool {
        exists|k: int| 0 <= k < self.players.len() && self.players[k].id == id
    }

    /// Every recorded finisher is a player of the race, recorded once;
    /// ships and control registries belong to players of the race; the
    /// map is usable.
    pub open spec fn wf(self) -> bool {
        &&& self.map.wf()
        &&& finish_entries_unique(self.finish_times)
        &&& forall|k: int|
            0 <= k < self.finish_times.len() ==> self.has_player_id(
                #[trigger] self.finish_times[k].player_id,
            )
        &&& forall|k: int|
            0 <= k < self.ships.len() ==> self.has_player_id(#[trigger] self.ships[k].id)
    }

    /// All players of the race have a recorded finish time.
    pub open spec fn all_finished(self) -> bool {
        self.finish_times.len() == self.players.len()
    }
}

impl GameState {
    /// A freshly promoted race over the given players and map: no
    /// ships yet, no finish times, status `Queued`.
    pub fn new(game_id: u128, players: Vec<Player>, map: GameMap) -> (g: GameState)
        ensures
            g@.game_id == game_id,
            g@.players == player_models(players@),
            g@.finish_times.len() == 0,
            g@.ships.len() == 0,
            g@.map == map@,
            g@.state == GameStatus::Queued,
            g@.started_at_ms == 0,
    {
        let g = GameState {
            game_id,
            players,
            finish_times: Vec::new(),
            ships: Vec::new(),
            map,
            state: GameStatus::Queued,
            started_at_ms: 0,
        };
        proof {
            assert(g@.finish_times =~= Seq::<FinishEntry>::empty());
            assert(g@.ships =~= Seq::<Ship>::empty());
        }
        g
    }

    /// Reads the finish time recorded for `player_id`, if any.
    pub fn lookup_finish_time(&self, player_id: u128) -> (r: Option<u64>)
        ensures
            r == finish_time_of(self@.finish_times, player_id),
    {
        let n = self.finish_times.len();
        let mut i: usize = 0;
        while i < n
            invariant
                n == self.finish_times@.len(),
                i <= n,
                forall|k: int| 0 <= k < i ==> self.finish_times@[k].player_id != player_id,
            decreases n - i,
        {
            if self.finish_times[i].player_id == player_id {
                proof {
                    lemma_finish_first_hit(self.finish_times@, i as int, player_id);
                }
                return Some(self.finish_times[i].time_ms);
            }
            i += 1;
        }
        proof {
            lemma_finish_no_hit(self.finish_times@, player_id);
        }
        None
    }

    /// Records `time_ms` as `player_id`'s finish time unless one is
    /// already recorded: the first write wins and later contacts leave
    /// the record unchanged.
    pub fn record_finish_once(&mut self, player_id: u128, time_ms: u64)
        requires
            finish_entries_unique(old(self)@.finish_times),
        ensures
            finish_entries_unique(final(self)@.finish_times),
            final(self)@ == (GameStateModel {
                finish_times: final(self)@.finish_times,
                ..old(self)@
            }),
            // first write wins: an existing record is never changed
            match finish_time_of(old(self)@.finish_times, player_id) {
                Some(t) => final(self)@.finish_times == old(self)@.finish_times,
                None => final(self)@.finish_times == old(self)@.finish_times.push(
                    FinishEntry { player_id, time_ms },
                ),
            },
            finish_time_of(final(self)@.finish_times, player_id) == Some(
                match finish_time_of(old(self)@.finish_times, player_id) {
                    Some(t) => t,
                    None => time_ms,
                },
            ),
            forall|other: u128|
                other != player_id ==> finish_time_of(final(self)@.finish_times, other)
                    == finish_time_of(old(self)@.finish_times, other),
    {
        let n = self.finish_times.len();
        let mut i: usize = 0;
        while i < n
            invariant
                n == self.finish_times.len(),
                i <= n,
                *self == *old(self),
                finish_entries_unique(self.finish_times@),
                forall|k: int| 0 <= k < i ==> self.finish_times@[k].player_id != player_id,
            decreases n - i,
        {
            if self.finish_times[i].player_id == player_id {
                proof {
                    lemma_finish_first_hit(self.finish_times@, i as int, player_id);
                }
                return ;
            }
            i += 1;
        }
        proof {
            lemma_finish_no_hit(self.finish_times@, player_id);
            lemma_finish_push(self.finish_times@, player_id, time_ms);
        }
        self.finish_times.push(FinishEntry { player_id, time_ms });
    }
}

/// When the first entry for `id` sits at position `at`, `finish_time_of`
/// returns its time.
proof fn lemma_finish_first_hit(entries: Seq<FinishEntry>, at: int, id: u128)
    requires
        0 <= at < entries.len(),
        entries[at].player_id == id,
        forall|k: int| 0 <= k < at ==> entries[k].player_id != id,
    ensures
        finish_time_of(entries, id) == Some(entries[at].time_ms),
    decreases at,
{
    if at > 0 {
        assert(entries.skip(1)[at - 1] == entries[at]);
        assert forall|k: int| 0 <= k < at - 1 implies entries.skip(1)[k].player_id != id by {
            assert(entries.skip(1)[k] == entries[k + 1]);
        }
        lemma_finish_first_hit(entries.skip(1), at - 1, id);
    }
}

/// When no entry carries `id`, `finish_time_of` finds nothing.
proof fn lemma_finish_no_hit(entries: Seq<FinishEntry>, id: u128)
    requires
        forall|k: int| 0 <= k < entries.len() ==> entries[k].player_id != id,
    ensures
        finish_time_of(entries, id) == None::<u64>,
    decreases entries.len(),
{
    if entries.len() > 0 {
        assert forall|k: int| 0 <= k < entries.len() - 1 implies entries.skip(1)[k].player_id
            != id by {
            assert(entries.skip(1)[k] == entries[k + 1]);
        }
        lemma_finish_no_hit(entries.skip(1), id);
    }
}

/// Clones a player list, keeping each player's model.
pub fn clone_players(v: &Vec<Player>) -> (res: Vec<Player>)
    ensures
        player_models(res@) == player_models(v@),
{
    let mut res: Vec<Player> = Vec::new();
    let n = v.len();
    let mut i: usize = 0;
    while i < n
        invariant
            n == v@.len(),
            i <= n,
            res@.len() == i,
            forall|k: int| 0 <= k < i ==> res@[k]@ == v@[k]@,
        decreases n - i,
    {
        res.push(v[i].clone());
        i += 1;
    }
    proof {
        assert(player_models(res@) =~= player_models(v@));
    }
    res
}

impl Clone for GameState {
    fn clone(&self) -> (res: Self)
        ensures
            res@ == self@,
    {
        let res = GameState {
            game_id: self.game_id,
            players: clone_players(&self.players),
            finish_times: self.finish_times.clone(),
            ships: self.ships.clone(),
            map: self.map.clone(),
            state: self.state,
            started_at_ms: self.started_at_ms,
        };
        proof {
            assert(res.finish_times@ =~= self.finish_times@);
            assert(res.ships@ =~= self.ships@);
            assert(res@ =~= self@);
        }
        res
    }
}

} // verus!
