//! The lifecycle state machine and the simulation-side systems: match
//! promotion, ship spawning, race completion and teardown.
//!
//! Each function is one step of the fixed-tick loop. Time is a
//! millisecond clock value handed in by the caller; the timers the
//! machine owns are explicit fields, created and discarded exactly on
//! the transitions that own them.

use vstd::prelude::*;
use crate::app_state::{AppState, AppStateModel};
use crate::game_state::{FinishEntry, GameState, GameStateModel, GameStatus, PendingGameModel,
    PendingGame, finish_entries_unique, finish_time_of, lemma_finish_push,
    lemma_finish_time_some_iff_present, lobby_models};
use crate::map::{GameMapModel, find_map_index, first_map_named, map_models};
use crate::player::player_models;
use crate::rng::pick_index;
use crate::ship::Ship;
use crate::geometry::Vec2i;

verus! {

/// How often the matchmaking scheduler looks for a promotable match.
pub const SCHEDULER_INTERVAL_MS: u64 = 10_000;

/// The settle window: how long a finished race stays visible before it
/// is cleared.
pub const SETTLE_DELAY_MS: u64 = 10_000;

/// The largest clock value the engine accepts, so that every deadline
/// it computes stays within `u64`.
pub const MAX_CLOCK_MS: u64 = 0x7FFF_FFFF_FFFF_FFFF;

/// Whether the server is idle (matchmaking runs) or simulating the one
/// active race.
#[derive(PartialEq, Eq, Structural, Clone, Copy, Debug, Hash)]
pub enum ServerState {
    Inactive,
    Active,
}

/// The matchmaking interval timer: the scheduler next fires once the
/// clock reaches `next_run_ms`.
#[derive(PartialEq, Eq, Structural, Clone, Copy, Debug)]
pub struct GameSchedulerConfig {
    pub next_run_ms: u64,
}

/// The one-shot settle timer, created when a race finishes: the race
/// is cleared once the clock reaches `deadline_ms`, which stands
/// `SETTLE_DELAY_MS` after the finish.
#[derive(PartialEq, Eq, Structural, Clone, Copy, Debug)]
pub struct TransitionTimer {
    pub deadline_ms: u64,
}

/// The lifecycle state machine, with its timers as explicit fields.
#[derive(PartialEq, Eq, Structural, Clone, Copy, Debug)]
pub struct Lifecycle {
    pub server_state: ServerState,
    pub scheduler: GameSchedulerConfig,
    pub transition_timer: Option<TransitionTimer>,
}

impl Lifecycle {
    /// The machine at boot: idle, the scheduler armed for its first
    /// interval, no settle timer.
    pub fn new() -> (lc: Lifecycle)
        ensures
            lc.server_state == ServerState::Inactive,
            lc.scheduler.next_run_ms == SCHEDULER_INTERVAL_MS,
            lc.transition_timer is None,
    {
        Lifecycle {
            server_state: ServerState::Inactive,
            scheduler: GameSchedulerConfig { next_run_ms: SCHEDULER_INTERVAL_MS },
            transition_timer: None,
        }
    }
}

/// The cross-component invariant: the lifecycle tag mirrors whether a
/// race occupies the shared state, and the settle timer exists exactly
/// while a finished race does.
pub open spec fn lifecycle_wf(app: AppStateModel, lc: Lifecycle) -> bool {
    &&& (lc.server_state == ServerState::Active <==> app.active_game is Some)
    &&& ((lc.transition_timer is Some) <==> (app.active_game matches Some(g) && g.state
        == GameStatus::Finished))
}

/// The position of the first pending match with at least one player,
/// or `None` when every pending match is empty.
pub open spec fn first_nonempty(lobby: Seq<PendingGameModel>) -> Option<int>
    decreases lobby.len(),
{
    if lobby.len() == 0 {
        None
    } else if lobby[0].players.len() > 0 {
        Some(0)
    } else {
        match first_nonempty(lobby.skip(1)) {
            Some(i) => Some(i + 1),
            None => None,
        }
    }
}

/// When the first non-empty match sits at `at`, `first_nonempty`
/// returns that position.
proof fn lemma_first_nonempty_at(lobby: Seq<PendingGameModel>, at: int)
    requires
        0 <= at < lobby.len(),
        lobby[at].players.len() > 0,
        forall|j: int| 0 <= j < at ==> lobby[j].players.len() == 0,
    ensures
        first_nonempty(lobby) == Some(at),
    decreases at,
{
    if at > 0 {
        assert(lobby.skip(1)[at - 1] == lobby[at]);
        assert forall|j: int| 0 <= j < at - 1 implies lobby.skip(1)[j].players.len() == 0 by {
            assert(lobby.skip(1)[j] == lobby[j + 1]);
        }
        lemma_first_nonempty_at(lobby.skip(1), at - 1);
    }
}

/// When every match is empty, `first_nonempty` finds nothing.
proof fn lemma_first_nonempty_none(lobby: Seq<PendingGameModel>)
    requires
        forall|j: int| 0 <= j < lobby.len() ==> lobby[j].players.len() == 0,
    ensures
        first_nonempty(lobby) == None::<int>,
    decreases lobby.len(),
{
    if lobby.len() > 0 {
        assert forall|j: int| 0 <= j < lobby.len() - 1 implies lobby.skip(1)[j].players.len()
            == 0 by {
            assert(lobby.skip(1)[j] == lobby[j + 1]);
        }
        lemma_first_nonempty_none(lobby.skip(1));
    }
}

/// Finds the first pending match with at least one player.
fn find_nonempty_index(lobby: &Vec<PendingGame>) -> (r: Option<usize>)
    ensures
        match r {
            Some(i) => {
                &&& first_nonempty(lobby_models(lobby@)) == Some(i as int)
                &&& i < lobby@.len()
                &&& lobby_models(lobby@)[i as int].players.len() > 0
            },
            None => first_nonempty(lobby_models(lobby@)) is None,
        },
{
    let ghost models = lobby_models(lobby@);
    let n = lobby.len();
    let mut i: usize = 0;
    while i < n
        invariant
            n == lobby@.len(),
            models == lobby_models(lobby@),
            i <= n,
            forall|j: int| 0 <= j < i ==> (#[trigger] models[j]).players.len() == 0,
        decreases n - i,
    {
        proof {
            assert(models[i as int] == lobby@[i as int]@);
        }
        if lobby[i].players.len() > 0 {
            proof {
                lemma_first_nonempty_at(models, i as int);
            }
            return Some(i);
        }
        i += 1;
    }
    proof {
        lemma_first_nonempty_none(models);
    }
    None
}

/// The race a promoted pending match becomes: its players carried
/// over, the resolved map, no ships, no finish times, status `Queued`.
pub open spec fn promoted_game(g: PendingGameModel, m: GameMapModel) -> GameStateModel {
    GameStateModel {
        game_id: g.game_id,
        players: g.players,
        finish_times: Seq::empty(),
        ships: Seq::empty(),
        map: m,
        state: GameStatus::Queued,
        started_at_ms: 0,
    }
}

/// One run of the matchmaking scheduler. In the idle state, once the
/// interval timer fires and no race is active, the first non-empty
/// pending match is removed from the lobby and promoted: its map is
/// resolved by name and the race is installed as `Queued`. When the
/// map name resolves to no map, the promotion is abandoned and that
/// pending match is dropped. A run while a race exists is a no-op.
pub fn game_scheduler_system(app: &mut AppState, lc: &mut Lifecycle, now_ms: u64)
    requires
        old(app)@.wf(),
        lifecycle_wf(old(app)@, *old(lc)),
        now_ms <= MAX_CLOCK_MS,
    ensures
        final(app)@.wf(),
        lifecycle_wf(final(app)@, *final(lc)),
        final(app)@.maps == old(app)@.maps,
        final(app)@.control_inputs == old(app)@.control_inputs,
        final(lc).transition_timer == old(lc).transition_timer,
        // a promotion attempt while a race exists is a no-op
        old(app)@.active_game is Some ==> final(app)@ == old(app)@ && *final(lc) == *old(lc),
        old(lc).server_state == ServerState::Inactive && now_ms < old(lc).scheduler.next_run_ms
            ==> final(app)@ == old(app)@ && *final(lc) == *old(lc),
        (old(lc).server_state == ServerState::Inactive && now_ms >= old(
            lc,
        ).scheduler.next_run_ms) ==> {
            &&& final(lc).scheduler.next_run_ms == now_ms + SCHEDULER_INTERVAL_MS
            &&& match first_nonempty(old(app)@.lobby) {
                None => {
                    &&& final(app)@ == old(app)@
                    &&& final(lc).server_state == ServerState::Inactive
                },
                Some(i) => {
                    &&& final(app)@.lobby == old(app)@.lobby.remove(i)
                    &&& match first_map_named(old(app)@.maps, old(app)@.lobby[i].map_name) {
                        Some(mi) => {
                            &&& final(app)@.active_game == Some(
                                promoted_game(old(app)@.lobby[i], old(app)@.maps[mi]),
                            )
                            &&& final(lc).server_state == ServerState::Active
                        },
                        None => {
                            &&& final(app)@.active_game is None
                            &&& final(lc).server_state == ServerState::Inactive
                        },
                    }
                },
            }
        },
{
    match lc.server_state {
        ServerState::Active => {
            return ;
        },
        ServerState::Inactive => {},
    }
    if now_ms < lc.scheduler.next_run_ms {
        return ;
    }
    lc.scheduler.next_run_ms = now_ms + SCHEDULER_INTERVAL_MS;
    let ghost pre = old(app)@.lobby;
    match find_nonempty_index(&app.lobby) {
        None => {},
        Some(i) => {
            let pend = app.lobby.remove(i);
            proof {
                assert(pend@ == pre[i as int]);
                assert(lobby_models(app.lobby@) =~= pre.remove(i as int));
                lemma_lobby_wf_remove(pre, i as int);
            }
            let game_id = pend.game_id;
            match find_map_index(&app.maps, &pend.map_name) {
                Some(mi) => {
                    let ghost pendm = pend@;
                    let map = app.maps[mi].clone();
                    proof {
                        assert(map@ == map_models(app.maps@)[mi as int]);
                    }
                    let game = GameState::new(game_id, pend.players, map);
                    proof {
                        assert(game@ =~= promoted_game(pendm, old(app)@.maps[mi as int]));
                    }
                    app.active_game = Some(game);
                    lc.server_state = ServerState::Active;
                },
                None => {},
            }
        },
    }
}

/// Removing one pending match keeps the lobby invariant.
proof fn lemma_lobby_wf_remove(pre: Seq<PendingGameModel>, i: int)
    requires
        0 <= i < pre.len(),
        crate::app_state::lobby_capacity_ok(pre),
        crate::app_state::at_most_one_open(pre),
        crate::app_state::lobby_tokens_unique(pre),
    ensures
        crate::app_state::lobby_capacity_ok(pre.remove(i)),
        crate::app_state::at_most_one_open(pre.remove(i)),
        crate::app_state::lobby_tokens_unique(pre.remove(i)),
{
    let post = pre.remove(i);
    assert forall|x: int| 0 <= x < post.len() implies (#[trigger] post[x]).players.len()
        <= crate::MAX_PLAYERS by {
        if x < i {
            assert(post[x] == pre[x]);
        } else {
            assert(post[x] == pre[x + 1]);
        }
    }
    assert forall|x: int, y: int|
        0 <= x < y < post.len() implies !(crate::app_state::pending_open(#[trigger] post[x])
        && crate::app_state::pending_open(#[trigger] post[y])) by {
        let px = if x < i {
            x
        } else {
            x + 1
        };
        let py = if y < i {
            y
        } else {
            y + 1
        };
        assert(post[x] == pre[px]);
        assert(post[y] == pre[py]);
    }
    assert forall|x: int, a: int, y: int, b: int|
        0 <= x < post.len() && 0 <= a < post[x].players.len() && 0 <= y < post.len() && 0 <= b
            < post[y].players.len() && (x != y || a != b) implies (
    #[trigger] post[x].players[a]).password != (#[trigger] post[y].players[b]).password by {
        let px = if x < i {
            x
        } else {
            x + 1
        };
        let py = if y < i {
            y
        } else {
            y + 1
        };
        assert(post[x] == pre[px]);
        assert(post[y] == pre[py]);
        assert(pre[px].players[a].password != pre[py].players[b].password);
    }
}

/// Flips the freshly promoted race from `Queued` to `Running` and
/// anchors race-elapsed time at `now_ms`. Without a race it does
/// nothing.
pub fn start_game(app: &mut AppState, now_ms: u64)
    requires
        old(app)@.wf(),
    ensures
        final(app)@.wf(),
        final(app)@ == (AppStateModel {
            active_game: final(app)@.active_game,
            ..old(app)@
        }),
        match old(app)@.active_game {
            None => final(app)@ == old(app)@,
            Some(g) => final(app)@.active_game == Some(
                GameStateModel { state: GameStatus::Running, started_at_ms: now_ms, ..g },
            ),
        },
{
    match &mut app.active_game {
        None => {},
        Some(game) => {
            game.state = GameStatus::Running;
            game.started_at_ms = now_ms;
        },
    }
}

/// Spawns one ship per player of the active race, each resting at the
/// position of a randomly chosen start region of the race's map, facing
/// orientation zero. Without a race it does nothing.
pub fn spawn_ships(app: &mut AppState)
    requires
        old(app)@.wf(),
    ensures
        final(app)@.wf(),
        final(app)@ == (AppStateModel {
            active_game: final(app)@.active_game,
            ..old(app)@
        }),
        match old(app)@.active_game {
            None => final(app)@ == old(app)@,
            Some(g) => {
                &&& final(app)@.active_game matches Some(g2)
                &&& g2 == (GameStateModel { ships: g2.ships, ..g })
                &&& g2.ships.len() == g.players.len()
                &&& forall|k: int|
                    0 <= k < g.players.len() ==> {
                        &&& (#[trigger] g2.ships[k]).id == g.players[k].id
                        &&& exists|r: int|
                            0 <= r < g.map.start_regions.len() && g2.ships[k].position == (
                            #[trigger] g.map.start_regions[r]).position
                        &&& g2.ships[k].velocity == (Vec2i { x: 0, y: 0 })
                        &&& g2.ships[k].orientation == 0
                        &&& g2.ships[k].angular_velocity == 0
                    }
            },
        },
{
    match &mut app.active_game {
        None => {},
        Some(game) => {
            let ghost g = game@;
            let mut ships: Vec<Ship> = Vec::new();
            let n = game.players.len();
            let region_count = game.map.start_regions.len();
            let mut k: usize = 0;
            while k < n
                invariant
                    n == game.players@.len(),
                    region_count == game.map.start_regions@.len(),
                    region_count >= 1,
                    g == game@,
                    k <= n,
                    ships@.len() == k,
                    forall|x: int|
                        0 <= x < k ==> {
                            &&& (#[trigger] ships@[x]).id == g.players[x].id
                            &&& exists|r: int|
                                0 <= r < g.map.start_regions.len() && ships@[x].position == (
                                #[trigger] g.map.start_regions[r]).position
                            &&& ships@[x].velocity == (Vec2i { x: 0, y: 0 })
                            &&& ships@[x].orientation == 0
                            &&& ships@[x].angular_velocity == 0
                        },
                decreases n - k,
            {
                let r = pick_index(region_count);
                let pos = game.map.start_regions[r].position;
                proof {
                    assert(g.map.start_regions[r as int] == game.map.start_regions@[r as int]@);
                    assert(g.players[k as int] == player_models(game.players@)[k as int]);
                }
                ships.push(
                    Ship {
                        id: game.players[k].id,
                        position: pos,
                        velocity: Vec2i { x: 0, y: 0 },
                        orientation: 0,
                        angular_velocity: 0,
                    },
                );
                k += 1;
            }
            game.ships = ships;
            proof {
                assert(game@ =~= (GameStateModel { ships: game@.ships, ..g }));
            }
        },
    }
}

} // verus!

verus! {

/// A contact-start between the ship of player `ship_id` and a finish
/// region, reported by the physics collaborator for the current tick.
#[derive(PartialEq, Eq, Structural, Clone, Copy, Debug)]
pub struct ContactEvent {
    pub ship_id: u128,
}

/// The position of the first live ship of player `id`, or `None` when
/// that player's ship is no longer simulated.
pub open spec fn first_ship_index(ships: Seq<Ship>, id: u128) -> Option<int>
    decreases ships.len(),
{
    if ships.len() == 0 {
        None
    } else if ships[0].id == id {
        Some(0)
    } else {
        match first_ship_index(ships.skip(1), id) {
            Some(i) => Some(i + 1),
            None => None,
        }
    }
}

/// When the first ship of `id` sits at `at`, `first_ship_index`
/// returns that position.
proof fn lemma_first_ship_at(ships: Seq<Ship>, at: int, id: u128)
    requires
        0 <= at < ships.len(),
        ships[at].id == id,
        forall|j: int| 0 <= j < at ==> ships[j].id != id,
    ensures
        first_ship_index(ships, id) == Some(at),
    decreases at,
{
    if at > 0 {
        assert(ships.skip(1)[at - 1] == ships[at]);
        assert forall|j: int| 0 <= j < at - 1 implies ships.skip(1)[j].id != id by {
            assert(ships.skip(1)[j] == ships[j + 1]);
        }
        lemma_first_ship_at(ships.skip(1), at - 1, id);
    }
}

/// When no live ship carries `id`, `first_ship_index` finds nothing.
proof fn lemma_first_ship_none(ships: Seq<Ship>, id: u128)
    requires
        forall|j: int| 0 <= j < ships.len() ==> ships[j].id != id,
    ensures
        first_ship_index(ships, id) == None::<int>,
    decreases ships.len(),
{
    if ships.len() > 0 {
        assert forall|j: int| 0 <= j < ships.len() - 1 implies ships.skip(1)[j].id != id by {
            assert(ships.skip(1)[j] == ships[j + 1]);
        }
        lemma_first_ship_none(ships.skip(1), id);
    }
}

/// Finds the first live ship of player `id`.
fn find_ship_index(ships: &Vec<Ship>, id: u128) -> (r: Option<usize>)
    ensures
        match r {
            Some(k) => {
                &&& first_ship_index(ships@, id) == Some(k as int)
                &&& k < ships@.len()
                &&& ships@[k as int].id == id
            },
            None => first_ship_index(ships@, id) is None,
        },
{
    let n = ships.len();
    let mut k: usize = 0;
    while k < n
        invariant
            n == ships@.len(),
            k <= n,
            forall|j: int| 0 <= j < k ==> ships@[j].id != id,
        decreases n - k,
    {
        if ships[k].id == id {
            proof {
                lemma_first_ship_at(ships@, k as int, id);
            }
            return Some(k);
        }
        k += 1;
    }
    proof {
        lemma_first_ship_none(ships@, id);
    }
    None
}

/// What one finish contact does to the race: if the contacted player's
/// ship is still live, their finish time is recorded unless one already
/// is (the first write wins), and the ship leaves the simulation. A
/// contact for a ship no longer live changes nothing.
pub open spec fn resolve_contact(g: GameStateModel, e: ContactEvent, elapsed_ms: u64) -> GameStateModel {
    match first_ship_index(g.ships, e.ship_id) {
        None => g,
        Some(k) => {
            let times = if finish_time_of(g.finish_times, e.ship_id) is Some {
                g.finish_times
            } else {
                g.finish_times.push(FinishEntry { player_id: e.ship_id, time_ms: elapsed_ms })
            };
            GameStateModel { finish_times: times, ships: g.ships.remove(k), ..g }
        },
    }
}

/// What a tick's worth of finish contacts does to the race, in event
/// order.
pub open spec fn resolve_contacts(
    g: GameStateModel,
    events: Seq<ContactEvent>,
    elapsed_ms: u64,
) -> GameStateModel
    decreases events.len(),
{
    if events.len() == 0 {
        g
    } else {
        resolve_contacts(resolve_contact(g, events[0], elapsed_ms), events.skip(1), elapsed_ms)
    }
}

/// One more event extends the fold by one `resolve_contact` step.
proof fn lemma_resolve_contacts_step(
    g: GameStateModel,
    events: Seq<ContactEvent>,
    i: int,
    elapsed_ms: u64,
)
    requires
        0 <= i < events.len(),
    ensures
        resolve_contacts(g, events.take(i + 1), elapsed_ms) == resolve_contact(
            resolve_contacts(g, events.take(i), elapsed_ms),
            events[i],
            elapsed_ms,
        ),
    decreases i,
{
    if i == 0 {
        let s = events.take(1);
        assert(s.len() == 1);
        assert(s[0] == events[0]);
        assert(s.skip(1) =~= Seq::<ContactEvent>::empty());
        assert(resolve_contacts(resolve_contact(g, events[0], elapsed_ms), s.skip(1), elapsed_ms)
            == resolve_contact(g, events[0], elapsed_ms));
        assert(resolve_contacts(g, s, elapsed_ms) == resolve_contact(g, events[0], elapsed_ms));
        assert(events.take(0) =~= Seq::<ContactEvent>::empty());
        assert(resolve_contacts(g, events.take(0), elapsed_ms) == g);
    } else {
        let g1 = resolve_contact(g, events[0], elapsed_ms);
        let rest = events.skip(1);
        assert(events.take(i + 1).len() == i + 1);
        assert(events.take(i + 1)[0] == events[0]);
        assert(events.take(i + 1).skip(1) =~= rest.take(i));
        assert(resolve_contacts(g, events.take(i + 1), elapsed_ms) == resolve_contacts(
            g1,
            rest.take(i),
            elapsed_ms,
        ));
        assert(events.take(i).len() == i);
        assert(events.take(i)[0] == events[0]);
        assert(events.take(i).skip(1) =~= rest.take(i - 1));
        assert(resolve_contacts(g, events.take(i), elapsed_ms) == resolve_contacts(
            g1,
            rest.take(i - 1),
            elapsed_ms,
        ));
        assert(rest[i - 1] == events[i]);
        lemma_resolve_contacts_step(g1, rest, i - 1, elapsed_ms);
    }
}

/// One contact never disturbs an already recorded finish time, and
/// keeps the record free of duplicates.
proof fn lemma_resolve_contact_times(g: GameStateModel, e: ContactEvent, elapsed_ms: u64)
    requires
        finish_entries_unique(g.finish_times),
    ensures
        finish_entries_unique(resolve_contact(g, e, elapsed_ms).finish_times),
        forall|id: u128|
            finish_time_of(g.finish_times, id) is Some ==> finish_time_of(
                resolve_contact(g, e, elapsed_ms).finish_times,
                id,
            ) == finish_time_of(g.finish_times, id),
{
    match first_ship_index(g.ships, e.ship_id) {
        None => {},
        Some(k) => {
            if finish_time_of(g.finish_times, e.ship_id) is Some {
            } else {
                lemma_finish_time_some_iff_present(g.finish_times, e.ship_id);
                lemma_finish_push(g.finish_times, e.ship_id, elapsed_ms);
            }
        },
    }
}

/// A finish time, once recorded, never changes on any later sequence
/// of finish-region contacts: the first write wins, for every player.
pub proof fn law_finish_time_stable(g: GameStateModel, events: Seq<ContactEvent>, elapsed_ms: u64)
    requires
        finish_entries_unique(g.finish_times),
    ensures
        finish_entries_unique(resolve_contacts(g, events, elapsed_ms).finish_times),
        forall|id: u128|
            finish_time_of(g.finish_times, id) is Some ==> finish_time_of(
                resolve_contacts(g, events, elapsed_ms).finish_times,
                id,
            ) == finish_time_of(g.finish_times, id),
    decreases events.len(),
{
    if events.len() > 0 {
        lemma_resolve_contact_times(g, events[0], elapsed_ms);
        law_finish_time_stable(resolve_contact(g, events[0], elapsed_ms), events.skip(1), elapsed_ms);
    }
}

/// Consumes this tick's finish contacts: records each contacted live
/// player's finish time exactly once, at the race-elapsed millisecond,
/// and removes finished ships from the simulation.
pub fn handle_collision_events(app: &mut AppState, events: &Vec<ContactEvent>, now_ms: u64)
    requires
        old(app)@.wf(),
        match old(app)@.active_game {
            Some(g) => now_ms >= g.started_at_ms,
            None => true,
        },
    ensures
        final(app)@.wf(),
        final(app)@ == (AppStateModel {
            active_game: final(app)@.active_game,
            ..old(app)@
        }),
        match old(app)@.active_game {
            None => final(app)@ == old(app)@,
            Some(g) => {
                &&& final(app)@.active_game == Some(
                    resolve_contacts(g, events@, (now_ms - g.started_at_ms) as u64),
                )
                // a finish time, once recorded, never changes
                &&& forall|id: u128|
                    finish_time_of(g.finish_times, id) is Some ==> finish_time_of(
                        final(app)@.active_game->Some_0.finish_times,
                        id,
                    ) == finish_time_of(g.finish_times, id)
            },
        },
{
    match &mut app.active_game {
        None => {},
        Some(game) => {
            let ghost g0 = game@;
            let elapsed: u64 = now_ms - game.started_at_ms;
            let n = events.len();
            let mut t: usize = 0;
            while t < n
                invariant
                    n == events@.len(),
                    t <= n,
                    game@ == resolve_contacts(g0, events@.take(t as int), elapsed),
                    game@ == (GameStateModel {
                        finish_times: game@.finish_times,
                        ships: game@.ships,
                        ..g0
                    }),
                    finish_entries_unique(game@.finish_times),
                    forall|k: int|
                        0 <= k < game@.finish_times.len() ==> g0.has_player_id(
                            (#[trigger] game@.finish_times[k]).player_id,
                        ),
                    forall|k: int|
                        0 <= k < game@.ships.len() ==> g0.has_player_id(
                            (#[trigger] game@.ships[k]).id,
                        ),
                decreases n - t,
            {
                let ghost gpre = game@;
                let e = events[t];
                match find_ship_index(&game.ships, e.ship_id) {
                    None => {},
                    Some(k) => {
                        proof {
                            assert(gpre.has_player_id(e.ship_id));
                        }
                        game.record_finish_once(e.ship_id, elapsed);
                        game.ships.remove(k);
                        proof {
                            assert(game@ =~= resolve_contact(gpre, e, elapsed));
                        }
                    },
                }
                proof {
                    lemma_resolve_contacts_step(g0, events@, t as int, elapsed);
                    assert(game@ == resolve_contacts(g0, events@.take(t as int + 1), elapsed));
                }
                t += 1;
            }
            proof {
                assert(events@.take(n as int) =~= events@);
                law_finish_time_stable(g0, events@, elapsed);
                assert forall|k: int|
                    0 <= k < game@.players.len() implies game@.players[k] == g0.players[k] by {}
            }
        },
    }
}

/// Triggers Running to Finished exactly when every player of the race
/// has a recorded finish time, and starts the one-shot settle timer.
pub fn check_all_players_finished_system(app: &mut AppState, lc: &mut Lifecycle, now_ms: u64)
    requires
        old(app)@.wf(),
        lifecycle_wf(old(app)@, *old(lc)),
        now_ms <= MAX_CLOCK_MS,
    ensures
        final(app)@.wf(),
        lifecycle_wf(final(app)@, *final(lc)),
        final(app)@ == (AppStateModel {
            active_game: final(app)@.active_game,
            ..old(app)@
        }),
        match old(app)@.active_game {
            None => final(app)@ == old(app)@ && *final(lc) == *old(lc),
            Some(g) => {
                if g.state == GameStatus::Running && g.all_finished() {
                    &&& final(app)@.active_game == Some(
                        GameStateModel { state: GameStatus::Finished, ..g },
                    )
                    &&& *final(lc) == (Lifecycle {
                        transition_timer: Some(
                            TransitionTimer { deadline_ms: (now_ms + SETTLE_DELAY_MS) as u64 },
                        ),
                        ..*old(lc)
                    })
                } else {
                    &&& final(app)@ == old(app)@
                    &&& *final(lc) == *old(lc)
                }
            },
        },
{
    match &mut app.active_game {
        None => {},
        Some(game) => {
            let running = match game.state {
                GameStatus::Running => true,
                _ => false,
            };
            if running && game.finish_times.len() == game.players.len() {
                game.state = GameStatus::Finished;
                lc.transition_timer = Some(
                    TransitionTimer { deadline_ms: now_ms + SETTLE_DELAY_MS },
                );
            }
        },
    }
}

/// Clears a finished race once the settle window has elapsed, never
/// earlier: the race state is torn down, the settle timer discarded,
/// the machine returns to idle and the matchmaking scheduler is
/// re-armed. The pending-match queue is untouched.
pub fn transition_to_inactive_system(app: &mut AppState, lc: &mut Lifecycle, now_ms: u64)
    requires
        old(app)@.wf(),
        lifecycle_wf(old(app)@, *old(lc)),
        now_ms <= MAX_CLOCK_MS,
    ensures
        final(app)@.wf(),
        lifecycle_wf(final(app)@, *final(lc)),
        final(app)@ == (AppStateModel {
            active_game: final(app)@.active_game,
            ..old(app)@
        }),
        match old(lc).transition_timer {
            Some(t) => {
                if now_ms >= t.deadline_ms {
                    &&& final(app)@.active_game is None
                    &&& *final(lc) == (Lifecycle {
                        server_state: ServerState::Inactive,
                        scheduler: GameSchedulerConfig {
                            next_run_ms: (now_ms + SCHEDULER_INTERVAL_MS) as u64,
                        },
                        transition_timer: None,
                    })
                } else {
                    &&& final(app)@ == old(app)@
                    &&& *final(lc) == *old(lc)
                }
            },
            None => final(app)@ == old(app)@ && *final(lc) == *old(lc),
        },
{
    let fire = match lc.transition_timer {
        Some(t) => now_ms >= t.deadline_ms,
        None => false,
    };
    if fire {
        app.active_game = None;
        lc.server_state = ServerState::Inactive;
        lc.scheduler = GameSchedulerConfig { next_run_ms: now_ms + SCHEDULER_INTERVAL_MS };
        lc.transition_timer = None;
    }
}

} // verus!
