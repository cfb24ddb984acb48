//! Last-write-wins control inputs: one entry per player, overwritten by
//! the network layer and read (but never cleared) by the simulation.

use vstd::prelude::*;

verus! {

/// The latest thrust and rotation command of one player. Thrust and
/// rotation are nominally in `{-1, 0, 1}`; the simulation scales
/// whatever byte arrives by the ship's impulse constants, as the
/// network layer does not range-check them.
#[derive(PartialEq, Eq, Structural, Clone, Copy, Debug)]
pub struct ShipInput {
    pub thrust: i8,
    pub rotation: i8,
}

impl Default for ShipInput {
    /// No thrust, no rotation: the ship coasts.
    fn default() -> (r: Self)
        ensures
            r.thrust == 0,
            r.rotation == 0,
    {
        ShipInput { thrust: 0, rotation: 0 }
    }
}

/// One player's slot in the control-input table.
#[derive(PartialEq, Eq, Structural, Clone, Copy, Debug)]
pub struct ControlEntry {
    pub player_id: u128,
    pub input: ShipInput,
}

/// The input recorded for `id`: the first entry with that player id,
/// or `None` when the player has sent no command yet.
pub open spec fn input_of(entries: Seq<ControlEntry>, id: u128) -> Option<ShipInput>
    decreases entries.len(),
{
    if entries.len() == 0 {
        None
    } else if entries[0].player_id == id {
        Some(entries[0].input)
    } else {
        input_of(entries.skip(1), id)
    }
}

/// Entry ids are pairwise distinct, so `input_of` describes the whole
/// table.
pub open spec fn entries_unique(entries: Seq<ControlEntry>) -> bool {
    forall|i: int, j: int|
        0 <= i < j < entries.len() ==> entries[i].player_id != entries[j].player_id
}

/// Overwrites the input recorded for `id`, or records a first one:
/// last write wins.
pub fn store_input(entries: &mut Vec<ControlEntry>, id: u128, input: ShipInput)
    requires
        entries_unique(old(entries)@),
    ensures
        entries_unique(final(entries)@),
        input_of(final(entries)@, id) == Some(input),
        forall|other: u128|
            other != id ==> input_of(final(entries)@, other) == input_of(old(entries)@, other),
{
    let n = entries.len();
    let mut i: usize = 0;
    while i < n
        invariant
            n == entries.len(),
            i <= n,
            entries_unique(entries@),
            entries@ == old(entries)@,
            forall|k: int| 0 <= k < i ==> entries@[k].player_id != id,
        decreases n - i,
    {
        if entries[i].player_id == id {
            entries[i] = ControlEntry { player_id: id, input };
            proof {
                lemma_input_of_update(old(entries)@, entries@, i as int, id, input);
            }
            return ;
        }
        i += 1;
    }
    entries.push(ControlEntry { player_id: id, input });
    proof {
        lemma_input_of_push(old(entries)@, id, input);
    }
}

/// Reads the input recorded for `id`, if any.
pub fn lookup_input(entries: &Vec<ControlEntry>, id: u128) -> (r: Option<ShipInput>)
    ensures
        r == input_of(entries@, id),
{
    let n = entries.len();
    let mut i: usize = 0;
    while i < n
        invariant
            n == entries@.len(),
            i <= n,
            forall|k: int| 0 <= k < i ==> entries@[k].player_id != id,
        decreases n - i,
    {
        if entries[i].player_id == id {
            proof {
                lemma_input_first_hit(entries@, i as int, id);
            }
            return Some(entries[i].input);
        }
        i += 1;
    }
    proof {
        lemma_input_no_hit(entries@, id);
    }
    None
}

/// When the first entry for `id` sits at position `at`, `input_of`
/// returns its input.
proof fn lemma_input_first_hit(entries: Seq<ControlEntry>, at: int, id: u128)
    requires
        0 <= at < entries.len(),
        entries[at].player_id == id,
        forall|k: int| 0 <= k < at ==> entries[k].player_id != id,
    ensures
        input_of(entries, id) == Some(entries[at].input),
    decreases at,
{
    if at > 0 {
        assert(entries.skip(1)[at - 1] == entries[at]);
        assert forall|k: int| 0 <= k < at - 1 implies entries.skip(1)[k].player_id != id by {
            assert(entries.skip(1)[k] == entries[k + 1]);
        }
        lemma_input_first_hit(entries.skip(1), at - 1, id);
    }
}

/// When no entry carries `id`, `input_of` finds nothing.
proof fn lemma_input_no_hit(entries: Seq<ControlEntry>, id: u128)
    requires
        forall|k: int| 0 <= k < entries.len() ==> entries[k].player_id != id,
    ensures
        input_of(entries, id) == None::<ShipInput>,
    decreases entries.len(),
{
    if entries.len() > 0 {
        assert forall|k: int| 0 <= k < entries.len() - 1 implies entries.skip(1)[k].player_id
            != id by {
            assert(entries.skip(1)[k] == entries[k + 1]);
        }
        lemma_input_no_hit(entries.skip(1), id);
    }
}

/// Updating the entry at `at` (which holds `id`) rewrites `input_of`
/// pointwise: `id` now maps to `input`, all other ids are untouched.
proof fn lemma_input_of_update(
    pre: Seq<ControlEntry>,
    post: Seq<ControlEntry>,
    at: int,
    id: u128,
    input: ShipInput,
)
    requires
        0 <= at < pre.len(),
        pre[at].player_id == id,
        entries_unique(pre),
        post == pre.update(at, ControlEntry { player_id: id, input }),
    ensures
        entries_unique(post),
        input_of(post, id) == Some(input),
        forall|other: u128| other != id ==> input_of(post, other) == input_of(pre, other),
    decreases at,
{
    assert forall|i: int, j: int| 0 <= i < j < post.len() implies post[i].player_id
        != post[j].player_id by {
        assert(pre[i].player_id != pre[j].player_id);
    }
    if at == 0 {
        assert(post[0].player_id == id);
        assert forall|other: u128| other != id implies input_of(post, other) == input_of(
            pre,
            other,
        ) by {
            assert(post.skip(1) =~= pre.skip(1));
        }
    } else {
        let pre1 = pre.skip(1);
        let post1 = post.skip(1);
        assert(post1 =~= pre1.update(at - 1, ControlEntry { player_id: id, input }));
        lemma_input_of_update(pre1, post1, at - 1, id, input);
        assert(post[0] == pre[0]);
        assert(pre[0].player_id != id);
        assert(input_of(post, id) == Some(input));
        assert forall|other: u128| other != id implies input_of(post, other) == input_of(
            pre,
            other,
        ) by {
            if pre[0].player_id != other {
                assert(input_of(post, other) == input_of(post1, other));
                assert(input_of(pre, other) == input_of(pre1, other));
            }
        }
    }
}

/// Appending an entry for an id not yet present extends `input_of` with
/// that id and leaves every other id untouched.
proof fn lemma_input_of_push(pre: Seq<ControlEntry>, id: u128, input: ShipInput)
    requires
        entries_unique(pre),
        forall|k: int| 0 <= k < pre.len() ==> pre[k].player_id != id,
    ensures
        entries_unique(pre.push(ControlEntry { player_id: id, input })),
        input_of(pre.push(ControlEntry { player_id: id, input }), id) == Some(input),
        forall|other: u128|
            other != id ==> input_of(pre.push(ControlEntry { player_id: id, input }), other)
                == input_of(pre, other),
    decreases pre.len(),
{
    let post = pre.push(ControlEntry { player_id: id, input });
    if pre.len() == 0 {
        assert(post.len() == 1);
        assert(post[0].player_id == id);
        assert forall|other: u128| other != id implies input_of(post, other) == input_of(
            pre,
            other,
        ) by {
            assert(input_of(post.skip(1), other) == None::<ShipInput>) by {
                assert(post.skip(1) =~= Seq::<ControlEntry>::empty());
            }
        }
    } else {
        let pre1 = pre.skip(1);
        let post1 = post.skip(1);
        assert(post1 =~= pre1.push(ControlEntry { player_id: id, input }));
        lemma_input_of_push(pre1, id, input);
        assert(post[0] == pre[0]);
        assert(input_of(post, id) == Some(input));
        assert forall|other: u128| other != id implies input_of(post, other) == input_of(
            pre,
            other,
        ) by {
            if pre[0].player_id != other {
                assert(input_of(post, other) == input_of(post1, other));
                assert(input_of(pre, other) == input_of(pre1, other));
            }
        }
    }
}

} // verus!

verus! {

/// One batch entry handed to the physics collaborator: the linear
/// impulse magnitude to apply along the ship's current heading, and
/// the torque impulse, both in milli-units. The collaborator turns
/// the magnitude into a vector using the ship body's heading.
#[derive(PartialEq, Eq, Structural, Clone, Copy, Debug)]
pub struct ImpulseCommand {
    pub ship_id: u128,
    pub impulse_scale: i64,
    pub torque_impulse: i64,
}

/// The impulse command a ship's recorded input produces: thrust and
/// rotation scaled by the per-ship impulse constants.
pub open spec fn command_for(s: crate::ship::Ship, inp: ShipInput) -> ImpulseCommand {
    ImpulseCommand {
        ship_id: s.id,
        impulse_scale: (inp.thrust as int * crate::ship::SHIP_IMPULSE) as i64,
        torque_impulse: (inp.rotation as int * crate::ship::SHIP_TORQUE_IMPULSE) as i64,
    }
}

/// The whole batch for one tick: one command per live ship with a
/// recorded input, in ship order. A ship without an input gets no
/// command and coasts.
pub open spec fn control_commands(
    ships: Seq<crate::ship::Ship>,
    inputs: Seq<ControlEntry>,
) -> Seq<ImpulseCommand>
    decreases ships.len(),
{
    if ships.len() == 0 {
        Seq::empty()
    } else {
        let front = control_commands(ships.drop_last(), inputs);
        match input_of(inputs, ships.last().id) {
            Some(inp) => front.push(command_for(ships.last(), inp)),
            None => front,
        }
    }
}

/// Builds the impulse batch for the current tick from the control
/// inputs as they stand at the start of the tick: the inputs are read,
/// not cleared, so a command persists until superseded.
pub fn apply_controls_system(app: &crate::app_state::AppState) -> (r: Vec<ImpulseCommand>)
    ensures
        match app@.active_game {
            None => r@.len() == 0,
            Some(g) => r@ == control_commands(g.ships, app@.control_inputs),
        },
{
    match &app.active_game {
        None => Vec::new(),
        Some(game) => {
            let ghost gships = game.ships@;
            let ghost inputs = app.control_inputs@;
            let mut out: Vec<ImpulseCommand> = Vec::new();
            let n = game.ships.len();
            let mut k: usize = 0;
            while k < n
                invariant
                    n == game.ships@.len(),
                    gships == game.ships@,
                    inputs == app.control_inputs@,
                    k <= n,
                    out@ == control_commands(gships.take(k as int), inputs),
                decreases n - k,
            {
                let s = game.ships[k];
                match lookup_input(&app.control_inputs, s.id) {
                    Some(inp) => {
                        out.push(
                            ImpulseCommand {
                                ship_id: s.id,
                                impulse_scale: (inp.thrust as i64) * crate::ship::SHIP_IMPULSE,
                                torque_impulse: (inp.rotation as i64)
                                    * crate::ship::SHIP_TORQUE_IMPULSE,
                            },
                        );
                    },
                    None => {},
                }
                proof {
                    let t = gships.take(k as int + 1);
                    assert(t.drop_last() =~= gships.take(k as int));
                    assert(t.last() == gships[k as int]);
                }
                k += 1;
            }
            proof {
                assert(gships.take(n as int) =~= gships);
            }
            out
        },
    }
}

/// Publishes the ship snapshots the physics collaborator reported for
/// this tick, replacing the race's public snapshot wholesale. Without
/// a race the report is dropped.
pub fn update_public_game_state_system(app: &mut crate::app_state::AppState, ships: Vec<crate::ship::Ship>)
    requires
        old(app)@.wf(),
        match old(app)@.active_game {
            Some(g) => forall|k: int|
                0 <= k < ships@.len() ==> g.has_player_id((#[trigger] ships@[k]).id),
            None => true,
        },
    ensures
        final(app)@.wf(),
        final(app)@ == (crate::app_state::AppStateModel {
            active_game: final(app)@.active_game,
            ..old(app)@
        }),
        match old(app)@.active_game {
            None => final(app)@ == old(app)@,
            Some(g) => final(app)@.active_game == Some(
                crate::game_state::GameStateModel { ships: ships@, ..g },
            ),
        },
{
    match &mut app.active_game {
        None => {},
        Some(game) => {
            game.ships = ships;
        },
    }
}

} // verus!
