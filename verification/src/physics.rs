//! The boundary rule the physics collaborator does not know: ships
//! cannot leave the play area.

use vstd::prelude::*;
use crate::app_state::{AppState, AppStateModel};
use crate::game_state::GameStateModel;
use crate::geometry::{Vec2i, clamp_i64, spec_clamp};
use crate::map::GameMapModel;
use crate::ship::{Ship, SHIP_HALF_EXTENT};

verus! {

/// The ship forced inside the map: each coordinate clamped so that the
/// whole sprite stays within the map's half-extents. The map is
/// centred on the origin.
pub open spec fn clamped_ship(s: Ship, m: GameMapModel) -> Ship {
    Ship {
        position: Vec2i {
            x: spec_clamp(
                s.position.x as int,
                -(m.size.x as int / 2) + SHIP_HALF_EXTENT,
                m.size.x as int / 2 - SHIP_HALF_EXTENT,
            ) as i64,
            y: spec_clamp(
                s.position.y as int,
                -(m.size.y as int / 2) + SHIP_HALF_EXTENT,
                m.size.y as int / 2 - SHIP_HALF_EXTENT,
            ) as i64,
        },
        ..s
    }
}

/// Clamps every live ship's position to the map bounds after a physics
/// step. Without a race it does nothing.
pub fn apply_bounds_system(app: &mut AppState)
    requires
        old(app)@.wf(),
    ensures
        final(app)@.wf(),
        final(app)@ == (AppStateModel {
            active_game: final(app)@.active_game,
            ..old(app)@
        }),
        match old(app)@.active_game {
            None => final(app)@ == old(app)@,
            Some(g) => final(app)@.active_game == Some(
                GameStateModel {
                    ships: Seq::new(g.ships.len(), |k: int| clamped_ship(g.ships[k], g.map)),
                    ..g
                },
            ),
        },
{
    match &mut app.active_game {
        None => {},
        Some(game) => {
            let ghost g = game@;
            let half_w = game.map.size.x / 2;
            let half_h = game.map.size.y / 2;
            let min_x = -half_w + SHIP_HALF_EXTENT;
            let max_x = half_w - SHIP_HALF_EXTENT;
            let min_y = -half_h + SHIP_HALF_EXTENT;
            let max_y = half_h - SHIP_HALF_EXTENT;
            let n = game.ships.len();
            let mut out: Vec<Ship> = Vec::new();
            let mut k: usize = 0;
            while k < n
                invariant
                    n == game.ships@.len(),
                    g == game@,
                    min_x == -(g.map.size.x / 2) + SHIP_HALF_EXTENT,
                    max_x == g.map.size.x / 2 - SHIP_HALF_EXTENT,
                    min_y == -(g.map.size.y / 2) + SHIP_HALF_EXTENT,
                    max_y == g.map.size.y / 2 - SHIP_HALF_EXTENT,
                    min_x <= max_x,
                    min_y <= max_y,
                    k <= n,
                    out@.len() == k,
                    forall|x: int| 0 <= x < k ==> out@[x] == clamped_ship(g.ships[x], g.map),
                decreases n - k,
            {
                let s = game.ships[k];
                out.push(
                    Ship {
                        id: s.id,
                        position: Vec2i {
                            x: clamp_i64(s.position.x, min_x, max_x),
                            y: clamp_i64(s.position.y, min_y, max_y),
                        },
                        velocity: s.velocity,
                        orientation: s.orientation,
                        angular_velocity: s.angular_velocity,
                    },
                );
                k += 1;
            }
            game.ships = out;
            proof {
                assert(game@.ships =~= Seq::new(g.ships.len(), |x: int| clamped_ship(g.ships[x], g.map)));
                assert(game@ =~= (GameStateModel { ships: game@.ships, ..g }));
                assert forall|x: int| 0 <= x < game@.ships.len() implies game@.has_player_id(
                    (#[trigger] game@.ships[x]).id,
                ) by {
                    assert(game@.ships[x].id == g.ships[x].id);
                }
            }
        },
    }
}

} // verus!
