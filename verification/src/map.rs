//! Track geometry, immutable once loaded and shared by a whole race.
//!
//! The map provider (outside this crate) turns map files into these
//! records; the game rules only read them.

use vstd::prelude::*;
use crate::geometry::{Vec2i, VectorObject, VectorObjectModel};
use crate::ship::SHIP_HALF_EXTENT;

verus! {

/// A track: world size and gravity, plus obstacle, start-region and
/// finish-region polygons. Lengths in milli-units.
pub struct GameMap {
    pub name: String,
    pub skin_path: Option<String>,
    pub ship_path: Option<String>,
    pub size: Vec2i,
    pub gravity: i64,
    pub obstacles: Vec<VectorObject>,
    pub start_regions: Vec<VectorObject>,
    pub finish_regions: Vec<VectorObject>,
}

/// Mathematical model of a `GameMap`.
#[verifier::ext_equal]
pub struct GameMapModel {
    pub name: Seq<char>,
    pub skin_path: Option<Seq<char>>,
    pub ship_path: Option<Seq<char>>,
    pub size: Vec2i,
    pub gravity: i64,
    pub obstacles: Seq<VectorObjectModel>,
    pub start_regions: Seq<VectorObjectModel>,
    pub finish_regions: Seq<VectorObjectModel>,
}

impl View for GameMap {
    type V = GameMapModel;

    open spec fn view(&self) -> GameMapModel {
        GameMapModel {
            name: self.name@,
            skin_path: self.skin_path.deep_view(),
            ship_path: self.ship_path.deep_view(),
            size: self.size,
            gravity: self.gravity,
            obstacles: self.obstacles@.map_values(|o: VectorObject| o@),
            start_regions: self.start_regions@.map_values(|o: VectorObject| o@),
            finish_regions: self.finish_regions@.map_values(|o: VectorObject| o@),
        }
    }
}

impl GameMapModel {
    /// A usable track: bounded in size, big enough to hold a ship, and
    /// with at least one start region to spawn ships in.
    pub open spec fn wf(self) -> bool {
        &&& 0 <= self.size.x <= 1_000_000_000
        &&& 0 <= self.size.y <= 1_000_000_000
        &&& 2 * SHIP_HALF_EXTENT <= self.size.x
        &&& 2 * SHIP_HALF_EXTENT <= self.size.y
        &&& self.start_regions.len() >= 1
    }
}

/// Clones a polygon list, keeping each object's value.
pub fn clone_objects(v: &Vec<VectorObject>) -> (res: Vec<VectorObject>)
    ensures
        res@.len() == v@.len(),
        forall|k: int| 0 <= k < v@.len() ==> res@[k]@ == v@[k]@,
{
    let mut res: Vec<VectorObject> = Vec::new();
    let n = v.len();
    let mut i: usize = 0;
    while i < n
        invariant
            n == v@.len(),
            i <= n,
            res@.len() == i,
            forall|k: int| 0 <= k < i ==> res@[k]@ == v@[k]@,
        decreases n - i,
    {
        res.push(v[i].clone());
        i += 1;
    }
    res
}

impl Clone for GameMap {
    fn clone(&self) -> (res: Self)
        ensures
            res@ == self@,
    {
        let res = GameMap {
            name: self.name.clone(),
            skin_path: crate::player::clone_opt_string(&self.skin_path),
            ship_path: crate::player::clone_opt_string(&self.ship_path),
            size: self.size,
            gravity: self.gravity,
            obstacles: clone_objects(&self.obstacles),
            start_regions: clone_objects(&self.start_regions),
            finish_regions: clone_objects(&self.finish_regions),
        };
        proof {
            assert(res@.obstacles =~= self@.obstacles);
            assert(res@.start_regions =~= self@.start_regions);
            assert(res@.finish_regions =~= self@.finish_regions);
            assert(res@ =~= self@);
        }
        res
    }
}

/// The models of a map catalog, in order.
pub open spec fn map_models(maps: Seq<GameMap>) -> Seq<GameMapModel> {
    maps.map_values(|m: GameMap| m@)
}

/// True when some map of `maps` carries the name `name`.
pub open spec fn has_map_named(maps: Seq<GameMapModel>, name: Seq<char>) -> bool {
    exists|i: int| 0 <= i < maps.len() && maps[i].name == name
}

/// The position of the first map named `name`, or `None` when the name
/// resolves to no map.
pub open spec fn first_map_named(maps: Seq<GameMapModel>, name: Seq<char>) -> Option<int>
    decreases maps.len(),
{
    if maps.len() == 0 {
        None
    } else if maps[0].name == name {
        Some(0)
    } else {
        match first_map_named(maps.skip(1), name) {
            Some(i) => Some(i + 1),
            None => None,
        }
    }
}

/// When the first map named `name` sits at position `at`,
/// `first_map_named` returns that position.
proof fn lemma_first_map_at(maps: Seq<GameMapModel>, at: int, name: Seq<char>)
    requires
        0 <= at < maps.len(),
        maps[at].name == name,
        forall|j: int| 0 <= j < at ==> maps[j].name != name,
    ensures
        first_map_named(maps, name) == Some(at),
    decreases at,
{
    if at > 0 {
        assert(maps.skip(1)[at - 1] == maps[at]);
        assert forall|j: int| 0 <= j < at - 1 implies maps.skip(1)[j].name != name by {
            assert(maps.skip(1)[j] == maps[j + 1]);
        }
        lemma_first_map_at(maps.skip(1), at - 1, name);
    }
}

/// When no map carries `name`, `first_map_named` finds nothing.
proof fn lemma_first_map_none(maps: Seq<GameMapModel>, name: Seq<char>)
    requires
        forall|j: int| 0 <= j < maps.len() ==> maps[j].name != name,
    ensures
        first_map_named(maps, name) == None::<int>,
    decreases maps.len(),
{
    if maps.len() > 0 {
        assert forall|j: int| 0 <= j < maps.len() - 1 implies maps.skip(1)[j].name != name by {
            assert(maps.skip(1)[j] == maps[j + 1]);
        }
        lemma_first_map_none(maps.skip(1), name);
    }
}

/// Looks a map up by name: the provider's `load` operation. Returns the
/// position of the first map with that name, or `None` when the name
/// resolves to no map.
pub fn find_map_index(maps: &Vec<GameMap>, name: &String) -> (r: Option<usize>)
    ensures
        match r {
            Some(i) => {
                &&& first_map_named(map_models(maps@), name@) == Some(i as int)
                &&& i < maps@.len()
                &&& map_models(maps@)[i as int].name == name@
            },
            None => {
                &&& first_map_named(map_models(maps@), name@) is None
                &&& !has_map_named(map_models(maps@), name@)
            },
        },
{
    let ghost models = map_models(maps@);
    let n = maps.len();
    let mut i: usize = 0;
    while i < n
        invariant
            n == maps@.len(),
            models == map_models(maps@),
            i <= n,
            forall|j: int| 0 <= j < i ==> (#[trigger] models[j]).name != name@,
        decreases n - i,
    {
        proof {
            assert(models[i as int] == maps@[i as int]@);
        }
        if maps[i].name == *name {
            proof {
                lemma_first_map_at(models, i as int, name@);
            }
            return Some(i);
        }
        i += 1;
    }
    proof {
        lemma_first_map_none(models, name@);
    }
    None
}

} // verus!
