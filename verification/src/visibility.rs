use vstd::prelude::*;
use crate::components::Position;
use crate::components::Viewshed;
use crate::fov::Point;
use crate::fov::field_of_view;
use crate::fov::tile_visible;
use crate::grid::TileGrid;
use crate::grid::idx_spec;
use crate::grid::in_bounds_spec;
use crate::store::EntityStore;

verus! {

/// How one recompute pass leaves a viewshed: a stale cache is rebuilt as
/// exactly the field of view from the entity's position and marked clean; a
/// clean cache is untouched.
pub open spec fn viewshed_updated(g: TileGrid, pos: Position, v0: Viewshed, v1: Viewshed) -> bool {
    if v0.dirty {
        &&& v1.dirty == false
        &&& v1.range == v0.range
        &&& forall|p: Point|
            #[trigger] v1.visible_tiles@.contains(p) <==> tile_visible(
                g.tiles@,
                g.width as int,
                g.height as int,
                pos.x as int,
                pos.y as int,
                v0.range as int,
                p.x as int,
                p.y as int,
            )
    } else {
        v1 == v0
    }
}

/// How projecting the player's freshly computed view leaves the grid masks:
/// `visible` holds exactly the indices of the view's points, and `revealed`
/// is the old mask joined with the new `visible` — never cleared.
pub open spec fn masks_projected(g0: TileGrid, g1: TileGrid, vt: Seq<Point>) -> bool {
    let w = g0.width as int;
    &&& forall|k: int|
        0 <= k < g0.area() ==> ((#[trigger] g1.visible_tiles@[k]) <==> exists|p: Point|
            #[trigger] vt.contains(p) && idx_spec(w, p.x as int, p.y as int) == k)
    &&& forall|k: int|
        0 <= k < g0.area() ==> (#[trigger] g1.revealed_tiles@[k]) == (g0.revealed_tiles@[k]
            || g1.visible_tiles@[k])
}

/// The visibility engine: one pass recomputes every stale viewshed and
/// projects the player's view onto the grid masks.
pub struct VisibilitySystem {}

impl VisibilitySystem {
    /// One recompute pass over all entities jointly holding Position and
    /// Viewshed: stale viewsheds are rebuilt from the grid and cleaned, and
    /// if the entity carries the Player tag the `visible` mask is rebuilt
    /// from scratch out of its view while `revealed` only ever grows.
    #[verifier::loop_isolation(false)]
    pub fn run(&self, grid: &mut TileGrid, store: &mut EntityStore)
        requires
            old(grid).inv(),
            old(store).inv(),
            old(store).wf_for(old(grid).width as int, old(grid).height as int),
            old(store).unique_player(),
        ensures
            final(grid).inv(),
            final(grid).tiles == old(grid).tiles,
            final(grid).rooms == old(grid).rooms,
            final(grid).width == old(grid).width,
            final(grid).height == old(grid).height,
            final(store).inv(),
            final(store).len() == old(store).len(),
            final(store).players@ == old(store).players@,
            final(store).renderables@ == old(store).renderables@,
            final(store).positions@ == old(store).positions@,
            final(store).wf_for(old(grid).width as int, old(grid).height as int),
            final(store).unique_player(),
            forall|j: int|
                0 <= j < old(store).len() && (#[trigger] old(store).positions@[j]) is Some
                    && old(store).viewsheds@[j] is Some ==> final(store).viewsheds@[j] is Some
                    && viewshed_updated(
                    *old(grid),
                    old(store).positions@[j]->0,
                    old(store).viewsheds@[j]->0,
                    final(store).viewsheds@[j]->0,
                ),
            forall|j: int|
                0 <= j < old(store).len() && !((#[trigger] old(store).positions@[j]) is Some
                    && old(store).viewsheds@[j] is Some)
                    ==> final(store).viewsheds@[j] == old(store).viewsheds@[j],
            forall|j: int|
                #[trigger] old(store).has_full_player(j) && old(store).viewsheds@[j]->0.dirty
                    ==> masks_projected(
                    *old(grid),
                    *final(grid),
                    final(store).viewsheds@[j]->0.visible_tiles@,
                ),
            (forall|j: int|
                !(#[trigger] old(store).has_full_player(j) && old(store).viewsheds@[j]->0.dirty))
                ==> final(grid).visible_tiles == old(grid).visible_tiles
                    && final(grid).revealed_tiles == old(grid).revealed_tiles,
            forall|k: int|
                0 <= k < old(grid).area() && old(grid).revealed_tiles@[k]
                    ==> final(grid).revealed_tiles@[k],
    {
        let n = store.positions.len();
        let mut id: usize = 0;
        while id < n
            invariant
                grid.inv(),
                grid.tiles == old(grid).tiles,
                grid.rooms == old(grid).rooms,
                grid.width == old(grid).width,
                grid.height == old(grid).height,
                store.inv(),
                store.len() == old(store).len(),
                store.players@ == old(store).players@,
                store.renderables@ == old(store).renderables@,
                store.positions@ == old(store).positions@,
                0 <= id <= n,
                forall|j: int|
                    0 <= j < id && (#[trigger] old(store).positions@[j]) is Some
                        && old(store).viewsheds@[j] is Some ==> store.viewsheds@[j] is Some
                        && viewshed_updated(
                        *old(grid),
                        old(store).positions@[j]->0,
                        old(store).viewsheds@[j]->0,
                        store.viewsheds@[j]->0,
                    ),
                forall|j: int|
                    0 <= j < old(store).len() && (j >= id
                        || !((#[trigger] old(store).positions@[j]) is Some
                        && old(store).viewsheds@[j] is Some))
                        ==> store.viewsheds@[j] == old(store).viewsheds@[j],
                forall|j: int|
                    #[trigger] old(store).has_full_player(j) && old(store).viewsheds@[j]->0.dirty
                        && j < id ==> masks_projected(
                        *old(grid),
                        *grid,
                        store.viewsheds@[j]->0.visible_tiles@,
                    ),
                (forall|j: int|
                    !(#[trigger] old(store).has_full_player(j)
                        && old(store).viewsheds@[j]->0.dirty && j < id)) ==> grid.visible_tiles
                    == old(grid).visible_tiles && grid.revealed_tiles == old(grid).revealed_tiles,
            decreases n - id,
        {
            let p_opt = store.positions[id];
            match p_opt {
                Some(pos) => {
                    let is_player = store.players[id];
                    let vs_slot = &mut store.viewsheds[id];
                    match vs_slot {
                        Some(v) => {
                            if v.dirty {
                                proof {
                                    assert(old(store).viewsheds@[id as int] is Some);
                                    assert(v.range <= 0x3fff);
                                }
                                v.dirty = false;
                                let vt = field_of_view(grid, pos.x, pos.y, v.range as u16);
                                v.visible_tiles = vt;
                                if is_player {
                                    proof {
                                        assert(old(store).has_full_player(id as int));
                                        assert(grid.visible_tiles == old(grid).visible_tiles);
                                        assert(grid.revealed_tiles == old(grid).revealed_tiles);
                                    }
                                    grid.clear_visible();
                                    let m = v.visible_tiles.len();
                                    let mut t: usize = 0;
                                    while t < m
                                        invariant
                                            grid.inv(),
                                            grid.tiles == old(grid).tiles,
                                            grid.rooms == old(grid).rooms,
                                            grid.width == old(grid).width,
                                            grid.height == old(grid).height,
                                            0 <= t <= m,
                                            m == v.visible_tiles@.len(),
                                            forall|p: Point|
                                                #[trigger] v.visible_tiles@.contains(p)
                                                    ==> in_bounds_spec(
                                                    grid.width as int,
                                                    grid.height as int,
                                                    p.x as int,
                                                    p.y as int,
                                                ),
                                            forall|k: int|
                                                0 <= k < grid.area() ==> ((
                                                #[trigger] grid.visible_tiles@[k]) <==> exists|
                                                    ti: int,
                                                |
                                                    0 <= ti < t && idx_spec(
                                                        grid.width as int,
                                                        (#[trigger] v.visible_tiles@[ti]).x as int,
                                                        v.visible_tiles@[ti].y as int,
                                                    ) == k),
                                            forall|k: int|
                                                0 <= k < grid.area() ==> (
                                                #[trigger] grid.revealed_tiles@[k])
                                                    == (old(grid).revealed_tiles@[k]
                                                    || grid.visible_tiles@[k]),
                                        decreases m - t,
                                    {
                                        let pt = v.visible_tiles[t];
                                        proof {
                                            assert(v.visible_tiles@.contains(
                                                v.visible_tiles@[t as int],
                                            ));
                                        }
                                        let k = grid.xy_idx(pt.x, pt.y);
                                        let ghost vis0 = grid.visible_tiles@;
                                        let ghost rev0 = grid.revealed_tiles@;
                                        grid.revealed_tiles[k] = true;
                                        grid.visible_tiles[k] = true;
                                        proof {
                                            assert forall|k2: int|
                                                0 <= k2 < grid.area() implies ((
                                            #[trigger] grid.visible_tiles@[k2]) <==> exists|
                                                ti: int,
                                            |
                                                0 <= ti < t as int + 1 && idx_spec(
                                                    grid.width as int,
                                                    (#[trigger] v.visible_tiles@[ti]).x as int,
                                                    v.visible_tiles@[ti].y as int,
                                                ) == k2) by {
                                                if k2 == k as int {
                                                    assert(idx_spec(
                                                        grid.width as int,
                                                        v.visible_tiles@[t as int].x as int,
                                                        v.visible_tiles@[t as int].y as int,
                                                    ) == k2);
                                                } else {
                                                    assert(grid.visible_tiles@[k2] == vis0[k2]);
                                                }
                                            }
                                        }
                                        t = t + 1;
                                    }
                                    proof {
                                        let w = grid.width as int;
                                        assert forall|k: int|
                                            0 <= k < grid.area() implies ((
                                        #[trigger] grid.visible_tiles@[k]) <==> exists|p: Point|
                                            #[trigger] v.visible_tiles@.contains(p) && idx_spec(
                                                w,
                                                p.x as int,
                                                p.y as int,
                                            ) == k) by {
                                            if grid.visible_tiles@[k] {
                                                let ti = choose|ti: int|
                                                    0 <= ti < v.visible_tiles@.len() && idx_spec(
                                                        w,
                                                        v.visible_tiles@[ti].x as int,
                                                        v.visible_tiles@[ti].y as int,
                                                    ) == k;
                                                assert(v.visible_tiles@.contains(
                                                    v.visible_tiles@[ti],
                                                ));
                                            }
                                            if exists|p: Point|
                                                #[trigger] v.visible_tiles@.contains(p)
                                                    && idx_spec(w, p.x as int, p.y as int) == k {
                                                let p = choose|p: Point|
                                                    #[trigger] v.visible_tiles@.contains(p)
                                                        && idx_spec(w, p.x as int, p.y as int)
                                                        == k;
                                                let ti = choose|ti: int|
                                                    0 <= ti < v.visible_tiles@.len()
                                                        && v.visible_tiles@[ti] == p;
                                                assert(idx_spec(
                                                    w,
                                                    v.visible_tiles@[ti].x as int,
                                                    v.visible_tiles@[ti].y as int,
                                                ) == k);
                                            }
                                        }
                                    }
                                }
                            }
                        },
                        None => {},
                    }
                },
                None => {},
            }
            id = id + 1;
        }
        proof {
            assert forall|i2: int| #[trigger]
                store.has_full_player(i2) implies old(store).has_full_player(i2) by {
                if 0 <= i2 < store.len() && !old(store).has_full_player(i2) {
                    if !(old(store).positions@[i2] is Some && old(store).viewsheds@[i2] is Some) {
                        assert(store.viewsheds@[i2] == old(store).viewsheds@[i2]);
                    }
                }
            }
            assert forall|i2: int|
                0 <= i2 < store.len() && (#[trigger] store.viewsheds@[i2]) is Some
                implies store.viewsheds@[i2]->0.range <= 0x3fff by {
                if !(old(store).positions@[i2] is Some && old(store).viewsheds@[i2] is Some) {
                    assert(store.viewsheds@[i2] == old(store).viewsheds@[i2]);
                }
            }
        }
    }
}

} // verus!
