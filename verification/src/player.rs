use vstd::prelude::*;
use crate::components::Position;
use crate::components::Viewshed;
use crate::grid::TileGrid;
use crate::grid::TileType;
use crate::grid::idx_spec;
use crate::grid::in_bounds_spec;
use crate::store::EntityStore;

verus! {

/// Whether the delta `(dx, dy)` is accepted from `p0`: the destination must
/// be in bounds and must not be a Wall tile.
pub open spec fn move_accepted(g0: TileGrid, p0: Position, dx: int, dy: int) -> bool {
    let w = g0.width as int;
    let h = g0.height as int;
    let nx = p0.x + dx;
    let ny = p0.y + dy;
    in_bounds_spec(w, h, nx, ny) && g0.tiles@[idx_spec(w, nx, ny)] != TileType::Wall
}

/// What the move does to the position and the terrain: an accepted move
/// lands on the destination and tramples a Foliage destination to Floor; a
/// rejected move changes nothing.
pub open spec fn move_effect(
    g0: TileGrid,
    g1: TileGrid,
    p0: Position,
    p1: Position,
    dx: int,
    dy: int,
) -> bool {
    let w = g0.width as int;
    let nx = p0.x + dx;
    let ny = p0.y + dy;
    if move_accepted(g0, p0, dx, dy) {
        &&& p1.x == nx
        &&& p1.y == ny
        &&& forall|k: int|
            0 <= k < g0.area() ==> g1.tiles@[k] == (if k == idx_spec(w, nx, ny) && g0.tiles@[k]
                == TileType::Foliage {
                TileType::Floor
            } else {
                g0.tiles@[k]
            })
    } else {
        &&& p1 == p0
        &&& g1.tiles@ == g0.tiles@
    }
}

/// The whole effect of offering one entity the movement delta `(dx, dy)`:
/// besides `move_effect`, an accepted move turns the viewshed stale, and a
/// rejected one leaves it exactly as it was.
pub open spec fn move_applied(
    g0: TileGrid,
    g1: TileGrid,
    p0: Position,
    p1: Position,
    v0: Viewshed,
    v1: Viewshed,
    dx: int,
    dy: int,
) -> bool {
    &&& move_effect(g0, g1, p0, p1, dx, dy)
    &&& if move_accepted(g0, p0, dx, dy) {
        &&& v1.dirty == true
        &&& v1.range == v0.range
        &&& v1.visible_tiles == v0.visible_tiles
    } else {
        v1 == v0
    }
}

/// Validate and apply one movement delta for one entity's components.
pub fn try_move_entity(
    grid: &mut TileGrid,
    pos: &mut Position,
    viewshed: &mut Viewshed,
    dx: i16,
    dy: i16,
)
    requires
        old(grid).inv(),
        -1 <= dx <= 1,
        -1 <= dy <= 1,
        in_bounds_spec(
            old(grid).width as int,
            old(grid).height as int,
            old(pos).x as int,
            old(pos).y as int,
        ),
    ensures
        final(grid).inv(),
        final(grid).width == old(grid).width,
        final(grid).height == old(grid).height,
        final(grid).rooms == old(grid).rooms,
        final(grid).revealed_tiles == old(grid).revealed_tiles,
        final(grid).visible_tiles == old(grid).visible_tiles,
        in_bounds_spec(
            old(grid).width as int,
            old(grid).height as int,
            final(pos).x as int,
            final(pos).y as int,
        ),
        final(viewshed).range == old(viewshed).range,
        final(viewshed).visible_tiles == old(viewshed).visible_tiles,
        move_applied(
            *old(grid),
            *final(grid),
            *old(pos),
            *final(pos),
            *old(viewshed),
            *final(viewshed),
            dx as int,
            dy as int,
        ),
{
    let nx32 = pos.x as i32 + dx as i32;
    let ny32 = pos.y as i32 + dy as i32;
    if 0 <= nx32 && nx32 < grid.width as i32 && 0 <= ny32 && ny32 < grid.height as i32 {
        let nx = nx32 as i16;
        let ny = ny32 as i16;
        let dest = grid.xy_idx(nx, ny);
        if grid.tiles[dest] != TileType::Wall {
            pos.x = nx;
            pos.y = ny;
            viewshed.dirty = true;
            if grid.tiles[dest] == TileType::Foliage {
                grid.tiles[dest] = TileType::Floor;
            }
        }
    }
}

/// Movement entry point: offer the delta to every entity jointly holding
/// Player + Position + Viewshed — by convention exactly one.
#[verifier::loop_isolation(false)]
pub fn try_move_player(dx: i16, dy: i16, grid: &mut TileGrid, store: &mut EntityStore)
    requires
        old(grid).inv(),
        old(store).inv(),
        old(store).wf_for(old(grid).width as int, old(grid).height as int),
        old(store).unique_player(),
        -1 <= dx <= 1,
        -1 <= dy <= 1,
    ensures
        final(grid).inv(),
        final(grid).width == old(grid).width,
        final(grid).height == old(grid).height,
        final(grid).rooms == old(grid).rooms,
        final(grid).revealed_tiles == old(grid).revealed_tiles,
        final(grid).visible_tiles == old(grid).visible_tiles,
        final(store).inv(),
        final(store).len() == old(store).len(),
        final(store).players@ == old(store).players@,
        final(store).renderables@ == old(store).renderables@,
        final(store).wf_for(old(grid).width as int, old(grid).height as int),
        final(store).unique_player(),
        forall|i: int|
            0 <= i < old(store).len() && !old(store).has_full_player(i)
                ==> final(store).positions@[i] == old(store).positions@[i]
                    && final(store).viewsheds@[i] == old(store).viewsheds@[i],
        forall|i: int|
            #[trigger] old(store).has_full_player(i) ==> final(store).positions@[i] is Some
                && final(store).viewsheds@[i] is Some && move_applied(
                *old(grid),
                *final(grid),
                old(store).positions@[i]->0,
                final(store).positions@[i]->0,
                old(store).viewsheds@[i]->0,
                final(store).viewsheds@[i]->0,
                dx as int,
                dy as int,
            ),
        (forall|i: int| 0 <= i < old(store).len() ==> !old(store).has_full_player(i))
            ==> final(grid).tiles@ == old(grid).tiles@,
{
    let n = store.positions.len();
    let mut id: usize = 0;
    while id < n
        invariant
            grid.inv(),
            grid.width == old(grid).width,
            grid.height == old(grid).height,
            grid.rooms == old(grid).rooms,
            grid.revealed_tiles == old(grid).revealed_tiles,
            grid.visible_tiles == old(grid).visible_tiles,
            store.inv(),
            store.len() == old(store).len(),
            store.players@ == old(store).players@,
            store.renderables@ == old(store).renderables@,
            store.wf_for(old(grid).width as int, old(grid).height as int),
            0 <= id <= n,
            forall|j: int|
                0 <= j < old(store).len() && !old(store).has_full_player(j)
                    ==> store.positions@[j] == old(store).positions@[j] && store.viewsheds@[j]
                    == old(store).viewsheds@[j],
            forall|j: int|
                #[trigger] old(store).has_full_player(j) && j >= id
                    ==> store.positions@[j] == old(store).positions@[j] && store.viewsheds@[j]
                    == old(store).viewsheds@[j],
            forall|j: int|
                #[trigger] old(store).has_full_player(j) && j < id ==> store.positions@[j] is Some
                    && store.viewsheds@[j] is Some && move_applied(
                    *old(grid),
                    *grid,
                    old(store).positions@[j]->0,
                    store.positions@[j]->0,
                    old(store).viewsheds@[j]->0,
                    store.viewsheds@[j]->0,
                    dx as int,
                    dy as int,
                ),
            (forall|j: int| old(store).has_full_player(j) ==> j >= id)
                ==> grid.tiles@ == old(grid).tiles@,
        decreases n - id,
    {
        if store.players[id] {
            let p_opt = store.positions[id];
            match p_opt {
                Some(p) => {
                    let mut p2 = p;
                    let vs_slot = &mut store.viewsheds[id];
                    match vs_slot {
                        Some(v) => {
                            proof {
                                assert(old(store).has_full_player(id as int));
                            }
                            try_move_entity(grid, &mut p2, v, dx, dy);
                        },
                        None => {},
                    }
                    store.positions[id] = Some(p2);
                },
                None => {},
            }
        }
        id = id + 1;
    }
    proof {
        assert forall|i2: int| #[trigger]
            store.has_full_player(i2) implies old(store).has_full_player(i2) by {
            if !old(store).has_full_player(i2) {
                assert(store.positions@[i2] == old(store).positions@[i2]);
                assert(store.viewsheds@[i2] == old(store).viewsheds@[i2]);
            }
        }
    }
}

} // verus!
