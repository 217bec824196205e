use vstd::prelude::*;
use crate::components::Viewshed;
use crate::grid::TileGrid;
use crate::player::move_accepted;
use crate::player::move_effect;
use crate::player::try_move_player;
use crate::store::EntityStore;
use crate::visibility::VisibilitySystem;
use crate::visibility::masks_projected;
use crate::visibility::viewshed_updated;

verus! {

/// The whole simulation: the grid and the entity store, advanced one tick
/// at a time by the external driver.
pub struct State {
    pub grid: TileGrid,
    pub store: EntityStore,
}

impl State {
    /// The simulation's standing invariant: both halves well-formed, every
    /// position on the grid, and at most one full player entity.
    pub open spec fn inv(self) -> bool {
        &&& self.grid.inv()
        &&& self.store.inv()
        &&& self.store.wf_for(self.grid.width as int, self.grid.height as int)
        &&& self.store.unique_player()
    }

    /// Whether entity `j`'s viewshed is stale once the tick's movement has
    /// been applied to this (pre-tick) state: it already was stale, or the
    /// delta was accepted and the move invalidated it.
    pub open spec fn stale_after_move(self, direction: Option<(i16, i16)>, j: int) -> bool {
        self.store.viewsheds@[j]->0.dirty || (direction is Some && move_accepted(
            self.grid,
            self.store.positions@[j]->0,
            (direction->0).0 as int,
            (direction->0).1 as int,
        ))
    }

    /// Run the visibility pass over the live world: every stale viewshed of
    /// an entity joining Position + Viewshed is rebuilt and cleaned, and the
    /// player's view is projected onto the grid masks.
    pub fn run_systems(&mut self)
        requires
            old(self).inv(),
        ensures
            final(self).inv(),
            final(self).grid.tiles == old(self).grid.tiles,
            final(self).grid.rooms == old(self).grid.rooms,
            final(self).grid.width == old(self).grid.width,
            final(self).grid.height == old(self).grid.height,
            final(self).store.len() == old(self).store.len(),
            final(self).store.positions@ == old(self).store.positions@,
            final(self).store.players@ == old(self).store.players@,
            final(self).store.renderables@ == old(self).store.renderables@,
            forall|k: int|
                0 <= k < old(self).grid.area() && old(self).grid.revealed_tiles@[k]
                    ==> final(self).grid.revealed_tiles@[k],
            forall|j: int|
                0 <= j < old(self).store.len()
                    && (#[trigger] old(self).store.positions@[j]) is Some
                    && old(self).store.viewsheds@[j] is Some
                    ==> final(self).store.viewsheds@[j] is Some && viewshed_updated(
                    old(self).grid,
                    old(self).store.positions@[j]->0,
                    old(self).store.viewsheds@[j]->0,
                    final(self).store.viewsheds@[j]->0,
                ),
            forall|j: int|
                0 <= j < old(self).store.len()
                    && !((#[trigger] old(self).store.positions@[j]) is Some
                    && old(self).store.viewsheds@[j] is Some)
                    ==> final(self).store.viewsheds@[j] == old(self).store.viewsheds@[j],
            forall|j: int|
                #[trigger] old(self).store.has_full_player(j)
                    && old(self).store.viewsheds@[j]->0.dirty ==> masks_projected(
                    old(self).grid,
                    final(self).grid,
                    final(self).store.viewsheds@[j]->0.visible_tiles@,
                ),
            (forall|j: int|
                !(#[trigger] old(self).store.has_full_player(j)
                    && old(self).store.viewsheds@[j]->0.dirty))
                ==> final(self).grid.visible_tiles == old(self).grid.visible_tiles
                    && final(self).grid.revealed_tiles == old(self).grid.revealed_tiles,
            forall|j: int|
                0 <= j < final(self).store.len()
                    && (#[trigger] final(self).store.positions@[j]) is Some
                    && final(self).store.viewsheds@[j] is Some
                    ==> !final(self).store.viewsheds@[j]->0.dirty,
    {
        let vis = VisibilitySystem {};
        vis.run(&mut self.grid, &mut self.store);
    }

    /// Tick entry point: apply at most one movement delta, then run one
    /// visibility pass. `None` runs a visibility-only tick, as on the first
    /// frame. The movement's effect on the player and the terrain, the
    /// recomputation of every viewshed left stale, and the projection of the
    /// player's view are all stated below; `revealed` can only grow, and
    /// afterwards every viewshed of an entity joining Position + Viewshed is
    /// clean.
    pub fn advance(&mut self, direction: Option<(i16, i16)>)
        requires
            old(self).inv(),
            direction is Some ==> -1 <= (direction->0).0 <= 1 && -1 <= (direction->0).1 <= 1,
        ensures
            final(self).inv(),
            final(self).grid.rooms == old(self).grid.rooms,
            final(self).grid.width == old(self).grid.width,
            final(self).grid.height == old(self).grid.height,
            final(self).store.len() == old(self).store.len(),
            final(self).store.players@ == old(self).store.players@,
            final(self).store.renderables@ == old(self).store.renderables@,
            forall|k: int|
                0 <= k < old(self).grid.area() && old(self).grid.revealed_tiles@[k]
                    ==> final(self).grid.revealed_tiles@[k],
            forall|j: int|
                0 <= j < final(self).store.len()
                    && (#[trigger] final(self).store.positions@[j]) is Some
                    && final(self).store.viewsheds@[j] is Some
                    ==> !final(self).store.viewsheds@[j]->0.dirty,
            direction is None ==> final(self).grid.tiles@ == old(self).grid.tiles@
                && final(self).store.positions@ == old(self).store.positions@,
            direction is Some ==> forall|j: int|
                #[trigger] old(self).store.has_full_player(j)
                    ==> final(self).store.positions@[j] is Some && move_effect(
                    old(self).grid,
                    final(self).grid,
                    old(self).store.positions@[j]->0,
                    final(self).store.positions@[j]->0,
                    (direction->0).0 as int,
                    (direction->0).1 as int,
                ),
            forall|j: int|
                0 <= j < old(self).store.len()
                    && (#[trigger] old(self).store.positions@[j]) is Some
                    && old(self).store.viewsheds@[j] is Some && !old(self).store.has_full_player(j)
                    ==> final(self).store.positions@[j] == old(self).store.positions@[j]
                        && final(self).store.viewsheds@[j] is Some && viewshed_updated(
                        final(self).grid,
                        old(self).store.positions@[j]->0,
                        old(self).store.viewsheds@[j]->0,
                        final(self).store.viewsheds@[j]->0,
                    ),
            forall|j: int|
                #[trigger] old(self).store.has_full_player(j)
                    ==> final(self).store.positions@[j] is Some
                        && final(self).store.viewsheds@[j] is Some && viewshed_updated(
                        final(self).grid,
                        final(self).store.positions@[j]->0,
                        (Viewshed {
                            visible_tiles: old(self).store.viewsheds@[j]->0.visible_tiles,
                            range: old(self).store.viewsheds@[j]->0.range,
                            dirty: old(self).stale_after_move(direction, j),
                        }),
                        final(self).store.viewsheds@[j]->0,
                    ),
            forall|j: int|
                #[trigger] old(self).store.has_full_player(j) && old(self).stale_after_move(
                    direction,
                    j,
                ) ==> masks_projected(
                    old(self).grid,
                    final(self).grid,
                    final(self).store.viewsheds@[j]->0.visible_tiles@,
                ),
            (forall|j: int|
                !(#[trigger] old(self).store.has_full_player(j) && old(self).stale_after_move(
                    direction,
                    j,
                ))) ==> final(self).grid.visible_tiles@ == old(self).grid.visible_tiles@
                && final(self).grid.revealed_tiles@ == old(self).grid.revealed_tiles@,
    {
        match direction {
            Some(d) => {
                try_move_player(d.0, d.1, &mut self.grid, &mut self.store);
            },
            None => {},
        }
        let ghost mid = *self;
        self.run_systems();
        proof {
            assert forall|j2: int| #[trigger]
                old(self).store.has_full_player(j2) implies mid.store.has_full_player(j2)
                && mid.store.viewsheds@[j2]->0.dirty == old(self).stale_after_move(
                direction,
                j2,
            ) by {}
            assert forall|j2: int| #[trigger]
                mid.store.has_full_player(j2) implies old(self).store.has_full_player(j2) by {
                if !old(self).store.has_full_player(j2) {
                    assert(mid.store.positions@[j2] == old(self).store.positions@[j2]);
                    assert(mid.store.viewsheds@[j2] == old(self).store.viewsheds@[j2]);
                }
            }
            assert forall|j2: int| #[trigger]
                old(self).store.has_full_player(j2) && old(self).stale_after_move(
                direction,
                j2,
            ) implies masks_projected(
                old(self).grid,
                self.grid,
                self.store.viewsheds@[j2]->0.visible_tiles@,
            ) by {
                assert(masks_projected(
                    mid.grid,
                    self.grid,
                    self.store.viewsheds@[j2]->0.visible_tiles@,
                ));
                assert(mid.grid.revealed_tiles == old(self).grid.revealed_tiles);
                assert(mid.grid.area() == old(self).grid.area());
            }
            if forall|j2: int|
                !(#[trigger] old(self).store.has_full_player(j2) && old(self).stale_after_move(
                    direction,
                    j2,
                )) {
                assert forall|j2: int|
                    !(#[trigger] mid.store.has_full_player(j2)
                        && mid.store.viewsheds@[j2]->0.dirty) by {
                    if mid.store.has_full_player(j2) {
                        assert(old(self).store.has_full_player(j2));
                        assert(!old(self).stale_after_move(direction, j2));
                    }
                }
                assert(self.grid.visible_tiles == mid.grid.visible_tiles);
                assert(mid.grid.visible_tiles == old(self).grid.visible_tiles);
                assert(mid.grid.revealed_tiles == old(self).grid.revealed_tiles);
            }
        }
    }
}

} // verus!
