use vstd::prelude::*;
use crate::components::Player;
use crate::components::Position;
use crate::components::Renderable;
use crate::components::Viewshed;
use crate::grid::in_bounds_spec;

verus! {

/// The entity store: parallel component columns keyed by the entity
/// identifier, which is the index shared by all four columns. An entity
/// holds a component iff its slot in that column is occupied; the alignment
/// of the columns is what makes a join over several components sound.
pub struct EntityStore {
    pub positions: Vec<Option<Position>>,
    pub renderables: Vec<Option<Renderable>>,
    pub players: Vec<bool>,
    pub viewsheds: Vec<Option<Viewshed>>,
}

/// The aligned (position, renderable) pairs of the entities that hold both
/// components, in entity order.
pub open spec fn drawables_of(
    positions: Seq<Option<Position>>,
    renderables: Seq<Option<Renderable>>,
) -> Seq<(Position, Renderable)>
    decreases positions.len(),
{
    if positions.len() == 0 {
        Seq::empty()
    } else {
        drawables_of(positions.drop_last(), renderables.drop_last()) + (
        if positions.last() is Some && renderables.last() is Some {
            seq![(positions.last()->0, renderables.last()->0)]
        } else {
            Seq::empty()
        })
    }
}

impl EntityStore {
    /// Number of entities ever created.
    pub open spec fn len(self) -> int {
        self.positions@.len() as int
    }

    /// The four columns stay aligned: one slot per entity in each.
    pub open spec fn inv(self) -> bool {
        &&& self.renderables@.len() == self.positions@.len()
        &&& self.players@.len() == self.positions@.len()
        &&& self.viewsheds@.len() == self.positions@.len()
    }

    /// Entity `i` joins Player + Position + Viewshed.
    pub open spec fn has_full_player(self, i: int) -> bool {
        &&& 0 <= i < self.len()
        &&& self.players@[i]
        &&& self.positions@[i] is Some
        &&& self.viewsheds@[i] is Some
    }

    /// At most one entity carries the Player tag with both components the
    /// movement and visibility passes join on.
    pub open spec fn unique_player(self) -> bool {
        forall|i: int, j: int|
            #[trigger] self.has_full_player(i) && #[trigger] self.has_full_player(j) ==> i == j
    }

    /// Component values fit a `w x h` grid: positions in bounds, sight
    /// ranges small enough for the sweep's arithmetic.
    pub open spec fn wf_for(self, w: int, h: int) -> bool {
        &&& forall|i: int|
            0 <= i < self.len() && (#[trigger] self.positions@[i]) is Some ==> in_bounds_spec(
                w,
                h,
                self.positions@[i]->0.x as int,
                self.positions@[i]->0.y as int,
            )
        &&& forall|i: int|
            0 <= i < self.len() && (#[trigger] self.viewsheds@[i]) is Some ==> self.viewsheds@[i]->0.range
                <= 0x3fff
    }

    pub fn new() -> (s: EntityStore)
        ensures
            s.inv(),
            s.len() == 0,
    {
        EntityStore {
            positions: Vec::new(),
            renderables: Vec::new(),
            players: Vec::new(),
            viewsheds: Vec::new(),
        }
    }

    pub fn count(&self) -> (n: usize)
        requires
            self.inv(),
        ensures
            n == self.len(),
    {
        self.positions.len()
    }

    /// Create an entity with its initial component set in one step; the
    /// returned identifier indexes every column.
    pub fn create_entity(
        &mut self,
        pos: Option<Position>,
        render: Option<Renderable>,
        player: Option<Player>,
        viewshed: Option<Viewshed>,
    ) -> (id: usize)
        requires
            old(self).inv(),
        ensures
            final(self).inv(),
            id == old(self).len(),
            final(self).len() == old(self).len() + 1,
            final(self).positions@ == old(self).positions@.push(pos),
            final(self).renderables@ == old(self).renderables@.push(render),
            final(self).players@ == old(self).players@.push(player is Some),
            final(self).viewsheds@ == old(self).viewsheds@.push(viewshed),
    {
        let id = self.positions.len();
        self.positions.push(pos);
        self.renderables.push(render);
        self.players.push(player.is_some());
        self.viewsheds.push(viewshed);
        id
    }

    /// Read surface for the rendering collaborator: the aligned
    /// (position, renderable) pairs of every entity holding both, in entity
    /// order.
    #[verifier::loop_isolation(false)]
    pub fn drawables(&self) -> (d: Vec<(Position, Renderable)>)
        requires
            self.inv(),
        ensures
            d@ == drawables_of(self.positions@, self.renderables@),
    {
        let mut d: Vec<(Position, Renderable)> = Vec::new();
        let n = self.positions.len();
        let mut i: usize = 0;
        while i < n
            invariant
                0 <= i <= n,
                d@ == drawables_of(
                    self.positions@.take(i as int),
                    self.renderables@.take(i as int),
                ),
            decreases n - i,
        {
            let p_opt = self.positions[i];
            match p_opt {
                Some(p) => {
                    match self.renderables[i] {
                        Some(rd) => {
                            d.push((p, rd));
                        },
                        None => {},
                    }
                },
                None => {},
            }
            proof {
                let j = i as int;
                assert(self.positions@.take(j + 1).drop_last() =~= self.positions@.take(j));
                assert(self.renderables@.take(j + 1).drop_last() =~= self.renderables@.take(j));
                assert(self.positions@.take(j + 1).last() == self.positions@[j]);
                assert(self.renderables@.take(j + 1).last() == self.renderables@[j]);
                assert(d@ =~= drawables_of(
                    self.positions@.take(j + 1),
                    self.renderables@.take(j + 1),
                ));
            }
            i = i + 1;
        }
        proof {
            assert(self.positions@.take(n as int) =~= self.positions@);
            assert(self.renderables@.take(n as int) =~= self.renderables@);
        }
        d
    }
}

} // verus!
