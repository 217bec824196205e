use vstd::prelude::*;
use crate::rect::Rect;
use crate::rect::lemma_intersects_symmetric;
use crate::rng::rng_new;
use crate::rng::rng_range;
use crate::rng::rng_roll_dice;

verus! {

/// Side length of the default grid.
pub const SIZE: u16 = 80;

/// Default room-generation policy: the attempt budget is
/// `MAX_ROOMS - MIN_ROOMS`, and each candidate's extent is drawn from
/// `[MIN_SIZE, MAX_SIZE)`.
pub const MIN_ROOMS: i32 = 10;
pub const MAX_ROOMS: i32 = 30;
pub const MIN_SIZE: i32 = 5;
pub const MAX_SIZE: i32 = 20;

/// One cell of the grid. Floor and Grass are walkable and transparent;
/// Wall is impassable and opaque; Foliage is walkable but opaque and turns
/// into Floor the first time an entity steps onto it.
#[derive(Clone, Copy, Debug, PartialEq, Eq, Structural)]
pub enum TileType {
    Floor,
    Wall,
    Grass,
    Foliage,
}

pub open spec fn imin(a: int, b: int) -> int {
    if a <= b {
        a
    } else {
        b
    }
}

pub open spec fn imax(a: int, b: int) -> int {
    if a <= b {
        b
    } else {
        a
    }
}

/// Row-major flattening of a coordinate pair.
pub open spec fn idx_spec(width: int, x: int, y: int) -> int {
    y * width + x
}

pub open spec fn in_bounds_spec(width: int, height: int, x: int, y: int) -> bool {
    0 <= x < width && 0 <= y < height
}

/// The tiles a room interior is carved into.
pub open spec fn carved(t: TileType) -> bool {
    t == TileType::Floor || t == TileType::Grass || t == TileType::Foliage
}

/// True of the tiles that block line of sight.
pub open spec fn opaque(t: TileType) -> bool {
    t == TileType::Wall || t == TileType::Foliage
}

/// The interior of a room: the cells strictly inside its rectangle's
/// right-down translate, `[x+1, x+w] x [y+1, y+h]`.
pub open spec fn in_interior(r: Rect, cx: int, cy: int) -> bool {
    r.x + 1 <= cx <= r.x + r.w && r.y + 1 <= cy <= r.y + r.h
}

/// Row `y` between columns `x1` and `x2` holds no Wall tile, except
/// possibly at flat index 0, which tunnel carving skips.
pub open spec fn h_corridor_open(tiles: Seq<TileType>, w: int, x1: int, x2: int, y: int) -> bool {
    forall|cx: int|
        imin(x1, x2) <= cx <= imax(x1, x2) && idx_spec(w, cx, y) != 0 ==> (#[trigger] tiles[
            idx_spec(w, cx, y)
        ]) != TileType::Wall
}

/// Column `x` between rows `y1` and `y2` holds no Wall tile, except
/// possibly at flat index 0.
pub open spec fn v_corridor_open(tiles: Seq<TileType>, w: int, y1: int, y2: int, x: int) -> bool {
    forall|cy: int|
        imin(y1, y2) <= cy <= imax(y1, y2) && idx_spec(w, x, cy) != 0 ==> (#[trigger] tiles[
            idx_spec(w, x, cy)
        ]) != TileType::Wall
}

/// Rooms `a` and `b` are joined by an L-shaped tunnel between their
/// centers, in one of the two bend orders the generator flips a coin over:
/// a horizontal leg on one room's row and a vertical leg on the other
/// room's column, all free of Wall tiles.
pub open spec fn l_connected(tiles: Seq<TileType>, w: int, a: Rect, b: Rect) -> bool {
    let ax = a.spec_center_x();
    let ay = a.spec_center_y();
    let bx = b.spec_center_x();
    let by = b.spec_center_y();
    ||| (h_corridor_open(tiles, w, ax, bx, ay) && v_corridor_open(tiles, w, ay, by, bx))
    ||| (h_corridor_open(tiles, w, ax, bx, by) && v_corridor_open(tiles, w, ay, by, ax))
}

/// A cell lies on one of the two L-tunnel legs between the centers of `a`
/// and `b`: on either center's row between the two columns, or on either
/// center's column between the two rows.
pub open spec fn on_l_corridor(a: Rect, b: Rect, cx: int, cy: int) -> bool {
    let ax = a.spec_center_x();
    let ay = a.spec_center_y();
    let bx = b.spec_center_x();
    let by = b.spec_center_y();
    ||| ((cy == ay || cy == by) && imin(ax, bx) <= cx <= imax(ax, bx))
    ||| ((cx == ax || cx == bx) && imin(ay, by) <= cy <= imax(ay, by))
}

/// A room's center lies within its own extent.
proof fn lemma_center_bounds(a: Rect)
    requires
        0 <= a.w,
        0 <= a.h,
    ensures
        a.x <= a.spec_center_x() <= a.x + a.w,
        a.y <= a.spec_center_y() <= a.y + a.h,
{
    assert(0 <= a.w / 2 <= a.w && 0 <= a.h / 2 <= a.h) by (nonlinear_arith)
        requires
            0 <= a.w,
            0 <= a.h,
    ;
}

/// Carving never closes an open horizontal corridor: a write either keeps a
/// tile or replaces it with a carved — non-Wall — one.
proof fn lemma_h_corridor_preserved(
    t0: Seq<TileType>,
    t1: Seq<TileType>,
    w: int,
    h: int,
    x1: int,
    x2: int,
    y: int,
)
    requires
        t0.len() == w * h,
        t1.len() == w * h,
        0 <= x1 < w,
        0 <= x2 < w,
        0 <= y < h,
        h_corridor_open(t0, w, x1, x2, y),
        forall|k: int| 0 <= k < w * h ==> t1[k] == t0[k] || carved(t1[k]),
    ensures
        h_corridor_open(t1, w, x1, x2, y),
{
    assert forall|cx: int|
        imin(x1, x2) <= cx <= imax(x1, x2) && idx_spec(w, cx, y) != 0 implies t1[idx_spec(
        w,
        cx,
        y,
    )] != TileType::Wall by {
        lemma_idx_bounds(w, h, cx, y);
        assert(t0[idx_spec(w, cx, y)] != TileType::Wall);
    }
}

/// Carving never closes an open vertical corridor.
proof fn lemma_v_corridor_preserved(
    t0: Seq<TileType>,
    t1: Seq<TileType>,
    w: int,
    h: int,
    y1: int,
    y2: int,
    x: int,
)
    requires
        t0.len() == w * h,
        t1.len() == w * h,
        0 <= y1 < h,
        0 <= y2 < h,
        0 <= x < w,
        v_corridor_open(t0, w, y1, y2, x),
        forall|k: int| 0 <= k < w * h ==> t1[k] == t0[k] || carved(t1[k]),
    ensures
        v_corridor_open(t1, w, y1, y2, x),
{
    assert forall|cy: int|
        imin(y1, y2) <= cy <= imax(y1, y2) && idx_spec(w, x, cy) != 0 implies t1[idx_spec(
        w,
        x,
        cy,
    )] != TileType::Wall by {
        lemma_idx_bounds(w, h, x, cy);
        assert(t0[idx_spec(w, x, cy)] != TileType::Wall);
    }
}

/// Carving never disconnects two rooms that an L-tunnel already joins.
proof fn lemma_l_connected_preserved(
    t0: Seq<TileType>,
    t1: Seq<TileType>,
    w: int,
    h: int,
    a: Rect,
    b: Rect,
)
    requires
        t0.len() == w * h,
        t1.len() == w * h,
        0 <= a.spec_center_x() < w,
        0 <= a.spec_center_y() < h,
        0 <= b.spec_center_x() < w,
        0 <= b.spec_center_y() < h,
        l_connected(t0, w, a, b),
        forall|k: int| 0 <= k < w * h ==> t1[k] == t0[k] || carved(t1[k]),
    ensures
        l_connected(t1, w, a, b),
{
    let ax = a.spec_center_x();
    let ay = a.spec_center_y();
    let bx = b.spec_center_x();
    let by = b.spec_center_y();
    if h_corridor_open(t0, w, ax, bx, ay) && v_corridor_open(t0, w, ay, by, bx) {
        lemma_h_corridor_preserved(t0, t1, w, h, ax, bx, ay);
        lemma_v_corridor_preserved(t0, t1, w, h, ay, by, bx);
    } else {
        lemma_h_corridor_preserved(t0, t1, w, h, ax, bx, by);
        lemma_v_corridor_preserved(t0, t1, w, h, ay, by, ax);
    }
}

/// The tile a room-interior roll carves: 1 is Foliage, 2 to 4 are Grass,
/// everything else Floor — a 10%/30%/60% split on a d10.
pub fn tile_for_roll(roll: i32) -> (t: TileType)
    ensures
        roll == 1 ==> t == TileType::Foliage,
        2 <= roll <= 4 ==> t == TileType::Grass,
        !(roll == 1 || 2 <= roll <= 4) ==> t == TileType::Floor,
        carved(t),
{
    if roll == 1 {
        TileType::Foliage
    } else if roll == 2 || roll == 3 || roll == 4 {
        TileType::Grass
    } else {
        TileType::Floor
    }
}

/// The cells a row-major sweep of a room interior has already carved when it
/// stands at column `cx` of row `cy`.
spec fn scan_done(x_lo: int, x_hi: int, y_lo: int, cy: int, cx: int, ax: int, ay: int) -> bool {
    (x_lo <= ax <= x_hi && y_lo <= ay < cy) || (ay == cy && x_lo <= ax < cx)
}

/// Flattening is injective: two in-bounds coordinate pairs with the same
/// flat index are the same pair.
pub proof fn lemma_idx_injective(width: int, height: int, x1: int, y1: int, x2: int, y2: int)
    requires
        in_bounds_spec(width, height, x1, y1),
        in_bounds_spec(width, height, x2, y2),
        idx_spec(width, x1, y1) == idx_spec(width, x2, y2),
    ensures
        x1 == x2 && y1 == y2,
{
    assert(y1 == y2 && x1 == x2) by (nonlinear_arith)
        requires
            0 <= x1 < width,
            0 <= x2 < width,
            0 <= y1 < height,
            0 <= y2 < height,
            y1 * width + x1 == y2 * width + x2,
    ;
}

/// Contrapositive of injectivity: distinct in-bounds coordinate pairs have
/// distinct flat indices.
pub proof fn lemma_idx_distinct(width: int, height: int, x1: int, y1: int, x2: int, y2: int)
    requires
        in_bounds_spec(width, height, x1, y1),
        in_bounds_spec(width, height, x2, y2),
        x1 != x2 || y1 != y2,
    ensures
        idx_spec(width, x1, y1) != idx_spec(width, x2, y2),
{
    assert(y1 * width + x1 != y2 * width + x2) by (nonlinear_arith)
        requires
            0 <= x1 < width,
            0 <= x2 < width,
            0 <= y1 < height,
            0 <= y2 < height,
            x1 != x2 || y1 != y2,
    ;
}

/// Every in-bounds coordinate pair flattens into `[0, width * height)`.
pub proof fn lemma_idx_bounds(width: int, height: int, x: int, y: int)
    requires
        in_bounds_spec(width, height, x, y),
    ensures
        0 <= idx_spec(width, x, y) < width * height,
{
    assert(0 <= y * width + x < width * height) by (nonlinear_arith)
        requires
            0 <= x < width,
            0 <= y < height,
    ;
}

/// A grid with both sides at most `i16::MAX` has fewer cells than `2^31`,
/// so flat indices fit `usize` on every machine.
pub proof fn lemma_area_bound(width: int, height: int)
    requires
        0 <= width <= 0x7fff,
        0 <= height <= 0x7fff,
    ensures
        0 <= width * height <= 0x3fff_0001,
{
    assert(0 <= width * height <= 0x3fff_0001) by (nonlinear_arith)
        requires
            0 <= width <= 0x7fff,
            0 <= height <= 0x7fff,
    ;
}

/// The tile grid: a fixed `width x height` array of tiles in row-major
/// order, the rooms accepted while it was generated, and the two per-tile
/// masks fed by the player's sight. `revealed_tiles` is monotonic;
/// `visible_tiles` is rebuilt on every visibility pass.
pub struct TileGrid {
    pub tiles: Vec<TileType>,
    pub rooms: Vec<Rect>,
    pub width: u16,
    pub height: u16,
    pub revealed_tiles: Vec<bool>,
    pub visible_tiles: Vec<bool>,
}

impl TileGrid {
    pub open spec fn area(self) -> int {
        self.width * self.height
    }

    /// Well-formedness: the three parallel sequences cover exactly the grid,
    /// and the dimensions leave every in-bounds coordinate representable as
    /// an `i16`.
    pub open spec fn inv(self) -> bool {
        &&& self.tiles@.len() == self.area()
        &&& self.revealed_tiles@.len() == self.area()
        &&& self.visible_tiles@.len() == self.area()
        &&& 1 <= self.width <= i16::MAX
        &&& 1 <= self.height <= i16::MAX
    }

    /// A room the generator may accept: inside the grid with a one-tile
    /// border margin on every side.
    pub open spec fn room_in_bounds(self, r: Rect) -> bool {
        &&& 1 <= r.x && 1 <= r.y
        &&& 0 <= r.w && 0 <= r.h
        &&& r.x + r.w <= self.width - 2
        &&& r.y + r.h <= self.height - 2
    }

    /// What generation guarantees of the accepted room list: every room
    /// within bounds, no two rooms intersecting, every interior tile carved.
    pub open spec fn rooms_valid(self) -> bool {
        &&& forall|i: int|
            0 <= i < self.rooms@.len() ==> self.room_in_bounds(#[trigger] self.rooms@[i])
        &&& forall|i: int, j: int|
            0 <= i < j < self.rooms@.len() ==> !(#[trigger] self.rooms@[i]).spec_intersects(
                #[trigger] self.rooms@[j],
            )
        &&& forall|i: int, cx: int, cy: int|
            0 <= i < self.rooms@.len() && #[trigger] in_interior(self.rooms@[i], cx, cy)
                ==> carved(self.tiles@[idx_spec(self.width as int, cx, cy)])
    }

    pub fn xy_idx(&self, x: i16, y: i16) -> (i: usize)
        requires
            self.inv(),
            in_bounds_spec(self.width as int, self.height as int, x as int, y as int),
        ensures
            i == idx_spec(self.width as int, x as int, y as int),
            0 <= i < self.area(),
    {
        proof {
            lemma_idx_bounds(self.width as int, self.height as int, x as int, y as int);
            lemma_area_bound(self.width as int, self.height as int);
        }
        (y as usize) * (self.width as usize) + (x as usize)
    }

    pub fn in_bounds(&self, x: i16, y: i16) -> (b: bool)
        ensures
            b == in_bounds_spec(self.width as int, self.height as int, x as int, y as int),
    {
        0 <= x && (x as i32) < (self.width as i32) && 0 <= y && (y as i32) < (self.height as i32)
    }

    /// Line-of-sight blocker predicate of the visibility sweep.
    pub fn is_opaque(&self, i: usize) -> (b: bool)
        requires
            self.inv(),
            i < self.area(),
        ensures
            b == opaque(self.tiles@[i as int]),
    {
        self.tiles[i] == TileType::Wall || self.tiles[i] == TileType::Foliage
    }

    pub fn dimensions(&self) -> (d: (u16, u16))
        ensures
            d.0 == self.width,
            d.1 == self.height,
    {
        (self.width, self.height)
    }

    /// The uncarved grid: every tile Wall, nothing revealed or visible, no
    /// rooms.
    pub fn blank(width: u16, height: u16) -> (g: TileGrid)
        requires
            1 <= width <= i16::MAX as u16,
            1 <= height <= i16::MAX as u16,
        ensures
            g.inv(),
            g.width == width,
            g.height == height,
            g.rooms@.len() == 0,
            forall|k: int| 0 <= k < g.area() ==> g.tiles@[k] == TileType::Wall,
            forall|k: int| 0 <= k < g.area() ==> g.revealed_tiles@[k] == false,
            forall|k: int| 0 <= k < g.area() ==> g.visible_tiles@[k] == false,
    {
        proof {
            lemma_area_bound(width as int, height as int);
        }
        let area = (width as usize) * (height as usize);
        TileGrid {
            tiles: vec![TileType::Wall; area],
            rooms: Vec::new(),
            width,
            height,
            revealed_tiles: vec![false; area],
            visible_tiles: vec![false; area],
        }
    }

    /// Reset the whole `visible` mask, the first half of projecting a fresh
    /// player view onto the grid.
    pub fn clear_visible(&mut self)
        requires
            old(self).inv(),
        ensures
            final(self).inv(),
            final(self).tiles == old(self).tiles,
            final(self).rooms == old(self).rooms,
            final(self).width == old(self).width,
            final(self).height == old(self).height,
            final(self).revealed_tiles == old(self).revealed_tiles,
            forall|k: int| 0 <= k < final(self).area() ==> final(self).visible_tiles@[k] == false,
    {
        proof {
            lemma_area_bound(self.width as int, self.height as int);
        }
        let area = (self.width as usize) * (self.height as usize);
        self.visible_tiles = vec![false; area];
    }

    /// Carve a horizontal corridor of Floor along row `y` between columns
    /// `x1` and `x2`, overwriting whatever stood there, but skipping flat
    /// index 0 as a defensive bound.
    #[verifier::loop_isolation(false)]
    pub fn apply_horizontal_tunnel(&mut self, x1: i16, x2: i16, y: i16)
        requires
            old(self).inv(),
            in_bounds_spec(old(self).width as int, old(self).height as int, x1 as int, y as int),
            in_bounds_spec(old(self).width as int, old(self).height as int, x2 as int, y as int),
        ensures
            final(self).inv(),
            final(self).width == old(self).width,
            final(self).height == old(self).height,
            final(self).rooms == old(self).rooms,
            final(self).revealed_tiles == old(self).revealed_tiles,
            final(self).visible_tiles == old(self).visible_tiles,
            forall|cx: int|
                imin(x1 as int, x2 as int) <= cx <= imax(x1 as int, x2 as int) && idx_spec(
                    old(self).width as int,
                    cx,
                    y as int,
                ) != 0 ==> final(self).tiles@[idx_spec(old(self).width as int, cx, y as int)]
                    == TileType::Floor,
            forall|cx: int, cy: int|
                in_bounds_spec(old(self).width as int, old(self).height as int, cx, cy) && !(cy
                    == y as int && imin(x1 as int, x2 as int) <= cx <= imax(x1 as int, x2 as int))
                    ==> final(self).tiles@[idx_spec(old(self).width as int, cx, cy)] == old(
                    self,
                ).tiles@[idx_spec(old(self).width as int, cx, cy)],
            forall|k: int|
                0 <= k < old(self).area() ==> final(self).tiles@[k] == old(self).tiles@[k] || (
                final(self).tiles@[k] == TileType::Floor && k != 0),
    {
        let lo: i16 = if x1 < x2 {
            x1
        } else {
            x2
        };
        let hi: i16 = if x1 < x2 {
            x2
        } else {
            x1
        };
        proof {
            lemma_area_bound(self.width as int, self.height as int);
        }
        let area = (self.width as usize) * (self.height as usize);
        let mut x: i16 = lo;
        while x <= hi
            invariant
                self.inv(),
                self.width == old(self).width,
                self.height == old(self).height,
                self.rooms == old(self).rooms,
                self.revealed_tiles == old(self).revealed_tiles,
                self.visible_tiles == old(self).visible_tiles,
                lo <= x <= hi + 1,
                forall|cx: int|
                    lo as int <= cx < x as int && idx_spec(self.width as int, cx, y as int) != 0
                        ==> self.tiles@[idx_spec(self.width as int, cx, y as int)]
                        == TileType::Floor,
                forall|cx: int, cy: int|
                    in_bounds_spec(self.width as int, self.height as int, cx, cy) && !(cy
                        == y as int && lo as int <= cx < x as int) ==> self.tiles@[idx_spec(
                        self.width as int,
                        cx,
                        cy,
                    )] == old(self).tiles@[idx_spec(self.width as int, cx, cy)],
                forall|k: int|
                    0 <= k < old(self).area() ==> self.tiles@[k] == old(self).tiles@[k] || (
                    self.tiles@[k] == TileType::Floor && k != 0),
            decreases hi + 1 - x,
        {
            let ghost pre = self.tiles@;
            let i = self.xy_idx(x, y);
            if i > 0 && i < area {
                self.tiles[i] = TileType::Floor;
            }
            proof {
                let w = self.width as int;
                let h = self.height as int;
                assert forall|cx: int|
                    lo as int <= cx < x as int + 1 && idx_spec(w, cx, y as int) != 0
                        implies self.tiles@[idx_spec(w, cx, y as int)] == TileType::Floor by {
                    if cx == x as int {
                        assert(self.tiles@ == pre.update(i as int, TileType::Floor));
                    } else {
                        lemma_idx_distinct(w, h, cx, y as int, x as int, y as int);
                        lemma_idx_bounds(w, h, cx, y as int);
                        assert(self.tiles@[idx_spec(w, cx, y as int)] == pre[idx_spec(
                            w,
                            cx,
                            y as int,
                        )]);
                    }
                }
                assert forall|cx: int, cy: int|
                    in_bounds_spec(w, h, cx, cy) && !(cy == y as int && lo as int <= cx < x as int
                        + 1) implies self.tiles@[idx_spec(w, cx, cy)] == old(self).tiles@[idx_spec(
                    w,
                    cx,
                    cy,
                )] by {
                    if cx != x as int || cy != y as int {
                        lemma_idx_distinct(w, h, cx, cy, x as int, y as int);
                        lemma_idx_bounds(w, h, cx, cy);
                        assert(self.tiles@[idx_spec(w, cx, cy)] == pre[idx_spec(w, cx, cy)]);
                    }
                }
                assert forall|k: int|
                    0 <= k < old(self).area() implies self.tiles@[k] == old(self).tiles@[k] || (
                self.tiles@[k] == TileType::Floor && k != 0) by {
                    assert(pre[k] == old(self).tiles@[k] || (pre[k] == TileType::Floor && k != 0));
                    if k != i as int {
                        assert(self.tiles@[k] == pre[k]);
                    }
                }
            }
            x = x + 1;
        }
    }

    /// Carve a vertical corridor of Floor along column `x` between rows `y1`
    /// and `y2`, overwriting whatever stood there, but skipping flat index 0
    /// as a defensive bound.
    #[verifier::loop_isolation(false)]
    pub fn apply_vertical_tunnel(&mut self, y1: i16, y2: i16, x: i16)
        requires
            old(self).inv(),
            in_bounds_spec(old(self).width as int, old(self).height as int, x as int, y1 as int),
            in_bounds_spec(old(self).width as int, old(self).height as int, x as int, y2 as int),
        ensures
            final(self).inv(),
            final(self).width == old(self).width,
            final(self).height == old(self).height,
            final(self).rooms == old(self).rooms,
            final(self).revealed_tiles == old(self).revealed_tiles,
            final(self).visible_tiles == old(self).visible_tiles,
            forall|cy: int|
                imin(y1 as int, y2 as int) <= cy <= imax(y1 as int, y2 as int) && idx_spec(
                    old(self).width as int,
                    x as int,
                    cy,
                ) != 0 ==> final(self).tiles@[idx_spec(old(self).width as int, x as int, cy)]
                    == TileType::Floor,
            forall|cx: int, cy: int|
                in_bounds_spec(old(self).width as int, old(self).height as int, cx, cy) && !(cx
                    == x as int && imin(y1 as int, y2 as int) <= cy <= imax(y1 as int, y2 as int))
                    ==> final(self).tiles@[idx_spec(old(self).width as int, cx, cy)] == old(
                    self,
                ).tiles@[idx_spec(old(self).width as int, cx, cy)],
            forall|k: int|
                0 <= k < old(self).area() ==> final(self).tiles@[k] == old(self).tiles@[k] || (
                final(self).tiles@[k] == TileType::Floor && k != 0),
    {
        let lo: i16 = if y1 < y2 {
            y1
        } else {
            y2
        };
        let hi: i16 = if y1 < y2 {
            y2
        } else {
            y1
        };
        proof {
            lemma_area_bound(self.width as int, self.height as int);
        }
        let area = (self.width as usize) * (self.height as usize);
        let mut y: i16 = lo;
        while y <= hi
            invariant
                self.inv(),
                self.width == old(self).width,
                self.height == old(self).height,
                self.rooms == old(self).rooms,
                self.revealed_tiles == old(self).revealed_tiles,
                self.visible_tiles == old(self).visible_tiles,
                lo <= y <= hi + 1,
                forall|cy: int|
                    lo as int <= cy < y as int && idx_spec(self.width as int, x as int, cy) != 0
                        ==> self.tiles@[idx_spec(self.width as int, x as int, cy)]
                        == TileType::Floor,
                forall|cx: int, cy: int|
                    in_bounds_spec(self.width as int, self.height as int, cx, cy) && !(cx
                        == x as int && lo as int <= cy < y as int) ==> self.tiles@[idx_spec(
                        self.width as int,
                        cx,
                        cy,
                    )] == old(self).tiles@[idx_spec(self.width as int, cx, cy)],
                forall|k: int|
                    0 <= k < old(self).area() ==> self.tiles@[k] == old(self).tiles@[k] || (
                    self.tiles@[k] == TileType::Floor && k != 0),
            decreases hi + 1 - y,
        {
            let ghost pre = self.tiles@;
            let i = self.xy_idx(x, y);
            if i > 0 && i < area {
                self.tiles[i] = TileType::Floor;
            }
            proof {
                let w = self.width as int;
                let h = self.height as int;
                assert forall|cy: int|
                    lo as int <= cy < y as int + 1 && idx_spec(w, x as int, cy) != 0
                        implies self.tiles@[idx_spec(w, x as int, cy)] == TileType::Floor by {
                    if cy == y as int {
                        assert(self.tiles@ == pre.update(i as int, TileType::Floor));
                    } else {
                        lemma_idx_distinct(w, h, x as int, cy, x as int, y as int);
                        lemma_idx_bounds(w, h, x as int, cy);
                        assert(self.tiles@[idx_spec(w, x as int, cy)] == pre[idx_spec(
                            w,
                            x as int,
                            cy,
                        )]);
                    }
                }
                assert forall|cx: int, cy: int|
                    in_bounds_spec(w, h, cx, cy) && !(cx == x as int && lo as int <= cy < y as int
                        + 1) implies self.tiles@[idx_spec(w, cx, cy)] == old(self).tiles@[idx_spec(
                    w,
                    cx,
                    cy,
                )] by {
                    if cx != x as int || cy != y as int {
                        lemma_idx_distinct(w, h, cx, cy, x as int, y as int);
                        lemma_idx_bounds(w, h, cx, cy);
                        assert(self.tiles@[idx_spec(w, cx, cy)] == pre[idx_spec(w, cx, cy)]);
                    }
                }
                assert forall|k: int|
                    0 <= k < old(self).area() implies self.tiles@[k] == old(self).tiles@[k] || (
                self.tiles@[k] == TileType::Floor && k != 0) by {
                    assert(pre[k] == old(self).tiles@[k] || (pre[k] == TileType::Floor && k != 0));
                    if k != i as int {
                        assert(self.tiles@[k] == pre[k]);
                    }
                }
            }
            y = y + 1;
        }
    }

    /// Carve a room interior: every interior cell is overwritten with a
    /// tile drawn from the source — Foliage on a roll of 1, Grass on 2 to 4,
    /// Floor otherwise.
    #[verifier::loop_isolation(false)]
    pub fn apply_room(&mut self, room: &Rect, rng: &mut rltk::RandomNumberGenerator)
        requires
            old(self).inv(),
            0 <= room.x,
            0 <= room.y,
            0 <= room.w,
            0 <= room.h,
            room.x + room.w < old(self).width,
            room.y + room.h < old(self).height,
        ensures
            final(self).inv(),
            final(self).width == old(self).width,
            final(self).height == old(self).height,
            final(self).rooms == old(self).rooms,
            final(self).revealed_tiles == old(self).revealed_tiles,
            final(self).visible_tiles == old(self).visible_tiles,
            forall|cx: int, cy: int|
                #[trigger] in_interior(*room, cx, cy) ==> carved(
                    final(self).tiles@[idx_spec(old(self).width as int, cx, cy)],
                ),
            forall|cx: int, cy: int|
                in_bounds_spec(old(self).width as int, old(self).height as int, cx, cy)
                    && !in_interior(*room, cx, cy) ==> final(self).tiles@[idx_spec(
                    old(self).width as int,
                    cx,
                    cy,
                )] == old(self).tiles@[idx_spec(old(self).width as int, cx, cy)],
            forall|k: int|
                0 <= k < old(self).area() ==> final(self).tiles@[k] == old(self).tiles@[k]
                    || carved(final(self).tiles@[k]),
    {
        let x_lo: i32 = room.x as i32 + 1;
        let x_hi: i32 = room.x as i32 + room.w as i32;
        let y_lo: i32 = room.y as i32 + 1;
        let y_hi: i32 = room.y as i32 + room.h as i32;
        let mut cy: i32 = y_lo;
        while cy <= y_hi
            invariant
                self.inv(),
                self.width == old(self).width,
                self.height == old(self).height,
                self.rooms == old(self).rooms,
                self.revealed_tiles == old(self).revealed_tiles,
                self.visible_tiles == old(self).visible_tiles,
                y_lo <= cy <= y_hi + 1,
                forall|ax: int, ay: int|
                    scan_done(x_lo as int, x_hi as int, y_lo as int, cy as int, x_lo as int, ax, ay)
                        ==> carved(#[trigger] self.tiles@[idx_spec(self.width as int, ax, ay)]),
                forall|ax: int, ay: int|
                    in_bounds_spec(self.width as int, self.height as int, ax, ay) && !scan_done(
                        x_lo as int,
                        x_hi as int,
                        y_lo as int,
                        cy as int,
                        x_lo as int,
                        ax,
                        ay,
                    ) ==> self.tiles@[idx_spec(self.width as int, ax, ay)] == old(
                        self,
                    ).tiles@[idx_spec(self.width as int, ax, ay)],
                forall|k: int|
                    0 <= k < old(self).area() ==> self.tiles@[k] == old(self).tiles@[k] || carved(
                        self.tiles@[k],
                    ),
            decreases y_hi + 1 - cy,
        {
            let mut cx: i32 = x_lo;
            while cx <= x_hi
                invariant
                    self.inv(),
                    self.width == old(self).width,
                    self.height == old(self).height,
                    self.rooms == old(self).rooms,
                    self.revealed_tiles == old(self).revealed_tiles,
                    self.visible_tiles == old(self).visible_tiles,
                    y_lo <= cy <= y_hi,
                    x_lo <= cx <= x_hi + 1,
                    forall|ax: int, ay: int|
                        scan_done(x_lo as int, x_hi as int, y_lo as int, cy as int, cx as int, ax, ay)
                            ==> carved(#[trigger] self.tiles@[idx_spec(self.width as int, ax, ay)]),
                    forall|ax: int, ay: int|
                        in_bounds_spec(self.width as int, self.height as int, ax, ay) && !scan_done(
                            x_lo as int,
                            x_hi as int,
                            y_lo as int,
                            cy as int,
                            cx as int,
                            ax,
                            ay,
                        ) ==> self.tiles@[idx_spec(self.width as int, ax, ay)] == old(
                            self,
                        ).tiles@[idx_spec(self.width as int, ax, ay)],
                    forall|k: int|
                        0 <= k < old(self).area() ==> self.tiles@[k] == old(self).tiles@[k]
                            || carved(self.tiles@[k]),
                decreases x_hi + 1 - cx,
            {
                let ghost pre = self.tiles@;
                let i = self.xy_idx(cx as i16, cy as i16);
                let roll = crate::rng::rng_range(rng, 0, 10);
                let t = tile_for_roll(roll);
                self.tiles[i] = t;
                proof {
                    let w = self.width as int;
                    let h = self.height as int;
                    assert(self.tiles@ == pre.update(i as int, t));
                    assert(carved(t));
                    assert forall|ax: int, ay: int|
                        scan_done(
                            x_lo as int,
                            x_hi as int,
                            y_lo as int,
                            cy as int,
                            cx as int + 1,
                            ax,
                            ay,
                        ) implies carved(#[trigger] self.tiles@[idx_spec(w, ax, ay)]) by {
                        if ax == cx as int && ay == cy as int {
                            assert(self.tiles@[idx_spec(w, ax, ay)] == t);
                        } else {
                            lemma_idx_distinct(w, h, ax, ay, cx as int, cy as int);
                            lemma_idx_bounds(w, h, ax, ay);
                            assert(self.tiles@[idx_spec(w, ax, ay)] == pre[idx_spec(w, ax, ay)]);
                            assert(scan_done(
                                x_lo as int,
                                x_hi as int,
                                y_lo as int,
                                cy as int,
                                cx as int,
                                ax,
                                ay,
                            ));
                        }
                    }
                    assert forall|ax: int, ay: int|
                        in_bounds_spec(w, h, ax, ay) && !scan_done(
                            x_lo as int,
                            x_hi as int,
                            y_lo as int,
                            cy as int,
                            cx as int + 1,
                            ax,
                            ay,
                        ) implies self.tiles@[idx_spec(w, ax, ay)] == old(self).tiles@[idx_spec(
                        w,
                        ax,
                        ay,
                    )] by {
                        if ax != cx as int || ay != cy as int {
                            assert(!scan_done(
                                x_lo as int,
                                x_hi as int,
                                y_lo as int,
                                cy as int,
                                cx as int,
                                ax,
                                ay,
                            ));
                            lemma_idx_distinct(w, h, ax, ay, cx as int, cy as int);
                            lemma_idx_bounds(w, h, ax, ay);
                            assert(self.tiles@[idx_spec(w, ax, ay)] == pre[idx_spec(w, ax, ay)]);
                        }
                    }
                    assert forall|k: int|
                        0 <= k < old(self).area() implies self.tiles@[k] == old(self).tiles@[k]
                        || carved(self.tiles@[k]) by {
                        assert(pre[k] == old(self).tiles@[k] || carved(pre[k]));
                        if k != i as int {
                            assert(self.tiles@[k] == pre[k]);
                        }
                    }
                }
                cx = cx + 1;
            }
            cy = cy + 1;
        }
        proof {
            let w = self.width as int;
            let h = self.height as int;
            assert forall|ax: int, ay: int|
                in_bounds_spec(w, h, ax, ay) && !in_interior(*room, ax, ay)
                implies self.tiles@[idx_spec(w, ax, ay)] == old(self).tiles@[idx_spec(
                w,
                ax,
                ay,
            )] by {
                assert(!scan_done(
                    x_lo as int,
                    x_hi as int,
                    y_lo as int,
                    cy as int,
                    x_lo as int,
                    ax,
                    ay,
                ));
            }
            assert forall|ax: int, ay: int| #[trigger]
                in_interior(*room, ax, ay) implies carved(
                self.tiles@[idx_spec(w, ax, ay)],
            ) by {
                assert(scan_done(
                    x_lo as int,
                    x_hi as int,
                    y_lo as int,
                    cy as int,
                    x_lo as int,
                    ax,
                    ay,
                ));
            }
        }
    }

    /// Generate a dungeon: starting from an all-Wall grid, attempt
    /// `max_rooms - min_rooms` candidate rooms with extents drawn from
    /// `[min_size, max_size)`, keep each candidate that intersects no
    /// earlier room, carve its interior, and connect it to the previously
    /// accepted room with an L-shaped Floor tunnel whose bend is chosen by a
    /// coin flip. Rejected candidates are dropped, so the room count is
    /// best-effort.
    #[verifier::loop_isolation(false)]
    pub fn generate(
        width: u16,
        height: u16,
        min_rooms: i32,
        max_rooms: i32,
        min_size: i32,
        max_size: i32,
        rng: &mut rltk::RandomNumberGenerator,
    ) -> (g: TileGrid)
        requires
            1 <= width <= i16::MAX as u16,
            1 <= height <= i16::MAX as u16,
            0 <= min_rooms <= max_rooms,
            1 <= min_size < max_size,
            max_size + 2 <= width as i32,
            max_size + 2 <= height as i32,
        ensures
            g.inv(),
            g.width == width,
            g.height == height,
            g.rooms_valid(),
            min_rooms < max_rooms ==> g.rooms@.len() >= 1,
            g.rooms@.len() <= max_rooms - min_rooms,
            forall|i: int|
                0 <= i < g.rooms@.len() ==> min_size <= (#[trigger] g.rooms@[i]).w < max_size
                    && min_size <= g.rooms@[i].h < max_size,
            forall|i: int|
                1 <= i < g.rooms@.len() ==> l_connected(
                    g.tiles@,
                    width as int,
                    g.rooms@[i - 1],
                    #[trigger] g.rooms@[i],
                ),
            2 <= min_size ==> forall|i: int|
                0 <= i < g.rooms@.len() ==> carved(
                    g.tiles@[idx_spec(
                        width as int,
                        (#[trigger] g.rooms@[i]).spec_center_x(),
                        g.rooms@[i].spec_center_y(),
                    )],
                ),
            forall|cx: int, cy: int|
                in_bounds_spec(width as int, height as int, cx, cy) && (#[trigger] g.tiles@[
                    idx_spec(width as int, cx, cy)
                ]) != TileType::Wall ==> (exists|i: int|
                    0 <= i < g.rooms@.len() && in_interior(#[trigger] g.rooms@[i], cx, cy)) || (
                exists|i: int|
                    1 <= i < g.rooms@.len() && on_l_corridor(
                        g.rooms@[i - 1],
                        #[trigger] g.rooms@[i],
                        cx,
                        cy,
                    )),
            forall|k: int| 0 <= k < g.area() ==> g.revealed_tiles@[k] == false,
            forall|k: int| 0 <= k < g.area() ==> g.visible_tiles@[k] == false,
    {
        let mut g = TileGrid::blank(width, height);
        proof {
            assert forall|cx: int, cy: int|
                in_bounds_spec(width as int, height as int, cx, cy) implies g.tiles@[idx_spec(
                width as int,
                cx,
                cy,
            )] == TileType::Wall by {
                lemma_idx_bounds(width as int, height as int, cx, cy);
            }
        }
        let attempts: i32 = max_rooms - min_rooms;
        let mut a: i32 = 0;
        while a < attempts
            invariant
                g.inv(),
                g.width == width,
                g.height == height,
                g.rooms_valid(),
                0 <= a <= attempts,
                a >= 1 ==> g.rooms@.len() >= 1,
                g.rooms@.len() <= a,
                forall|i: int|
                    0 <= i < g.rooms@.len() ==> min_size <= (#[trigger] g.rooms@[i]).w < max_size
                        && min_size <= g.rooms@[i].h < max_size,
                forall|i: int|
                    1 <= i < g.rooms@.len() ==> l_connected(
                        g.tiles@,
                        width as int,
                        g.rooms@[i - 1],
                        #[trigger] g.rooms@[i],
                    ),
                forall|cx: int, cy: int|
                    in_bounds_spec(width as int, height as int, cx, cy) && (#[trigger] g.tiles@[
                        idx_spec(width as int, cx, cy)
                    ]) != TileType::Wall ==> (exists|i: int|
                        0 <= i < g.rooms@.len() && in_interior(#[trigger] g.rooms@[i], cx, cy)) || (
                    exists|i: int|
                        1 <= i < g.rooms@.len() && on_l_corridor(
                            g.rooms@[i - 1],
                            #[trigger] g.rooms@[i],
                            cx,
                            cy,
                        )),
                forall|k: int| 0 <= k < g.area() ==> g.revealed_tiles@[k] == false,
                forall|k: int| 0 <= k < g.area() ==> g.visible_tiles@[k] == false,
            decreases attempts - a,
        {
            let rw = rng_range(rng, min_size, max_size);
            let rh = rng_range(rng, min_size, max_size);
            let x = rng_roll_dice(rng, 1, width as i32 - rw - 2);
            let y = rng_roll_dice(rng, 1, height as i32 - rh - 2);
            let new_room = Rect::new(x as i16, y as i16, rw as i16, rh as i16);
            let mut ok = true;
            let mut ri: usize = 0;
            while ri < g.rooms.len()
                invariant
                    0 <= ri <= g.rooms@.len(),
                    ok == forall|j: int|
                        0 <= j < ri ==> !new_room.spec_intersects(#[trigger] g.rooms@[j]),
                decreases g.rooms@.len() - ri,
            {
                if new_room.intersects(&g.rooms[ri]) {
                    ok = false;
                }
                ri = ri + 1;
            }
            if ok {
                let ghost t0 = g.tiles@;
                let ghost rooms0 = g.rooms@;
                g.apply_room(&new_room, rng);
                let ghost t1 = g.tiles@;
                if !g.rooms.is_empty() {
                    let (new_x, new_y) = new_room.center();
                    let prev = g.rooms[g.rooms.len() - 1];
                    let (prev_x, prev_y) = prev.center();
                    let coin = rng_range(rng, 0, 2);
                    if coin == 1 {
                        g.apply_horizontal_tunnel(prev_x, new_x, prev_y);
                        let ghost t2 = g.tiles@;
                        g.apply_vertical_tunnel(prev_y, new_y, new_x);
                        proof {
                            let w = g.width as int;
                            let h = g.height as int;
                            assert forall|cx: int|
                                imin(prev_x as int, new_x as int) <= cx <= imax(
                                    prev_x as int,
                                    new_x as int,
                                ) && idx_spec(w, cx, prev_y as int) != 0 implies g.tiles@[idx_spec(
                                w,
                                cx,
                                prev_y as int,
                            )] != TileType::Wall by {
                                lemma_idx_bounds(w, h, cx, prev_y as int);
                                assert(t2[idx_spec(w, cx, prev_y as int)] == TileType::Floor);
                            }
                            assert(h_corridor_open(
                                g.tiles@,
                                w,
                                prev_x as int,
                                new_x as int,
                                prev_y as int,
                            ));
                            assert forall|cy: int|
                                imin(prev_y as int, new_y as int) <= cy <= imax(
                                    prev_y as int,
                                    new_y as int,
                                ) && idx_spec(w, new_x as int, cy) != 0 implies g.tiles@[idx_spec(
                                w,
                                new_x as int,
                                cy,
                            )] != TileType::Wall by {}
                            assert(v_corridor_open(
                                g.tiles@,
                                w,
                                prev_y as int,
                                new_y as int,
                                new_x as int,
                            ));
                            assert(l_connected(g.tiles@, w, prev, new_room));
                            assert forall|cx: int, cy: int|
                                in_bounds_spec(w, h, cx, cy) && !in_interior(new_room, cx, cy)
                                    && !on_l_corridor(prev, new_room, cx, cy) implies g.tiles@[
                                idx_spec(w, cx, cy)
                            ] == t0[idx_spec(w, cx, cy)] by {
                                assert(!(cy == prev_y as int && imin(prev_x as int, new_x as int)
                                    <= cx <= imax(prev_x as int, new_x as int)));
                                assert(!(cx == new_x as int && imin(prev_y as int, new_y as int)
                                    <= cy <= imax(prev_y as int, new_y as int)));
                            }
                        }
                    } else {
                        g.apply_horizontal_tunnel(prev_x, new_x, new_y);
                        let ghost t2 = g.tiles@;
                        g.apply_vertical_tunnel(prev_y, new_y, prev_x);
                        proof {
                            let w = g.width as int;
                            let h = g.height as int;
                            assert forall|cx: int|
                                imin(prev_x as int, new_x as int) <= cx <= imax(
                                    prev_x as int,
                                    new_x as int,
                                ) && idx_spec(w, cx, new_y as int) != 0 implies g.tiles@[idx_spec(
                                w,
                                cx,
                                new_y as int,
                            )] != TileType::Wall by {
                                lemma_idx_bounds(w, h, cx, new_y as int);
                                assert(t2[idx_spec(w, cx, new_y as int)] == TileType::Floor);
                            }
                            assert(h_corridor_open(
                                g.tiles@,
                                w,
                                prev_x as int,
                                new_x as int,
                                new_y as int,
                            ));
                            assert forall|cy: int|
                                imin(prev_y as int, new_y as int) <= cy <= imax(
                                    prev_y as int,
                                    new_y as int,
                                ) && idx_spec(w, prev_x as int, cy) != 0 implies g.tiles@[idx_spec(
                                w,
                                prev_x as int,
                                cy,
                            )] != TileType::Wall by {}
                            assert(v_corridor_open(
                                g.tiles@,
                                w,
                                prev_y as int,
                                new_y as int,
                                prev_x as int,
                            ));
                            assert(l_connected(g.tiles@, w, prev, new_room));
                            assert forall|cx: int, cy: int|
                                in_bounds_spec(w, h, cx, cy) && !in_interior(new_room, cx, cy)
                                    && !on_l_corridor(prev, new_room, cx, cy) implies g.tiles@[
                                idx_spec(w, cx, cy)
                            ] == t0[idx_spec(w, cx, cy)] by {
                                assert(!(cy == new_y as int && imin(prev_x as int, new_x as int)
                                    <= cx <= imax(prev_x as int, new_x as int)));
                                assert(!(cx == prev_x as int && imin(prev_y as int, new_y as int)
                                    <= cy <= imax(prev_y as int, new_y as int)));
                            }
                        }
                    }
                }
                proof {
                    let w = g.width as int;
                    let h = g.height as int;
                    assert forall|k: int| 0 <= k < g.area() implies g.tiles@[k] == t1[k]
                        || g.tiles@[k] == TileType::Floor by {}
                    assert forall|i2: int, cx: int, cy: int|
                        0 <= i2 < g.rooms@.len() && #[trigger] in_interior(g.rooms@[i2], cx, cy)
                        implies carved(g.tiles@[idx_spec(w, cx, cy)]) by {
                        lemma_idx_bounds(w, h, cx, cy);
                        assert(carved(t0[idx_spec(w, cx, cy)]));
                    }
                    assert forall|cx: int, cy: int| #[trigger]
                        in_interior(new_room, cx, cy) implies carved(
                        g.tiles@[idx_spec(w, cx, cy)],
                    ) by {
                        lemma_idx_bounds(w, h, cx, cy);
                        assert(carved(t1[idx_spec(w, cx, cy)]));
                    }
                    assert forall|k: int|
                        0 <= k < g.area() implies g.tiles@[k] == t0[k] || carved(
                        g.tiles@[k],
                    ) by {
                        assert(t1[k] == t0[k] || carved(t1[k]));
                        assert(g.tiles@[k] == t1[k] || g.tiles@[k] == TileType::Floor);
                    }
                    assert forall|i2: int|
                        1 <= i2 < g.rooms@.len() implies l_connected(
                        g.tiles@,
                        w,
                        g.rooms@[i2 - 1],
                        #[trigger] g.rooms@[i2],
                    ) by {
                        let ra = g.rooms@[i2 - 1];
                        let rb = g.rooms@[i2];
                        assert(g.room_in_bounds(ra));
                        assert(g.room_in_bounds(rb));
                        lemma_center_bounds(ra);
                        lemma_center_bounds(rb);
                        lemma_l_connected_preserved(t0, g.tiles@, w, h, ra, rb);
                    }
                }
                g.rooms.push(new_room);
                proof {
                    assert forall|i2: int|
                        0 <= i2 < g.rooms@.len() - 1 implies !(#[trigger] g.rooms@[i2]).spec_intersects(
                        new_room,
                    ) by {
                        lemma_intersects_symmetric(g.rooms@[i2], new_room);
                    }
                    let w = g.width as int;
                    let h = g.height as int;
                    let len0 = rooms0.len() as int;
                    assert forall|cx: int, cy: int|
                        in_bounds_spec(w, h, cx, cy) && (#[trigger] g.tiles@[idx_spec(w, cx, cy)])
                            != TileType::Wall implies ((exists|i: int|
                        0 <= i < g.rooms@.len() && in_interior(#[trigger] g.rooms@[i], cx, cy)) || (
                    exists|i: int|
                        1 <= i < g.rooms@.len() && on_l_corridor(
                            g.rooms@[i - 1],
                            #[trigger] g.rooms@[i],
                            cx,
                            cy,
                        ))) by {
                        lemma_idx_bounds(w, h, cx, cy);
                        if in_interior(new_room, cx, cy) {
                            assert(g.rooms@[g.rooms@.len() - 1] == new_room);
                            assert(in_interior(g.rooms@[g.rooms@.len() - 1], cx, cy));
                        } else if len0 > 0 && on_l_corridor(rooms0[len0 - 1], new_room, cx, cy) {
                            assert(g.rooms@[len0 - 1] == rooms0[len0 - 1]);
                            assert(g.rooms@[len0] == new_room);
                            assert(on_l_corridor(g.rooms@[len0 + 1 - 1 - 1], g.rooms@[len0], cx, cy));
                            assert(1 <= len0 < g.rooms@.len() && on_l_corridor(
                                g.rooms@[len0 - 1],
                                g.rooms@[len0],
                                cx,
                                cy,
                            ));
                        } else {
                            assert(g.tiles@[idx_spec(w, cx, cy)] == t0[idx_spec(w, cx, cy)]);
                            assert(t0[idx_spec(w, cx, cy)] != TileType::Wall);
                            if exists|i: int|
                                0 <= i < rooms0.len() && in_interior(#[trigger] rooms0[i], cx, cy) {
                                let i0 = choose|i: int|
                                    0 <= i < rooms0.len() && in_interior(#[trigger] rooms0[i], cx, cy);
                                assert(g.rooms@[i0] == rooms0[i0]);
                                assert(in_interior(g.rooms@[i0], cx, cy));
                            } else {
                                let i0 = choose|i: int|
                                    1 <= i < rooms0.len() && on_l_corridor(
                                        rooms0[i - 1],
                                        #[trigger] rooms0[i],
                                        cx,
                                        cy,
                                    );
                                assert(g.rooms@[i0] == rooms0[i0]);
                                assert(g.rooms@[i0 - 1] == rooms0[i0 - 1]);
                                assert(on_l_corridor(g.rooms@[i0 - 1], g.rooms@[i0], cx, cy));
                            }
                        }
                    }
                }
            }
            a = a + 1;
        }
        proof {
            if 2 <= min_size {
                assert forall|i: int|
                    0 <= i < g.rooms@.len() implies carved(
                    g.tiles@[idx_spec(
                        width as int,
                        (#[trigger] g.rooms@[i]).spec_center_x(),
                        g.rooms@[i].spec_center_y(),
                    )],
                ) by {
                    let r = g.rooms@[i];
                    lemma_center_bounds(r);
                    assert(r.w / 2 >= 1 && r.h / 2 >= 1) by (nonlinear_arith)
                        requires
                            r.w >= 2,
                            r.h >= 2,
                    ;
                    assert(in_interior(r, r.spec_center_x(), r.spec_center_y()));
                }
            }
        }
        g
    }

    /// Build the default dungeon: an `80 x 80` grid generated under the
    /// default room policy from an entropy-seeded random source.
    pub fn new() -> (g: TileGrid)
        ensures
            g.inv(),
            g.width == SIZE,
            g.height == SIZE,
            g.rooms_valid(),
            g.rooms@.len() >= 1,
            g.rooms@.len() <= (MAX_ROOMS - MIN_ROOMS),
            forall|i: int|
                0 <= i < g.rooms@.len() ==> MIN_SIZE <= (#[trigger] g.rooms@[i]).w < MAX_SIZE
                    && MIN_SIZE <= g.rooms@[i].h < MAX_SIZE,
            forall|i: int|
                1 <= i < g.rooms@.len() ==> l_connected(
                    g.tiles@,
                    SIZE as int,
                    g.rooms@[i - 1],
                    #[trigger] g.rooms@[i],
                ),
            forall|i: int|
                0 <= i < g.rooms@.len() ==> carved(
                    g.tiles@[idx_spec(
                        SIZE as int,
                        (#[trigger] g.rooms@[i]).spec_center_x(),
                        g.rooms@[i].spec_center_y(),
                    )],
                ),
            forall|cx: int, cy: int|
                in_bounds_spec(SIZE as int, SIZE as int, cx, cy) && (#[trigger] g.tiles@[idx_spec(
                    SIZE as int,
                    cx,
                    cy,
                )]) != TileType::Wall ==> (exists|i: int|
                    0 <= i < g.rooms@.len() && in_interior(#[trigger] g.rooms@[i], cx, cy)) || (
                exists|i: int|
                    1 <= i < g.rooms@.len() && on_l_corridor(
                        g.rooms@[i - 1],
                        #[trigger] g.rooms@[i],
                        cx,
                        cy,
                    )),
            forall|k: int| 0 <= k < g.area() ==> g.revealed_tiles@[k] == false,
            forall|k: int| 0 <= k < g.area() ==> g.visible_tiles@[k] == false,
    {
        let mut source = rng_new();
        TileGrid::generate(SIZE, SIZE, MIN_ROOMS, MAX_ROOMS, MIN_SIZE, MAX_SIZE, &mut source)
    }
}

} // verus!
