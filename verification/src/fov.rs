use vstd::prelude::*;
use crate::grid::TileGrid;
use crate::grid::TileType;
use crate::grid::opaque;
use crate::grid::idx_spec;
use crate::grid::in_bounds_spec;

verus! {

/// A grid point, as cached in a viewshed.
#[derive(Clone, Copy, Debug, PartialEq, Eq, Structural)]
pub struct Point {
    pub x: i16,
    pub y: i16,
}

/// Distance between two coordinates on one axis.
pub open spec fn dist1(a: int, b: int) -> int {
    if a <= b {
        b - a
    } else {
        a - b
    }
}

pub open spec fn sign_spec(a: int) -> int {
    if a > 0 {
        1int
    } else if a < 0 {
        -1int
    } else {
        0int
    }
}

/// The line walk's step parameters point from `(x, y)` toward `(tx, ty)`.
pub open spec fn step_ok(x: int, y: int, tx: int, ty: int, dx: int, dy: int, sx: int, sy: int) -> bool {
    &&& (x < tx ==> sx == 1)
    &&& (x > tx ==> sx == -1)
    &&& (y < ty ==> sy == 1)
    &&& (y > ty ==> sy == -1)
    &&& dx >= 0
    &&& dy <= 0
}

/// One step of the discrete line from `(x, y)` toward `(tx, ty)`: while both
/// axes differ, a Bresenham error step; once one axis matches the target, a
/// straight step on the other. Returns the next cell and error term.
pub open spec fn line_step(
    x: int,
    y: int,
    tx: int,
    ty: int,
    dx: int,
    dy: int,
    sx: int,
    sy: int,
    err: int,
) -> (int, int, int) {
    if x == tx {
        (x, y + sy, err)
    } else if y == ty {
        (x + sx, y, err)
    } else {
        let e2 = 2 * err;
        let nx = if e2 >= dy {
            x + sx
        } else {
            x
        };
        let ny = if e2 <= dx {
            y + sy
        } else {
            y
        };
        let nerr = err + (if e2 >= dy {
            dy
        } else {
            0int
        }) + (if e2 <= dx {
            dx
        } else {
            0int
        });
        (nx, ny, nerr)
    }
}

/// The walked line from `(x, y)` to `(tx, ty)` meets no opaque tile strictly
/// between its endpoints. The start and the target themselves are never
/// tested, so an opaque target (a wall face) can be seen.
pub open spec fn clear_path(
    tiles: Seq<TileType>,
    w: int,
    x: int,
    y: int,
    tx: int,
    ty: int,
    dx: int,
    dy: int,
    sx: int,
    sy: int,
    err: int,
) -> bool
    decreases dist1(x, tx) + dist1(y, ty),
        when step_ok(x, y, tx, ty, dx, dy, sx, sy)
{
    if x == tx && y == ty {
        true
    } else {
        let next = line_step(x, y, tx, ty, dx, dy, sx, sy, err);
        if next.0 == tx && next.1 == ty {
            true
        } else if opaque(tiles[idx_spec(w, next.0, next.1)]) {
            false
        } else {
            clear_path(tiles, w, next.0, next.1, tx, ty, dx, dy, sx, sy, next.2)
        }
    }
}

/// Line-of-sight between two cells, with the walk's parameters fixed from
/// its endpoints.
pub open spec fn line_clear_spec(
    tiles: Seq<TileType>,
    w: int,
    px: int,
    py: int,
    tx: int,
    ty: int,
) -> bool {
    clear_path(
        tiles,
        w,
        px,
        py,
        tx,
        ty,
        dist1(px, tx),
        -dist1(py, ty),
        sign_spec(tx - px),
        sign_spec(ty - py),
        dist1(px, tx) - dist1(py, ty),
    )
}

/// What the field-of-view sweep from `(px, py)` out to `range` yields: the
/// in-bounds cells of the surrounding square that the walked line reaches
/// without crossing an opaque tile.
pub open spec fn tile_visible(
    tiles: Seq<TileType>,
    w: int,
    h: int,
    px: int,
    py: int,
    range: int,
    x: int,
    y: int,
) -> bool {
    &&& in_bounds_spec(w, h, x, y)
    &&& px - range <= x <= px + range
    &&& py - range <= y <= py + range
    &&& line_clear_spec(tiles, w, px, py, x, y)
}

/// The viewer's own tile is always in its field of view.
pub proof fn lemma_visible_self(
    tiles: Seq<TileType>,
    w: int,
    h: int,
    px: int,
    py: int,
    range: int,
)
    requires
        in_bounds_spec(w, h, px, py),
        range >= 0,
    ensures
        tile_visible(tiles, w, h, px, py, range, px, py),
{
    assert(clear_path(tiles, w, px, py, px, py, 0, 0, 0, 0, 0));
}

/// Nothing outside the grid is ever in a field of view.
pub proof fn lemma_visible_in_bounds(
    tiles: Seq<TileType>,
    w: int,
    h: int,
    px: int,
    py: int,
    range: int,
    x: int,
    y: int,
)
    requires
        tile_visible(tiles, w, h, px, py, range, x, y),
    ensures
        in_bounds_spec(w, h, x, y),
{
}

/// Two distinct cells within a king's move of each other.
pub open spec fn king_adjacent(ax: int, ay: int, bx: int, by: int) -> bool {
    &&& (ax != bx || ay != by)
    &&& -1 <= bx - ax <= 1
    &&& -1 <= by - ay <= 1
}

/// A path of king-adjacent cells from `(fx, fy)` to `(tx, ty)` none of whose
/// strictly interior cells is opaque: a concrete unobstructed line of sight.
pub open spec fn is_clear_king_path(
    tiles: Seq<TileType>,
    w: int,
    s: Seq<(int, int)>,
    fx: int,
    fy: int,
    tx: int,
    ty: int,
) -> bool {
    &&& s.len() >= 1
    &&& s[0] == (fx, fy)
    &&& s[s.len() - 1] == (tx, ty)
    &&& forall|k: int|
        0 <= k < s.len() - 1 ==> king_adjacent((#[trigger] s[k]).0, s[k].1, s[k + 1].0, s[k + 1].1)
    &&& forall|k: int|
        0 < k < s.len() - 1 ==> !opaque(tiles[idx_spec(w, (#[trigger] s[k]).0, s[k].1)])
}

/// A clear walked line yields a clear king-adjacent path: its own cells.
proof fn lemma_clear_path_king(
    tiles: Seq<TileType>,
    w: int,
    x: int,
    y: int,
    tx: int,
    ty: int,
    dx: int,
    dy: int,
    sx: int,
    sy: int,
    err: int,
)
    requires
        step_ok(x, y, tx, ty, dx, dy, sx, sy),
        clear_path(tiles, w, x, y, tx, ty, dx, dy, sx, sy, err),
    ensures
        exists|s: Seq<(int, int)>| is_clear_king_path(tiles, w, s, x, y, tx, ty),
    decreases dist1(x, tx) + dist1(y, ty),
{
    if x == tx && y == ty {
        let s = seq![(x, y)];
        assert(is_clear_king_path(tiles, w, s, x, y, tx, ty));
    } else {
        let next = line_step(x, y, tx, ty, dx, dy, sx, sy, err);
        let nx = next.0;
        let ny = next.1;
        assert(king_adjacent(x, y, nx, ny));
        if nx == tx && ny == ty {
            let s = seq![(x, y), (tx, ty)];
            assert(s[0] == (x, y));
            assert(s[1] == (tx, ty));
            assert(is_clear_king_path(tiles, w, s, x, y, tx, ty));
        } else {
            assert(!opaque(tiles[idx_spec(w, nx, ny)]));
            lemma_clear_path_king(tiles, w, nx, ny, tx, ty, dx, dy, sx, sy, next.2);
            let s0 = choose|s0: Seq<(int, int)>| is_clear_king_path(tiles, w, s0, nx, ny, tx, ty);
            let s = seq![(x, y)] + s0;
            assert(s[0] == (x, y));
            assert(s.len() == 1 + s0.len());
            assert(s[s.len() - 1] == s0[s0.len() - 1]);
            assert forall|k: int|
                0 <= k < s.len() - 1 implies king_adjacent(
                (#[trigger] s[k]).0,
                s[k].1,
                s[k + 1].0,
                s[k + 1].1,
            ) by {
                if k == 0 {
                    assert(s[1] == s0[0]);
                } else {
                    assert(s[k] == s0[k - 1]);
                    assert(s[k + 1] == s0[k]);
                }
            }
            assert forall|k: int|
                0 < k < s.len() - 1 implies !opaque(
                tiles[idx_spec(w, (#[trigger] s[k]).0, s[k].1)],
            ) by {
                if k == 1 {
                    assert(s[1] == s0[0]);
                    assert(s0[0] == (nx, ny));
                } else {
                    assert(s[k] == s0[k - 1]);
                }
            }
            assert(is_clear_king_path(tiles, w, s, x, y, tx, ty));
        }
    }
}

/// A tile in a field of view is never separated from the viewer by opaque
/// tiles on every line: the walked line itself is a king-adjacent path from
/// the viewer to the tile with no opaque cell strictly between.
pub proof fn lemma_visible_not_separated(
    tiles: Seq<TileType>,
    w: int,
    h: int,
    px: int,
    py: int,
    range: int,
    x: int,
    y: int,
)
    requires
        tile_visible(tiles, w, h, px, py, range, x, y),
    ensures
        exists|s: Seq<(int, int)>| is_clear_king_path(tiles, w, s, px, py, x, y),
{
    lemma_clear_path_king(
        tiles,
        w,
        px,
        py,
        x,
        y,
        dist1(px, x),
        -dist1(py, y),
        sign_spec(x - px),
        sign_spec(y - py),
        dist1(px, x) - dist1(py, y),
    );
}

/// Mirror of `clear_path`, walking the grid cell by cell.
#[verifier::loop_isolation(false)]
fn clear_path_exec(
    g: &TileGrid,
    x: i32,
    y: i32,
    tx: i32,
    ty: i32,
    dx: i32,
    dy: i32,
    sx: i32,
    sy: i32,
    err: i32,
) -> (r: bool)
    requires
        g.inv(),
        in_bounds_spec(g.width as int, g.height as int, x as int, y as int),
        in_bounds_spec(g.width as int, g.height as int, tx as int, ty as int),
        step_ok(x as int, y as int, tx as int, ty as int, dx as int, dy as int, sx as int, sy as int),
        dx <= 0xffff,
        -0xffff <= dy,
        2 * (dy as int) <= err as int <= 2 * (dx as int),
    ensures
        r == clear_path(
            g.tiles@,
            g.width as int,
            x as int,
            y as int,
            tx as int,
            ty as int,
            dx as int,
            dy as int,
            sx as int,
            sy as int,
            err as int,
        ),
    decreases dist1(x as int, tx as int) + dist1(y as int, ty as int),
{
    if x == tx && y == ty {
        return true;
    }
    let (nx, ny, nerr): (i32, i32, i32) = if x == tx {
        (x, y + sy, err)
    } else if y == ty {
        (x + sx, y, err)
    } else {
        let e2 = 2 * err;
        let sx_fire = e2 >= dy;
        let sy_fire = e2 <= dx;
        let nx = if sx_fire {
            x + sx
        } else {
            x
        };
        let ny = if sy_fire {
            y + sy
        } else {
            y
        };
        let nerr = err + (if sx_fire {
            dy
        } else {
            0
        }) + (if sy_fire {
            dx
        } else {
            0
        });
        (nx, ny, nerr)
    };
    if nx == tx && ny == ty {
        return true;
    }
    let i = g.xy_idx(nx as i16, ny as i16);
    if g.is_opaque(i) {
        return false;
    }
    clear_path_exec(g, nx, ny, tx, ty, dx, dy, sx, sy, nerr)
}

/// Line-of-sight test between two in-bounds cells.
pub fn line_clear(g: &TileGrid, px: i16, py: i16, tx: i16, ty: i16) -> (r: bool)
    requires
        g.inv(),
        in_bounds_spec(g.width as int, g.height as int, px as int, py as int),
        in_bounds_spec(g.width as int, g.height as int, tx as int, ty as int),
    ensures
        r == line_clear_spec(g.tiles@, g.width as int, px as int, py as int, tx as int, ty as int),
{
    let x0 = px as i32;
    let y0 = py as i32;
    let x1 = tx as i32;
    let y1 = ty as i32;
    let dx = if x1 >= x0 {
        x1 - x0
    } else {
        x0 - x1
    };
    let dy = if y1 >= y0 {
        y0 - y1
    } else {
        y1 - y0
    };
    let sx: i32 = if x1 > x0 {
        1
    } else if x1 < x0 {
        -1
    } else {
        0
    };
    let sy: i32 = if y1 > y0 {
        1
    } else if y1 < y0 {
        -1
    } else {
        0
    };
    clear_path_exec(g, x0, y0, x1, y1, dx, dy, sx, sy, dx + dy)
}

/// The cells the row-major field-of-view sweep has already decided when it
/// stands at column `cx` of row `cy`.
spec fn swept(x_lo: int, x_hi: int, y_lo: int, cy: int, cx: int, ax: int, ay: int) -> bool {
    (x_lo <= ax <= x_hi && y_lo <= ay < cy) || (ay == cy && x_lo <= ax < cx)
}

/// Field-of-view sweep: scan the square of side `2 * range + 1` around the
/// viewer, keep the in-bounds cells the walked line reaches unobstructed.
/// The result holds exactly the cells `tile_visible` describes; in
/// particular it holds the viewer's own cell and nothing out of bounds.
#[verifier::loop_isolation(false)]
pub fn field_of_view(g: &TileGrid, px: i16, py: i16, range: u16) -> (r: Vec<Point>)
    requires
        g.inv(),
        in_bounds_spec(g.width as int, g.height as int, px as int, py as int),
        range <= 0x3fff,
    ensures
        forall|p: Point|
            #[trigger] r@.contains(p) <==> tile_visible(
                g.tiles@,
                g.width as int,
                g.height as int,
                px as int,
                py as int,
                range as int,
                p.x as int,
                p.y as int,
            ),
        r@.contains(Point { x: px, y: py }),
{
    let w = g.width as i32;
    let h = g.height as i32;
    let x_lo: i32 = if (px as i32) - (range as i32) > 0 {
        (px as i32) - (range as i32)
    } else {
        0
    };
    let x_hi: i32 = if (px as i32) + (range as i32) < w - 1 {
        (px as i32) + (range as i32)
    } else {
        w - 1
    };
    let y_lo: i32 = if (py as i32) - (range as i32) > 0 {
        (py as i32) - (range as i32)
    } else {
        0
    };
    let y_hi: i32 = if (py as i32) + (range as i32) < h - 1 {
        (py as i32) + (range as i32)
    } else {
        h - 1
    };
    let mut r: Vec<Point> = Vec::new();
    let mut cy: i32 = y_lo;
    while cy <= y_hi
        invariant
            y_lo <= cy <= y_hi + 1,
            forall|p: Point|
                #[trigger] r@.contains(p) <==> swept(
                    x_lo as int,
                    x_hi as int,
                    y_lo as int,
                    cy as int,
                    x_lo as int,
                    p.x as int,
                    p.y as int,
                ) && tile_visible(
                    g.tiles@,
                    g.width as int,
                    g.height as int,
                    px as int,
                    py as int,
                    range as int,
                    p.x as int,
                    p.y as int,
                ),
        decreases y_hi + 1 - cy,
    {
        let mut cx: i32 = x_lo;
        while cx <= x_hi
            invariant
                y_lo <= cy <= y_hi,
                x_lo <= cx <= x_hi + 1,
                forall|p: Point|
                    #[trigger] r@.contains(p) <==> swept(
                        x_lo as int,
                        x_hi as int,
                        y_lo as int,
                        cy as int,
                        cx as int,
                        p.x as int,
                        p.y as int,
                    ) && tile_visible(
                        g.tiles@,
                        g.width as int,
                        g.height as int,
                        px as int,
                        py as int,
                        range as int,
                        p.x as int,
                        p.y as int,
                    ),
            decreases x_hi + 1 - cx,
        {
            let ghost r0 = r@;
            let q = Point { x: cx as i16, y: cy as i16 };
            if line_clear(g, px, py, cx as i16, cy as i16) {
                r.push(q);
            }
            proof {
                assert forall|p: Point|
                    #[trigger] r@.contains(p) <==> swept(
                        x_lo as int,
                        x_hi as int,
                        y_lo as int,
                        cy as int,
                        cx as int + 1,
                        p.x as int,
                        p.y as int,
                    ) && tile_visible(
                        g.tiles@,
                        g.width as int,
                        g.height as int,
                        px as int,
                        py as int,
                        range as int,
                        p.x as int,
                        p.y as int,
                    ) by {
                    if r@ == r0 {
                        assert(!r0.contains(q)) by {
                            assert(!swept(
                                x_lo as int,
                                x_hi as int,
                                y_lo as int,
                                cy as int,
                                cx as int,
                                q.x as int,
                                q.y as int,
                            ));
                        }
                    } else {
                        assert(r@ == r0.push(q));
                        if r@.contains(p) {
                            let i = choose|i: int| 0 <= i < r@.len() && r@[i] == p;
                            if i < r0.len() {
                                assert(r0[i] == p);
                                assert(r0.contains(p));
                            } else {
                                assert(p == q);
                            }
                        }
                        if r0.contains(p) {
                            let i = choose|i: int| 0 <= i < r0.len() && r0[i] == p;
                            assert(r@[i] == p);
                            assert(r@.contains(p));
                        }
                        if p == q {
                            assert(r@[r0.len() as int] == q);
                            assert(r@.contains(q));
                        }
                    }
                }
            }
            cx = cx + 1;
        }
        cy = cy + 1;
    }
    proof {
        assert forall|p: Point|
            #[trigger] r@.contains(p) <==> tile_visible(
                g.tiles@,
                g.width as int,
                g.height as int,
                px as int,
                py as int,
                range as int,
                p.x as int,
                p.y as int,
            ) by {
            if tile_visible(
                g.tiles@,
                g.width as int,
                g.height as int,
                px as int,
                py as int,
                range as int,
                p.x as int,
                p.y as int,
            ) {
                assert(swept(
                    x_lo as int,
                    x_hi as int,
                    y_lo as int,
                    cy as int,
                    x_lo as int,
                    p.x as int,
                    p.y as int,
                ));
            }
        }
        lemma_visible_self(
            g.tiles@,
            g.width as int,
            g.height as int,
            px as int,
            py as int,
            range as int,
        );
    }
    r
}

} // verus!
