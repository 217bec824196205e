use vstd::prelude::*;

verus! {

/// An axis-aligned rectangle: top-left corner `(x, y)`, extent `(w, h)`.
/// Rooms of the dungeon are such rectangles, kept within grid bounds.
#[derive(Clone, Copy, Debug, PartialEq, Eq, Structural)]
pub struct Rect {
    pub x: i16,
    pub y: i16,
    pub w: i16,
    pub h: i16,
}

impl Rect {
    /// Exact bounding-box overlap test; rectangles that merely touch count
    /// as intersecting.
    pub open spec fn spec_intersects(self, other: Rect) -> bool {
        &&& self.x + self.w >= other.x
        &&& self.x <= other.x + other.w
        &&& self.y + self.h >= other.y
        &&& self.y <= other.y + other.h
    }

    pub open spec fn spec_center_x(self) -> int {
        self.x + self.w / 2
    }

    pub open spec fn spec_center_y(self) -> int {
        self.y + self.h / 2
    }

    pub fn new(x: i16, y: i16, w: i16, h: i16) -> (r: Rect)
        ensures
            r == (Rect { x, y, w, h }),
    {
        Rect { x, y, w, h }
    }

    pub fn intersects(&self, other: &Rect) -> (r: bool)
        ensures
            r == self.spec_intersects(*other),
    {
        let sx = self.x as i32;
        let sy = self.y as i32;
        let sw = self.w as i32;
        let sh = self.h as i32;
        let ox = other.x as i32;
        let oy = other.y as i32;
        let ow = other.w as i32;
        let oh = other.h as i32;
        sx + sw >= ox && sx <= ox + ow && sy + sh >= oy && sy <= oy + oh
    }

    pub fn center(&self) -> (c: (i16, i16))
        requires
            0 <= self.w,
            0 <= self.h,
            self.x + self.w / 2 <= i16::MAX,
            self.y + self.h / 2 <= i16::MAX,
        ensures
            c.0 == self.spec_center_x(),
            c.1 == self.spec_center_y(),
    {
        (self.x + self.w / 2, self.y + self.h / 2)
    }
}

/// The intersection test is symmetric: swapping the two rectangles cannot
/// change the outcome.
pub proof fn lemma_intersects_symmetric(a: Rect, b: Rect)
    ensures
        a.spec_intersects(b) == b.spec_intersects(a),
{
}

} // verus!
