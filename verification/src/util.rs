//! Integer plane geometry for the editor grid: points and rectangles
//! with `i32` coordinates.

use vstd::prelude::*;

verus! {

/// A point or extent on the integer grid.
#[derive(Debug, Clone, Copy, Hash, PartialEq, Eq, PartialOrd, Ord, Structural)]
pub struct IVec2 {
    pub x: i32,
    pub y: i32,
}

/// Shorthand constructor for an `IVec2`.
pub fn ivec2(x: i32, y: i32) -> (r: IVec2)
    ensures
        r == (IVec2 { x, y }),
{
    IVec2::new(x, y)
}

impl IVec2 {
    pub fn new(x: i32, y: i32) -> (r: Self)
        ensures
            r == (IVec2 { x, y }),
    {
        Self { x, y }
    }
}

/// Whether the sum of two coordinates stays representable.
pub open spec fn add_ok(a: i32, b: i32) -> bool {
    i32::MIN <= a as int + b as int <= i32::MAX
}

/// Componentwise sum of two grid vectors.
pub open spec fn vec_plus(a: IVec2, b: IVec2) -> IVec2 {
    IVec2 { x: (a.x + b.x) as i32, y: (a.y + b.y) as i32 }
}

/// An axis-aligned rectangle: a corner position and an extent.
#[derive(Debug, Clone, Copy, Hash, PartialEq, Eq, PartialOrd, Ord, Structural)]
pub struct IRect {
    pub pos: IVec2,
    pub size: IVec2,
}

/// Shorthand constructor for an `IRect`.
pub fn irect(pos: IVec2, size: IVec2) -> (r: IRect)
    ensures
        r == (IRect { pos, size }),
{
    IRect::new(pos, size)
}

impl IRect {
    pub fn new(pos: IVec2, size: IVec2) -> (r: Self)
        ensures
            r == (IRect { pos, size }),
    {
        Self { pos, size }
    }

    /// Whether `t` lies in the closed rectangle from `pos` to
    /// `pos + size`.
    pub fn contains(&self, t: IVec2) -> (r: bool)
        requires
            add_ok(self.pos.x, self.size.x),
            add_ok(self.pos.y, self.size.y),
        ensures
            r == (self.pos.x <= t.x <= self.pos.x + self.size.x && self.pos.y <= t.y <= self.pos.y
                + self.size.y),
    {
        let bot_right_x = self.pos.x + self.size.x;
        let bot_right_y = self.pos.y + self.size.y;
        self.pos.x <= t.x && t.x <= bot_right_x && self.pos.y <= t.y && t.y <= bot_right_y
    }
}

} // verus!
