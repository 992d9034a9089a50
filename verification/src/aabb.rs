//! Axis-aligned bounding boxes.
//!
//! Plain min/max rectangles over fixed-point coordinates, used by
//! callers to frame shapes; every operation is exact.

use crate::fx::{tdiv, tdiv64};
use crate::vec2::{in_lim_v, v_add, v_sub, V2i, Vec2};
use vstd::prelude::*;

verus! {

/// The smaller of two coordinates.
pub open spec fn min_s(a: int, b: int) -> int {
    if a <= b {
        a
    } else {
        b
    }
}

/// The larger of two coordinates.
pub open spec fn max_s(a: int, b: int) -> int {
    if a >= b {
        a
    } else {
        b
    }
}

/// An axis-aligned box from its lowest to its highest corner.
#[derive(Clone, Copy, PartialEq, Eq, Structural, Debug)]
pub struct Aabb {
    pub min: Vec2,
    pub max: Vec2,
}

/// Box corners are within the world bound.
pub open spec fn aabb_wf(b: Aabb) -> bool {
    in_lim_v(b.min@) && in_lim_v(b.max@)
}

impl Aabb {
    /// The box with the given corners.
    pub fn new(min: Vec2, max: Vec2) -> (r: Aabb)
        ensures
            r.min == min,
            r.max == max,
    {
        Aabb { min, max }
    }

    /// The smallest box holding both points.
    pub fn from_two_points(a: Vec2, b: Vec2) -> (r: Aabb)
        ensures
            r.min@.x == min_s(a@.x, b@.x),
            r.min@.y == min_s(a@.y, b@.y),
            r.max@.x == max_s(a@.x, b@.x),
            r.max@.y == max_s(a@.y, b@.y),
    {
        Aabb {
            min: Vec2 {
                x: if a.x <= b.x {
                    a.x
                } else {
                    b.x
                },
                y: if a.y <= b.y {
                    a.y
                } else {
                    b.y
                },
            },
            max: Vec2 {
                x: if a.x >= b.x {
                    a.x
                } else {
                    b.x
                },
                y: if a.y >= b.y {
                    a.y
                } else {
                    b.y
                },
            },
        }
    }

    /// The box of the given size centred at `center`; the half size
    /// truncates toward zero.
    pub fn from_center_size(center: Vec2, size: Vec2) -> (r: Aabb)
        requires
            in_lim_v(center@),
            in_lim_v(size@),
            0 <= size@.x,
            0 <= size@.y,
        ensures
            r.min@ == v_sub(center@, V2i { x: tdiv(size@.x, 2), y: tdiv(size@.y, 2) }),
            r.max@ == v_add(center@, V2i { x: tdiv(size@.x, 2), y: tdiv(size@.y, 2) }),
    {
        let hx = tdiv64(size.x, 2);
        let hy = tdiv64(size.y, 2);
        Aabb {
            min: Vec2 { x: center.x - hx, y: center.y - hy },
            max: Vec2 { x: center.x + hx, y: center.y + hy },
        }
    }

    /// The box of the given size whose top-left corner is `top_left`.
    pub fn from_top_left(top_left: Vec2, size: Vec2) -> (r: Aabb)
        requires
            in_lim_v(top_left@),
            in_lim_v(size@),
            0 <= size@.x,
            0 <= size@.y,
        ensures
            r == Aabb::from_center_size_s(
                V2i {
                    x: top_left@.x + tdiv(size@.x, 2),
                    y: top_left@.y - tdiv(size@.y, 2),
                },
                size@,
            ),
    {
        let hx = tdiv64(size.x, 2);
        let hy = tdiv64(size.y, 2);
        let center = Vec2 { x: top_left.x + hx, y: top_left.y - hy };
        let r = Aabb {
            min: Vec2 { x: center.x - hx, y: center.y - hy },
            max: Vec2 { x: center.x + hx, y: center.y + hy },
        };
        r
    }

    /// The box centred at a point with truncating half extents, as a
    /// value.
    pub open spec fn from_center_size_s(center: V2i, size: V2i) -> Aabb {
        Aabb {
            min: Vec2 {
                x: (center.x - tdiv(size.x, 2)) as i64,
                y: (center.y - tdiv(size.y, 2)) as i64,
            },
            max: Vec2 {
                x: (center.x + tdiv(size.x, 2)) as i64,
                y: (center.y + tdiv(size.y, 2)) as i64,
            },
        }
    }

    /// The centre point; each coordinate truncates toward zero.
    pub fn center(&self) -> (r: Vec2)
        requires
            aabb_wf(*self),
        ensures
            r@.x == tdiv(self.min@.x + self.max@.x, 2),
            r@.y == tdiv(self.min@.y + self.max@.y, 2),
    {
        Vec2 { x: tdiv64(self.min.x + self.max.x, 2), y: tdiv64(self.min.y + self.max.y, 2) }
    }

    /// The size: max minus min.
    pub fn size(&self) -> (r: Vec2)
        requires
            aabb_wf(*self),
        ensures
            r@ == v_sub(self.max@, self.min@),
    {
        Vec2 { x: self.max.x - self.min.x, y: self.max.y - self.min.y }
    }

    /// Whether a point lies in the box, boundary included.
    pub fn contains(&self, point: Vec2) -> (r: bool)
        ensures
            r == (self.min@.x <= point@.x <= self.max@.x && self.min@.y <= point@.y
                <= self.max@.y),
    {
        self.min.x <= point.x && self.min.y <= point.y && self.max.x >= point.x && self.max.y
            >= point.y
    }

    /// Whether two boxes touch or overlap.
    pub fn intersects(&self, other: &Aabb) -> (r: bool)
        ensures
            r == (self.min@.x <= other.max@.x && self.max@.x >= other.min@.x && self.min@.y
                <= other.max@.y && self.max@.y >= other.min@.y),
    {
        self.min.x <= other.max.x && self.max.x >= other.min.x && self.min.y <= other.max.y
            && self.max.y >= other.min.y
    }

    /// Grow the box to take in a point.
    pub fn expand_to_include_point(&mut self, point: Vec2)
        ensures
            final(self).min@.x == min_s(old(self).min@.x, point@.x),
            final(self).min@.y == min_s(old(self).min@.y, point@.y),
            final(self).max@.x == max_s(old(self).max@.x, point@.x),
            final(self).max@.y == max_s(old(self).max@.y, point@.y),
    {
        if point.x < self.min.x {
            self.min.x = point.x;
        }
        if point.y < self.min.y {
            self.min.y = point.y;
        }
        if point.x > self.max.x {
            self.max.x = point.x;
        }
        if point.y > self.max.y {
            self.max.y = point.y;
        }
    }

    /// Grow the box to take in another box.
    pub fn expand_to_include_aabb(&mut self, other: &Aabb)
        ensures
            final(self).min@.x == min_s(old(self).min@.x, other.min@.x),
            final(self).min@.y == min_s(old(self).min@.y, other.min@.y),
            final(self).max@.x == max_s(old(self).max@.x, other.max@.x),
            final(self).max@.y == max_s(old(self).max@.y, other.max@.y),
    {
        if other.min.x < self.min.x {
            self.min.x = other.min.x;
        }
        if other.min.y < self.min.y {
            self.min.y = other.min.y;
        }
        if other.max.x > self.max.x {
            self.max.x = other.max.x;
        }
        if other.max.y > self.max.y {
            self.max.y = other.max.y;
        }
    }
}

} // verus!
