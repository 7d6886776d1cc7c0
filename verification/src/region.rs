//! Rectangles in the shared logical coordinate space of all displays.

use vstd::prelude::*;

verus! {

/// A point or extent in the shared logical coordinate space.
#[derive(Clone, Copy, PartialEq, Eq, Structural, Debug)]
pub struct Vec2 {
    pub x: i32,
    pub y: i32,
}

/// Mathematical model of a rectangle: its two corners as unbounded integers.
/// The extent is derived, so every model is internally consistent.
pub struct RegionModel {
    pub min_x: int,
    pub min_y: int,
    pub max_x: int,
    pub max_y: int,
}

impl RegionModel {
    /// Width of the rectangle.
    pub open spec fn dim_x(self) -> int {
        self.max_x - self.min_x
    }

    /// Height of the rectangle.
    pub open spec fn dim_y(self) -> int {
        self.max_y - self.min_y
    }

    /// A rectangle is well formed when its corners are ordered.
    pub open spec fn wf(self) -> bool {
        self.min_x <= self.max_x && self.min_y <= self.max_y
    }

    /// The minimal rectangle containing both `self` and `rhs`:
    /// componentwise minimum of the lower corners and maximum of the upper.
    pub open spec fn combine(self, rhs: RegionModel) -> RegionModel {
        RegionModel {
            min_x: if self.min_x <= rhs.min_x { self.min_x } else { rhs.min_x },
            min_y: if self.min_y <= rhs.min_y { self.min_y } else { rhs.min_y },
            max_x: if self.max_x >= rhs.max_x { self.max_x } else { rhs.max_x },
            max_y: if self.max_y >= rhs.max_y { self.max_y } else { rhs.max_y },
        }
    }

    /// `self` encloses `other`.
    pub open spec fn contains(self, other: RegionModel) -> bool {
        self.min_x <= other.min_x && other.max_x <= self.max_x
            && self.min_y <= other.min_y && other.max_y <= self.max_y
    }
}

/// Combining is commutative.
pub proof fn lemma_combine_commutative(a: RegionModel, b: RegionModel)
    ensures
        a.combine(b) == b.combine(a),
{
}

/// Combining is associative, so a group's bounding region may be folded in
/// any order.
pub proof fn lemma_combine_associative(a: RegionModel, b: RegionModel, c: RegionModel)
    ensures
        a.combine(b).combine(c) == a.combine(b.combine(c)),
{
}

/// The combined region encloses both of its arguments.
pub proof fn lemma_combine_contains(a: RegionModel, b: RegionModel)
    ensures
        a.combine(b).contains(a),
        a.combine(b).contains(b),
{
}

/// Containment is transitive.
pub proof fn lemma_contains_transitive(a: RegionModel, b: RegionModel, c: RegionModel)
    requires
        a.contains(b),
        b.contains(c),
    ensures
        a.contains(c),
{
}

/// A rectangle in the shared logical coordinate space, with its extent
/// cached in `dim`.
#[derive(Clone, Copy, PartialEq, Eq, Structural, Debug)]
pub struct Region {
    pub min: Vec2,
    pub max: Vec2,
    pub dim: Vec2,
}

impl View for Region {
    type V = RegionModel;

    open spec fn view(&self) -> RegionModel {
        RegionModel {
            min_x: self.min.x as int,
            min_y: self.min.y as int,
            max_x: self.max.x as int,
            max_y: self.max.y as int,
        }
    }
}

impl Region {
    /// Corners are ordered and `dim` really is `max - min`.
    pub open spec fn wf(self) -> bool {
        &&& self.min.x <= self.max.x
        &&& self.min.y <= self.max.y
        &&& self.dim.x == self.max.x - self.min.x
        &&& self.dim.y == self.max.y - self.min.y
    }

    /// Build a region from ordered corners, computing the extent.
    pub fn new(min: Vec2, max: Vec2) -> (r: Region)
        requires
            min.x <= max.x,
            min.y <= max.y,
            max.x - min.x <= i32::MAX,
            max.y - min.y <= i32::MAX,
        ensures
            r.wf(),
            r.min == min,
            r.max == max,
    {
        Region { min, max, dim: Vec2 { x: max.x - min.x, y: max.y - min.y } }
    }

    /// The minimal region containing both `self` and `rhs`.
    pub fn combine(self, rhs: Region) -> (r: Region)
        requires
            self.wf(),
            rhs.wf(),
            self@.combine(rhs@).dim_x() <= i32::MAX,
            self@.combine(rhs@).dim_y() <= i32::MAX,
        ensures
            r.wf(),
            r@ == self@.combine(rhs@),
    {
        let min = Vec2 {
            x: if self.min.x <= rhs.min.x { self.min.x } else { rhs.min.x },
            y: if self.min.y <= rhs.min.y { self.min.y } else { rhs.min.y },
        };
        let max = Vec2 {
            x: if self.max.x >= rhs.max.x { self.max.x } else { rhs.max.x },
            y: if self.max.y >= rhs.max.y { self.max.y } else { rhs.max.y },
        };
        Region { min, max, dim: Vec2 { x: max.x - min.x, y: max.y - min.y } }
    }
}

/// Conversion of plain coordinate pairs into [`Vec2`].
pub trait TupleVecExt: Sized {
    /// Whether the pair fits the shared signed coordinate space.
    spec fn vec2_ok(self) -> bool;

    /// The converted value.
    spec fn spec_vec2(self) -> Vec2;

    /// Convert the pair.
    fn to_vec2(self) -> (v: Vec2)
        requires
            self.vec2_ok(),
        ensures
            v == self.spec_vec2(),
    ;
}

impl TupleVecExt for (i32, i32) {
    open spec fn vec2_ok(self) -> bool {
        true
    }

    open spec fn spec_vec2(self) -> Vec2 {
        Vec2 { x: self.0, y: self.1 }
    }

    fn to_vec2(self) -> (v: Vec2) {
        Vec2 { x: self.0, y: self.1 }
    }
}

impl TupleVecExt for (u32, u32) {
    open spec fn vec2_ok(self) -> bool {
        self.0 <= i32::MAX && self.1 <= i32::MAX
    }

    open spec fn spec_vec2(self) -> Vec2 {
        Vec2 { x: self.0 as i32, y: self.1 as i32 }
    }

    fn to_vec2(self) -> (v: Vec2) {
        Vec2 { x: self.0 as i32, y: self.1 as i32 }
    }
}

} // verus!
