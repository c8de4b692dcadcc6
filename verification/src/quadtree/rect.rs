//! Rectangles, their four quarters, and the rule that sends a point to one
//! of them.

use crate::ecs::Position;
use vstd::prelude::*;

verus! {

/// An axis-parallel rectangle, edges included: it reaches from `x` to
/// `x + width` and from `y` to `y + height`.
#[derive(Clone, Copy, Debug, PartialEq, Eq, Structural)]
pub struct Rectangle {
    pub x: i32,
    pub y: i32,
    pub width: i32,
    pub height: i32,
}

/// The quarters of a rectangle, in the order in which a point is tried
/// against them. `NW` holds the corner (`x`, `y`).
#[derive(Clone, Copy, Debug, PartialEq, Eq, Structural)]
pub enum Quadrant {
    NW,
    NE,
    SW,
    SE,
}

impl Rectangle {
    /// The sides are not negative and the far corner is a position.
    pub open spec fn valid(self) -> bool {
        &&& 0 <= self.width
        &&& 0 <= self.height
        &&& self.x + self.width <= i32::MAX
        &&& self.y + self.height <= i32::MAX
    }

    /// Whether `p` lies in the rectangle or on its edge.
    pub open spec fn contains(self, p: Position) -> bool {
        &&& self.x <= p.x <= self.x + self.width
        &&& self.y <= p.y <= self.y + self.height
    }

    /// The quarter `q`. The rectangle is cut at `x + width / 2` and at
    /// `y + height / 2`; where a side is odd, the quarters beyond the cut
    /// are the longer ones. Neighbours share the cut line.
    pub open spec fn quarter(self, q: Quadrant) -> Rectangle {
        let w = self.width / 2;
        let h = self.height / 2;
        match q {
            Quadrant::NW => Rectangle { x: self.x, y: self.y, width: w as i32, height: h as i32 },
            Quadrant::NE => Rectangle {
                x: (self.x + w) as i32,
                y: self.y,
                width: (self.width - w) as i32,
                height: h as i32,
            },
            Quadrant::SW => Rectangle {
                x: self.x,
                y: (self.y + h) as i32,
                width: w as i32,
                height: (self.height - h) as i32,
            },
            Quadrant::SE => Rectangle {
                x: (self.x + w) as i32,
                y: (self.y + h) as i32,
                width: (self.width - w) as i32,
                height: (self.height - h) as i32,
            },
        }
    }

    /// The quarter that takes `p`: the first of `NW`, `NE`, `SW`, `SE` that
    /// contains it. A point on a cut line belongs to two or four quarters,
    /// and goes to the one that comes first.
    pub open spec fn route(self, p: Position) -> Option<Quadrant> {
        if self.quarter(Quadrant::NW).contains(p) {
            Some(Quadrant::NW)
        } else if self.quarter(Quadrant::NE).contains(p) {
            Some(Quadrant::NE)
        } else if self.quarter(Quadrant::SW).contains(p) {
            Some(Quadrant::SW)
        } else if self.quarter(Quadrant::SE).contains(p) {
            Some(Quadrant::SE)
        } else {
            None
        }
    }

    /// Whether the rectangle can be the region of a tree.
    pub fn is_valid(&self) -> (ok: bool)
        ensures
            ok == self.valid(),
    {
        self.width >= 0 && self.height >= 0 && self.x <= i32::MAX - self.width && self.y
            <= i32::MAX - self.height
    }
}

/// The quarters tile the rectangle: each is a valid rectangle inside it, and
/// a point lies in the rectangle exactly if it lies in one of them.
pub proof fn lemma_quarters_tile(r: Rectangle, p: Position)
    requires
        r.valid(),
    ensures
        forall|q: Quadrant| #[trigger] r.quarter(q).valid(),
        forall|q: Quadrant| #[trigger] r.quarter(q).contains(p) ==> r.contains(p),
        r.contains(p) <==> r.route(p).is_some(),
        r.route(p) matches Some(q) ==> r.quarter(q).contains(p),
{
}

/// Two quarters meet on a cut line at most: a point that lies in two of them
/// lies on the line `x + width / 2` or on the line `y + height / 2`.
pub proof fn lemma_quarters_meet_on_cuts(r: Rectangle, p: Position, a: Quadrant, b: Quadrant)
    requires
        r.valid(),
        a != b,
        r.quarter(a).contains(p),
        r.quarter(b).contains(p),
    ensures
        p.x == r.x + r.width / 2 || p.y == r.y + r.height / 2,
{
}

/// A point on the vertical cut line goes west: its quarter is `NW` or `SW`,
/// and which of the two depends on nothing but `r` and `p`.
pub proof fn lemma_cut_line_goes_west(r: Rectangle, p: Position)
    requires
        r.valid(),
        r.contains(p),
        p.x == r.x + r.width / 2,
    ensures
        r.route(p) == Some(
            if p.y <= r.y + r.height / 2 {
                Quadrant::NW
            } else {
                Quadrant::SW
            },
        ),
{
}

} // verus!
