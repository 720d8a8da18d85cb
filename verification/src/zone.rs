//! Zones (axis-aligned rectangles with integer bounds) and the geometric
//! predicates that the tiling invariant is stated with.

use vstd::prelude::*;

verus! {

/// One rectangular region of a tiling state.  `right > left` and
/// `bottom > top` hold for every zone of a well-formed state.
#[derive(Clone, Copy, PartialEq, Eq, Structural, Debug)]
pub struct Zone {
    pub left: i32,
    pub top: i32,
    pub right: i32,
    pub bottom: i32,
}

/// An axis along which a zone can be cut.
#[derive(Clone, Copy, PartialEq, Eq, Structural, Debug)]
pub enum Direction {
    Horizontal,
    Vertical,
}

/// A cut line: `Horizontal(x)` cuts with a vertical line at `x`,
/// `Vertical(y)` cuts with a horizontal line at `y`.
#[derive(Clone, Copy, PartialEq, Eq, Structural, Debug)]
pub enum SplitDirection {
    Horizontal(i32),
    Vertical(i32),
}

impl Direction {
    /// The other axis.
    pub fn other(&self) -> (r: Direction)
        ensures
            r == self.flip(),
    {
        match self {
            Direction::Horizontal => Direction::Vertical,
            Direction::Vertical => Direction::Horizontal,
        }
    }

    pub open spec fn flip(self) -> Direction {
        match self {
            Direction::Horizontal => Direction::Vertical,
            Direction::Vertical => Direction::Horizontal,
        }
    }
}

impl Zone {
    pub fn new(left: i32, top: i32, right: i32, bottom: i32) -> (r: Zone)
        ensures
            r == (Zone { left, top, right, bottom }),
    {
        Zone { left, top, right, bottom }
    }

    pub open spec fn spec_w(self) -> int {
        self.right - self.left
    }

    pub open spec fn spec_h(self) -> int {
        self.bottom - self.top
    }

    /// Width of the zone.
    pub fn w(&self) -> (r: i32)
        requires
            0 <= self.left <= self.right,
        ensures
            r == self.spec_w(),
    {
        self.right - self.left
    }

    /// Height of the zone.
    pub fn h(&self) -> (r: i32)
        requires
            0 <= self.top <= self.bottom,
        ensures
            r == self.spec_h(),
    {
        self.bottom - self.top
    }
}

/// The zone is a nonempty rectangle.
pub open spec fn zone_nonempty(z: Zone) -> bool {
    z.left < z.right && z.top < z.bottom
}

/// The zone lies within the monitor rectangle `[0, w) x [0, h)`.
pub open spec fn zone_in_monitor(z: Zone, w: int, h: int) -> bool {
    0 <= z.left && z.right <= w && 0 <= z.top && z.bottom <= h
}

/// The point `(x, y)` lies in the zone (half-open on the right and bottom,
/// so distinct points of the integer grid are covered by at most one zone of
/// a partition).
pub open spec fn zone_covers(z: Zone, x: int, y: int) -> bool {
    z.left <= x < z.right && z.top <= y < z.bottom
}

/// The two zones are separated along some axis, so their interiors are
/// disjoint.
pub open spec fn zones_separated(a: Zone, b: Zone) -> bool {
    a.right <= b.left || b.right <= a.left || a.bottom <= b.top || b.bottom <= a.top
}

/// Some zone of the state covers the point `(x, y)`.
pub open spec fn state_covered(s: Seq<Zone>, x: int, y: int) -> bool {
    exists|i: int| 0 <= i < s.len() && zone_covers(#[trigger] s[i], x, y)
}

/// The tiling invariant: the zones are nonempty, lie within the monitor
/// rectangle, are pairwise disjoint, and together cover every point of the
/// monitor rectangle.
pub open spec fn is_partition(s: Seq<Zone>, w: int, h: int) -> bool {
    &&& forall|i: int|
        0 <= i < s.len() ==> zone_nonempty(#[trigger] s[i]) && zone_in_monitor(s[i], w, h)
    &&& forall|i: int, j: int|
        0 <= i < s.len() && 0 <= j < s.len() && i != j ==> zones_separated(
            #[trigger] s[i],
            #[trigger] s[j],
        )
    &&& forall|x: int, y: int| 0 <= x < w && 0 <= y < h ==> #[trigger] state_covered(s, x, y)
}

/// Separated zones share no point.
pub proof fn lemma_separated_no_common_point(a: Zone, b: Zone, x: int, y: int)
    requires
        zones_separated(a, b),
    ensures
        !(zone_covers(a, x, y) && zone_covers(b, x, y)),
{
}

/// Nonempty zones that share no point are separated along some axis.
pub proof fn lemma_disjoint_implies_separated(a: Zone, b: Zone)
    requires
        zone_nonempty(a),
        zone_nonempty(b),
        forall|x: int, y: int| !(#[trigger] zone_covers(a, x, y) && zone_covers(b, x, y)),
    ensures
        zones_separated(a, b),
{
    if !zones_separated(a, b) {
        let x = if a.left >= b.left {
            a.left as int
        } else {
            b.left as int
        };
        let y = if a.top >= b.top {
            a.top as int
        } else {
            b.top as int
        };
        assert(zone_covers(a, x, y) && zone_covers(b, x, y));
    }
}

/// A zone whose bounds lie within another zone's bounds stays separated from
/// everything the outer zone is separated from.
pub proof fn lemma_inner_separated(inner: Zone, outer: Zone, other: Zone)
    requires
        outer.left <= inner.left,
        inner.right <= outer.right,
        outer.top <= inner.top,
        inner.bottom <= outer.bottom,
        zones_separated(outer, other),
    ensures
        zones_separated(inner, other),
{
}

} // verus!
