use vstd::prelude::*;

verus! {

/// Midpoint of the range `[lo, hi]`, halving the extent with truncating
/// division; for `lo <= hi` it lies within `[lo, hi]`.
pub open spec fn mid_of(lo: int, hi: int) -> int {
    lo + (hi - lo) / 2
}

/// A two-dimensional axis-aligned bounding volume for a `Quadtree` node,
/// given by its minimum and maximum corners, each of format `[x, y]`.
///
/// Coordinates are `i64` scalars; a caller that works in fractional units
/// picks a fixed scale (say thousandths) and supplies scaled coordinates.
/// Halving an extent truncates, so repeated subdivision of a volume loses
/// precision once an extent falls below the branching factor.
#[derive(Clone, Copy)]
pub struct Volume {
    pub min: [i64; 2],
    pub max: [i64; 2],
}

impl Volume {
    /// The corners are ordered: `min[i] <= max[i]` on every axis. The
    /// structure never checks this; it is the caller's contract.
    pub open spec fn proper(self) -> bool {
        &&& self.min[0] <= self.max[0]
        &&& self.min[1] <= self.max[1]
    }

    /// Proper, with each extent small enough that subdivision arithmetic
    /// stays within the scalar type.
    pub open spec fn valid(self) -> bool {
        &&& self.proper()
        &&& self.max[0] - self.min[0] <= i64::MAX
        &&& self.max[1] - self.min[1] <= i64::MAX
    }

    /// Closed-interval containment: `p` lies inside the volume, boundary
    /// included on every axis.
    pub open spec fn contains_pt(self, p: [i64; 2]) -> bool {
        &&& self.min[0] <= p[0] && p[0] <= self.max[0]
        &&& self.min[1] <= p[1] && p[1] <= self.max[1]
    }

    /// Open-interval overlap: the volumes share interior on every axis.
    /// Volumes that only touch on a boundary do not intersect.
    pub open spec fn intersects_vol(self, other: Volume) -> bool {
        &&& self.min[0] < other.max[0] && self.max[0] > other.min[0]
        &&& self.min[1] < other.max[1] && self.max[1] > other.min[1]
    }

    /// `other` lies entirely within `self`.
    pub open spec fn encloses(self, other: Volume) -> bool {
        &&& self.min[0] <= other.min[0] && other.max[0] <= self.max[0]
        &&& self.min[1] <= other.min[1] && other.max[1] <= self.max[1]
    }

    /// The volumes have zero overlap on some axis; at most a shared boundary.
    pub open spec fn disjoint_from(self, other: Volume) -> bool {
        ||| self.max[0] <= other.min[0]
        ||| other.max[0] <= self.min[0]
        ||| self.max[1] <= other.min[1]
        ||| other.max[1] <= self.min[1]
    }

    /// Midpoint of the first axis.
    pub open spec fn mid0(self) -> int {
        mid_of(self.min[0] as int, self.max[0] as int)
    }

    /// Midpoint of the second axis.
    pub open spec fn mid1(self) -> int {
        mid_of(self.min[1] as int, self.max[1] as int)
    }

    /// North-west quadrant: low half of both axes.
    pub open spec fn nw_vol(self) -> Volume {
        Volume { min: [self.min[0], self.min[1]], max: [self.mid0() as i64, self.mid1() as i64] }
    }

    /// North-east quadrant: high half of the first axis, low half of the second.
    pub open spec fn ne_vol(self) -> Volume {
        Volume { min: [self.mid0() as i64, self.min[1]], max: [self.max[0], self.mid1() as i64] }
    }

    /// South-west quadrant: low half of the first axis, high half of the second.
    pub open spec fn sw_vol(self) -> Volume {
        Volume { min: [self.min[0], self.mid1() as i64], max: [self.mid0() as i64, self.max[1]] }
    }

    /// South-east quadrant: high half of both axes.
    pub open spec fn se_vol(self) -> Volume {
        Volume { min: [self.mid0() as i64, self.mid1() as i64], max: [self.max[0], self.max[1]] }
    }

    /// Create a new bounding volume from two points, where both `min`
    /// and `max` are of format `[x, y]`. No validation is performed; the
    /// caller must ensure `min[i] <= max[i]` on both axes.
    #[inline]
    pub fn new(min: [i64; 2], max: [i64; 2]) -> (v: Volume)
        ensures
            v.min == min,
            v.max == max,
    {
        Volume { min, max }
    }

    #[inline]
    pub fn min(&self) -> (r: [i64; 2])
        ensures
            r == self.min,
    {
        self.min
    }

    #[inline]
    pub fn max(&self) -> (r: [i64; 2])
        ensures
            r == self.max,
    {
        self.max
    }

    /// Returns `true` if `p` is inside the volume (boundary included),
    /// `false` otherwise.
    #[inline]
    pub fn contains(&self, p: &[i64; 2]) -> (r: bool)
        ensures
            r == self.contains_pt(*p),
    {
        p[0] >= self.min[0] && p[0] <= self.max[0] && p[1] >= self.min[1] && p[1] <= self.max[1]
    }

    /// Returns `true` if `other` intersects the volume (shared interior on
    /// both axes; touching boundaries do not count), `false` otherwise.
    #[inline]
    pub fn intersects(&self, other: &Volume) -> (r: bool)
        ensures
            r == self.intersects_vol(*other),
    {
        self.min[0] < other.max[0] && self.max[0] > other.min[0] && self.min[1] < other.max[1]
            && self.max[1] > other.min[1]
    }
}

/// Each quadrant of a valid volume is itself valid and lies within it.
pub proof fn lemma_quadrants_within(v: Volume)
    requires
        v.valid(),
    ensures
        v.nw_vol().valid() && v.encloses(v.nw_vol()),
        v.ne_vol().valid() && v.encloses(v.ne_vol()),
        v.sw_vol().valid() && v.encloses(v.sw_vol()),
        v.se_vol().valid() && v.encloses(v.se_vol()),
{
}

/// The four quadrants cover their volume: every point inside the volume
/// lies inside at least one quadrant. A point on the midpoint boundary may
/// lie in more than one.
pub proof fn lemma_quadrants_cover(v: Volume, p: [i64; 2])
    requires
        v.proper(),
        v.contains_pt(p),
    ensures
        v.nw_vol().contains_pt(p) || v.ne_vol().contains_pt(p) || v.sw_vol().contains_pt(p)
            || v.se_vol().contains_pt(p),
{
}

/// A point strictly outside the box on some axis is not contained in it.
pub proof fn lemma_outside_not_contained(v: Volume, p: [i64; 2])
    requires
        p[0] < v.min[0] || p[0] > v.max[0] || p[1] < v.min[1] || p[1] > v.max[1],
    ensures
        !v.contains_pt(p),
{
}

} // verus!
