use vstd::prelude::*;

verus! {

/// Midpoint of the range `[lo, hi]`, halving the extent with truncating
/// division; for `lo <= hi` it lies within `[lo, hi]`.
pub open spec fn mid_of(lo: int, hi: int) -> int {
    lo + (hi - lo) / 2
}

/// A three-dimensional axis-aligned bounding volume for an `Octree` node,
/// given by its minimum and maximum corners, each of format `[x, y, z]`.
///
/// Coordinates are `i64` scalars; a caller that works in fractional units
/// picks a fixed scale (say thousandths) and supplies scaled coordinates.
/// Halving an extent truncates, so repeated subdivision of a volume loses
/// precision once an extent falls below the branching factor.
#[derive(Clone, Copy)]
pub struct Volume {
    pub min: [i64; 3],
    pub max: [i64; 3],
}

impl Volume {
    /// The corners are ordered: `min[i] <= max[i]` on every axis. The
    /// structure never checks this; it is the caller's contract.
    pub open spec fn proper(self) -> bool {
        &&& self.min[0] <= self.max[0]
        &&& self.min[1] <= self.max[1]
        &&& self.min[2] <= self.max[2]
    }

    /// Proper, with each extent small enough that subdivision arithmetic
    /// stays within the scalar type.
    pub open spec fn valid(self) -> bool {
        &&& self.proper()
        &&& self.max[0] - self.min[0] <= i64::MAX
        &&& self.max[1] - self.min[1] <= i64::MAX
        &&& self.max[2] - self.min[2] <= i64::MAX
    }

    /// Closed-interval containment: `p` lies inside the volume, boundary
    /// included on every axis.
    pub open spec fn contains_pt(self, p: [i64; 3]) -> bool {
        &&& self.min[0] <= p[0] && p[0] <= self.max[0]
        &&& self.min[1] <= p[1] && p[1] <= self.max[1]
        &&& self.min[2] <= p[2] && p[2] <= self.max[2]
    }

    /// Open-interval overlap: the volumes share interior on every axis.
    /// Volumes that only touch on a boundary do not intersect.
    pub open spec fn intersects_vol(self, other: Volume) -> bool {
        &&& self.min[0] < other.max[0] && self.max[0] > other.min[0]
        &&& self.min[1] < other.max[1] && self.max[1] > other.min[1]
        &&& self.min[2] < other.max[2] && self.max[2] > other.min[2]
    }

    /// `other` lies entirely within `self`.
    pub open spec fn encloses(self, other: Volume) -> bool {
        &&& self.min[0] <= other.min[0] && other.max[0] <= self.max[0]
        &&& self.min[1] <= other.min[1] && other.max[1] <= self.max[1]
        &&& self.min[2] <= other.min[2] && other.max[2] <= self.max[2]
    }

    /// The volumes have zero overlap on some axis; at most a shared boundary.
    pub open spec fn disjoint_from(self, other: Volume) -> bool {
        ||| self.max[0] <= other.min[0]
        ||| other.max[0] <= self.min[0]
        ||| self.max[1] <= other.min[1]
        ||| other.max[1] <= self.min[1]
        ||| self.max[2] <= other.min[2]
        ||| other.max[2] <= self.min[2]
    }

    /// Midpoint of the first axis.
    pub open spec fn mid0(self) -> int {
        mid_of(self.min[0] as int, self.max[0] as int)
    }

    /// Midpoint of the second axis.
    pub open spec fn mid1(self) -> int {
        mid_of(self.min[1] as int, self.max[1] as int)
    }

    /// Midpoint of the third axis.
    pub open spec fn mid2(self) -> int {
        mid_of(self.min[2] as int, self.max[2] as int)
    }

    /// Lower north-west octant: low half of all three axes.
    pub open spec fn bnw_vol(self) -> Volume {
        Volume {
            min: [self.min[0], self.min[1], self.min[2]],
            max: [self.mid0() as i64, self.mid1() as i64, self.mid2() as i64],
        }
    }

    /// Lower north-east octant: high half of the first axis, low half of
    /// the second and third.
    pub open spec fn bne_vol(self) -> Volume {
        Volume {
            min: [self.mid0() as i64, self.min[1], self.min[2]],
            max: [self.max[0], self.mid1() as i64, self.mid2() as i64],
        }
    }

    /// Lower south-west octant: low half of the first and third axes,
    /// high half of the second.
    pub open spec fn bsw_vol(self) -> Volume {
        Volume {
            min: [self.min[0], self.mid1() as i64, self.min[2]],
            max: [self.mid0() as i64, self.max[1], self.mid2() as i64],
        }
    }

    /// Lower south-east octant: high half of the first and second axes,
    /// low half of the third.
    pub open spec fn bse_vol(self) -> Volume {
        Volume {
            min: [self.mid0() as i64, self.mid1() as i64, self.min[2]],
            max: [self.max[0], self.max[1], self.mid2() as i64],
        }
    }

    /// Upper north-west octant: low half of the first and second axes,
    /// high half of the third.
    pub open spec fn tnw_vol(self) -> Volume {
        Volume {
            min: [self.min[0], self.min[1], self.mid2() as i64],
            max: [self.mid0() as i64, self.mid1() as i64, self.max[2]],
        }
    }

    /// Upper north-east octant: high half of the first and third axes,
    /// low half of the second.
    pub open spec fn tne_vol(self) -> Volume {
        Volume {
            min: [self.mid0() as i64, self.min[1], self.mid2() as i64],
            max: [self.max[0], self.mid1() as i64, self.max[2]],
        }
    }

    /// Upper south-west octant: low half of the first axis, high half of
    /// the second and third.
    pub open spec fn tsw_vol(self) -> Volume {
        Volume {
            min: [self.min[0], self.mid1() as i64, self.mid2() as i64],
            max: [self.mid0() as i64, self.max[1], self.max[2]],
        }
    }

    /// Upper south-east octant: high half of all three axes.
    pub open spec fn tse_vol(self) -> Volume {
        Volume {
            min: [self.mid0() as i64, self.mid1() as i64, self.mid2() as i64],
            max: [self.max[0], self.max[1], self.max[2]],
        }
    }

    /// Create a new bounding volume from two points, where both `min`
    /// and `max` are of format `[x, y, z]`. No validation is performed;
    /// the caller must ensure `min[i] <= max[i]` on all three axes.
    #[inline]
    pub fn new(min: [i64; 3], max: [i64; 3]) -> (v: Volume)
        ensures
            v.min == min,
            v.max == max,
    {
        Volume { min, max }
    }

    #[inline]
    pub fn min(&self) -> (r: [i64; 3])
        ensures
            r == self.min,
    {
        self.min
    }

    #[inline]
    pub fn max(&self) -> (r: [i64; 3])
        ensures
            r == self.max,
    {
        self.max
    }

    /// Returns `true` if `p` is inside the volume (boundary included),
    /// `false` otherwise.
    #[inline]
    pub fn contains(&self, p: &[i64; 3]) -> (r: bool)
        ensures
            r == self.contains_pt(*p),
    {
        p[0] >= self.min[0] && p[0] <= self.max[0] && p[1] >= self.min[1] && p[1] <= self.max[1]
            && p[2] >= self.min[2] && p[2] <= self.max[2]
    }

    /// Returns `true` if `other` intersects the volume (shared interior on
    /// all three axes; touching boundaries do not count), `false` otherwise.
    #[inline]
    pub fn intersects(&self, other: &Volume) -> (r: bool)
        ensures
            r == self.intersects_vol(*other),
    {
        self.min[0] < other.max[0] && self.max[0] > other.min[0] && self.min[1] < other.max[1]
            && self.max[1] > other.min[1] && self.min[2] < other.max[2] && self.max[2]
            > other.min[2]
    }
}

/// Each octant of a valid volume is itself valid and lies within it.
pub proof fn lemma_octants_within(v: Volume)
    requires
        v.valid(),
    ensures
        v.bnw_vol().valid() && v.encloses(v.bnw_vol()),
        v.bne_vol().valid() && v.encloses(v.bne_vol()),
        v.bsw_vol().valid() && v.encloses(v.bsw_vol()),
        v.bse_vol().valid() && v.encloses(v.bse_vol()),
        v.tnw_vol().valid() && v.encloses(v.tnw_vol()),
        v.tne_vol().valid() && v.encloses(v.tne_vol()),
        v.tsw_vol().valid() && v.encloses(v.tsw_vol()),
        v.tse_vol().valid() && v.encloses(v.tse_vol()),
{
}

/// The eight octants cover their volume: every point inside the volume
/// lies inside at least one octant. A point on the midpoint boundary may
/// lie in more than one.
pub proof fn lemma_octants_cover(v: Volume, p: [i64; 3])
    requires
        v.proper(),
        v.contains_pt(p),
    ensures
        v.bnw_vol().contains_pt(p) || v.bne_vol().contains_pt(p) || v.bsw_vol().contains_pt(p)
            || v.bse_vol().contains_pt(p) || v.tnw_vol().contains_pt(p) || v.tne_vol().contains_pt(
            p,
        ) || v.tsw_vol().contains_pt(p) || v.tse_vol().contains_pt(p),
{
}

/// A point strictly outside the box on some axis is not contained in it.
pub proof fn lemma_outside_not_contained(v: Volume, p: [i64; 3])
    requires
        p[0] < v.min[0] || p[0] > v.max[0] || p[1] < v.min[1] || p[1] > v.max[1] || p[2] < v.min[2]
            || p[2] > v.max[2],
    ensures
        !v.contains_pt(p),
{
}

} // verus!
