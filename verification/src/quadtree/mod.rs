use vstd::prelude::*;

pub use self::volume::Volume;
use self::volume::{lemma_quadrants_cover, lemma_quadrants_within};

pub mod volume;

verus! {

/// Default number of items a node stores directly before it subdivides.
const DEFAULT_CAPACITY: usize = 8;

/// A trait that must be implemented by types that are going to be
/// inserted into a `Quadtree`: the positional projection of an object
/// onto its `[x, y]` coordinates.
///
/// `pos_spec` is the ghost-level value of that projection; the tree's
/// contracts speak of it. An implementation's `quadtree_index` must be a
/// pure function of the object, returning `pos_spec` every time.
pub trait Index {
    /// The coordinates of the object, as the contracts see them.
    spec fn pos_spec(&self) -> [i64; 2];

    /// The coordinates of the object, of format `[x, y]`.
    fn quadtree_index(&self) -> (r: [i64; 2])
        ensures
            r == self.pos_spec(),
    ;
}

/// The four quadrants of a subdivided node, in order of NW, NE, SW, SE.
struct Quadrants<P: Index> {
    nw: Quadtree<P>,
    ne: Quadtree<P>,
    sw: Quadtree<P>,
    se: Quadtree<P>,
}

/// A quadtree node: a bounded list of items, a bounding volume, and,
/// once the node has subdivided, four child nodes whose volumes are the
/// quadrants of this node's volume.
pub struct Quadtree<P: Index> {
    /// Maximum number of items to store before subdivision.
    capacity: usize,
    /// Items in this quadtree node.
    items: Vec<P>,
    /// Bounding volume of this node.
    volume: Volume,
    /// The four quadrants of this node, absent until the node subdivides.
    quadrants: Option<Box<Quadrants<P>>>,
}

impl<P: Index> Quadtree<P> {
    /// Bounding volume of this node.
    pub closed spec fn volume(self) -> Volume {
        self.volume
    }

    /// Maximum number of items this node stores directly.
    pub closed spec fn capacity(self) -> usize {
        self.capacity
    }

    /// Whether this node has subdivided.
    pub closed spec fn subdivided(self) -> bool {
        self.quadrants is Some
    }

    /// The bounding volumes of the children, in enumeration order;
    /// empty while the node is a leaf.
    pub closed spec fn child_volumes(self) -> Seq<Volume> {
        match self.quadrants {
            None => Seq::empty(),
            Some(q) => seq![q.nw.volume, q.ne.volume, q.sw.volume, q.se.volume],
        }
    }

    /// Every item stored anywhere in this subtree, in traversal order:
    /// this node's own items first, then the items of the four children
    /// in enumeration order.
    pub closed spec fn all_items(self) -> Seq<P>
        decreases self,
    {
        match self.quadrants {
            None => self.items@,
            Some(q) => self.items@ + q.nw.all_items() + q.ne.all_items() + q.sw.all_items()
                + q.se.all_items(),
        }
    }

    /// Well-formedness: capacities are positive, volumes are valid, every
    /// node holds at most `capacity` items and only items inside its own
    /// volume, and a subdivided node is full and carries four children
    /// over exactly the quadrants of its volume, with its own capacity.
    pub closed spec fn wf(self) -> bool
        decreases self,
    {
        &&& 1 <= self.capacity
        &&& self.volume.valid()
        &&& self.items@.len() <= self.capacity
        &&& (forall|i: int|
            0 <= i < self.items@.len() ==> self.volume.contains_pt(
                #[trigger] self.items@[i].pos_spec(),
            ))
        &&& match self.quadrants {
            None => true,
            Some(q) => {
                &&& self.items@.len() == self.capacity
                &&& q.nw.wf() && q.ne.wf() && q.sw.wf() && q.se.wf()
                &&& q.nw.volume == self.volume.nw_vol()
                &&& q.ne.volume == self.volume.ne_vol()
                &&& q.sw.volume == self.volume.sw_vol()
                &&& q.se.volume == self.volume.se_vol()
                &&& q.nw.capacity == self.capacity
                &&& q.ne.capacity == self.capacity
                &&& q.sw.capacity == self.capacity
                &&& q.se.capacity == self.capacity
            },
        }
    }

    /// Every node in the subtree has a strictly positive extent on both
    /// axes. Subdividing an integer volume of extent one produces a
    /// degenerate child, which this predicate rules out.
    pub closed spec fn positive_extents(self) -> bool
        decreases self,
    {
        &&& self.volume.min[0] < self.volume.max[0]
        &&& self.volume.min[1] < self.volume.max[1]
        &&& match self.quadrants {
            None => true,
            Some(q) => q.nw.positive_extents() && q.ne.positive_extents()
                && q.sw.positive_extents() && q.se.positive_extents(),
        }
    }

    /// The items a query with volume `q` reports from this subtree: none
    /// at all when `q` does not intersect this node's volume (the subtree
    /// is pruned), else this node's items whose coordinates `q` contains,
    /// followed by the reports of the children in enumeration order.
    pub closed spec fn query_spec(self, q: Volume) -> Seq<P>
        decreases self,
    {
        if !self.volume.intersects_vol(q) {
            Seq::empty()
        } else {
            self.items@.filter(|p: P| q.contains_pt(p.pos_spec())) + match self.quadrants {
                None => Seq::<P>::empty(),
                Some(k) => k.nw.query_spec(q) + k.ne.query_spec(q) + k.sw.query_spec(q)
                    + k.se.query_spec(q),
            }
        }
    }

    /// An empty leaf over `vol` with capacity `cap`.
    spec fn is_empty_leaf(self, vol: Volume, cap: usize) -> bool {
        &&& self.items@.len() == 0
        &&& self.volume == vol
        &&& self.capacity == cap
        &&& self.quadrants is None
    }

    /// Constructs a new, empty `Quadtree` with bounding volume `vol`
    /// and default node capacity of `DEFAULT_CAPACITY`.
    #[inline]
    pub fn new(vol: Volume) -> (t: Quadtree<P>)
        requires
            vol.valid(),
        ensures
            t.wf(),
            t.volume() == vol,
            t.capacity() == 8,
            !t.subdivided(),
            t.all_items() == Seq::<P>::empty(),
    {
        Quadtree { capacity: DEFAULT_CAPACITY, items: Vec::new(), volume: vol, quadrants: None }
    }

    /// Creates an empty quadtree with volume `vol` and `capacity`.
    #[inline]
    pub fn with_capacity(vol: Volume, capacity: usize) -> (t: Quadtree<P>)
        requires
            vol.valid(),
            1 <= capacity,
        ensures
            t.wf(),
            t.volume() == vol,
            t.capacity() == capacity,
            !t.subdivided(),
            t.all_items() == Seq::<P>::empty(),
    {
        Quadtree { capacity, items: Vec::new(), volume: vol, quadrants: None }
    }

    /// Returns the number of items in the tree.
    #[inline]
    pub fn len(&self) -> (n: usize)
        requires
            self.all_items().len() <= usize::MAX,
        ensures
            n == self.all_items().len(),
        decreases *self,
    {
        let mut n = self.items.len();
        match &self.quadrants {
            None => n,
            Some(q) => {
                n = n + q.nw.len();
                n = n + q.ne.len();
                n = n + q.sw.len();
                n = n + q.se.len();
                n
            },
        }
    }

    /// Inserts an `item` into the quadtree, subdividing it if
    /// necessary. Returns `true` exactly when the item's coordinates lie
    /// inside this tree's volume; a rejected insert leaves the tree
    /// unchanged, an accepted one adds the item and nothing else.
    #[inline]
    pub fn insert(&mut self, item: P) -> (r: bool)
        requires
            old(self).wf(),
            old(self).all_items().len() < usize::MAX,
        ensures
            final(self).wf(),
            final(self).volume() == old(self).volume(),
            final(self).capacity() == old(self).capacity(),
            r == old(self).volume().contains_pt(item.pos_spec()),
            r ==> final(self).all_items().to_multiset() == old(self).all_items().to_multiset().insert(item),
            r ==> final(self).all_items().len() == old(self).all_items().len() + 1,
            r && !old(self).subdivided() ==> final(self).all_items() == old(self).all_items().push(item),
            !r ==> *final(self) == *old(self),
    {
        let back = self.insert_item(item);
        back.is_none()
    }

    /// Recursive insertion; hands the item back when the node's volume
    /// does not contain it.
    fn insert_item(&mut self, item: P) -> (back: Option<P>)
        requires
            old(self).wf(),
            old(self).all_items().len() < usize::MAX,
        ensures
            final(self).wf(),
            final(self).volume == old(self).volume,
            final(self).capacity == old(self).capacity,
            back is None <==> old(self).volume.contains_pt(item.pos_spec()),
            back is Some ==> *final(self) == *old(self) && back == Some(item),
            back is None ==> final(self).all_items().to_multiset() == old(self).all_items().to_multiset().insert(item),
            back is None ==> final(self).all_items().len() == old(self).all_items().len() + 1,
            back is None && old(self).quadrants is None ==> final(self).all_items() == old(self).all_items().push(item),
        decreases *old(self),
    {
        let p = item.quadtree_index();

        // item must exist inside this quad's space.
        if !self.volume.contains(&p) {
            return Some(item);
        }

        // Insert item if there's room.
        if self.items.len() < self.capacity {
            let ghost pre = self.items@;
            self.items.push(item);
            proof {
                broadcast use vstd::seq_lib::to_multiset_build;

                assert(self.items@ == pre.push(item));
            }
            return None;
        }

        if self.quadrants.is_none() {
            // The node is full: split it, then place the item into the
            // first quadrant that contains it. The quadrants cover the
            // volume, so one of them does, and it is empty with room.
            self.subdivide();
            let mut q = self.quadrants.take().unwrap();
            proof {
                lemma_quadrants_cover(self.volume, p);
            }
            if q.nw.volume.contains(&p) {
                q.nw.items.push(item);
            } else if q.ne.volume.contains(&p) {
                q.ne.items.push(item);
            } else if q.sw.volume.contains(&p) {
                q.sw.items.push(item);
            } else {
                q.se.items.push(item);
            }
            self.quadrants = Some(q);
            proof {
                broadcast use vstd::seq_lib::to_multiset_build;

                assert(self.quadrants.unwrap().nw.all_items() == self.quadrants.unwrap().nw.items@);
                assert(self.quadrants.unwrap().ne.all_items() == self.quadrants.unwrap().ne.items@);
                assert(self.quadrants.unwrap().sw.all_items() == self.quadrants.unwrap().sw.items@);
                assert(self.quadrants.unwrap().se.all_items() == self.quadrants.unwrap().se.items@);
                assert(self.all_items() =~= old(self).items@.push(item));
                assert(self.quadrants.unwrap().nw.wf());
                assert(self.quadrants.unwrap().ne.wf());
                assert(self.quadrants.unwrap().sw.wf());
                assert(self.quadrants.unwrap().se.wf());
            }
            None
        } else {
            let mut q = self.quadrants.take().unwrap();
            let back = q.nw.insert_item(item);
            let back = match back {
                None => None,
                Some(it) => q.ne.insert_item(it),
            };
            let back = match back {
                None => None,
                Some(it) => q.sw.insert_item(it),
            };
            let back = match back {
                None => None,
                Some(it) => q.se.insert_item(it),
            };
            self.quadrants = Some(q);
            proof {
                lemma_quadrants_cover(self.volume, p);
                broadcast use vstd::seq_lib::lemma_multiset_commutative;
                broadcast use vstd::seq_lib::to_multiset_len;

                if back is None {
                    assert(self.all_items().to_multiset() =~= old(self).all_items().to_multiset().insert(item));
                }
            }
            back
        }
    }

    /// Returns all items inside the volume `vol`, this node's own
    /// matching items first, then each quadrant's in enumeration order.
    /// Subtrees whose volume does not intersect `vol` are pruned.
    #[inline]
    pub fn get_in_volume<'a>(&'a self, vol: &Volume) -> (r: Vec<&'a P>)
        ensures
            r@.map_values(|x: &P| *x) == self.query_spec(*vol),
        decreases *self,
    {
        let mut out: Vec<&P> = Vec::new();

        // Return empty vector if vol does not intersect.
        if !self.volume.intersects(vol) {
            return out;
        }

        // Add items for this node.
        let ghost qq = *vol;
        let mut i: usize = 0;
        while i < self.items.len()
            invariant
                0 <= i <= self.items@.len(),
                out@.map_values(|x: &P| *x) == self.items@.take(i as int).filter(
                    (|p: P| qq.contains_pt(p.pos_spec())),
                ),
                qq == *vol,
            decreases self.items@.len() - i,
        {
            proof {
                broadcast use vstd::prelude::Seq::lemma_filter_push;

                assert(self.items@.take(i + 1 as int) == self.items@.take(i as int).push(
                    self.items@[i as int],
                ));
            }
            if vol.contains(&self.items[i].quadtree_index()) {
                out.push(&self.items[i]);
            }
            i = i + 1;
        }
        proof {
            assert(self.items@.take(self.items@.len() as int) == self.items@);
        }
        match &self.quadrants {
            None => out,
            Some(q) => {
                let mut r_nw = q.nw.get_in_volume(vol);
                out.append(&mut r_nw);
                let mut r_ne = q.ne.get_in_volume(vol);
                out.append(&mut r_ne);
                let mut r_sw = q.sw.get_in_volume(vol);
                out.append(&mut r_sw);
                let mut r_se = q.se.get_in_volume(vol);
                out.append(&mut r_se);
                proof {
                    assert(out@.map_values(|x: &P| *x) =~= self.query_spec(*vol));
                }
                out
            },
        }
    }

    /// Creates four equal sized subtrees for this node by bisecting each
    /// axis of its volume at the midpoint.
    fn subdivide(&mut self)
        requires
            old(self).wf(),
            !old(self).subdivided(),
            old(self).items@.len() == old(self).capacity,
        ensures
            final(self).wf(),
            final(self).volume == old(self).volume,
            final(self).capacity == old(self).capacity,
            final(self).items == old(self).items,
            final(self).quadrants is Some,
            final(self).quadrants.unwrap().nw.is_empty_leaf(old(self).volume.nw_vol(), old(self).capacity),
            final(self).quadrants.unwrap().ne.is_empty_leaf(old(self).volume.ne_vol(), old(self).capacity),
            final(self).quadrants.unwrap().sw.is_empty_leaf(old(self).volume.sw_vol(), old(self).capacity),
            final(self).quadrants.unwrap().se.is_empty_leaf(old(self).volume.se_vol(), old(self).capacity),
            final(self).all_items() == old(self).all_items(),
    {
        let cap = self.capacity;
        let vmin = self.volume.min;
        let vmax = self.volume.max;
        let m0 = vmin[0] + half(vmax[0] - vmin[0]);
        let m1 = vmin[1] + half(vmax[1] - vmin[1]);

        proof {
            lemma_quadrants_within(self.volume);
        }
        let q = Quadrants {
            nw: Quadtree::with_capacity(Volume::new([vmin[0], vmin[1]], [m0, m1]), cap),
            ne: Quadtree::with_capacity(Volume::new([m0, vmin[1]], [vmax[0], m1]), cap),
            sw: Quadtree::with_capacity(Volume::new([vmin[0], m1], [m0, vmax[1]]), cap),
            se: Quadtree::with_capacity(Volume::new([m0, m1], [vmax[0], vmax[1]]), cap),
        };
        self.quadrants = Some(Box::new(q));
        proof {
            assert(self.all_items() =~= old(self).all_items());
        }
    }
}

/// Filtering keeps a sequence whole when the predicate holds of every element.
proof fn lemma_filter_all_true<P>(s: Seq<P>, pred: spec_fn(P) -> bool)
    requires
        forall|i: int| 0 <= i < s.len() ==> pred(#[trigger] s[i]),
    ensures
        s.filter(pred) == s,
    decreases s.len(),
{
    broadcast use vstd::prelude::Seq::lemma_filter_push;
    broadcast use vstd::prelude::Seq::lemma_filter_len;

    if s.len() == 0 {
        assert(s.filter(pred) =~= s);
    } else {
        lemma_filter_all_true(s.drop_last(), pred);
        assert(s == s.drop_last().push(s.last()));
    }
}

/// A query whose volume encloses a subtree's own volume reports every item
/// of the subtree, each exactly as often as it is stored, in traversal
/// order; no node is pruned and no item filtered out. Requires strictly
/// positive extents throughout the subtree: a degenerate node only touches
/// the query volume and would be pruned.
#[verifier::rlimit(50)]
pub proof fn lemma_enclosing_query_finds_all<P: Index>(t: Quadtree<P>, q: Volume)
    requires
        t.wf(),
        t.positive_extents(),
        q.encloses(t.volume()),
    ensures
        t.query_spec(q) == t.all_items(),
    decreases t,
{
    assert(t.volume().intersects_vol(q));
    let pred = |p: P| q.contains_pt(p.pos_spec());
    assert forall|i: int| 0 <= i < t.items@.len() implies pred(#[trigger] t.items@[i]) by {
        assert(t.volume.contains_pt(t.items@[i].pos_spec()));
    }
    lemma_filter_all_true(t.items@, pred);
    match t.quadrants {
        None => {
            assert(t.query_spec(q) == t.all_items());
        },
        Some(k) => {
            assert(q.encloses(k.nw.volume) && q.encloses(k.ne.volume) && q.encloses(k.sw.volume)
                && q.encloses(k.se.volume)) by {
                lemma_quadrants_within(t.volume);
            }
            lemma_enclosing_query_finds_all(k.nw, q);
            lemma_enclosing_query_finds_all(k.ne, q);
            lemma_enclosing_query_finds_all(k.sw, q);
            lemma_enclosing_query_finds_all(k.se, q);
            assert(t.query_spec(q) == t.items@.filter(pred) + (k.nw.query_spec(q)
                + k.ne.query_spec(q) + k.sw.query_spec(q) + k.se.query_spec(q)));
            assert(t.all_items() == t.items@ + (k.nw.all_items() + k.ne.all_items()
                + k.sw.all_items() + k.se.all_items()));
            assert(t.query_spec(q) == t.all_items());
        },
    }
}

/// Containment round-trip: a query with a volume equal to the tree's own
/// volume returns every stored item exactly once (in traversal order), so
/// an item that `insert` accepted is reported by such a query exactly once
/// more than before the insert.
pub proof fn lemma_root_query_finds_all<P: Index>(t: Quadtree<P>)
    requires
        t.wf(),
        t.positive_extents(),
    ensures
        t.query_spec(t.volume()) == t.all_items(),
{
    lemma_enclosing_query_finds_all(t, t.volume());
}

/// Count invariant, one step: an accepted insert adds its item to the
/// stored multiset and therefore grows the stored count by exactly one,
/// while a rejected insert leaves the tree unchanged (by the contract of
/// `insert`); so after any sequence of inserts, `len` equals the number of
/// inserts that returned `true`.
pub proof fn lemma_insert_grows_count_by_one<P: Index>(before: Seq<P>, after: Seq<P>, item: P)
    requires
        after.to_multiset() == before.to_multiset().insert(item),
    ensures
        after.len() == before.len() + 1,
{
    broadcast use vstd::seq_lib::to_multiset_len;

    vstd::multiset::lemma_insert_len(before.to_multiset(), item);
}

/// Partition coverage: once a node has subdivided, every point inside its
/// volume lies inside at least one child's volume. A point on a midpoint
/// boundary may lie in more than one child.
pub proof fn lemma_children_cover_parent<P: Index>(t: Quadtree<P>, p: [i64; 2])
    requires
        t.wf(),
        t.subdivided(),
        t.volume().contains_pt(p),
    ensures
        t.child_volumes().len() == 4,
        exists|k: int| 0 <= k < 4 && (#[trigger] t.child_volumes()[k]).contains_pt(p),
{
    lemma_quadrants_cover(t.volume, p);
    if t.volume.nw_vol().contains_pt(p) {
        assert(t.child_volumes()[0].contains_pt(p));
    } else if t.volume.ne_vol().contains_pt(p) {
        assert(t.child_volumes()[1].contains_pt(p));
    } else if t.volume.sw_vol().contains_pt(p) {
        assert(t.child_volumes()[2].contains_pt(p));
    } else {
        assert(t.child_volumes()[3].contains_pt(p));
    }
}

/// Query pruning: a query volume with zero overlap with the tree's volume
/// on some axis reports nothing; the whole tree is pruned at the root.
pub proof fn lemma_disjoint_query_empty<P: Index>(t: Quadtree<P>, q: Volume)
    requires
        t.volume().disjoint_from(q),
    ensures
        t.query_spec(q) == Seq::<P>::empty(),
{
}

/// Half of a non-negative scalar, rounding toward zero.
#[inline]
fn half(n: i64) -> (r: i64)
    requires
        n >= 0,
    ensures
        r == n as int / 2,
{
    n / 2
}

} // verus!
