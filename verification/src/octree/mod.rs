use vstd::prelude::*;

pub use self::volume::Volume;
use self::volume::{lemma_octants_cover, lemma_octants_within};

pub mod volume;

verus! {

/// Default number of items a node stores directly before it subdivides.
const DEFAULT_CAPACITY: usize = 8;

/// A trait that must be implemented by types that are going to be
/// inserted into an `Octree`: the positional projection of an object
/// onto its `[x, y, z]` coordinates.
///
/// `pos_spec` is the ghost-level value of that projection; the tree's
/// contracts speak of it. An implementation's `octree_index` must be a
/// pure function of the object, returning `pos_spec` every time.
pub trait Index {
    /// The coordinates of the object, as the contracts see them.
    spec fn pos_spec(&self) -> [i64; 3];

    /// The coordinates of the object, of format `[x, y, z]`.
    fn octree_index(&self) -> (r: [i64; 3])
        ensures
            r == self.pos_spec(),
    ;
}

/// The eight octants of a subdivided node: the four quadrants over the
/// lower half of the third axis first, then the same four over the upper
/// half, each four in order of NW, NE, SW, SE.
struct Octants<P: Index> {
    bnw: Octree<P>,
    bne: Octree<P>,
    bsw: Octree<P>,
    bse: Octree<P>,
    tnw: Octree<P>,
    tne: Octree<P>,
    tsw: Octree<P>,
    tse: Octree<P>,
}

/// An octree node: a bounded list of items, a bounding volume, and,
/// once the node has subdivided, eight child nodes whose volumes are the
/// octants of this node's volume.
pub struct Octree<P: Index> {
    /// Maximum number of items to store before subdivision.
    capacity: usize,
    /// Items in the node.
    items: Vec<P>,
    /// Bounding volume of the node.
    volume: Volume,
    /// The octants of the node, absent until the node subdivides.
    octants: Option<Box<Octants<P>>>,
}

impl<P: Index> Octree<P> {
    /// Bounding volume of this node.
    pub closed spec fn volume(self) -> Volume {
        self.volume
    }

    /// Maximum number of items this node stores directly.
    pub closed spec fn capacity(self) -> usize {
        self.capacity
    }

    /// Whether this node has subdivided.
    pub closed spec fn subdivided(self) -> bool {
        self.octants is Some
    }

    /// The bounding volumes of the children, in enumeration order;
    /// empty while the node is a leaf.
    pub closed spec fn child_volumes(self) -> Seq<Volume> {
        match self.octants {
            None => Seq::empty(),
            Some(o) => seq![
                o.bnw.volume,
                o.bne.volume,
                o.bsw.volume,
                o.bse.volume,
                o.tnw.volume,
                o.tne.volume,
                o.tsw.volume,
                o.tse.volume,
            ],
        }
    }

    /// Every item stored anywhere in this subtree, in traversal order:
    /// this node's own items first, then the items of the eight children
    /// in enumeration order.
    pub closed spec fn all_items(self) -> Seq<P>
        decreases self,
    {
        match self.octants {
            None => self.items@,
            Some(o) => self.items@ + o.bnw.all_items() + o.bne.all_items() + o.bsw.all_items()
                + o.bse.all_items() + o.tnw.all_items() + o.tne.all_items() + o.tsw.all_items()
                + o.tse.all_items(),
        }
    }

    /// Well-formedness: capacities are positive, volumes are valid, every
    /// node holds at most `capacity` items and only items inside its own
    /// volume, and a subdivided node is full and carries eight children
    /// over exactly the octants of its volume, with its own capacity.
    pub closed spec fn wf(self) -> bool
        decreases self,
    {
        &&& 1 <= self.capacity
        &&& self.volume.valid()
        &&& self.items@.len() <= self.capacity
        &&& (forall|i: int|
            0 <= i < self.items@.len() ==> self.volume.contains_pt(
                #[trigger] self.items@[i].pos_spec(),
            ))
        &&& match self.octants {
            None => true,
            Some(o) => {
                &&& self.items@.len() == self.capacity
                &&& o.bnw.wf() && o.bne.wf() && o.bsw.wf() && o.bse.wf()
                &&& o.tnw.wf() && o.tne.wf() && o.tsw.wf() && o.tse.wf()
                &&& o.bnw.volume == self.volume.bnw_vol()
                &&& o.bne.volume == self.volume.bne_vol()
                &&& o.bsw.volume == self.volume.bsw_vol()
                &&& o.bse.volume == self.volume.bse_vol()
                &&& o.tnw.volume == self.volume.tnw_vol()
                &&& o.tne.volume == self.volume.tne_vol()
                &&& o.tsw.volume == self.volume.tsw_vol()
                &&& o.tse.volume == self.volume.tse_vol()
                &&& o.bnw.capacity == self.capacity
                &&& o.bne.capacity == self.capacity
                &&& o.bsw.capacity == self.capacity
                &&& o.bse.capacity == self.capacity
                &&& o.tnw.capacity == self.capacity
                &&& o.tne.capacity == self.capacity
                &&& o.tsw.capacity == self.capacity
                &&& o.tse.capacity == self.capacity
            },
        }
    }

    /// Every node in the subtree has a strictly positive extent on all
    /// three axes. Subdividing an integer volume of extent one produces a
    /// degenerate child, which this predicate rules out.
    pub closed spec fn positive_extents(self) -> bool
        decreases self,
    {
        &&& self.volume.min[0] < self.volume.max[0]
        &&& self.volume.min[1] < self.volume.max[1]
        &&& self.volume.min[2] < self.volume.max[2]
        &&& match self.octants {
            None => true,
            Some(o) => o.bnw.positive_extents() && o.bne.positive_extents()
                && o.bsw.positive_extents() && o.bse.positive_extents()
                && o.tnw.positive_extents() && o.tne.positive_extents()
                && o.tsw.positive_extents() && o.tse.positive_extents(),
        }
    }

    /// The items a query with volume `q` reports from this subtree: none
    /// at all when `q` does not intersect this node's volume (the subtree
    /// is pruned), else this node's items whose coordinates `q` contains,
    /// followed by the reports of the children in enumeration order.
    pub closed spec fn query_spec(self, q: Volume) -> Seq<P>
        decreases self,
    {
        if !self.volume.intersects_vol(q) {
            Seq::empty()
        } else {
            self.items@.filter(|p: P| q.contains_pt(p.pos_spec())) + match self.octants {
                None => Seq::<P>::empty(),
                Some(o) => o.bnw.query_spec(q) + o.bne.query_spec(q) + o.bsw.query_spec(q)
                    + o.bse.query_spec(q) + o.tnw.query_spec(q) + o.tne.query_spec(q)
                    + o.tsw.query_spec(q) + o.tse.query_spec(q),
            }
        }
    }

    /// An empty leaf over `vol` with capacity `cap`.
    spec fn is_empty_leaf(self, vol: Volume, cap: usize) -> bool {
        &&& self.items@.len() == 0
        &&& self.volume == vol
        &&& self.capacity == cap
        &&& self.octants is None
    }

    /// Constructs a new, empty `Octree` with bounding volume `vol`
    /// and default node capacity of `DEFAULT_CAPACITY`.
    #[inline]
    pub fn new(vol: Volume) -> (t: Octree<P>)
        requires
            vol.valid(),
        ensures
            t.wf(),
            t.volume() == vol,
            t.capacity() == 8,
            !t.subdivided(),
            t.all_items() == Seq::<P>::empty(),
    {
        Octree { capacity: DEFAULT_CAPACITY, items: Vec::new(), volume: vol, octants: None }
    }

    /// Creates an empty `Octree` with volume `vol` and `capacity`.
    #[inline]
    pub fn with_capacity(vol: Volume, capacity: usize) -> (t: Octree<P>)
        requires
            vol.valid(),
            1 <= capacity,
        ensures
            t.wf(),
            t.volume() == vol,
            t.capacity() == capacity,
            !t.subdivided(),
            t.all_items() == Seq::<P>::empty(),
    {
        Octree { capacity, items: Vec::new(), volume: vol, octants: None }
    }

    /// Returns the number of items in the tree.
    #[inline]
    pub fn len(&self) -> (n: usize)
        requires
            self.all_items().len() <= usize::MAX,
        ensures
            n == self.all_items().len(),
        decreases *self,
    {
        let mut n = self.items.len();
        match &self.octants {
            None => n,
            Some(o) => {
                n = n + o.bnw.len();
                n = n + o.bne.len();
                n = n + o.bsw.len();
                n = n + o.bse.len();
                n = n + o.tnw.len();
                n = n + o.tne.len();
                n = n + o.tsw.len();
                n = n + o.tse.len();
                n
            },
        }
    }

    /// Inserts an `item` into the tree, subdividing it if necessary.
    /// Returns `true` exactly when the item's coordinates lie inside this
    /// tree's volume; a rejected insert leaves the tree unchanged, an
    /// accepted one adds the item and nothing else.
    #[inline]
    pub fn insert(&mut self, item: P) -> (r: bool)
        requires
            old(self).wf(),
            old(self).all_items().len() < usize::MAX,
        ensures
            final(self).wf(),
            final(self).volume() == old(self).volume(),
            final(self).capacity() == old(self).capacity(),
            r == old(self).volume().contains_pt(item.pos_spec()),
            r ==> final(self).all_items().to_multiset() == old(self).all_items().to_multiset().insert(item),
            r ==> final(self).all_items().len() == old(self).all_items().len() + 1,
            r && !old(self).subdivided() ==> final(self).all_items() == old(self).all_items().push(item),
            !r ==> *final(self) == *old(self),
    {
        let back = self.insert_item(item);
        back.is_none()
    }

    /// Recursive insertion; hands the item back when the node's volume
    /// does not contain it.
    fn insert_item(&mut self, item: P) -> (back: Option<P>)
        requires
            old(self).wf(),
            old(self).all_items().len() < usize::MAX,
        ensures
            final(self).wf(),
            final(self).volume == old(self).volume,
            final(self).capacity == old(self).capacity,
            back is None <==> old(self).volume.contains_pt(item.pos_spec()),
            back is Some ==> *final(self) == *old(self) && back == Some(item),
            back is None ==> final(self).all_items().to_multiset() == old(self).all_items().to_multiset().insert(item),
            back is None ==> final(self).all_items().len() == old(self).all_items().len() + 1,
            back is None && old(self).octants is None ==> final(self).all_items() == old(self).all_items().push(item),
        decreases *old(self),
    {
        let p = item.octree_index();

        // item must exist inside this node's space.
        if !self.volume.contains(&p) {
            return Some(item);
        }

        // Insert item if there's room.
        if self.items.len() < self.capacity {
            let ghost pre = self.items@;
            self.items.push(item);
            proof {
                broadcast use vstd::seq_lib::to_multiset_build;

                assert(self.items@ == pre.push(item));
            }
            return None;
        }

        if self.octants.is_none() {
            // The node is full: split it, then place the item into the
            // first octant that contains it. The octants cover the
            // volume, so one of them does, and it is empty with room.
            self.subdivide();
            let mut o = self.octants.take().unwrap();
            proof {
                lemma_octants_cover(self.volume, p);
            }
            if o.bnw.volume.contains(&p) {
                o.bnw.items.push(item);
            } else if o.bne.volume.contains(&p) {
                o.bne.items.push(item);
            } else if o.bsw.volume.contains(&p) {
                o.bsw.items.push(item);
            } else if o.bse.volume.contains(&p) {
                o.bse.items.push(item);
            } else if o.tnw.volume.contains(&p) {
                o.tnw.items.push(item);
            } else if o.tne.volume.contains(&p) {
                o.tne.items.push(item);
            } else if o.tsw.volume.contains(&p) {
                o.tsw.items.push(item);
            } else {
                o.tse.items.push(item);
            }
            self.octants = Some(o);
            proof {
                broadcast use vstd::seq_lib::to_multiset_build;

                assert(self.octants.unwrap().bnw.all_items() == self.octants.unwrap().bnw.items@);
                assert(self.octants.unwrap().bne.all_items() == self.octants.unwrap().bne.items@);
                assert(self.octants.unwrap().bsw.all_items() == self.octants.unwrap().bsw.items@);
                assert(self.octants.unwrap().bse.all_items() == self.octants.unwrap().bse.items@);
                assert(self.octants.unwrap().tnw.all_items() == self.octants.unwrap().tnw.items@);
                assert(self.octants.unwrap().tne.all_items() == self.octants.unwrap().tne.items@);
                assert(self.octants.unwrap().tsw.all_items() == self.octants.unwrap().tsw.items@);
                assert(self.octants.unwrap().tse.all_items() == self.octants.unwrap().tse.items@);
                assert(self.all_items() =~= old(self).items@.push(item));
                assert(self.octants.unwrap().bnw.wf());
                assert(self.octants.unwrap().bne.wf());
                assert(self.octants.unwrap().bsw.wf());
                assert(self.octants.unwrap().bse.wf());
                assert(self.octants.unwrap().tnw.wf());
                assert(self.octants.unwrap().tne.wf());
                assert(self.octants.unwrap().tsw.wf());
                assert(self.octants.unwrap().tse.wf());
            }
            None
        } else {
            let mut o = self.octants.take().unwrap();
            let back = o.bnw.insert_item(item);
            let back = match back {
                None => None,
                Some(it) => o.bne.insert_item(it),
            };
            let back = match back {
                None => None,
                Some(it) => o.bsw.insert_item(it),
            };
            let back = match back {
                None => None,
                Some(it) => o.bse.insert_item(it),
            };
            let back = match back {
                None => None,
                Some(it) => o.tnw.insert_item(it),
            };
            let back = match back {
                None => None,
                Some(it) => o.tne.insert_item(it),
            };
            let back = match back {
                None => None,
                Some(it) => o.tsw.insert_item(it),
            };
            let back = match back {
                None => None,
                Some(it) => o.tse.insert_item(it),
            };
            self.octants = Some(o);
            proof {
                lemma_octants_cover(self.volume, p);
                broadcast use vstd::seq_lib::lemma_multiset_commutative;
                broadcast use vstd::seq_lib::to_multiset_len;

                if back is None {
                    assert(self.all_items().to_multiset() =~= old(self).all_items().to_multiset().insert(item));
                }
            }
            back
        }
    }

    /// Returns all items inside the volume `vol`, this node's own
    /// matching items first, then each octant's in enumeration order.
    /// Subtrees whose volume does not intersect `vol` are pruned.
    #[inline]
    pub fn get_in_volume<'a>(&'a self, vol: &Volume) -> (r: Vec<&'a P>)
        ensures
            r@.map_values(|x: &P| *x) == self.query_spec(*vol),
        decreases *self,
    {
        let mut out: Vec<&P> = Vec::new();

        // Return empty vector if vol does not intersect.
        if !self.volume.intersects(vol) {
            return out;
        }

        // Add items for this node.
        let ghost qq = *vol;
        let mut i: usize = 0;
        while i < self.items.len()
            invariant
                0 <= i <= self.items@.len(),
                out@.map_values(|x: &P| *x) == self.items@.take(i as int).filter(
                    (|p: P| qq.contains_pt(p.pos_spec())),
                ),
                qq == *vol,
            decreases self.items@.len() - i,
        {
            proof {
                broadcast use vstd::prelude::Seq::lemma_filter_push;

                assert(self.items@.take(i + 1 as int) == self.items@.take(i as int).push(
                    self.items@[i as int],
                ));
            }
            if vol.contains(&self.items[i].octree_index()) {
                out.push(&self.items[i]);
            }
            i = i + 1;
        }
        proof {
            assert(self.items@.take(self.items@.len() as int) == self.items@);
        }
        match &self.octants {
            None => out,
            Some(o) => {
                let mut r_bnw = o.bnw.get_in_volume(vol);
                out.append(&mut r_bnw);
                let mut r_bne = o.bne.get_in_volume(vol);
                out.append(&mut r_bne);
                let mut r_bsw = o.bsw.get_in_volume(vol);
                out.append(&mut r_bsw);
                let mut r_bse = o.bse.get_in_volume(vol);
                out.append(&mut r_bse);
                let mut r_tnw = o.tnw.get_in_volume(vol);
                out.append(&mut r_tnw);
                let mut r_tne = o.tne.get_in_volume(vol);
                out.append(&mut r_tne);
                let mut r_tsw = o.tsw.get_in_volume(vol);
                out.append(&mut r_tsw);
                let mut r_tse = o.tse.get_in_volume(vol);
                out.append(&mut r_tse);
                proof {
                    assert(out@.map_values(|x: &P| *x) =~= self.query_spec(*vol));
                }
                out
            },
        }
    }

    /// Creates eight equal sized subtrees for this node by bisecting each
    /// axis of its volume at the midpoint.
    fn subdivide(&mut self)
        requires
            old(self).wf(),
            !old(self).subdivided(),
            old(self).items@.len() == old(self).capacity,
        ensures
            final(self).wf(),
            final(self).volume == old(self).volume,
            final(self).capacity == old(self).capacity,
            final(self).items == old(self).items,
            final(self).octants is Some,
            final(self).octants.unwrap().bnw.is_empty_leaf(old(self).volume.bnw_vol(), old(self).capacity),
            final(self).octants.unwrap().bne.is_empty_leaf(old(self).volume.bne_vol(), old(self).capacity),
            final(self).octants.unwrap().bsw.is_empty_leaf(old(self).volume.bsw_vol(), old(self).capacity),
            final(self).octants.unwrap().bse.is_empty_leaf(old(self).volume.bse_vol(), old(self).capacity),
            final(self).octants.unwrap().tnw.is_empty_leaf(old(self).volume.tnw_vol(), old(self).capacity),
            final(self).octants.unwrap().tne.is_empty_leaf(old(self).volume.tne_vol(), old(self).capacity),
            final(self).octants.unwrap().tsw.is_empty_leaf(old(self).volume.tsw_vol(), old(self).capacity),
            final(self).octants.unwrap().tse.is_empty_leaf(old(self).volume.tse_vol(), old(self).capacity),
            final(self).all_items() == old(self).all_items(),
    {
        let cap = self.capacity;
        let vmin = self.volume.min;
        let vmax = self.volume.max;
        let m0 = vmin[0] + half(vmax[0] - vmin[0]);
        let m1 = vmin[1] + half(vmax[1] - vmin[1]);
        let m2 = vmin[2] + half(vmax[2] - vmin[2]);

        proof {
            lemma_octants_within(self.volume);
        }
        let o = Octants {
            bnw: Octree::with_capacity(
                Volume::new([vmin[0], vmin[1], vmin[2]], [m0, m1, m2]),
                cap,
            ),
            bne: Octree::with_capacity(
                Volume::new([m0, vmin[1], vmin[2]], [vmax[0], m1, m2]),
                cap,
            ),
            bsw: Octree::with_capacity(
                Volume::new([vmin[0], m1, vmin[2]], [m0, vmax[1], m2]),
                cap,
            ),
            bse: Octree::with_capacity(
                Volume::new([m0, m1, vmin[2]], [vmax[0], vmax[1], m2]),
                cap,
            ),
            tnw: Octree::with_capacity(
                Volume::new([vmin[0], vmin[1], m2], [m0, m1, vmax[2]]),
                cap,
            ),
            tne: Octree::with_capacity(
                Volume::new([m0, vmin[1], m2], [vmax[0], m1, vmax[2]]),
                cap,
            ),
            tsw: Octree::with_capacity(
                Volume::new([vmin[0], m1, m2], [m0, vmax[1], vmax[2]]),
                cap,
            ),
            tse: Octree::with_capacity(
                Volume::new([m0, m1, m2], [vmax[0], vmax[1], vmax[2]]),
                cap,
            ),
        };
        self.octants = Some(Box::new(o));
        proof {
            assert(self.all_items() =~= old(self).all_items());
        }
    }
}

/// Filtering keeps a sequence whole when the predicate holds of every element.
proof fn lemma_filter_all_true<P>(s: Seq<P>, pred: spec_fn(P) -> bool)
    requires
        forall|i: int| 0 <= i < s.len() ==> pred(#[trigger] s[i]),
    ensures
        s.filter(pred) == s,
    decreases s.len(),
{
    broadcast use vstd::prelude::Seq::lemma_filter_push;
    broadcast use vstd::prelude::Seq::lemma_filter_len;

    if s.len() == 0 {
        assert(s.filter(pred) =~= s);
    } else {
        lemma_filter_all_true(s.drop_last(), pred);
        assert(s == s.drop_last().push(s.last()));
    }
}

/// A query whose volume encloses a subtree's own volume reports every item
/// of the subtree, each exactly as often as it is stored, in traversal
/// order; no node is pruned and no item filtered out. Requires strictly
/// positive extents throughout the subtree: a degenerate node only touches
/// the query volume and would be pruned.
#[verifier::rlimit(50)]
pub proof fn lemma_enclosing_query_finds_all<P: Index>(t: Octree<P>, q: Volume)
    requires
        t.wf(),
        t.positive_extents(),
        q.encloses(t.volume()),
    ensures
        t.query_spec(q) == t.all_items(),
    decreases t,
{
    assert(t.volume().intersects_vol(q));
    let pred = |p: P| q.contains_pt(p.pos_spec());
    assert forall|i: int| 0 <= i < t.items@.len() implies pred(#[trigger] t.items@[i]) by {
        assert(t.volume.contains_pt(t.items@[i].pos_spec()));
    }
    lemma_filter_all_true(t.items@, pred);
    match t.octants {
        None => {
            assert(t.query_spec(q) == t.all_items());
        },
        Some(o) => {
            assert(q.encloses(o.bnw.volume) && q.encloses(o.bne.volume) && q.encloses(o.bsw.volume)
                && q.encloses(o.bse.volume) && q.encloses(o.tnw.volume) && q.encloses(o.tne.volume)
                && q.encloses(o.tsw.volume) && q.encloses(o.tse.volume)) by {
                lemma_octants_within(t.volume);
            }
            lemma_enclosing_query_finds_all(o.bnw, q);
            lemma_enclosing_query_finds_all(o.bne, q);
            lemma_enclosing_query_finds_all(o.bsw, q);
            lemma_enclosing_query_finds_all(o.bse, q);
            lemma_enclosing_query_finds_all(o.tnw, q);
            lemma_enclosing_query_finds_all(o.tne, q);
            lemma_enclosing_query_finds_all(o.tsw, q);
            lemma_enclosing_query_finds_all(o.tse, q);
            assert(t.query_spec(q) == t.items@.filter(pred) + (o.bnw.query_spec(q)
                + o.bne.query_spec(q) + o.bsw.query_spec(q) + o.bse.query_spec(q)
                + o.tnw.query_spec(q) + o.tne.query_spec(q) + o.tsw.query_spec(q)
                + o.tse.query_spec(q)));
            assert(t.all_items() == t.items@ + (o.bnw.all_items() + o.bne.all_items()
                + o.bsw.all_items() + o.bse.all_items() + o.tnw.all_items() + o.tne.all_items()
                + o.tsw.all_items() + o.tse.all_items()));
            assert(t.query_spec(q) == t.all_items());
        },
    }
}

/// Containment round-trip: a query with a volume equal to the tree's own
/// volume returns every stored item exactly once (in traversal order), so
/// an item that `insert` accepted is reported by such a query exactly once
/// more than before the insert.
pub proof fn lemma_root_query_finds_all<P: Index>(t: Octree<P>)
    requires
        t.wf(),
        t.positive_extents(),
    ensures
        t.query_spec(t.volume()) == t.all_items(),
{
    lemma_enclosing_query_finds_all(t, t.volume());
}

/// Count invariant, one step: an accepted insert adds its item to the
/// stored multiset and therefore grows the stored count by exactly one,
/// while a rejected insert leaves the tree unchanged (by the contract of
/// `insert`); so after any sequence of inserts, `len` equals the number of
/// inserts that returned `true`.
pub proof fn lemma_insert_grows_count_by_one<P: Index>(before: Seq<P>, after: Seq<P>, item: P)
    requires
        after.to_multiset() == before.to_multiset().insert(item),
    ensures
        after.len() == before.len() + 1,
{
    broadcast use vstd::seq_lib::to_multiset_len;

    vstd::multiset::lemma_insert_len(before.to_multiset(), item);
}

/// Partition coverage: once a node has subdivided, every point inside its
/// volume lies inside at least one child's volume. A point on a midpoint
/// boundary may lie in more than one child.
pub proof fn lemma_children_cover_parent<P: Index>(t: Octree<P>, p: [i64; 3])
    requires
        t.wf(),
        t.subdivided(),
        t.volume().contains_pt(p),
    ensures
        t.child_volumes().len() == 8,
        exists|k: int| 0 <= k < 8 && (#[trigger] t.child_volumes()[k]).contains_pt(p),
{
    lemma_octants_cover(t.volume, p);
    if t.volume.bnw_vol().contains_pt(p) {
        assert(t.child_volumes()[0].contains_pt(p));
    } else if t.volume.bne_vol().contains_pt(p) {
        assert(t.child_volumes()[1].contains_pt(p));
    } else if t.volume.bsw_vol().contains_pt(p) {
        assert(t.child_volumes()[2].contains_pt(p));
    } else if t.volume.bse_vol().contains_pt(p) {
        assert(t.child_volumes()[3].contains_pt(p));
    } else if t.volume.tnw_vol().contains_pt(p) {
        assert(t.child_volumes()[4].contains_pt(p));
    } else if t.volume.tne_vol().contains_pt(p) {
        assert(t.child_volumes()[5].contains_pt(p));
    } else if t.volume.tsw_vol().contains_pt(p) {
        assert(t.child_volumes()[6].contains_pt(p));
    } else {
        assert(t.child_volumes()[7].contains_pt(p));
    }
}

/// Query pruning: a query volume with zero overlap with the tree's volume
/// on some axis reports nothing; the whole tree is pruned at the root.
pub proof fn lemma_disjoint_query_empty<P: Index>(t: Octree<P>, q: Volume)
    requires
        t.volume().disjoint_from(q),
    ensures
        t.query_spec(q) == Seq::<P>::empty(),
{
}

/// Half of a non-negative scalar, rounding toward zero.
#[inline]
fn half(n: i64) -> (r: i64)
    requires
        n >= 0,
    ensures
        r == n as int / 2,
{
    n / 2
}

} // verus!
