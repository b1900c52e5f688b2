use spatial::octree::{Index, Octree, Volume};

#[derive(Clone)]
struct Object {
    x: f32,
    y: f32,
    z: f32,
}

impl Object {
    pub fn new(x: f32, y: f32, z: f32) -> Object {
        Object { x, y, z }
    }
}

/// Coordinates are written in thousandths: 0.5 becomes 500.
fn coord(v: f32) -> i64 {
    (v * 1000.0) as i64
}

impl Index for Object {
    fn pos_spec(&self) -> [i64; 3] {
        [coord(self.x), coord(self.y), coord(self.z)]
    }

    fn octree_index(&self) -> [i64; 3] {
        [coord(self.x), coord(self.y), coord(self.z)]
    }
}

#[test]
fn capacity_one_subdivides_into_octants() {
    let vol = Volume::new(
        [coord(0.0), coord(0.0), coord(0.0)],
        [coord(2.0), coord(2.0), coord(2.0)],
    );
    let mut tree = Octree::with_capacity(vol, 1);

    assert_eq!(tree.insert(Object::new(0.5, 0.5, 0.5)), true);
    assert_eq!(tree.insert(Object::new(1.5, 1.5, 1.5)), true);
    assert_eq!(tree.len(), 2);

    let upper = tree.get_in_volume(&Volume::new(
        [coord(1.0), coord(1.0), coord(1.0)],
        [coord(2.0), coord(2.0), coord(2.0)],
    ));
    assert_eq!(upper.len(), 1);
    assert_eq!(upper[0].x, 1.5);
    assert_eq!(upper[0].y, 1.5);
    assert_eq!(upper[0].z, 1.5);
}

#[test]
fn octant_queries_find_the_right_points() {
    let vol = Volume::new(
        [coord(0.0), coord(0.0), coord(0.0)],
        [coord(1.0), coord(1.0), coord(1.0)],
    );
    let mut tree = Octree::new(vol);

    assert!(tree.insert(Object::new(0.25, 0.25, 0.25)));
    assert!(tree.insert(Object::new(0.75, 0.25, 0.25)));
    assert!(tree.insert(Object::new(0.25, 0.75, 0.75)));
    assert!(tree.insert(Object::new(0.75, 0.75, 0.75)));
    assert_eq!(tree.len(), 4);

    let low = tree.get_in_volume(&Volume::new(
        [coord(0.0), coord(0.0), coord(0.0)],
        [coord(0.5), coord(0.5), coord(0.5)],
    ));
    assert_eq!(low.len(), 1);
    assert_eq!(low[0].x, 0.25);

    let high = tree.get_in_volume(&Volume::new(
        [coord(0.5), coord(0.5), coord(0.5)],
        [coord(1.0), coord(1.0), coord(1.0)],
    ));
    assert_eq!(high.len(), 1);
    assert_eq!(high[0].x, 0.75);
    assert_eq!(high[0].z, 0.75);
}

#[test]
fn octree_insert_outside_is_rejected_and_disjoint_query_empty() {
    let vol = Volume::new(
        [coord(0.0), coord(0.0), coord(0.0)],
        [coord(1.0), coord(1.0), coord(1.0)],
    );
    let mut tree = Octree::new(vol);

    assert!(tree.insert(Object::new(0.5, 0.5, 0.5)));
    assert_eq!(tree.insert(Object::new(0.5, 0.5, 1.25)), false);
    assert_eq!(tree.insert(Object::new(-0.5, 0.5, 0.5)), false);
    assert_eq!(tree.len(), 1);

    let far = tree.get_in_volume(&Volume::new(
        [coord(3.0), coord(3.0), coord(3.0)],
        [coord(4.0), coord(4.0), coord(4.0)],
    ));
    assert_eq!(far.len(), 0);

    // A query volume that only shares a face does not intersect.
    let touching = tree.get_in_volume(&Volume::new(
        [coord(0.0), coord(0.0), coord(1.0)],
        [coord(1.0), coord(1.0), coord(2.0)],
    ));
    assert_eq!(touching.len(), 0);
}

#[test]
fn octree_root_query_reports_each_item_once() {
    let vol = Volume::new(
        [coord(0.0), coord(0.0), coord(0.0)],
        [coord(1.0), coord(1.0), coord(1.0)],
    );
    let mut tree = Octree::with_capacity(vol, 1);

    let points = [(0.1, 0.2, 0.3), (0.4, 0.5, 0.6), (0.7, 0.8, 0.9), (0.2, 0.9, 0.1)];
    for &(x, y, z) in points.iter() {
        assert!(tree.insert(Object::new(x, y, z)));
    }
    assert_eq!(tree.len(), 4);

    let all = tree.get_in_volume(&Volume::new(
        [coord(0.0), coord(0.0), coord(0.0)],
        [coord(1.0), coord(1.0), coord(1.0)],
    ));
    assert_eq!(all.len(), 4);
    for &(x, y, z) in points.iter() {
        let hits = all.iter().filter(|o| o.x == x && o.y == y && o.z == z).count();
        assert_eq!(hits, 1);
    }
}

#[test]
fn octree_volume_accessors_and_predicates() {
    let vol = Volume::new([0, 0, 0], [10, 20, 30]);
    assert_eq!(vol.min(), [0, 0, 0]);
    assert_eq!(vol.max(), [10, 20, 30]);

    assert!(vol.contains(&[0, 0, 0]));
    assert!(vol.contains(&[10, 20, 30]));
    assert!(!vol.contains(&[11, 20, 30]));
    assert!(!vol.contains(&[10, 20, -1]));

    assert!(vol.intersects(&Volume::new([9, 19, 29], [40, 40, 40])));
    assert!(!vol.intersects(&Volume::new([10, 0, 0], [40, 20, 30])));
}
