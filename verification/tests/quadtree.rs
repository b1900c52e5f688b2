use spatial::quadtree::{Index, Quadtree, Volume};

#[derive(Clone)]
struct Object {
    x: f32,
    y: f32,
}

impl Object {
    pub fn new(x: f32, y: f32) -> Object {
        Object { x, y }
    }
}

/// Coordinates are written in thousandths: 0.25 becomes 250.
fn coord(v: f32) -> i64 {
    (v * 1000.0) as i64
}

impl Index for Object {
    fn pos_spec(&self) -> [i64; 2] {
        [coord(self.x), coord(self.y)]
    }

    fn quadtree_index(&self) -> [i64; 2] {
        [coord(self.x), coord(self.y)]
    }
}

#[test]
fn main() {
    let vol = Volume::new([coord(0.0), coord(0.0)], [coord(1.0), coord(1.0)]);
    let mut tree = Quadtree::new(vol);

    assert_eq!(tree.insert(Object::new(0.25, 0.25)), true);
    assert_eq!(tree.insert(Object::new(0.75, 0.25)), true);
    assert_eq!(tree.insert(Object::new(0.25, 0.75)), true);
    assert_eq!(tree.insert(Object::new(0.75, 0.75)), true);

    assert_eq!(
        tree.get_in_volume(&Volume::new([coord(0.0), coord(0.0)], [coord(0.5), coord(0.5)])).len(),
        1
    );
    assert_eq!(
        tree.get_in_volume(&Volume::new([coord(0.5), coord(0.0)], [coord(1.0), coord(0.5)])).len(),
        1
    );
    assert_eq!(
        tree.get_in_volume(&Volume::new([coord(0.0), coord(0.5)], [coord(0.5), coord(1.0)])).len(),
        1
    );
    assert_eq!(
        tree.get_in_volume(&Volume::new([coord(0.5), coord(0.5)], [coord(1.0), coord(1.0)])).len(),
        1
    );

    assert_eq!(tree.len(), 4);
}

#[test]
fn four_quadrant_queries_find_the_right_points() {
    let vol = Volume::new([coord(0.0), coord(0.0)], [coord(1.0), coord(1.0)]);
    let mut tree = Quadtree::new(vol);

    assert!(tree.insert(Object::new(0.25, 0.25)));
    assert!(tree.insert(Object::new(0.75, 0.25)));
    assert!(tree.insert(Object::new(0.25, 0.75)));
    assert!(tree.insert(Object::new(0.75, 0.75)));

    let nw = tree.get_in_volume(&Volume::new([coord(0.0), coord(0.0)], [coord(0.5), coord(0.5)]));
    assert_eq!(nw.len(), 1);
    assert_eq!(nw[0].x, 0.25);
    assert_eq!(nw[0].y, 0.25);

    let se = tree.get_in_volume(&Volume::new([coord(0.5), coord(0.5)], [coord(1.0), coord(1.0)]));
    assert_eq!(se.len(), 1);
    assert_eq!(se[0].x, 0.75);
    assert_eq!(se[0].y, 0.75);
}

#[test]
fn capacity_one_insert_subdivides_and_keeps_both_points() {
    let vol = Volume::new([coord(0.0), coord(0.0)], [coord(1.0), coord(1.0)]);
    let mut tree = Quadtree::with_capacity(vol, 1);

    assert_eq!(tree.insert(Object::new(0.1, 0.1)), true);
    assert_eq!(tree.insert(Object::new(0.2, 0.2)), true);

    assert_eq!(tree.len(), 2);
    let all = tree.get_in_volume(&Volume::new([coord(0.0), coord(0.0)], [coord(1.0), coord(1.0)]));
    assert_eq!(all.len(), 2);
    // The node's own item comes first, the subdivided child's second.
    assert_eq!(all[0].x, 0.1);
    assert_eq!(all[1].x, 0.2);
}

#[test]
fn insert_outside_the_root_volume_is_rejected() {
    let vol = Volume::new([coord(0.0), coord(0.0)], [coord(1.0), coord(1.0)]);
    let mut tree = Quadtree::new(vol);

    assert!(tree.insert(Object::new(0.5, 0.5)));
    assert_eq!(tree.insert(Object::new(1.5, 0.5)), false);
    assert_eq!(tree.insert(Object::new(0.5, -0.25)), false);
    assert_eq!(tree.len(), 1);
}

#[test]
fn disjoint_query_returns_nothing() {
    let vol = Volume::new([coord(0.0), coord(0.0)], [coord(1.0), coord(1.0)]);
    let mut tree = Quadtree::new(vol);

    assert!(tree.insert(Object::new(0.5, 0.5)));
    assert!(tree.insert(Object::new(0.9, 0.9)));

    let far = tree.get_in_volume(&Volume::new([coord(2.0), coord(2.0)], [coord(3.0), coord(3.0)]));
    assert_eq!(far.len(), 0);

    // A query volume that only shares an edge does not intersect.
    let touching =
        tree.get_in_volume(&Volume::new([coord(1.0), coord(0.0)], [coord(2.0), coord(1.0)]));
    assert_eq!(touching.len(), 0);
}

#[test]
fn point_on_the_midpoint_boundary_is_kept_after_subdivision() {
    let vol = Volume::new([coord(0.0), coord(0.0)], [coord(1.0), coord(1.0)]);
    let mut tree = Quadtree::with_capacity(vol, 1);

    assert!(tree.insert(Object::new(0.1, 0.1)));
    assert!(tree.insert(Object::new(0.9, 0.9)));
    // The midpoint lies on the boundary shared by all four quadrants and
    // is accepted by the first of them.
    assert!(tree.insert(Object::new(0.5, 0.5)));
    assert_eq!(tree.len(), 3);

    let low = tree.get_in_volume(&Volume::new([coord(0.0), coord(0.0)], [coord(0.5), coord(0.5)]));
    assert_eq!(low.len(), 2);
}

#[test]
fn every_accepted_item_is_reported_once_by_a_root_query() {
    let vol = Volume::new([coord(0.0), coord(0.0)], [coord(1.0), coord(1.0)]);
    let mut tree = Quadtree::with_capacity(vol, 2);

    let points = [
        (0.1, 0.2),
        (0.3, 0.4),
        (0.5, 0.6),
        (0.7, 0.8),
        (0.9, 0.1),
        (0.2, 0.9),
        (0.6, 0.3),
        (0.8, 0.7),
    ];
    let mut accepted: usize = 0;
    for &(x, y) in points.iter() {
        if tree.insert(Object::new(x, y)) {
            accepted += 1;
        }
    }
    assert_eq!(accepted, 8);
    assert_eq!(tree.len(), 8);

    let all = tree.get_in_volume(&Volume::new([coord(0.0), coord(0.0)], [coord(1.0), coord(1.0)]));
    assert_eq!(all.len(), 8);
    for &(x, y) in points.iter() {
        let hits = all.iter().filter(|o| o.x == x && o.y == y).count();
        assert_eq!(hits, 1);
    }
}

#[test]
fn volume_accessors_and_predicates() {
    let vol = Volume::new([1, 2], [30, 40]);
    assert_eq!(vol.min(), [1, 2]);
    assert_eq!(vol.max(), [30, 40]);

    assert!(vol.contains(&[1, 2]));
    assert!(vol.contains(&[30, 40]));
    assert!(vol.contains(&[15, 20]));
    assert!(!vol.contains(&[0, 20]));
    assert!(!vol.contains(&[15, 41]));

    assert!(vol.intersects(&Volume::new([29, 39], [50, 60])));
    // Sharing only an edge is not an intersection.
    assert!(!vol.intersects(&Volume::new([30, 2], [60, 40])));
    assert!(!vol.intersects(&Volume::new([31, 2], [60, 40])));
}
