use qbsp::bsp::{CastResult, Node, Plane, Ray, Tree};
use qbsp::math::Vec3;

/// A value in fixed-point units (65536 per 1.0).
fn fx(v: f32) -> i64 {
    (v * 65536.0) as i64
}

fn v3(x: f32, y: f32, z: f32) -> Vec3 {
    Vec3 { x: fx(x), y: fx(y), z: fx(z) }
}

/// The two-plane fixture: an inner node at x = 0 (positive side
/// continues, negative side is open space) and an inner node at x = 1
/// (positive side open, negative side solid).  Solid region:
/// 0 < x <= 1.
fn test_tree() -> Tree {
    Tree::new(
        vec![
            Node::Inner {
                plane: Plane { norm: v3(1.0, 0.0, 0.0), dist: fx(0.0) },
                pos: 2,
                neg: 1,
            },
            Node::Leaf { solid: false, parent: 0 },
            Node::Inner {
                plane: Plane { norm: v3(1.0, 0.0, 0.0), dist: fx(1.0) },
                pos: 3,
                neg: 4,
            },
            Node::Leaf { solid: false, parent: 2 },
            Node::Leaf { solid: true, parent: 2 },
        ],
        0,
    )
    .expect("fixture tree is well formed")
}

#[test]
fn plane_raycast() {
    let plane = Plane { norm: v3(1.0, 0.0, 0.0), dist: fx(0.0) };

    //      ->   |
    let r1 = Ray { orig: v3(-1.0, 0.0, 0.0), dir: v3(1.0, 0.0, 0.0) };
    assert!(plane.cast_ray(&r1).is_some());

    //      <-   |
    let r2 = Ray { orig: v3(-1.0, 0.0, 0.0), dir: v3(-1.0, 0.0, 0.0) };
    assert!(!plane.cast_ray(&r2).is_some());
}

#[test]
fn bsp_raycast() {
    let tree = test_tree();

    //      ->   |  |
    let r1 = Ray { orig: v3(-0.5, 0.0, 0.0), dir: v3(1.0, 0.0, 0.0) };
    let hit = tree.cast_ray(&r1).expect("expected a hit, got a miss");
    assert_eq!(hit.toi, fx(1.5));
    assert_eq!(hit.norm, v3(1.0, 0.0, 0.0));

    //      <-   |  |
    let r2 = Ray { orig: v3(-0.5, 0.0, 0.0), dir: v3(-1.0, 0.0, 0.0) };
    assert!(!tree.cast_ray(&r2).is_some());
}

#[test]
fn bsp_contains_point() {
    let tree = test_tree();

    let p1 = v3(0.5, 0.0, 0.0);
    let p2 = v3(1.5, 0.0, 0.0);
    assert!(tree.contains_point(&p1));
    assert!(!tree.contains_point(&p2));
}

#[test]
fn plane_raycast_exact_toi() {
    let plane = Plane { norm: v3(1.0, 0.0, 0.0), dist: fx(0.0) };
    let r = Ray { orig: v3(-1.0, 0.0, 0.0), dir: v3(1.0, 0.0, 0.0) };
    let hit: CastResult = plane.cast_ray(&r).unwrap();
    assert_eq!(hit.toi, fx(1.0));
    assert_eq!(hit.norm, v3(1.0, 0.0, 0.0));
}

#[test]
fn plane_raycast_parallel() {
    let plane = Plane { norm: v3(0.0, 1.0, 0.0), dist: fx(0.0) };

    // Parallel ray inside the plane: hit at time zero.
    let in_plane = Ray { orig: v3(3.0, 0.0, 0.0), dir: v3(1.0, 0.0, 0.0) };
    let hit = plane.cast_ray(&in_plane).unwrap();
    assert_eq!(hit.toi, 0);

    // Parallel ray off the plane: never crosses.
    let off_plane = Ray { orig: v3(3.0, 2.0, 0.0), dir: v3(1.0, 0.0, 0.0) };
    assert!(plane.cast_ray(&off_plane).is_none());
}

#[test]
fn plane_raycast_reports_stored_normal_from_both_sides() {
    // The reported normal is always the stored one, whichever side the
    // ray comes from.
    let plane = Plane { norm: v3(1.0, 0.0, 0.0), dist: fx(0.0) };
    let from_pos = Ray { orig: v3(2.0, 0.0, 0.0), dir: v3(-1.0, 0.0, 0.0) };
    let hit = plane.cast_ray(&from_pos).unwrap();
    assert_eq!(hit.toi, fx(2.0));
    assert_eq!(hit.norm, v3(1.0, 0.0, 0.0));
}

#[test]
fn plane_raycast_near_parallel_uses_epsilon() {
    let plane = Plane { norm: v3(1.0, 0.0, 0.0), dist: fx(0.0) };
    // A normal-direction speed of 5 fixed-point units (~7.6e-5) is
    // within the tolerance: the ray counts as parallel and misses a
    // plane it does not lie on.
    let grazing = Ray {
        orig: v3(-1.0, 0.0, 0.0),
        dir: Vec3 { x: 5, y: fx(1.0), z: 0 },
    };
    assert!(plane.cast_ray(&grazing).is_none());
    // 8 units is beyond the tolerance: a forward hit.
    let slightly_more = Ray {
        orig: v3(-1.0, 0.0, 0.0),
        dir: Vec3 { x: 8, y: fx(1.0), z: 0 },
    };
    assert!(plane.cast_ray(&slightly_more).is_some());
}

#[test]
fn raycast_from_solid_origin_is_none() {
    // A ray whose origin is already classified solid returns None,
    // regardless of direction.
    let tree = test_tree();
    let origin = v3(0.5, 0.0, 0.0);
    assert!(tree.contains_point(&origin));
    let dirs = [
        v3(1.0, 0.0, 0.0),
        v3(-1.0, 0.0, 0.0),
        v3(0.0, 1.0, 0.0),
        v3(0.25, -2.0, 3.0),
    ];
    for dir in dirs {
        let ray = Ray { orig: origin, dir };
        assert!(tree.cast_ray(&ray).is_none());
    }
}

#[test]
fn repeated_queries_identical() {
    // Queries borrow the tree immutably; identical queries give
    // identical results.
    let tree = test_tree();
    let ray = Ray { orig: v3(-0.5, 0.0, 0.0), dir: v3(1.0, 0.0, 0.0) };
    let point = v3(0.5, 0.0, 0.0);
    let first_cast = tree.cast_ray(&ray);
    let first_contains = tree.contains_point(&point);
    for _ in 0..3 {
        assert_eq!(tree.cast_ray(&ray), first_cast);
        assert_eq!(tree.contains_point(&point), first_contains);
    }
}

#[test]
fn tree_new_rejects_backward_child() {
    // An inner node whose child does not sit strictly after it is
    // refused: the arena would not be acyclic by construction.
    let nodes = vec![
        Node::Inner {
            plane: Plane { norm: v3(1.0, 0.0, 0.0), dist: 0 },
            pos: 0,
            neg: 1,
        },
        Node::Leaf { solid: false, parent: 0 },
    ];
    assert!(Tree::new(nodes, 0).is_none());
}

#[test]
fn tree_new_rejects_leaf_parent_pointing_at_leaf() {
    let nodes = vec![
        Node::Inner {
            plane: Plane { norm: v3(1.0, 0.0, 0.0), dist: 0 },
            pos: 1,
            neg: 2,
        },
        Node::Leaf { solid: false, parent: 2 },
        Node::Leaf { solid: true, parent: 0 },
    ];
    assert!(Tree::new(nodes, 0).is_none());
}

#[test]
fn tree_new_rejects_root_out_of_range() {
    let nodes = vec![
        Node::Inner {
            plane: Plane { norm: v3(1.0, 0.0, 0.0), dist: 0 },
            pos: 1,
            neg: 1,
        },
        Node::Leaf { solid: false, parent: 0 },
    ];
    assert!(Tree::new(nodes, 7).is_none());
}
