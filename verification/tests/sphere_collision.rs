use oganesson::find_collisions;
use oganesson::possible_collisions;
use oganesson::Collider;

fn sphere(position: Vec<i64>, size: i64) -> Collider {
    Collider { size, position }
}

#[test]
fn unit_spheres_collide_iff_closer_than_two() {
    // Unit spheres at (0,0) and (d,0), everything scaled by 100.
    let origin = sphere(vec![0, 0], 100);
    for d in [0i64, 50, 100, 150, 199] {
        let other = sphere(vec![d, 0], 100);
        assert!(origin.is_collision(&other), "d = {} should collide", d);
    }
    for d in [200i64, 201, 300, 1000] {
        let other = sphere(vec![d, 0], 100);
        assert!(!origin.is_collision(&other), "d = {} should not collide", d);
    }
}

#[test]
fn collision_is_symmetric() {
    let a = sphere(vec![0, 0, 0], 75);
    let b = sphere(vec![100, 20, -30], 75);
    assert_eq!(a.is_collision(&b), b.is_collision(&a));
    assert!(a.is_collision(&b));
}

#[test]
fn touching_spheres_do_not_collide() {
    // Distance exactly the sum of radii: the strict test reports no contact.
    let a = sphere(vec![0], 30);
    let b = sphere(vec![70], 40);
    assert!(!a.is_collision(&b));
}

#[test]
fn diagonal_distance_is_exact() {
    // Distance 5 between (0,0) and (3,4); radii sum 5 touches, 6 overlaps.
    let a = sphere(vec![0, 0], 2);
    let b = sphere(vec![3, 4], 3);
    assert!(!a.is_collision(&b));
    let c = sphere(vec![3, 4], 4);
    assert!(a.is_collision(&c));
}

#[test]
fn bounding_box_wraps_the_sphere() {
    let s = sphere(vec![10, -20, 5], 7);
    let bb = s.get_bounding_box();
    assert_eq!(bb.min, vec![3, -27, -2]);
    assert_eq!(bb.max, vec![17, -13, 12]);
}

#[test]
fn find_collisions_confirms_candidates() {
    // Boxes of the diagonal pair overlap, but the spheres do not: the
    // narrow phase must reject what the broad phase suggests.
    let spheres = vec![
        sphere(vec![0, 0], 10),
        sphere(vec![16, 16], 10),
        sphere(vec![5, 0], 10),
        sphere(vec![900, 900], 10),
    ];
    let mut pairs: Vec<(usize, usize)> = find_collisions(&spheres, 2)
        .iter()
        .map(|&(i, j)| if i <= j { (i, j) } else { (j, i) })
        .collect();
    pairs.sort();
    pairs.dedup();
    // The boxes of 0 and 1 overlap but their squared distance 512 exceeds
    // 400, so the pair is rejected; 2 collides with both 0 and 1; 3 is far
    // from everything.
    assert_eq!(pairs, vec![(0, 2), (1, 2)]);
}

#[test]
fn find_collisions_on_small_worlds() {
    let empty: Vec<Collider> = Vec::new();
    assert!(find_collisions(&empty, 3).is_empty());
    let lonely = vec![sphere(vec![0, 0, 0], 5)];
    assert!(find_collisions(&lonely, 3).is_empty());
}

#[test]
fn find_collisions_strictness() {
    let spheres = vec![sphere(vec![0], 10), sphere(vec![20], 10), sphere(vec![39], 10)];
    let pairs = find_collisions(&spheres, 1);
    // 0-1 touch exactly (no contact); 1-2 overlap by one unit.
    assert_eq!(pairs.len(), 1);
    let (i, j) = pairs[0];
    assert!((i, j) == (1, 2) || (i, j) == (2, 1));
}

#[test]
fn broad_phase_over_sphere_boxes() {
    // Two spheres about to touch and one far away: the broad phase keeps
    // exactly the near pair.
    let spheres = [
        sphere(vec![0, 0], 50),
        sphere(vec![90, 0], 50),
        sphere(vec![100_000, 0], 50),
    ];
    let boxes: Vec<_> = spheres.iter().map(|s| s.get_bounding_box()).collect();
    let pairs = possible_collisions(&boxes, 2);
    assert_eq!(pairs.len(), 1);
    let (i, j) = pairs[0];
    assert!((i, j) == (0, 1) || (i, j) == (1, 0));
    assert!(spheres[0].is_collision(&spheres[1]));
}
