use oganesson::possible_collisions;
use oganesson::BoundingBox;

struct Lcg(u64);

impl Lcg {
    fn next(&mut self) -> u64 {
        self.0 = self
            .0
            .wrapping_mul(6364136223846793005)
            .wrapping_add(1442695040888963407);
        self.0 >> 11
    }

    fn coord(&mut self) -> i64 {
        (self.next() % 2001) as i64 - 1000
    }
}

fn random_boxes(rng: &mut Lcg, count: usize, dim: usize) -> Vec<BoundingBox> {
    let mut boxes = Vec::new();
    for _ in 0..count {
        let mut min = Vec::new();
        let mut max = Vec::new();
        for _ in 0..dim {
            let a = rng.coord();
            let b = a + (rng.next() % 200) as i64;
            min.push(a);
            max.push(b);
        }
        boxes.push(BoundingBox { min, max });
    }
    boxes
}

fn overlap(a: &BoundingBox, b: &BoundingBox) -> bool {
    (0..a.min.len()).all(|k| a.min[k] <= b.max[k] && b.min[k] <= a.max[k])
}

fn brute_force(boxes: &[BoundingBox]) -> Vec<(usize, usize)> {
    let mut pairs = Vec::new();
    for i in 0..boxes.len() {
        for j in (i + 1)..boxes.len() {
            if overlap(&boxes[i], &boxes[j]) {
                pairs.push((i, j));
            }
        }
    }
    pairs
}

fn normalize(pairs: &[(usize, usize)]) -> Vec<(usize, usize)> {
    let mut out: Vec<(usize, usize)> = pairs
        .iter()
        .map(|&(i, j)| if i <= j { (i, j) } else { (j, i) })
        .collect();
    out.sort();
    out.dedup();
    out
}

#[test]
fn candidates_are_a_superset_of_brute_force() {
    let mut rng = Lcg(20240601);
    for dim in 1..=3usize {
        for count in 0..50usize {
            let boxes = random_boxes(&mut rng, count, dim);
            let candidates = normalize(&possible_collisions(&boxes, dim));
            let expected = normalize(&brute_force(&boxes));
            for pair in &expected {
                assert!(
                    candidates.contains(pair),
                    "missing pair {:?} with {} boxes in dimension {}",
                    pair,
                    count,
                    dim
                );
            }
            assert_eq!(candidates, expected);
        }
    }
}

#[test]
fn candidates_are_order_independent() {
    let mut rng = Lcg(987654321);
    for dim in 1..=3usize {
        for count in [0usize, 1, 2, 5, 13, 30] {
            let boxes = random_boxes(&mut rng, count, dim);
            let forward = normalize(&possible_collisions(&boxes, dim));
            let mut reversed = Vec::new();
            for k in (0..boxes.len()).rev() {
                reversed.push(BoundingBox {
                    min: boxes[k].min.clone(),
                    max: boxes[k].max.clone(),
                });
            }
            let backward = possible_collisions(&reversed, dim);
            let last = boxes.len().wrapping_sub(1);
            let mapped: Vec<(usize, usize)> = backward
                .iter()
                .map(|&(i, j)| (last - i, last - j))
                .collect();
            assert_eq!(forward, normalize(&mapped));
        }
    }
}

#[test]
fn overlaps_and_center_are_exact() {
    let a = BoundingBox { min: vec![0, 0], max: vec![10, 4] };
    let b = BoundingBox { min: vec![10, 4], max: vec![20, 8] };
    let c = BoundingBox { min: vec![11, 0], max: vec![20, 8] };
    // Touching counts as overlap; a one-unit gap on any axis does not.
    assert!(a.overlaps(&b));
    assert!(b.overlaps(&a));
    assert!(!a.overlaps(&c));
    assert_eq!(a.center2(0), 10);
    assert_eq!(a.center2(1), 4);
}

#[test]
fn small_inputs_give_no_pairs() {
    let none: Vec<BoundingBox> = Vec::new();
    assert!(possible_collisions(&none, 2).is_empty());
    let one = vec![BoundingBox {
        min: vec![0, 0],
        max: vec![4, 4],
    }];
    assert!(possible_collisions(&one, 2).is_empty());
}

#[test]
fn straddling_boxes_are_not_separated() {
    // One long box spans the median; the short box sits entirely on the far
    // side of it.  A split on minima alone would drive them apart.
    let boxes = vec![
        BoundingBox {
            min: vec![0],
            max: vec![10],
        },
        BoundingBox {
            min: vec![6],
            max: vec![8],
        },
    ];
    let pairs = normalize(&possible_collisions(&boxes, 1));
    assert_eq!(pairs, vec![(0, 1)]);
}

#[test]
fn coincident_boxes_report_every_pair() {
    let mut boxes = Vec::new();
    for _ in 0..6 {
        boxes.push(BoundingBox {
            min: vec![1, 2, 3],
            max: vec![4, 5, 6],
        });
    }
    let pairs = normalize(&possible_collisions(&boxes, 3));
    assert_eq!(pairs.len(), 15);
}

#[test]
fn separated_boxes_report_nothing() {
    let boxes = vec![
        BoundingBox {
            min: vec![0, 0],
            max: vec![1, 1],
        },
        BoundingBox {
            min: vec![5, 5],
            max: vec![6, 6],
        },
        BoundingBox {
            min: vec![50, 0],
            max: vec![51, 1],
        },
    ];
    assert!(possible_collisions(&boxes, 2).is_empty());
}
