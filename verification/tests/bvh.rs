use raytracer::Aabb;
use raytracer::BVHNode;
use raytracer::BvhBuildError;
use raytracer::BvhChild;

fn keybox(min: [u64; 3], max: [u64; 3]) -> Aabb {
    Aabb { min, max }
}

fn contains(outer: &Aabb, inner: &Aabb) -> bool {
    (0..3).all(|a| outer.min[a] <= inner.min[a] && inner.max[a] <= outer.max[a])
}

fn check_node(node: &BVHNode, indices: &mut Vec<usize>) {
    for child in [&node.left, &node.right] {
        match child {
            BvhChild::Leaf { index, bb } => {
                assert!(contains(&node.bb, bb));
                indices.push(*index);
            },
            BvhChild::Node(inner) => {
                assert!(contains(&node.bb, &inner.bb));
                check_node(inner, indices);
            },
        }
    }
}

#[test]
fn build_covers_every_primitive_once() {
    let boxes: Vec<Option<Aabb>> = vec![
        Some(keybox([10, 10, 10], [20, 20, 20])),
        Some(keybox([0, 5, 0], [5, 8, 5])),
        Some(keybox([30, 0, 2], [40, 4, 3])),
        Some(keybox([7, 7, 7], [9, 9, 9])),
        Some(keybox([1, 1, 1], [2, 2, 2])),
    ];
    let node = BVHNode::new(&boxes).unwrap();
    let mut indices = Vec::new();
    check_node(&node, &mut indices);
    indices.sort();
    indices.dedup();
    assert_eq!(indices, vec![0, 1, 2, 3, 4]);
}

#[test]
fn node_box_contains_children_boxes() {
    let boxes: Vec<Option<Aabb>> = (0..9)
        .map(|i: u64| Some(keybox([i, 2 * i, 100 - i], [i + 3, 2 * i + 1, 101 - i])))
        .collect();
    let node = BVHNode::new(&boxes).unwrap();
    let mut indices = Vec::new();
    check_node(&node, &mut indices);
    // the root box contains every primitive's box
    for b in boxes.iter().flatten() {
        assert!(contains(&node.bb, b));
    }
}

#[test]
fn single_primitive_builds_degenerate_leaf_pair() {
    let bb = keybox([1, 2, 3], [4, 5, 6]);
    let node = BVHNode::new(&vec![Some(bb)]).unwrap();
    match (&node.left, &node.right) {
        (
            BvhChild::Leaf { index: l, bb: lb },
            BvhChild::Leaf { index: r, bb: rb },
        ) => {
            assert_eq!(*l, 0);
            assert_eq!(*r, 0);
            assert_eq!(lb.min, bb.min);
            assert_eq!(rb.max, bb.max);
        },
        _ => panic!("expected two leaves"),
    }
    assert_eq!(node.bb.min, bb.min);
    assert_eq!(node.bb.max, bb.max);
}

#[test]
fn two_primitives_are_ordered_leaves() {
    let near = keybox([0, 0, 0], [1, 1, 1]);
    let far = keybox([50, 50, 50], [60, 60, 60]);
    let node = BVHNode::new(&vec![Some(far), Some(near)]).unwrap();
    match (&node.left, &node.right) {
        (BvhChild::Leaf { index: l, .. }, BvhChild::Leaf { index: r, .. }) => {
            let mut pair = vec![*l, *r];
            pair.sort();
            assert_eq!(pair, vec![0, 1]);
        },
        _ => panic!("expected two leaves"),
    }
    assert_eq!(node.bb.min, [0, 0, 0]);
    assert_eq!(node.bb.max, [60, 60, 60]);
}

#[test]
fn empty_scene_fails_the_build() {
    let boxes: Vec<Option<Aabb>> = Vec::new();
    match BVHNode::new(&boxes) {
        Err(e) => assert_eq!(e, BvhBuildError::EmptyScene),
        Ok(_) => panic!("an empty scene must not build"),
    }
}

#[test]
fn missing_bounding_box_fails_the_build() {
    let boxes = vec![Some(keybox([0, 0, 0], [1, 1, 1])), None];
    match BVHNode::new(&boxes) {
        Err(e) => assert_eq!(e, BvhBuildError::MissingBoundingBox),
        Ok(_) => panic!("a missing box must not build"),
    }
}

#[test]
fn surrounding_box_is_the_componentwise_union() {
    let a = keybox([1, 9, 3], [4, 12, 6]);
    let b = keybox([2, 7, 5], [3, 10, 8]);
    let u = raytracer::bvh::surrounding_box(&a, &b);
    assert_eq!(u.min, [1, 7, 3]);
    assert_eq!(u.max, [4, 12, 8]);
    assert!(contains(&u, &a));
    assert!(contains(&u, &b));
}
