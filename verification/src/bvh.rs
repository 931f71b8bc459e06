use vstd::prelude::*;
use crate::rng::random_below;

verus! {

// The bounding-volume hierarchy. Geometry reaches it as axis-aligned boxes
// whose coordinates are totally ordered keys: the caller encodes each
// coordinate through an order-preserving map into `u64`, so comparisons
// and componentwise minima and maxima here mirror the geometric ones
// exactly, and the caller decodes them back for its intersection tests.

/// An axis-aligned bounding box over ordered coordinate keys, one `min`
/// and one `max` key per axis.
#[derive(Debug, Clone, Copy)]
pub struct Aabb {
    pub min: [u64; 3],
    pub max: [u64; 3],
}

/// `outer` contains `inner` on all three axes.
pub open spec fn contains_box(outer: Aabb, inner: Aabb) -> bool {
    &&& outer.min@[0] <= inner.min@[0] && inner.max@[0] <= outer.max@[0]
    &&& outer.min@[1] <= inner.min@[1] && inner.max@[1] <= outer.max@[1]
    &&& outer.min@[2] <= inner.min@[2] && inner.max@[2] <= outer.max@[2]
}

pub open spec fn key_min(a: u64, b: u64) -> u64 {
    if a <= b {
        a
    } else {
        b
    }
}

pub open spec fn key_max(a: u64, b: u64) -> u64 {
    if a <= b {
        b
    } else {
        a
    }
}

fn min_key(a: u64, b: u64) -> (r: u64)
    ensures
        r == key_min(a, b),
{
    if a <= b {
        a
    } else {
        b
    }
}

fn max_key(a: u64, b: u64) -> (r: u64)
    ensures
        r == key_max(a, b),
{
    if a <= b {
        b
    } else {
        a
    }
}

/// The smallest box containing both arguments: the componentwise minimum
/// of the two minima and maximum of the two maxima.
pub fn surrounding_box(box0: &Aabb, box1: &Aabb) -> (r: Aabb)
    ensures
        contains_box(r, *box0),
        contains_box(r, *box1),
        r.min@[0] == key_min(box0.min@[0], box1.min@[0]),
        r.min@[1] == key_min(box0.min@[1], box1.min@[1]),
        r.min@[2] == key_min(box0.min@[2], box1.min@[2]),
        r.max@[0] == key_max(box0.max@[0], box1.max@[0]),
        r.max@[1] == key_max(box0.max@[1], box1.max@[1]),
        r.max@[2] == key_max(box0.max@[2], box1.max@[2]),
{
    Aabb {
        min: [
            min_key(box0.min[0], box1.min[0]),
            min_key(box0.min[1], box1.min[1]),
            min_key(box0.min[2], box1.min[2]),
        ],
        max: [
            max_key(box0.max[0], box1.max[0]),
            max_key(box0.max[1], box1.max[1]),
            max_key(box0.max[2], box1.max[2]),
        ],
    }
}

/// A child of a hierarchy node: a leaf holding one primitive by its scene
/// index together with that primitive's box, or a nested node.
pub enum BvhChild {
    Leaf { index: usize, bb: Aabb },
    Node(Box<BVHNode>),
}

/// One node of the hierarchy: two children and the cached box containing
/// both. A single-primitive hierarchy holds the same leaf twice, as both
/// children.
pub struct BVHNode {
    pub left: BvhChild,
    pub right: BvhChild,
    pub bb: Aabb,
}

pub open spec fn child_box(c: BvhChild) -> Aabb {
    match c {
        BvhChild::Leaf { index: _, bb } => bb,
        BvhChild::Node(n) => n.bb,
    }
}

/// Every node's cached box contains both children's boxes, throughout the
/// subtree.
pub open spec fn child_wf(c: BvhChild) -> bool
    decreases c,
{
    match c {
        BvhChild::Leaf { .. } => true,
        BvhChild::Node(n) => node_wf(*n),
    }
}

pub open spec fn node_wf(n: BVHNode) -> bool
    decreases n,
{
    &&& contains_box(n.bb, child_box(n.left))
    &&& contains_box(n.bb, child_box(n.right))
    &&& child_wf(n.left)
    &&& child_wf(n.right)
}

/// Every leaf of the subtree holds a valid scene index, paired with
/// exactly that primitive's box.
pub open spec fn child_linked(c: BvhChild, boxes: Seq<Aabb>) -> bool
    decreases c,
{
    match c {
        BvhChild::Leaf { index, bb } => index < boxes.len() && bb == boxes[index as int],
        BvhChild::Node(n) => node_linked(*n, boxes),
    }
}

pub open spec fn node_linked(n: BVHNode, boxes: Seq<Aabb>) -> bool
    decreases n,
{
    child_linked(n.left, boxes) && child_linked(n.right, boxes)
}

/// The scene indices held by the subtree's leaves.
pub open spec fn child_items(c: BvhChild) -> Set<usize>
    decreases c,
{
    match c {
        BvhChild::Leaf { index, .. } => Set::empty().insert(index),
        BvhChild::Node(n) => node_items(*n),
    }
}

pub open spec fn node_items(n: BVHNode) -> Set<usize>
    decreases n,
{
    child_items(n.left) + child_items(n.right)
}

/// For every constructed node of the hierarchy, the cached bounding box
/// contains both children's bounding boxes on all three axes.
pub proof fn lemma_node_box_contains_children(n: BVHNode)
    requires
        node_wf(n),
    ensures
        contains_box(n.bb, child_box(n.left)),
        contains_box(n.bb, child_box(n.right)),
{
}

/// The box of a subtree contains the box of every primitive the subtree
/// holds: containment chains down the tree, which is what makes pruning a
/// subtree by its box sound.
pub proof fn lemma_child_box_contains_items(c: BvhChild, boxes: Seq<Aabb>, idx: usize)
    requires
        child_wf(c),
        child_linked(c, boxes),
        child_items(c).contains(idx),
    ensures
        idx < boxes.len(),
        contains_box(child_box(c), boxes[idx as int]),
    decreases c,
{
    match c {
        BvhChild::Leaf { index, bb } => {
            assert(idx == index);
        },
        BvhChild::Node(n) => {
            if child_items(n.left).contains(idx) {
                lemma_child_box_contains_items(n.left, boxes, idx);
            } else {
                lemma_child_box_contains_items(n.right, boxes, idx);
            }
        },
    }
}

/// The cached box of a node contains the box of every primitive its
/// subtree holds.
pub proof fn lemma_node_box_contains_items(n: BVHNode, boxes: Seq<Aabb>, idx: usize)
    requires
        node_wf(n),
        node_linked(n, boxes),
        node_items(n).contains(idx),
    ensures
        idx < boxes.len(),
        contains_box(n.bb, boxes[idx as int]),
{
    if child_items(n.left).contains(idx) {
        lemma_child_box_contains_items(n.left, boxes, idx);
    } else {
        lemma_child_box_contains_items(n.right, boxes, idx);
    }
}

/// Why the hierarchy could not be built: an empty scene, or a primitive
/// that reports no bounding box. Either defect is fatal to construction,
/// never a silently wrong box.
#[derive(Debug, Clone, Copy, PartialEq, Eq, Structural)]
pub enum BvhBuildError {
    EmptyScene,
    MissingBoundingBox,
}

/// Every entry of `objs` is a valid scene index paired with that
/// primitive's box.
pub open spec fn objects_linked(objs: Seq<(usize, Aabb)>, boxes: Seq<Aabb>) -> bool {
    forall|k: int|
        0 <= k < objs.len() ==> (#[trigger] objs[k]).0 < boxes.len() && objs[k].1 == boxes[objs[
            k].0 as int]
}

/// The scene indices appearing in `objs`.
pub open spec fn index_set(objs: Seq<(usize, Aabb)>) -> Set<usize> {
    Set::new(
        |idx: usize| exists|k: int| 0 <= k < objs.len() && (#[trigger] objs[k]).0 == idx,
    )
}

/// The entries are ordered by their box minimum on `axis`.
pub open spec fn sorted_by_axis(objs: Seq<(usize, Aabb)>, axis: int) -> bool {
    forall|p: int, q: int|
        0 <= p <= q < objs.len() ==> (#[trigger] objs[p]).1.min@[axis] <= (
        #[trigger] objs[q]).1.min@[axis]
}

proof fn lemma_swap_keeps_elements(s1: Seq<(usize, Aabb)>, s2: Seq<(usize, Aabb)>, i: int, j: int)
    requires
        0 <= i < s1.len(),
        0 <= j < s1.len(),
        s2 == s1.update(i, s1[j]).update(j, s1[i]),
    ensures
        s2.len() == s1.len(),
        forall|e: (usize, Aabb)| s2.contains(e) <==> s1.contains(e),
{
    assert forall|e: (usize, Aabb)| s2.contains(e) implies s1.contains(e) by {
        let k = choose|k: int| 0 <= k < s2.len() && s2[k] == e;
        if k == j {
            assert(s1[i] == e);
        } else if k == i {
            assert(s1[j] == e);
        } else {
            assert(s1[k] == e);
        }
    }
    assert forall|e: (usize, Aabb)| s1.contains(e) implies s2.contains(e) by {
        let k = choose|k: int| 0 <= k < s1.len() && s1[k] == e;
        if k == j {
            assert(s2[i] == e);
        } else if k == i {
            assert(s2[j] == e);
        } else {
            assert(s2[k] == e);
        }
    }
}

/// Whatever holds its elements somewhere holds the same indices: elements
/// kept means indices kept.
proof fn lemma_index_set_from_contains(s1: Seq<(usize, Aabb)>, s2: Seq<(usize, Aabb)>)
    requires
        forall|e: (usize, Aabb)| s1.contains(e) <==> s2.contains(e),
    ensures
        index_set(s1) == index_set(s2),
{
    assert forall|idx: usize| index_set(s1).contains(idx) implies index_set(s2).contains(idx) by {
        let k = choose|k: int| 0 <= k < s1.len() && (#[trigger] s1[k]).0 == idx;
        assert(s1.contains(s1[k]));
        let k2 = choose|k2: int| 0 <= k2 < s2.len() && s2[k2] == s1[k];
    }
    assert forall|idx: usize| index_set(s2).contains(idx) implies index_set(s1).contains(idx) by {
        let k = choose|k: int| 0 <= k < s2.len() && (#[trigger] s2[k]).0 == idx;
        assert(s2.contains(s2[k]));
        let k2 = choose|k2: int| 0 <= k2 < s1.len() && s1[k2] == s2[k];
    }
    assert(index_set(s1) =~= index_set(s2));
}

proof fn lemma_linked_from_contains(
    from: Seq<(usize, Aabb)>,
    to: Seq<(usize, Aabb)>,
    boxes: Seq<Aabb>,
)
    requires
        objects_linked(from, boxes),
        forall|e: (usize, Aabb)| to.contains(e) ==> from.contains(e),
    ensures
        objects_linked(to, boxes),
{
    assert forall|k: int|
        0 <= k < to.len() implies (#[trigger] to[k]).0 < boxes.len() && to[k].1 == boxes[to[
        k].0 as int] by {
        assert(to.contains(to[k]));
        let k0 = choose|k0: int| 0 <= k0 < from.len() && from[k0] == to[k];
    }
}

/// Order the primitives by their box minimum on the chosen axis. The
/// entries are kept, only their order changes.
fn sort_by_axis(v: &mut Vec<(usize, Aabb)>, axis: usize)
    requires
        axis < 3,
    ensures
        final(v)@.len() == old(v)@.len(),
        forall|e: (usize, Aabb)| final(v)@.contains(e) <==> old(v)@.contains(e),
        sorted_by_axis(final(v)@, axis as int),
{
    let n = v.len();
    let ghost orig = v@;
    let mut i: usize = 0;
    while i < n
        invariant
            axis < 3,
            n == v@.len(),
            i <= n,
            v@.len() == orig.len(),
            forall|e: (usize, Aabb)| v@.contains(e) <==> orig.contains(e),
            // the prefix is sorted and below everything after it
            forall|p: int, q: int|
                0 <= p <= q < v@.len() && p < i ==> (#[trigger] v@[p]).1.min@[axis as int] <= (
                #[trigger] v@[q]).1.min@[axis as int],
        decreases n - i,
    {
        // select the least remaining key
        let mut m: usize = i;
        let mut j: usize = i + 1;
        while j < n
            invariant
                axis < 3,
                n == v@.len(),
                i <= m < j <= n,
                forall|t: int| i <= t < j ==> v@[m as int].1.min@[axis as int] <= (
                #[trigger] v@[t]).1.min@[axis as int],
            decreases n - j,
        {
            if v[j].1.min[axis] < v[m].1.min[axis] {
                m = j;
            }
            j = j + 1;
        }
        let ghost before = v@;
        let a = v[i];
        let b = v[m];
        v[i] = b;
        v[m] = a;
        proof {
            assert(v@ =~= before.update(i as int, b).update(m as int, a));
            lemma_swap_keeps_elements(before, v@, i as int, m as int);
        }
        i = i + 1;
    }
}

impl BVHNode {
    /// The cached box of this node, the union of its children's boxes.
    pub fn bounding_box(&self) -> (r: Aabb)
        ensures
            r == self.bb,
    {
        self.bb
    }

    /// Build a hierarchy over primitives `0 .. boxes.len()`, each with the
    /// bounding box its geometry reported. A primitive that reports no box,
    /// or an empty scene, is a construction defect and fails the build.
    pub fn new(boxes: &Vec<Option<Aabb>>) -> (r: Result<BVHNode, BvhBuildError>)
        ensures
            match r {
                Ok(n) => {
                    &&& boxes@.len() >= 1
                    &&& forall|i: int| 0 <= i < boxes@.len() ==> (#[trigger] boxes@[i]) is Some
                    &&& node_wf(n)
                    &&& node_linked(n, Seq::new(boxes@.len(), |i: int| boxes@[i]->0))
                    &&& node_items(n) == Set::new(|idx: usize| idx < boxes@.len())
                },
                Err(e) => {
                    &&& (e == BvhBuildError::EmptyScene <==> boxes@.len() == 0)
                    &&& (e == BvhBuildError::MissingBoundingBox <==> boxes@.len() >= 1
                        && exists|i: int| 0 <= i < boxes@.len() && (#[trigger] boxes@[i]) is None)
                },
            },
    {
        let ghost unwrapped = Seq::new(boxes@.len(), |i: int| boxes@[i]->0);
        if boxes.len() == 0 {
            return Err(BvhBuildError::EmptyScene);
        }
        let mut objects: Vec<(usize, Aabb)> = Vec::new();
        let n = boxes.len();
        for i in 0..n
            invariant
                n == boxes@.len(),
                unwrapped == Seq::new(boxes@.len(), |k: int| boxes@[k]->0),
                objects@.len() == i,
                forall|k: int| 0 <= k < i ==> (#[trigger] boxes@[k]) is Some,
                forall|k: int|
                    0 <= k < i ==> (#[trigger] objects@[k]).0 == k && objects@[k].1 == unwrapped[k],
        {
            match &boxes[i] {
                Some(b) => {
                    objects.push((i, *b));
                },
                None => {
                    return Err(BvhBuildError::MissingBoundingBox);
                },
            }
        }
        proof {
            assert forall|k: int|
                0 <= k < objects@.len() implies (#[trigger] objects@[k]).0 < unwrapped.len()
                && objects@[k].1 == unwrapped[objects@[k].0 as int] by {
                assert(objects@[k].0 == k);
            }
            assert(index_set(objects@) =~= Set::new(|idx: usize| idx < boxes@.len())) by {
                assert forall|idx: usize| idx < boxes@.len() implies index_set(
                    objects@,
                ).contains(idx) by {
                    assert(objects@[idx as int].0 == idx);
                }
            }
        }
        let node = BVHNode::from(objects, Ghost(unwrapped));
        Ok(node)
    }

    /// Build a hierarchy node over a nonempty slice of primitives: a
    /// single primitive becomes a degenerate leaf pair, two are ordered by
    /// their box minimum on a randomly chosen axis, and more are sorted on
    /// that axis and split at the midpoint.
    fn from(objects: Vec<(usize, Aabb)>, Ghost(boxes): Ghost<Seq<Aabb>>) -> (n: BVHNode)
        requires
            objects@.len() >= 1,
            objects_linked(objects@, boxes),
        ensures
            node_wf(n),
            node_linked(n, boxes),
            node_items(n) == index_set(objects@),
        decreases objects@.len(),
    {
        let axis = random_below(3);
        let object_span = objects.len();
        if object_span == 1 {
            let (index, bb) = objects[0];
            let left = BvhChild::Leaf { index, bb };
            let right = BvhChild::Leaf { index, bb };
            let outer = surrounding_box(&bb, &bb);
            let node = BVHNode { left, right, bb: outer };
            proof {
                assert(node_items(node) =~= index_set(objects@)) by {
                    assert(objects@[0].0 == index);
                    assert forall|idx: usize|
                        index_set(objects@).contains(idx) implies node_items(node).contains(
                        idx,
                    ) by {
                        let k = choose|k: int|
                            0 <= k < objects@.len() && (#[trigger] objects@[k]).0 == idx;
                    }
                }
            }
            node
        } else if object_span == 2 {
            let (i0, b0) = objects[0];
            let (i1, b1) = objects[1];
            let first_leq = b0.min[axis] <= b1.min[axis];
            let (left, right) = if first_leq {
                (BvhChild::Leaf { index: i0, bb: b0 }, BvhChild::Leaf { index: i1, bb: b1 })
            } else {
                (BvhChild::Leaf { index: i1, bb: b1 }, BvhChild::Leaf { index: i0, bb: b0 })
            };
            let outer = surrounding_box(&b0, &b1);
            let node = BVHNode { left, right, bb: outer };
            proof {
                assert(node_items(node) =~= index_set(objects@)) by {
                    assert(objects@[0].0 == i0);
                    assert(objects@[1].0 == i1);
                    assert forall|idx: usize|
                        index_set(objects@).contains(idx) implies node_items(node).contains(
                        idx,
                    ) by {
                        let k = choose|k: int|
                            0 <= k < objects@.len() && (#[trigger] objects@[k]).0 == idx;
                    }
                }
            }
            node
        } else {
            let ghost before_sort = objects@;
            let mut sorted = objects;
            sort_by_axis(&mut sorted, axis);
            proof {
                lemma_linked_from_contains(before_sort, sorted@, boxes);
            }
            let mid = object_span / 2;
            let mut left_objects: Vec<(usize, Aabb)> = Vec::new();
            let mut right_objects: Vec<(usize, Aabb)> = Vec::new();
            let mut k: usize = 0;
            while k < mid
                invariant
                    mid <= sorted@.len(),
                    k <= mid,
                    left_objects@ == sorted@.subrange(0, k as int),
                decreases mid - k,
            {
                left_objects.push(sorted[k]);
                proof {
                    assert(left_objects@ =~= sorted@.subrange(0, k + 1));
                }
                k = k + 1;
            }
            let mut k2: usize = mid;
            while k2 < sorted.len()
                invariant
                    mid <= k2 <= sorted@.len(),
                    right_objects@ == sorted@.subrange(mid as int, k2 as int),
                decreases sorted@.len() - k2,
            {
                right_objects.push(sorted[k2]);
                proof {
                    assert(right_objects@ =~= sorted@.subrange(mid as int, k2 + 1));
                }
                k2 = k2 + 1;
            }
            proof {
                assert forall|e: (usize, Aabb)|
                    left_objects@.contains(e) implies sorted@.contains(e) by {
                    let t = choose|t: int|
                        0 <= t < left_objects@.len() && left_objects@[t] == e;
                    assert(sorted@[t] == e);
                }
                assert forall|e: (usize, Aabb)|
                    right_objects@.contains(e) implies sorted@.contains(e) by {
                    let t = choose|t: int|
                        0 <= t < right_objects@.len() && right_objects@[t] == e;
                    assert(sorted@[mid + t] == e);
                }
                lemma_linked_from_contains(sorted@, left_objects@, boxes);
                lemma_linked_from_contains(sorted@, right_objects@, boxes);
            }
            let ghost left_view = left_objects@;
            let ghost right_view = right_objects@;
            let left_node = BVHNode::from(left_objects, Ghost(boxes));
            let right_node = BVHNode::from(right_objects, Ghost(boxes));
            let bb = surrounding_box(&left_node.bb, &right_node.bb);
            let node = BVHNode {
                left: BvhChild::Node(Box::new(left_node)),
                right: BvhChild::Node(Box::new(right_node)),
                bb,
            };
            proof {
                lemma_index_set_from_contains(before_sort, sorted@);
                assert(node_items(node) =~= index_set(sorted@)) by {
                    assert forall|idx: usize|
                        index_set(sorted@).contains(idx) implies node_items(node).contains(
                        idx,
                    ) by {
                        let k3 = choose|k3: int|
                            0 <= k3 < sorted@.len() && (#[trigger] sorted@[k3]).0 == idx;
                        if k3 < mid {
                            assert(left_view[k3] == sorted@[k3]);
                            assert(index_set(left_view).contains(idx));
                        } else {
                            assert(right_view[k3 - mid] == sorted@[k3]);
                            assert(index_set(right_view).contains(idx));
                        }
                    }
                    assert forall|idx: usize|
                        node_items(node).contains(idx) implies index_set(sorted@).contains(
                        idx,
                    ) by {
                        if index_set(left_view).contains(idx) {
                            let k3 = choose|k3: int|
                                0 <= k3 < left_view.len() && (#[trigger] left_view[k3]).0 == idx;
                            assert(sorted@[k3] == left_view[k3]);
                        } else {
                            let k3 = choose|k3: int|
                                0 <= k3 < right_view.len() && (#[trigger] right_view[k3]).0 == idx;
                            assert(sorted@[mid + k3] == right_view[k3]);
                        }
                    }
                }
            }
            node
        }
    }
}

} // verus!
