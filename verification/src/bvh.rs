//! The bounding volume hierarchy: a binary tree over the primitives, indexed
//! by spatial extent, making ray-scene intersection sub-linear.
//!
//! Nodes live in an arena; children always sit at smaller indices than their
//! parent, which gives the recursion its termination measure. The structural
//! invariant is the one the intersection proof leans on: every node's box
//! contains the boxes of all primitives below it. Construction follows the
//! longest-axis heuristic: sort the span by the chosen axis' minimum, split
//! at the midpoint, and stop at spans of one or two primitives.
//!
//! The payoff is `Bvh::hit`: it satisfies the same closest-hit specification
//! as the brute-force scan, so pruning by bounding box provably never changes
//! the answer.

use vstd::prelude::*;
use vstd::multiset::Multiset;
use vstd::seq_lib::group_to_multiset_ensures;

use crate::aabb::{
    aabb_contains_at, aabb_contains_box, aabb_hit_spec, aabb_wf, axis_of, box_union,
    lemma_contains_box_at, range_contains, Aabb,
};
use crate::hittable::{
    entry_bounded, hits_box_at, is_closest_hit, normal_against, prim_hit_matches, prim_hit_spec,
    prim_hits_at, prim_wf, HitRecord, HittableList, Prim,
};
use crate::rat::{rat_eq, rat_le, rat_lt, rat_wf, lemma_rat_trans, Rat};
use crate::ray::{range_wf, ray_wf, ParamRange, Ray};
use crate::vec3::vec3_wf;

verus! {

/// One node of the hierarchy: a leaf holds one or two primitive indices (a
/// single-primitive span repeats the same index); an inner node holds two
/// child node indices. Every node caches the union box of what is below it.
#[derive(Debug, Clone, Copy)]
pub enum BvhNode {
    Leaf { a: usize, b: usize, bbox: Aabb },
    Inner { left: usize, right: usize, bbox: Aabb },
}

/// The cached box of a node.
pub open spec fn node_bbox(n: BvhNode) -> Aabb {
    match n {
        BvhNode::Leaf { bbox, .. } => bbox,
        BvhNode::Inner { bbox, .. } => bbox,
    }
}

/// Structural well-formedness of the subtree rooted at `i`: children sit at
/// smaller indices, leaf indices point into the primitive arena, and every
/// node's box contains its children's boxes.
pub open spec fn node_wf(nodes: Seq<BvhNode>, prims: Seq<Prim>, i: int) -> bool
    decreases i,
{
    0 <= i < nodes.len() && match nodes[i] {
        BvhNode::Leaf { a, b, bbox } => {
            &&& a < prims.len()
            &&& b < prims.len()
            &&& aabb_wf(bbox)
            &&& bbox == box_union(prims[a as int].bbox, prims[b as int].bbox)
            &&& aabb_contains_box(bbox, prims[a as int].bbox)
            &&& aabb_contains_box(bbox, prims[b as int].bbox)
        },
        BvhNode::Inner { left, right, bbox } => {
            &&& left < i
            &&& right < i
            &&& node_wf(nodes, prims, left as int)
            &&& node_wf(nodes, prims, right as int)
            &&& aabb_wf(bbox)
            &&& bbox == box_union(node_bbox(nodes[left as int]), node_bbox(nodes[right as int]))
            &&& aabb_contains_box(bbox, node_bbox(nodes[left as int]))
            &&& aabb_contains_box(bbox, node_bbox(nodes[right as int]))
        },
    }
}

/// The span structure of the construction: the subtree at `i` covers
/// exactly the contiguous primitive range `[lo, hi)`; an inner node splits
/// its span at the midpoint `lo + span / 2`; a span of two makes a leaf of
/// the pair, a span of one a leaf repeating the single index.
pub open spec fn node_spans(nodes: Seq<BvhNode>, i: int, lo: int, hi: int) -> bool
    decreases i,
{
    0 <= i < nodes.len() && match nodes[i] {
        BvhNode::Leaf { a, b, .. } => {
            ||| (hi - lo == 1 && a == lo && b == lo)
            ||| (hi - lo == 2 && a == lo && b == lo + 1)
        },
        BvhNode::Inner { left, right, .. } => {
            &&& hi - lo >= 3
            &&& left < i
            &&& right < i
            &&& node_spans(nodes, left as int, lo, lo + (hi - lo) / 2)
            &&& node_spans(nodes, right as int, lo + (hi - lo) / 2, hi)
        },
    }
}

/// Appending to the node arena disturbs no subtree's span structure.
proof fn lemma_spans_stable(nodes1: Seq<BvhNode>, nodes2: Seq<BvhNode>, i: int, lo: int, hi: int)
    requires
        node_spans(nodes1, i, lo, hi),
        nodes2.len() >= nodes1.len(),
        forall|k: int| 0 <= k < nodes1.len() ==> nodes2[k] == nodes1[k],
    ensures
        node_spans(nodes2, i, lo, hi),
    decreases i,
{
    match nodes1[i] {
        BvhNode::Leaf { a, b, bbox } => {},
        BvhNode::Inner { left, right, bbox } => {
            lemma_spans_stable(nodes1, nodes2, left as int, lo, lo + (hi - lo) / 2);
            lemma_spans_stable(nodes1, nodes2, right as int, lo + (hi - lo) / 2, hi);
        },
    }
}

/// Whether primitive `j` lies below node `i`.
pub open spec fn covers(nodes: Seq<BvhNode>, i: int, j: int) -> bool
    decreases i,
{
    0 <= i < nodes.len() && match nodes[i] {
        BvhNode::Leaf { a, b, .. } => j == a || j == b,
        BvhNode::Inner { left, right, .. } => {
            ||| (left < i && covers(nodes, left as int, j))
            ||| (right < i && covers(nodes, right as int, j))
        },
    }
}

/// Every primitive below a well-formed node is in range and its box is
/// contained in the node's box.
proof fn lemma_covers_in_box(nodes: Seq<BvhNode>, prims: Seq<Prim>, i: int, j: int)
    requires
        node_wf(nodes, prims, i),
        covers(nodes, i, j),
    ensures
        0 <= j < prims.len(),
        aabb_contains_box(node_bbox(nodes[i]), prims[j].bbox),
    decreases i,
{
    match nodes[i] {
        BvhNode::Leaf { a, b, bbox } => {},
        BvhNode::Inner { left, right, bbox } => {
            if covers(nodes, left as int, j) {
                lemma_covers_in_box(nodes, prims, left as int, j);
            } else {
                lemma_covers_in_box(nodes, prims, right as int, j);
            }
        },
    }
}

/// Extending the node arena, or changing primitives that are not below the
/// node, disturbs neither well-formedness nor coverage of the subtree.
proof fn lemma_node_stable(
    nodes1: Seq<BvhNode>,
    prims1: Seq<Prim>,
    nodes2: Seq<BvhNode>,
    prims2: Seq<Prim>,
    i: int,
)
    requires
        node_wf(nodes1, prims1, i),
        nodes2.len() >= nodes1.len(),
        forall|k: int| 0 <= k < nodes1.len() ==> nodes2[k] == nodes1[k],
        prims2.len() == prims1.len(),
        forall|j: int| #[trigger] covers(nodes1, i, j) ==> prims2[j] == prims1[j],
    ensures
        node_wf(nodes2, prims2, i),
        forall|j: int| #[trigger] covers(nodes2, i, j) <==> covers(nodes1, i, j),
    decreases i,
{
    match nodes1[i] {
        BvhNode::Leaf { a, b, bbox } => {
            assert(covers(nodes1, i, a as int));
            assert(covers(nodes1, i, b as int));
            assert forall|j: int| #[trigger] covers(nodes2, i, j) <==> covers(nodes1, i, j) by {}
        },
        BvhNode::Inner { left, right, bbox } => {
            assert forall|j: int| #[trigger] covers(nodes1, left as int, j) implies prims2[j]
                == prims1[j] by {
                assert(covers(nodes1, i, j));
            }
            assert forall|j: int| #[trigger] covers(nodes1, right as int, j) implies prims2[j]
                == prims1[j] by {
                assert(covers(nodes1, i, j));
            }
            lemma_node_stable(nodes1, prims1, nodes2, prims2, left as int);
            lemma_node_stable(nodes1, prims1, nodes2, prims2, right as int);
            assert forall|j: int| #[trigger] covers(nodes2, i, j) <==> covers(nodes1, i, j) by {
                assert(covers(nodes2, left as int, j) <==> covers(nodes1, left as int, j));
                assert(covers(nodes2, right as int, j) <==> covers(nodes1, right as int, j));
            }
        },
    }
}

/// The cached box of a node, executably.
fn node_box(n: &BvhNode) -> (r: Aabb)
    ensures
        r == node_bbox(*n),
{
    match n {
        BvhNode::Leaf { bbox, .. } => *bbox,
        BvhNode::Inner { bbox, .. } => *bbox,
    }
}

/// All primitives of the arena are well-formed.
pub open spec fn prims_wf(prims: Seq<Prim>) -> bool {
    forall|j: int| 0 <= j < prims.len() ==> prim_wf(#[trigger] prims[j])
}

/// The construction sort key: the minimum of a primitive's interval along
/// the chosen axis.
pub open spec fn axis_key(p: Prim, axis: int) -> int {
    axis_of(p.bbox, axis).min as int
}

/// The span `[lo, hi)` is ordered by the axis key.
pub open spec fn sorted_by_axis(prims: Seq<Prim>, axis: int, lo: int, hi: int) -> bool {
    forall|a: int, b: int|
        lo <= a <= b < hi ==> axis_key(#[trigger] prims[a], axis) <= axis_key(
            #[trigger] prims[b],
            axis,
        )
}

/// Merge two adjacent sorted spans `[start, mid)` and `[mid, end)` into one
/// sorted span, through a scratch copy of the range. Everything outside the
/// span is untouched and the whole arena keeps its primitives as a multiset.
fn merge_halves(prims: &mut Vec<Prim>, start: usize, mid: usize, end: usize, axis: usize)
    requires
        start <= mid <= end <= old(prims)@.len(),
        axis < 3,
        prims_wf(old(prims)@),
        sorted_by_axis(old(prims)@, axis as int, start as int, mid as int),
        sorted_by_axis(old(prims)@, axis as int, mid as int, end as int),
    ensures
        final(prims)@.len() == old(prims)@.len(),
        prims_wf(final(prims)@),
        forall|j: int|
            0 <= j < old(prims)@.len() && !(start <= j < end) ==> final(prims)@[j] == old(
                prims,
            )@[j],
        final(prims)@.to_multiset() == old(prims)@.to_multiset(),
        sorted_by_axis(final(prims)@, axis as int, start as int, end as int),
{
    broadcast use group_to_multiset_ensures;
    broadcast use vstd::multiset::group_multiset_axioms;

    let ghost orig = prims@;
    let ghost ax = axis as int;
    let n = end - start;
    let m = mid - start;
    // Scratch copy of the span.
    let mut temp: Vec<Prim> = Vec::new();
    let mut c: usize = 0;
    while c < n
        invariant
            c <= n == end - start,
            start <= mid <= end <= prims@.len(),
            prims@ == orig,
            temp@ == orig.subrange(start as int, start as int + c),
        decreases n - c,
    {
        proof {
            assert(orig.subrange(start as int, start as int + c + 1) =~= orig.subrange(
                start as int,
                start as int + c,
            ).push(orig[start as int + c]));
        }
        temp.push(prims[start + c]);
        c = c + 1;
    }
    proof {
        assert(temp@ =~= orig.subrange(start as int, end as int));
        // Sortedness of the two halves of the scratch copy.
        assert forall|i: int, j: int| 0 <= i <= j < m implies axis_key(#[trigger] temp@[i], ax)
            <= axis_key(#[trigger] temp@[j], ax) by {
            assert(temp@[i] == orig[start + i] && temp@[j] == orig[start + j]);
        }
        assert forall|i: int, j: int| m <= i <= j < n implies axis_key(#[trigger] temp@[i], ax)
            <= axis_key(#[trigger] temp@[j], ax) by {
            assert(temp@[i] == orig[start + i] && temp@[j] == orig[start + j]);
        }
        assert(temp@ =~= temp@.subrange(0, m as int) + temp@.subrange(m as int, n as int));
        vstd::seq_lib::lemma_multiset_commutative(
            temp@.subrange(0, m as int),
            temp@.subrange(m as int, n as int),
        );
    }
    // Merge the two halves back into the span.
    let mut a: usize = 0;
    let mut b = m;
    let mut k = start;
    while k < end
        invariant
            start <= mid <= end <= prims@.len(),
            n == end - start,
            m == mid - start,
            a <= m <= b <= n == temp@.len(),
            k == start + a + (b - m),
            axis < 3,
            ax == axis as int,
            prims@.len() == orig.len(),
            prims_wf(prims@),
            prims_wf(temp@),
            forall|j: int| 0 <= j < orig.len() && !(start <= j < end) ==> prims@[j] == orig[j],
            sorted_by_axis(temp@, ax, 0, m as int),
            sorted_by_axis(temp@, ax, m as int, n as int),
            prims@.subrange(start as int, k as int).to_multiset().add(
                temp@.subrange(a as int, m as int).to_multiset(),
            ).add(temp@.subrange(b as int, n as int).to_multiset()) == temp@.to_multiset(),
            sorted_by_axis(prims@, ax, start as int, k as int),
            forall|i: int, j: int|
                start <= i < k && a <= j < m ==> axis_key(#[trigger] prims@[i], ax) <= axis_key(
                    #[trigger] temp@[j],
                    ax,
                ),
            forall|i: int, j: int|
                start <= i < k && b <= j < n ==> axis_key(#[trigger] prims@[i], ax) <= axis_key(
                    #[trigger] temp@[j],
                    ax,
                ),
        decreases end - k,
    {
        let take_left = if a < m {
            if b < n {
                prims_key(&temp, a, axis) <= prims_key(&temp, b, axis)
            } else {
                true
            }
        } else {
            false
        };
        let ghost before = prims@;
        let src = if take_left {
            a
        } else {
            b
        };
        let v = temp[src];
        prims.set(k, v);
        proof {
            let ghost vg = temp@[src as int];
            let ghost endh: int = if take_left {
                m as int
            } else {
                n as int
            };
            let ghost pre = before.subrange(start as int, k as int);
            let ghost rest = temp@.subrange(src as int + 1, endh);
            // The taken head splits off its sub-span as an insert.
            assert(Seq::<Prim>::empty().to_multiset().len() == 0) by {
                vstd::seq_lib::to_multiset_len(Seq::<Prim>::empty());
            }
            assert(Seq::<Prim>::empty().to_multiset() =~= Multiset::empty());
            assert(seq![vg] =~= Seq::<Prim>::empty().push(vg));
            vstd::seq_lib::to_multiset_build(Seq::<Prim>::empty(), vg);
            assert(seq![vg].to_multiset() =~= Multiset::empty().insert(vg));
            assert(temp@.subrange(src as int, endh) =~= seq![vg] + rest);
            vstd::seq_lib::lemma_multiset_commutative(seq![vg], rest);
            assert(temp@.subrange(src as int, endh).to_multiset() =~= rest.to_multiset().insert(
                vg,
            ));
            // The written prefix grows by the same element.
            assert(prims@.subrange(start as int, k as int) =~= pre);
            assert(prims@.subrange(start as int, k as int + 1) =~= pre.push(vg));
            vstd::seq_lib::to_multiset_build(pre, vg);
            assert(prims@.subrange(start as int, k as int + 1).to_multiset() =~= pre.to_multiset().insert(vg));
            // Rebalance the invariant equation.
            assert(prims@.subrange(start as int, k as int + 1).to_multiset().add(
                temp@.subrange(
                    if take_left {
                        a as int + 1
                    } else {
                        a as int
                    },
                    m as int,
                ).to_multiset(),
            ).add(
                temp@.subrange(
                    if take_left {
                        b as int
                    } else {
                        b as int + 1
                    },
                    n as int,
                ).to_multiset(),
            ) =~= temp@.to_multiset());
        }
        if take_left {
            a = a + 1;
        } else {
            b = b + 1;
        }
        k = k + 1;
    }
    proof {
        // The span is a permutation of the scratch copy, so the whole arena
        // keeps its primitives.
        assert(temp@.subrange(a as int, m as int).len() == 0 && temp@.subrange(
            b as int,
            n as int,
        ).len() == 0);
        assert(temp@.subrange(a as int, m as int) =~= Seq::<Prim>::empty());
        assert(temp@.subrange(b as int, n as int) =~= Seq::<Prim>::empty());
        assert(Seq::<Prim>::empty().to_multiset() =~= Multiset::<Prim>::empty());
        assert(prims@.subrange(start as int, end as int).to_multiset() =~= temp@.to_multiset());
        lemma_range_multiset_preserved(orig, prims@, start as int, end as int);
    }
}

/// The key of `prims[idx]` along `axis`, executably.
fn prims_key(prims: &Vec<Prim>, idx: usize, axis: usize) -> (r: i64)
    requires
        idx < prims@.len(),
        axis < 3,
    ensures
        r == axis_key(prims@[idx as int], axis as int),
{
    prims[idx].bbox.axis_interval(axis).min
}

/// Two arenas that agree outside a span and hold the same multiset within it
/// hold the same multiset overall.
proof fn lemma_range_multiset_preserved(s1: Seq<Prim>, s2: Seq<Prim>, start: int, end: int)
    requires
        s1.len() == s2.len(),
        0 <= start <= end <= s1.len(),
        forall|j: int| 0 <= j < s1.len() && !(start <= j < end) ==> s2[j] == s1[j],
        s1.subrange(start, end).to_multiset() == s2.subrange(start, end).to_multiset(),
    ensures
        s2.to_multiset() == s1.to_multiset(),
{
    broadcast use vstd::multiset::group_multiset_axioms;

    assert(s1 =~= s1.subrange(0, start) + s1.subrange(start, end) + s1.subrange(
        end,
        s1.len() as int,
    ));
    assert(s2 =~= s2.subrange(0, start) + s2.subrange(start, end) + s2.subrange(
        end,
        s2.len() as int,
    ));
    assert(s2.subrange(0, start) =~= s1.subrange(0, start));
    assert(s2.subrange(end, s2.len() as int) =~= s1.subrange(end, s1.len() as int));
    vstd::seq_lib::lemma_multiset_commutative(
        s1.subrange(0, start) + s1.subrange(start, end),
        s1.subrange(end, s1.len() as int),
    );
    vstd::seq_lib::lemma_multiset_commutative(s1.subrange(0, start), s1.subrange(start, end));
    vstd::seq_lib::lemma_multiset_commutative(
        s2.subrange(0, start) + s2.subrange(start, end),
        s2.subrange(end, s2.len() as int),
    );
    vstd::seq_lib::lemma_multiset_commutative(s2.subrange(0, start), s2.subrange(start, end));
    assert(s2.to_multiset() =~= s1.to_multiset());
}

/// Sort `prims[start..end)` in place by the minimum of each primitive's
/// interval along `axis` (merge sort, so construction stays sort-dominated
/// at n log n; equal keys keep no particular order). Everything outside the
/// span is untouched and the whole arena remains a permutation of what it
/// was.
fn sort_range(prims: &mut Vec<Prim>, start: usize, end: usize, axis: usize)
    requires
        start <= end <= old(prims)@.len(),
        axis < 3,
        prims_wf(old(prims)@),
    ensures
        final(prims)@.len() == old(prims)@.len(),
        prims_wf(final(prims)@),
        forall|j: int|
            0 <= j < old(prims)@.len() && !(start <= j < end) ==> final(prims)@[j] == old(
                prims,
            )@[j],
        final(prims)@.to_multiset() == old(prims)@.to_multiset(),
        sorted_by_axis(final(prims)@, axis as int, start as int, end as int),
    decreases end - start,
{
    if end - start <= 1 {
        return ;
    }
    let ghost orig = prims@;
    let mid = start + (end - start) / 2;
    sort_range(prims, start, mid, axis);
    let ghost after_left = prims@;
    sort_range(prims, mid, end, axis);
    proof {
        // The right sort left the sorted left half untouched.
        assert forall|i: int, j: int| start <= i <= j < mid implies axis_key(
            #[trigger] prims@[i],
            axis as int,
        ) <= axis_key(#[trigger] prims@[j], axis as int) by {
            assert(prims@[i] == after_left[i] && prims@[j] == after_left[j]);
        }
    }
    merge_halves(prims, start, mid, end, axis);
}

/// Build the subtree for `prims[start..end)`: compute the span's union box,
/// pick the longest axis, and either terminate in a leaf (spans of one or
/// two) or sort the span along that axis and recurse on the two halves. The
/// new root covers exactly the primitives of the span, and the arena keeps
/// the same primitives as a multiset.
fn build_range(prims: &mut Vec<Prim>, nodes: &mut Vec<BvhNode>, start: usize, end: usize) -> (root:
    usize)
    requires
        start < end <= old(prims)@.len(),
        prims_wf(old(prims)@),
    ensures
        final(prims)@.len() == old(prims)@.len(),
        prims_wf(final(prims)@),
        forall|j: int|
            0 <= j < old(prims)@.len() && !(start <= j < end) ==> final(prims)@[j] == old(
                prims,
            )@[j],
        final(prims)@.to_multiset() == old(prims)@.to_multiset(),
        final(nodes)@.len() > old(nodes)@.len(),
        forall|k: int| 0 <= k < old(nodes)@.len() ==> final(nodes)@[k] == old(nodes)@[k],
        root == final(nodes)@.len() - 1,
        node_wf(final(nodes)@, final(prims)@, root as int),
        node_spans(final(nodes)@, root as int, start as int, end as int),
        forall|j: int| #[trigger] covers(final(nodes)@, root as int, j) <==> start <= j < end,
    decreases end - start,
{
    let object_span = end - start;
    // Union box of the span, for the axis choice.
    let mut bbox = Aabb::empty();
    let mut k = start;
    while k < end
        invariant
            start <= k <= end <= prims@.len(),
            prims_wf(prims@),
            aabb_wf(bbox),
        decreases end - k,
    {
        bbox = Aabb::surrounding_box(&bbox, &prims[k].bbox);
        k = k + 1;
    }
    let axis = bbox.longest_axis();

    if object_span == 1 {
        let pbox = prims[start].bbox;
        let nbox = Aabb::surrounding_box(&pbox, &pbox);
        let node = BvhNode::Leaf { a: start, b: start, bbox: nbox };
        nodes.push(node);
        let root = nodes.len() - 1;
        proof {
            assert forall|j: int| #[trigger] covers(nodes@, root as int, j) <==> start <= j < end
                by {}
        }
        root
    } else if object_span == 2 {
        let b0 = prims[start].bbox;
        let b1 = prims[start + 1].bbox;
        let nbox = Aabb::surrounding_box(&b0, &b1);
        let node = BvhNode::Leaf { a: start, b: start + 1, bbox: nbox };
        nodes.push(node);
        let root = nodes.len() - 1;
        proof {
            assert forall|j: int| #[trigger] covers(nodes@, root as int, j) <==> start <= j < end
                by {}
        }
        root
    } else {
        sort_range(prims, start, end, axis);
        let mid = start + object_span / 2;
        let ghost prims_sorted = prims@;
        let left = build_range(prims, nodes, start, mid);
        let ghost prims_after_left = prims@;
        let ghost nodes_after_left = nodes@;
        let right = build_range(prims, nodes, mid, end);
        proof {
            // The right build touched neither the left subtree's nodes nor
            // the primitives below it.
            assert forall|j: int| #[trigger] covers(nodes_after_left, left as int, j) implies
                prims@[j] == prims_after_left[j] by {
                assert(start <= j < mid);
            }
            lemma_node_stable(nodes_after_left, prims_after_left, nodes@, prims@, left as int);
        }
        let lbox = node_box(&nodes[left]);
        let rbox = node_box(&nodes[right]);
        let nbox = Aabb::surrounding_box(&lbox, &rbox);
        let node = BvhNode::Inner { left, right, bbox: nbox };
        let ghost nodes_before_push = nodes@;
        nodes.push(node);
        let root = nodes.len() - 1;
        proof {
            lemma_node_stable(nodes_before_push, prims@, nodes@, prims@, left as int);
            lemma_node_stable(nodes_before_push, prims@, nodes@, prims@, right as int);
            lemma_spans_stable(nodes_after_left, nodes@, left as int, start as int, mid as int);
            lemma_spans_stable(nodes_before_push, nodes@, right as int, mid as int, end as int);
            assert(node_spans(nodes@, root as int, start as int, end as int));
            assert(node_wf(nodes@, prims@, root as int));
            assert forall|j: int| #[trigger] covers(nodes@, root as int, j) <==> start <= j < end
                by {
                assert(covers(nodes@, left as int, j) <==> covers(nodes_before_push, left as int, j));
                assert(covers(nodes@, right as int, j) <==> covers(
                    nodes_before_push,
                    right as int,
                    j,
                ));
                assert(covers(nodes_before_push, left as int, j) <==> covers(
                    nodes_after_left,
                    left as int,
                    j,
                ));
            }
        }
        root
    }
}

/// The queried window narrowed to a found hit: the nearest-hit policy's
/// second query range.
pub open spec fn narrowed(range: ParamRange, rec: HitRecord) -> ParamRange {
    ParamRange { min: range.min, max: rec.t }
}

/// The nearer of two results when the second was queried over the narrowed
/// window: the second wins whenever it exists.
pub open spec fn combine_hits(ha: Option<HitRecord>, hb: Option<HitRecord>) -> Option<HitRecord> {
    match hb {
        Some(rb) => Some(rb),
        None => ha,
    }
}

/// What the subtree intersection at node `i` returns, exactly: prune by the
/// node's box, query the left child over the range, the right child over the
/// range narrowed to the left hit, and keep the nearer hit.
pub open spec fn bvh_hit_node_spec(
    nodes: Seq<BvhNode>,
    prims: Seq<Prim>,
    i: int,
    r: Ray,
    range: ParamRange,
) -> Option<HitRecord>
    decreases i,
{
    if !(0 <= i < nodes.len()) {
        None
    } else {
        match nodes[i] {
            BvhNode::Leaf { a, b, .. } => {
                if !(a < prims.len() && b < prims.len()) {
                    None
                } else {
                    let ha = prim_hit_spec(prims[a as int], r, range);
                    match ha {
                        Some(ra) => combine_hits(
                            ha,
                            prim_hit_spec(prims[b as int], r, narrowed(range, ra)),
                        ),
                        None => prim_hit_spec(prims[b as int], r, range),
                    }
                }
            },
            BvhNode::Inner { left, right, bbox } => {
                if !(left < i && right < i) {
                    None
                } else if !aabb_hit_spec(bbox, r, range) {
                    None
                } else {
                    let hl = bvh_hit_node_spec(nodes, prims, left as int, r, range);
                    match hl {
                        Some(ra) => combine_hits(
                            hl,
                            bvh_hit_node_spec(nodes, prims, right as int, r, narrowed(range, ra)),
                        ),
                        None => bvh_hit_node_spec(nodes, prims, right as int, r, range),
                    }
                }
            },
        }
    }
}

/// What `Bvh::hit` returns, exactly.
pub open spec fn bvh_hit_spec(b: Bvh, r: Ray, range: ParamRange) -> Option<HitRecord> {
    match b.root {
        Option::Some(rt) => bvh_hit_node_spec(b.nodes@, b.prims@, rt as int, r, range),
        Option::None => None,
    }
}

/// The closest-hit specification restricted to the primitives selected by
/// `sel` (the brute-force form is this with every index selected).
pub open spec fn closest_over(
    prims: Seq<Prim>,
    r: Ray,
    range: ParamRange,
    sel: spec_fn(int) -> bool,
    res: Option<HitRecord>,
) -> bool {
    match res {
        None => forall|j: int, t: Rat|
            sel(j) ==> !(#[trigger] prim_hits_at(prims, j, r, range, t)),
        Some(rec) => {
            &&& entry_bounded(rec.t)
            &&& rec.front_face == true
            &&& normal_against(rec.normal, r.dir)
            &&& vec3_wf(rec.p)
            &&& exists|j: int|
                sel(j) && #[trigger] prim_hits_at(prims, j, r, range, rec.t) && prims[j].mat
                    == rec.mat
            &&& forall|j: int, t: Rat|
                sel(j) && #[trigger] prim_hits_at(prims, j, r, range, t) ==> rat_le(rec.t, t)
        },
    }
}

/// A single primitive's hit result is the closest hit over that primitive
/// alone.
proof fn lemma_single_closest(
    prims: Seq<Prim>,
    r: Ray,
    range: ParamRange,
    a: int,
    res: Option<HitRecord>,
)
    requires
        0 <= a < prims.len(),
        prim_hit_matches(prims[a], r, range, res),
    ensures
        closest_over(prims, r, range, |j: int| j == a, res),
{
    match res {
        Option::None => {
            assert forall|j: int, t: Rat| (j == a) implies !(#[trigger] prim_hits_at(
                prims,
                j,
                r,
                range,
                t,
            )) by {
                if prim_hits_at(prims, j, r, range, t) {
                    assert(hits_box_at(prims[a].bbox, r, t));
                }
            }
        },
        Option::Some(rec) => {
            assert(prim_hits_at(prims, a, r, range, rec.t));
            assert forall|j: int, t: Rat| (j == a) && #[trigger] prim_hits_at(
                prims,
                j,
                r,
                range,
                t,
            ) implies rat_le(rec.t, t) by {
                if rat_lt(t, rec.t) {
                    assert(aabb_contains_at(prims[a].bbox, r, t));
                    assert(!aabb_contains_at(prims[a].bbox, r, t));
                }
            }
        },
    }
}

/// Combining a closest hit over a left selection with a closest hit over a
/// right selection queried on the window narrowed to the left parameter: the
/// combined result (the right one when it exists, else the left) is the
/// closest hit over the union. This is the nearest-hit policy of the tree.
proof fn lemma_combine_closest(
    prims: Seq<Prim>,
    r: Ray,
    range: ParamRange,
    window: ParamRange,
    sel_l: spec_fn(int) -> bool,
    sel_r: spec_fn(int) -> bool,
    res_l: Option<HitRecord>,
    res_r: Option<HitRecord>,
)
    requires
        range_wf(range),
        closest_over(prims, r, range, sel_l, res_l),
        window.min == range.min,
        window.max == (match res_l {
            Option::None => range.max,
            Option::Some(ra) => ra.t,
        }),
        closest_over(prims, r, window, sel_r, res_r),
    ensures
        closest_over(
            prims,
            r,
            range,
            |j: int| sel_l(j) || sel_r(j),
            (match (res_l, res_r) {
                (_, Option::Some(rb)) => Option::Some(rb),
                (Option::Some(ra), Option::None) => Option::Some(ra),
                (Option::None, Option::None) => Option::None,
            }),
        ),
{
    match res_l {
        Option::None => {
            // The window is the whole range; right's result is closest over
            // the union because the left selection is hit-free.
            match res_r {
                Option::None => {
                    assert forall|j: int, t: Rat| (sel_l(j) || sel_r(j)) implies !(
                    #[trigger] prim_hits_at(prims, j, r, range, t)) by {
                        if prim_hits_at(prims, j, r, range, t) {
                            assert(prim_hits_at(prims, j, r, window, t));
                        }
                    }
                },
                Option::Some(rb) => {
                    let jw = choose|j: int|
                        sel_r(j) && #[trigger] prim_hits_at(prims, j, r, window, rb.t) && prims[j].mat == rb.mat;
                    assert(prim_hits_at(prims, jw, r, range, rb.t));
                    assert forall|j: int, t: Rat| (sel_l(j) || sel_r(j)) && #[trigger]
                    prim_hits_at(prims, j, r, range, t) implies rat_le(rb.t, t) by {
                        assert(prim_hits_at(prims, j, r, window, t));
                    }
                },
            }
        },
        Option::Some(ra) => {
            let jl = choose|j: int|
                sel_l(j) && #[trigger] prim_hits_at(prims, j, r, range, ra.t) && prims[j].mat
                    == ra.mat;
            match res_r {
                Option::Some(rb) => {
                    // The right hit is strictly closer than the left one.
                    let jw = choose|j: int|
                        sel_r(j) && #[trigger] prim_hits_at(prims, j, r, window, rb.t) && prims[j].mat == rb.mat;
                    assert(rat_lt(rb.t, ra.t));
                    assert(rat_lt(rb.t, range.max)) by {
                        lemma_rat_trans(rb.t, ra.t, range.max);
                    }
                    assert(prim_hits_at(prims, jw, r, range, rb.t));
                    assert forall|j: int, t: Rat| (sel_l(j) || sel_r(j)) && #[trigger]
                    prim_hits_at(prims, j, r, range, t) implies rat_le(rb.t, t) by {
                        if sel_l(j) {
                            assert(rat_le(ra.t, t));
                            lemma_rat_trans(rb.t, ra.t, t);
                        } else {
                            if rat_lt(t, ra.t) {
                                assert(prim_hits_at(prims, j, r, window, t));
                            } else {
                                lemma_rat_trans(rb.t, ra.t, t);
                            }
                        }
                    }
                },
                Option::None => {
                    // Nothing on the right is closer than the left hit.
                    assert(prim_hits_at(prims, jl, r, range, ra.t));
                    assert forall|j: int, t: Rat| (sel_l(j) || sel_r(j)) && #[trigger]
                    prim_hits_at(prims, j, r, range, t) implies rat_le(ra.t, t) by {
                        if sel_l(j) {
                        } else {
                            if rat_lt(t, ra.t) {
                                assert(prim_hits_at(prims, j, r, window, t));
                            }
                        }
                    }
                },
            }
        },
    }
}

/// A closest hit over one selection is a closest hit over any selection that
/// picks the same indices.
proof fn lemma_closest_over_same_sel(
    prims: Seq<Prim>,
    r: Ray,
    range: ParamRange,
    sel1: spec_fn(int) -> bool,
    sel2: spec_fn(int) -> bool,
    res: Option<HitRecord>,
)
    requires
        closest_over(prims, r, range, sel1, res),
        forall|j: int| #[trigger] sel1(j) <==> #[trigger] sel2(j),
    ensures
        closest_over(prims, r, range, sel2, res),
{
    match res {
        Option::None => {
            assert forall|j: int, t: Rat| sel2(j) implies !(#[trigger] prim_hits_at(
                prims,
                j,
                r,
                range,
                t,
            )) by {
                assert(sel1(j) <==> sel2(j));
            }
        },
        Option::Some(rec) => {
            let jw = choose|j: int|
                sel1(j) && #[trigger] prim_hits_at(prims, j, r, range, rec.t) && prims[j].mat
                    == rec.mat;
            assert(sel1(jw) <==> sel2(jw));
            assert forall|j: int, t: Rat| sel2(j) && #[trigger] prim_hits_at(
                prims,
                j,
                r,
                range,
                t,
            ) implies rat_le(rec.t, t) by {
                assert(sel1(j) <==> sel2(j));
            }
        },
    }
}

/// The spatial index over a set of primitives.
pub struct Bvh {
    pub prims: Vec<Prim>,
    pub nodes: Vec<BvhNode>,
    pub root: Option<usize>,
}

/// Validity of the whole index: the primitives are well-formed and the root
/// subtree is well-formed and covers exactly the primitive arena. An empty
/// scene has no root.
pub open spec fn bvh_wf(b: Bvh) -> bool {
    &&& prims_wf(b.prims@)
    &&& match b.root {
        Option::Some(rt) => {
            &&& node_wf(b.nodes@, b.prims@, rt as int)
            &&& node_spans(b.nodes@, rt as int, 0, b.prims@.len() as int)
            &&& forall|j: int| #[trigger] covers(b.nodes@, rt as int, j) <==> 0 <= j < b.prims@.len()
        },
        Option::None => b.prims@.len() == 0,
    }
}

impl Bvh {
    /// Build the hierarchy over the primitives of a list. The tree indexes
    /// its own copy of the primitives, a permutation of the list's.
    pub fn new_from_list(list: &HittableList) -> (bvh: Bvh)
        requires
            crate::hittable::list_wf(*list),
        ensures
            bvh_wf(bvh),
            bvh.prims@.to_multiset() == list.objects@.to_multiset(),
            bvh.prims@.len() == list.objects@.len(),
    {
        let n = list.objects.len();
        let mut prims: Vec<Prim> = Vec::new();
        let mut k: usize = 0;
        while k < n
            invariant
                k <= n == list.objects@.len(),
                crate::hittable::list_wf(*list),
                prims@ == list.objects@.take(k as int),
            decreases n - k,
        {
            proof {
                assert(list.objects@.take(k as int + 1) =~= list.objects@.take(k as int).push(
                    list.objects@[k as int],
                ));
            }
            prims.push(list.objects[k]);
            k = k + 1;
        }
        proof {
            assert(prims@ =~= list.objects@);
        }
        let mut nodes: Vec<BvhNode> = Vec::new();
        if n == 0 {
            Bvh { prims, nodes, root: None }
        } else {
            let root = build_range(&mut prims, &mut nodes, 0, n);
            Bvh { prims, nodes, root: Some(root) }
        }
    }

    /// The box around the whole scene: the root node's cached box, or the
    /// empty box for an empty scene.
    pub fn bounding_box(&self) -> (r: Aabb)
        requires
            bvh_wf(*self),
        ensures
            aabb_wf(r),
            (match self.root {
                Option::Some(rt) => r == node_bbox(self.nodes@[rt as int]),
                Option::None => r.x.min > r.x.max,
            }),
    {
        match self.root {
            Option::Some(rt) => node_box(&self.nodes[rt]),
            Option::None => Aabb::empty(),
        }
    }

    /// Intersect the ray with the subtree at node `i`: prune by the node's
    /// box, query the left child over the range, the right child over the
    /// range narrowed to the left hit, and keep the nearer hit.
    fn hit_node(&self, i: usize, r: &Ray, ray_t: &ParamRange) -> (res: Option<HitRecord>)
        requires
            prims_wf(self.prims@),
            node_wf(self.nodes@, self.prims@, i as int),
            ray_wf(*r),
            range_wf(*ray_t),
        ensures
            closest_over(
                self.prims@,
                *r,
                *ray_t,
                |j: int| covers(self.nodes@, i as int, j),
                res,
            ),
            res == bvh_hit_node_spec(self.nodes@, self.prims@, i as int, *r, *ray_t),
        decreases i,
    {
        let node = self.nodes[i];
        match node {
            BvhNode::Leaf { a, b, bbox } => {
                let ha = self.prims[a].hit(r, ray_t);
                proof {
                    lemma_single_closest(self.prims@, *r, *ray_t, a as int, ha);
                }
                let res = match ha {
                    Option::Some(ra) => {
                        let window = ParamRange { min: ray_t.min, max: ra.t };
                        let hb = self.prims[b].hit(r, &window);
                        proof {
                            lemma_single_closest(self.prims@, *r, window, b as int, hb);
                            lemma_combine_closest(
                                self.prims@,
                                *r,
                                *ray_t,
                                window,
                                |j: int| j == a as int,
                                |j: int| j == b as int,
                                ha,
                                hb,
                            );
                        }
                        match hb {
                            Option::Some(rb) => Option::Some(rb),
                            Option::None => Option::Some(ra),
                        }
                    },
                    Option::None => {
                        let hb = self.prims[b].hit(r, ray_t);
                        proof {
                            lemma_single_closest(self.prims@, *r, *ray_t, b as int, hb);
                            lemma_combine_closest(
                                self.prims@,
                                *r,
                                *ray_t,
                                *ray_t,
                                |j: int| j == a as int,
                                |j: int| j == b as int,
                                ha,
                                hb,
                            );
                        }
                        hb
                    },
                };
                proof {
                    lemma_closest_over_same_sel(
                        self.prims@,
                        *r,
                        *ray_t,
                        |j: int| j == a as int || j == b as int,
                        |j: int| covers(self.nodes@, i as int, j),
                        res,
                    );
                }
                res
            },
            BvhNode::Inner { left, right, bbox } => {
                if !bbox.hit(r, ray_t) {
                    proof {
                        assert forall|j: int, t: Rat| covers(self.nodes@, i as int, j) implies !(
                        #[trigger] prim_hits_at(self.prims@, j, *r, *ray_t, t)) by {
                            if prim_hits_at(self.prims@, j, *r, *ray_t, t) {
                                lemma_covers_in_box(self.nodes@, self.prims@, i as int, j);
                                lemma_contains_box_at(bbox, self.prims@[j].bbox, *r, t);
                                assert(range_contains(*ray_t, t) && aabb_contains_at(bbox, *r, t));
                            }
                        }
                    }
                    None
                } else {
                    let hl = self.hit_node(left, r, ray_t);
                    let res = match hl {
                        Option::Some(ra) => {
                            let window = ParamRange { min: ray_t.min, max: ra.t };
                            let hr = self.hit_node(right, r, &window);
                            proof {
                                lemma_combine_closest(
                                    self.prims@,
                                    *r,
                                    *ray_t,
                                    window,
                                    |j: int| covers(self.nodes@, left as int, j),
                                    |j: int| covers(self.nodes@, right as int, j),
                                    hl,
                                    hr,
                                );
                            }
                            match hr {
                                Option::Some(rb) => Option::Some(rb),
                                Option::None => Option::Some(ra),
                            }
                        },
                        Option::None => {
                            let hr = self.hit_node(right, r, ray_t);
                            proof {
                                lemma_combine_closest(
                                    self.prims@,
                                    *r,
                                    *ray_t,
                                    *ray_t,
                                    |j: int| covers(self.nodes@, left as int, j),
                                    |j: int| covers(self.nodes@, right as int, j),
                                    hl,
                                    hr,
                                );
                            }
                            hr
                        },
                    };
                    proof {
                        lemma_closest_over_same_sel(
                            self.prims@,
                            *r,
                            *ray_t,
                            |j: int| covers(self.nodes@, left as int, j) || covers(
                                self.nodes@,
                                right as int,
                                j,
                            ),
                            |j: int| covers(self.nodes@, i as int, j),
                            res,
                        );
                    }
                    res
                }
            },
        }
    }

    /// Intersect the ray with the whole scene: the result is the closest hit
    /// over the index's primitives, exactly as a brute-force scan would
    /// return it.
    pub fn hit(&self, r: &Ray, ray_t: &ParamRange) -> (res: Option<HitRecord>)
        requires
            bvh_wf(*self),
            ray_wf(*r),
            range_wf(*ray_t),
        ensures
            is_closest_hit(self.prims@, *r, *ray_t, res),
            res == bvh_hit_spec(*self, *r, *ray_t),
    {
        match self.root {
            Option::None => {
                proof {
                    assert forall|j: int, t: Rat| !(#[trigger] prim_hits_at(
                        self.prims@,
                        j,
                        *r,
                        *ray_t,
                        t,
                    )) by {}
                }
                None
            },
            Option::Some(rt) => {
                let res = self.hit_node(rt, r, ray_t);
                proof {
                    lemma_closest_selects_all(
                        self.prims@,
                        *r,
                        *ray_t,
                        |j: int| covers(self.nodes@, rt as int, j),
                        res,
                    );
                }
                res
            },
        }
    }
}

/// A hit among one arena's primitives is a hit among any rearrangement of
/// them.
proof fn lemma_hit_transfers(
    s1: Seq<Prim>,
    s2: Seq<Prim>,
    j: int,
    r: Ray,
    range: ParamRange,
    t: Rat,
) -> (k: int)
    requires
        s1.to_multiset() == s2.to_multiset(),
        prim_hits_at(s1, j, r, range, t),
    ensures
        prim_hits_at(s2, k, r, range, t),
        s2[k] == s1[j],
{
    assert(s1.contains(s1[j]));
    vstd::seq_lib::to_multiset_contains(s1, s1[j]);
    vstd::seq_lib::to_multiset_contains(s2, s1[j]);
    assert(s2.contains(s1[j]));
    let k = choose|k: int| 0 <= k < s2.len() && s2[k] == s1[j];
    assert(prim_hits_at(s2, k, r, range, t));
    k
}

/// The spatial index returns the same closest hit as a brute-force linear
/// scan: over the same primitives (the tree holds a permutation of the
/// list's), any two results meeting the closest-hit specification — which
/// `Bvh::hit` and `HittableList::hit` both ensure — miss together or agree
/// on the struck parameter exactly.
pub proof fn lemma_bvh_matches_linear_scan(
    prims_tree: Seq<Prim>,
    prims_list: Seq<Prim>,
    r: Ray,
    range: ParamRange,
    res_tree: Option<HitRecord>,
    res_list: Option<HitRecord>,
)
    requires
        prims_tree.to_multiset() == prims_list.to_multiset(),
        is_closest_hit(prims_tree, r, range, res_tree),
        is_closest_hit(prims_list, r, range, res_list),
    ensures
        res_tree is Some <==> res_list is Some,
        (match (res_tree, res_list) {
            (Option::Some(a), Option::Some(b)) => rat_eq(a.t, b.t),
            _ => true,
        }),
{
    match (res_tree, res_list) {
        (Option::Some(a), Option::Some(b)) => {
            let j1 = choose|j: int|
                #[trigger] prim_hits_at(prims_tree, j, r, range, a.t) && prims_tree[j].mat
                    == a.mat;
            let k1 = lemma_hit_transfers(prims_tree, prims_list, j1, r, range, a.t);
            assert(rat_le(b.t, a.t));
            let j2 = choose|j: int|
                #[trigger] prim_hits_at(prims_list, j, r, range, b.t) && prims_list[j].mat
                    == b.mat;
            let k2 = lemma_hit_transfers(prims_list, prims_tree, j2, r, range, b.t);
            assert(rat_le(a.t, b.t));
        },
        (Option::Some(a), Option::None) => {
            let j1 = choose|j: int|
                #[trigger] prim_hits_at(prims_tree, j, r, range, a.t) && prims_tree[j].mat
                    == a.mat;
            let k1 = lemma_hit_transfers(prims_tree, prims_list, j1, r, range, a.t);
        },
        (Option::None, Option::Some(b)) => {
            let j2 = choose|j: int|
                #[trigger] prim_hits_at(prims_list, j, r, range, b.t) && prims_list[j].mat
                    == b.mat;
            let k2 = lemma_hit_transfers(prims_list, prims_tree, j2, r, range, b.t);
        },
        (Option::None, Option::None) => {},
    }
}

/// A closest hit over a selection that picks every index of the arena is a
/// closest hit in the unrestricted sense.
proof fn lemma_closest_selects_all(
    prims: Seq<Prim>,
    r: Ray,
    range: ParamRange,
    sel: spec_fn(int) -> bool,
    res: Option<HitRecord>,
)
    requires
        closest_over(prims, r, range, sel, res),
        forall|j: int| #[trigger] sel(j) <==> 0 <= j < prims.len(),
    ensures
        is_closest_hit(prims, r, range, res),
{
    match res {
        Option::None => {
            assert forall|j: int, t: Rat| !(#[trigger] prim_hits_at(prims, j, r, range, t)) by {
                assert(sel(j) <==> 0 <= j < prims.len());
            }
        },
        Option::Some(rec) => {
            let jw = choose|j: int|
                sel(j) && #[trigger] prim_hits_at(prims, j, r, range, rec.t) && prims[j].mat
                    == rec.mat;
            assert(sel(jw) <==> 0 <= jw < prims.len());
            assert forall|j: int, t: Rat| #[trigger] prim_hits_at(prims, j, r, range, t) implies
                rat_le(rec.t, t) by {
                assert(sel(j) <==> 0 <= j < prims.len());
            }
        },
    }
}

} // verus!
