//! The pivots of a skeleton one by one: where each pivot of an in-between
//! pose comes from, and what it holds.

use vstd::prelude::*;

use crate::blend::{
    child_blended, figure_blended, figure_slot_blended, frame_blended, pivot_blended,
};
use crate::matching::{figure_ids, first_match, lemma_first_match_none, pivot_ids};
use crate::model::{FrameView, PivotView};

verus! {

/// The pivot that `path` leads to from `root`: each entry of `path` is the
/// position of the child to step to. `None` where a step leaves the tree.
pub open spec fn node_at<C>(root: PivotView<C>, path: Seq<int>) -> Option<PivotView<C>>
    decreases path.len(),
{
    if path.len() == 0 {
        Some(root)
    } else if 0 <= path[0] < root.children.len() {
        node_at(root.children[path[0]], path.drop_first())
    } else {
        None
    }
}

/// The pivot under `b` that is paired with the pivot that `path` leads to
/// from `a`, where `b` is paired with `a`.
///
/// At each step the child of `a` is paired with the first child on the other
/// side that has its id. `None` where `path` leaves `a`, or where a pivot on
/// the way, or the last one, has no such partner.
pub open spec fn counterpart_at<C>(a: PivotView<C>, b: PivotView<C>, path: Seq<int>) -> Option<
    PivotView<C>,
>
    decreases path.len(),
{
    if path.len() == 0 {
        Some(b)
    } else if 0 <= path[0] < a.children.len() {
        match first_match(pivot_ids(b.children), a.children[path[0]].id) {
            Some(j) => counterpart_at(a.children[path[0]], b.children[j], path.drop_first()),
            None => None,
        }
    } else {
        None
    }
}

/// Whether `o` has the label of `n` and children with the ids of the
/// children of `n`, in the same order.
pub open spec fn same_outline<C>(n: PivotView<C>, o: PivotView<C>) -> bool {
    &&& o.id == n.id
    &&& o.kind == n.kind
    &&& o.children.len() == n.children.len()
    &&& pivot_ids(o.children) == pivot_ids(n.children)
}

/// An in-between pose has the shape of `a`: a path leads to a pivot of `out`
/// exactly where it leads to a pivot of `a`, and the two have the same id,
/// kind and child ids, whatever `b` looks like.
pub proof fn lemma_blended_keeps_shape<C>(
    a: PivotView<C>,
    b: PivotView<C>,
    out: PivotView<C>,
    blend: spec_fn(C, C, C) -> bool,
    path: Seq<int>,
)
    requires
        pivot_blended(a, b, out, blend),
    ensures
        match node_at(a, path) {
            Some(n) => node_at(out, path) matches Some(o) && same_outline(n, o),
            None => node_at(out, path) is None,
        },
    decreases path.len(),
{
    if path.len() == 0 {
        assert forall|i: int| 0 <= i < a.children.len() implies out.children[i].id
            == a.children[i].id by {
            assert(child_blended(a.children[i], b.children, out.children[i], blend));
        }
        assert(pivot_ids(out.children) =~= pivot_ids(a.children));
    } else if 0 <= path[0] < a.children.len() {
        let i = path[0];
        assert(child_blended(a.children[i], b.children, out.children[i], blend));
        match first_match(pivot_ids(b.children), a.children[i].id) {
            Some(j) => {
                lemma_blended_keeps_shape(
                    a.children[i],
                    b.children[j],
                    out.children[i],
                    blend,
                    path.drop_first(),
                );
            },
            None => {},
        }
    }
}

/// A pivot of `a` that has a partner is blended with it: both coordinates of
/// the pivot of `out` in its place are results of `blend` on the coordinate
/// of the one and that of the other.
pub proof fn lemma_paired_is_blended<C>(
    a: PivotView<C>,
    b: PivotView<C>,
    out: PivotView<C>,
    blend: spec_fn(C, C, C) -> bool,
    path: Seq<int>,
)
    requires
        pivot_blended(a, b, out, blend),
        counterpart_at(a, b, path) is Some,
    ensures
        node_at(a, path) is Some,
        node_at(out, path) is Some,
        blend(node_at(a, path)->0.x, counterpart_at(a, b, path)->0.x, node_at(out, path)->0.x),
        blend(node_at(a, path)->0.y, counterpart_at(a, b, path)->0.y, node_at(out, path)->0.y),
    decreases path.len(),
{
    if path.len() > 0 {
        let i = path[0];
        assert(child_blended(a.children[i], b.children, out.children[i], blend));
        let j = first_match(pivot_ids(b.children), a.children[i].id)->0;
        lemma_paired_is_blended(a.children[i], b.children[j], out.children[i], blend, path.drop_first());
    }
}

/// A pivot of `a` without a partner is kept: the pivot of `out` in its place
/// is the same, with all that hangs from it.
pub proof fn lemma_unpaired_is_kept<C>(
    a: PivotView<C>,
    b: PivotView<C>,
    out: PivotView<C>,
    blend: spec_fn(C, C, C) -> bool,
    path: Seq<int>,
)
    requires
        pivot_blended(a, b, out, blend),
        node_at(a, path) is Some,
        counterpart_at(a, b, path) is None,
    ensures
        node_at(out, path) == node_at(a, path),
    decreases path.len(),
{
    if path.len() > 0 {
        let i = path[0];
        assert(child_blended(a.children[i], b.children, out.children[i], blend));
        match first_match(pivot_ids(b.children), a.children[i].id) {
            Some(j) => {
                lemma_unpaired_is_kept(
                    a.children[i],
                    b.children[j],
                    out.children[i],
                    blend,
                    path.drop_first(),
                );
            },
            None => {},
        }
    }
}

/// Where `blend` always gives its first argument, the pose in between is `a`.
pub proof fn lemma_blend_of_first_is_source<C>(
    a: PivotView<C>,
    b: PivotView<C>,
    out: PivotView<C>,
    blend: spec_fn(C, C, C) -> bool,
)
    requires
        pivot_blended(a, b, out, blend),
        forall|p: C, q: C, r: C| #[trigger] blend(p, q, r) ==> r == p,
    ensures
        out == a,
    decreases a,
{
    assert forall|i: int| 0 <= i < a.children.len() implies out.children[i] == a.children[i] by {
        assert(child_blended(a.children[i], b.children, out.children[i], blend));
        match first_match(pivot_ids(b.children), a.children[i].id) {
            Some(j) => {
                lemma_blend_of_first_is_source(a.children[i], b.children[j], out.children[i], blend);
            },
            None => {},
        }
    }
    assert(out.children =~= a.children);
}

/// The pivot of the figure at position `figure` of `frame` that `path` leads
/// to from the root of that figure.
pub open spec fn frame_node_at<C>(frame: FrameView<C>, figure: int, path: Seq<int>) -> Option<
    PivotView<C>,
> {
    if 0 <= figure < frame.figures.len() {
        node_at(frame.figures[figure].root_pivot, path)
    } else {
        None
    }
}

/// The pivot of the frame `b` that is paired with the pivot of `a` at
/// `figure` and `path`.
///
/// The figure of `a` is paired with the first figure of `b` that has its id,
/// root with root, and from there on as [`counterpart_at`] says.
pub open spec fn frame_counterpart_at<C>(
    a: FrameView<C>,
    b: FrameView<C>,
    figure: int,
    path: Seq<int>,
) -> Option<PivotView<C>> {
    if 0 <= figure < a.figures.len() {
        match first_match(figure_ids(b.figures), a.figures[figure].id) {
            Some(j) => counterpart_at(a.figures[figure].root_pivot, b.figures[j].root_pivot, path),
            None => None,
        }
    } else {
        None
    }
}

/// The frame in between has the shape of `a`, whatever `b` looks like: as many
/// figures, with the same ids in the same order, and in each figure a pivot
/// exactly where `a` has one, with the same id, kind and child ids.
pub proof fn lemma_frame_keeps_shape<C>(
    a: FrameView<C>,
    b: FrameView<C>,
    out: FrameView<C>,
    blend: spec_fn(C, C, C) -> bool,
    figure: int,
    path: Seq<int>,
)
    requires
        frame_blended(a, b, out, blend),
    ensures
        out.figures.len() == a.figures.len(),
        0 <= figure < a.figures.len() ==> out.figures[figure].id == a.figures[figure].id,
        match frame_node_at(a, figure, path) {
            Some(n) => frame_node_at(out, figure, path) matches Some(o) && same_outline(n, o),
            None => frame_node_at(out, figure, path) is None,
        },
{
    if 0 <= figure < a.figures.len() {
        assert(figure_slot_blended(a.figures[figure], b.figures, out.figures[figure], blend));
        match first_match(figure_ids(b.figures), a.figures[figure].id) {
            Some(j) => {
                lemma_blended_keeps_shape(
                    a.figures[figure].root_pivot,
                    b.figures[j].root_pivot,
                    out.figures[figure].root_pivot,
                    blend,
                    path,
                );
            },
            None => {},
        }
    }
}

/// Nothing in the frame in between comes from `b` alone: every pivot of `out`
/// stands where `a` has a pivot, and carries the id of that pivot.
pub proof fn lemma_frame_adds_no_pivot<C>(
    a: FrameView<C>,
    b: FrameView<C>,
    out: FrameView<C>,
    blend: spec_fn(C, C, C) -> bool,
    figure: int,
    path: Seq<int>,
)
    requires
        frame_blended(a, b, out, blend),
        frame_node_at(out, figure, path) is Some,
    ensures
        frame_node_at(a, figure, path) is Some,
        frame_node_at(a, figure, path)->0.id == frame_node_at(out, figure, path)->0.id,
{
    lemma_frame_keeps_shape(a, b, out, blend, figure, path);
}

/// A pivot of `a` that has a partner in `b` is blended with it: both
/// coordinates of the pivot of `out` in its place are results of `blend` on
/// the coordinate of the one and that of the other.
pub proof fn lemma_frame_paired_is_blended<C>(
    a: FrameView<C>,
    b: FrameView<C>,
    out: FrameView<C>,
    blend: spec_fn(C, C, C) -> bool,
    figure: int,
    path: Seq<int>,
)
    requires
        frame_blended(a, b, out, blend),
        frame_counterpart_at(a, b, figure, path) is Some,
    ensures
        frame_node_at(a, figure, path) is Some,
        frame_node_at(out, figure, path) is Some,
        blend(
            frame_node_at(a, figure, path)->0.x,
            frame_counterpart_at(a, b, figure, path)->0.x,
            frame_node_at(out, figure, path)->0.x,
        ),
        blend(
            frame_node_at(a, figure, path)->0.y,
            frame_counterpart_at(a, b, figure, path)->0.y,
            frame_node_at(out, figure, path)->0.y,
        ),
{
    assert(figure_slot_blended(a.figures[figure], b.figures, out.figures[figure], blend));
    let j = first_match(figure_ids(b.figures), a.figures[figure].id)->0;
    lemma_paired_is_blended(
        a.figures[figure].root_pivot,
        b.figures[j].root_pivot,
        out.figures[figure].root_pivot,
        blend,
        path,
    );
}

/// A pivot of `a` without a partner in `b` is kept: the pivot of `out` in its
/// place is the same, with all that hangs from it.
pub proof fn lemma_frame_unpaired_is_kept<C>(
    a: FrameView<C>,
    b: FrameView<C>,
    out: FrameView<C>,
    blend: spec_fn(C, C, C) -> bool,
    figure: int,
    path: Seq<int>,
)
    requires
        frame_blended(a, b, out, blend),
        frame_node_at(a, figure, path) is Some,
        frame_counterpart_at(a, b, figure, path) is None,
    ensures
        frame_node_at(out, figure, path) == frame_node_at(a, figure, path),
{
    assert(figure_slot_blended(a.figures[figure], b.figures, out.figures[figure], blend));
    match first_match(figure_ids(b.figures), a.figures[figure].id) {
        Some(j) => {
            lemma_unpaired_is_kept(
                a.figures[figure].root_pivot,
                b.figures[j].root_pivot,
                out.figures[figure].root_pivot,
                blend,
                path,
            );
        },
        None => {},
    }
}

/// A figure of `a` whose id no figure of `b` has is held: the figure of `out`
/// in its place is the same, whatever `blend` does.
pub proof fn lemma_absent_figure_is_kept<C>(
    a: FrameView<C>,
    b: FrameView<C>,
    out: FrameView<C>,
    blend: spec_fn(C, C, C) -> bool,
    figure: int,
)
    requires
        frame_blended(a, b, out, blend),
        0 <= figure < a.figures.len(),
        forall|j: int| 0 <= j < b.figures.len() ==> b.figures[j].id != a.figures[figure].id,
    ensures
        out.figures[figure] == a.figures[figure],
{
    assert(figure_slot_blended(a.figures[figure], b.figures, out.figures[figure], blend));
    lemma_first_match_none(figure_ids(b.figures), a.figures[figure].id);
}

/// Where `blend` always gives its first argument, the frame in between holds
/// the figures of `a`, unchanged.
pub proof fn lemma_frame_blend_of_first_is_source<C>(
    a: FrameView<C>,
    b: FrameView<C>,
    out: FrameView<C>,
    blend: spec_fn(C, C, C) -> bool,
)
    requires
        frame_blended(a, b, out, blend),
        forall|p: C, q: C, r: C| #[trigger] blend(p, q, r) ==> r == p,
    ensures
        out.figures == a.figures,
{
    assert forall|i: int| 0 <= i < a.figures.len() implies out.figures[i] == a.figures[i] by {
        assert(figure_slot_blended(a.figures[i], b.figures, out.figures[i], blend));
        match first_match(figure_ids(b.figures), a.figures[i].id) {
            Some(j) => {
                assert(figure_blended(a.figures[i], b.figures[j], out.figures[i], blend));
                lemma_blend_of_first_is_source(
                    a.figures[i].root_pivot,
                    b.figures[j].root_pivot,
                    out.figures[i].root_pivot,
                    blend,
                );
            },
            None => {},
        }
    }
    assert(out.figures =~= a.figures);
}

/// Where `blend` always gives its second argument, every pivot of `a` that
/// has a partner in `b` stands in `out` with the coordinates of that partner.
pub proof fn lemma_frame_blend_of_second_is_target<C>(
    a: FrameView<C>,
    b: FrameView<C>,
    out: FrameView<C>,
    blend: spec_fn(C, C, C) -> bool,
    figure: int,
    path: Seq<int>,
)
    requires
        frame_blended(a, b, out, blend),
        forall|p: C, q: C, r: C| #[trigger] blend(p, q, r) ==> r == q,
        frame_counterpart_at(a, b, figure, path) is Some,
    ensures
        frame_node_at(out, figure, path) is Some,
        frame_node_at(out, figure, path)->0.x == frame_counterpart_at(a, b, figure, path)->0.x,
        frame_node_at(out, figure, path)->0.y == frame_counterpart_at(a, b, figure, path)->0.y,
{
    lemma_frame_paired_is_blended(a, b, out, blend, figure, path);
}

} // verus!
