//! What it means for a pose to lie in between two others.
//!
//! The relations of this module say, for a pivot, a figure and a frame, which
//! values may come out of an interpolation. They are stated over a relation
//! `blend` on coordinates: `blend(p, q, r)` holds where `r` may be the blend
//! of `p` towards `q`.

use vstd::prelude::*;

use crate::matching::{figure_ids, first_match, pivot_ids};
use crate::model::{FigureView, FrameView, PivotView};

verus! {

/// What is appended to the id of the first frame to name the frame in between.
pub open spec fn interpolated_suffix() -> Seq<char> {
    "-interpolated"@
}

/// An executable blend function as a relation: whether `r` is a result that
/// `blend` may give for the coordinates `p` and `q`.
pub open spec fn outcomes<C, F: Fn(C, C) -> C>(blend: F) -> spec_fn(C, C, C) -> bool {
    |p: C, q: C, r: C| blend.ensures((p, q), r)
}

/// Whether `blend` gives at most one result for each pair of coordinates.
pub open spec fn single_valued<C>(blend: spec_fn(C, C, C) -> bool) -> bool {
    forall|p: C, q: C, r1: C, r2: C|
        #![trigger blend(p, q, r1), blend(p, q, r2)]
        blend(p, q, r1) && blend(p, q, r2) ==> r1 == r2
}

/// Whether `out` is an in-between pose of the subtree `a` towards its
/// counterpart `b`, with every coordinate computed by `blend`.
///
/// `out` has the id, the kind and the children of `a`, child for child. Each of
/// its two coordinates is a result of `blend` on the coordinate of `a` and
/// that of `b`. Each child of `out` is what [`child_blended`] asks for in its
/// place.
pub open spec fn pivot_blended<C>(
    a: PivotView<C>,
    b: PivotView<C>,
    out: PivotView<C>,
    blend: spec_fn(C, C, C) -> bool,
) -> bool
    decreases a, 0int,
{
    &&& out.id == a.id
    &&& out.kind == a.kind
    &&& blend(a.x, b.x, out.x)
    &&& blend(a.y, b.y, out.y)
    &&& out.children.len() == a.children.len()
    &&& forall|i: int|
        0 <= i < a.children.len() ==> child_blended(
            a.children[i],
            b.children,
            #[trigger] out.children[i],
            blend,
        )
}

/// Whether `out` may stand in the place of the child `a`, where `siblings` are
/// the children of the counterpart of its parent.
///
/// `a` is paired with the first of `siblings` that has its id, and `out` is
/// then in between the two. Where none of them has its id, `out` is `a`,
/// unchanged down to the last descendant.
pub open spec fn child_blended<C>(
    a: PivotView<C>,
    siblings: Seq<PivotView<C>>,
    out: PivotView<C>,
    blend: spec_fn(C, C, C) -> bool,
) -> bool
    decreases a, 1int,
{
    match first_match(pivot_ids(siblings), a.id) {
        Some(j) => pivot_blended(a, siblings[j], out, blend),
        None => out == a,
    }
}

/// Whether `out` is the figure `a` posed in between `a` and `b`.
pub open spec fn figure_blended<C>(
    a: FigureView<C>,
    b: FigureView<C>,
    out: FigureView<C>,
    blend: spec_fn(C, C, C) -> bool,
) -> bool {
    &&& out.id == a.id
    &&& pivot_blended(a.root_pivot, b.root_pivot, out.root_pivot, blend)
}

/// Whether `out` may stand in the place of the figure `a`, where `others` are
/// the figures of the other frame.
///
/// `a` is paired with the first of `others` that has its id, and `out` is then
/// `a` posed in between the two. Where none of them has its id, `out` is `a`,
/// unchanged.
pub open spec fn figure_slot_blended<C>(
    a: FigureView<C>,
    others: Seq<FigureView<C>>,
    out: FigureView<C>,
    blend: spec_fn(C, C, C) -> bool,
) -> bool {
    match first_match(figure_ids(others), a.id) {
        Some(j) => figure_blended(a, others[j], out, blend),
        None => out == a,
    }
}

/// Whether `out` is the frame in between `a` and `b`.
///
/// `out` is named after `a`, and holds one figure for each figure of `a`, in
/// the order of `a`. A figure of `a` is paired with the first figure of `b`
/// that has its id, and is posed in between the two; a figure of `a` that no
/// figure of `b` is paired with stands in `out` as it is.
pub open spec fn frame_blended<C>(
    a: FrameView<C>,
    b: FrameView<C>,
    out: FrameView<C>,
    blend: spec_fn(C, C, C) -> bool,
) -> bool {
    &&& out.id == a.id + interpolated_suffix()
    &&& out.figures.len() == a.figures.len()
    &&& forall|i: int|
        0 <= i < a.figures.len() ==> figure_slot_blended(
            a.figures[i],
            b.figures,
            #[trigger] out.figures[i],
            blend,
        )
}

/// With a single-valued `blend`, two subtrees determine the pose in between.
pub proof fn lemma_pivot_blended_unique<C>(
    a: PivotView<C>,
    b: PivotView<C>,
    out1: PivotView<C>,
    out2: PivotView<C>,
    blend: spec_fn(C, C, C) -> bool,
)
    requires
        single_valued(blend),
        pivot_blended(a, b, out1, blend),
        pivot_blended(a, b, out2, blend),
    ensures
        out1 == out2,
    decreases a,
{
    assert forall|i: int| 0 <= i < a.children.len() implies out1.children[i]
        == out2.children[i] by {
        assert(child_blended(a.children[i], b.children, out1.children[i], blend));
        assert(child_blended(a.children[i], b.children, out2.children[i], blend));
        match first_match(pivot_ids(b.children), a.children[i].id) {
            Some(j) => {
                lemma_pivot_blended_unique(
                    a.children[i],
                    b.children[j],
                    out1.children[i],
                    out2.children[i],
                    blend,
                );
            },
            None => {},
        }
    }
    assert(out1.children =~= out2.children);
}

/// With a single-valued `blend`, two frames determine the frame in between:
/// interpolation is a function of its inputs.
pub proof fn lemma_frame_blended_unique<C>(
    a: FrameView<C>,
    b: FrameView<C>,
    out1: FrameView<C>,
    out2: FrameView<C>,
    blend: spec_fn(C, C, C) -> bool,
)
    requires
        single_valued(blend),
        frame_blended(a, b, out1, blend),
        frame_blended(a, b, out2, blend),
    ensures
        out1 == out2,
{
    assert forall|i: int| 0 <= i < a.figures.len() implies out1.figures[i] == out2.figures[i] by {
        assert(figure_slot_blended(a.figures[i], b.figures, out1.figures[i], blend));
        assert(figure_slot_blended(a.figures[i], b.figures, out2.figures[i], blend));
        match first_match(figure_ids(b.figures), a.figures[i].id) {
            Some(j) => {
                lemma_pivot_blended_unique(
                    a.figures[i].root_pivot,
                    b.figures[j].root_pivot,
                    out1.figures[i].root_pivot,
                    out2.figures[i].root_pivot,
                    blend,
                );
            },
            None => {},
        }
    }
    assert(out1.figures =~= out2.figures);
}

} // verus!
