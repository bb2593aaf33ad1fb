//! The interpolation itself: a walk over two frames in step.

use vstd::prelude::*;
use vstd::string::*;

use crate::blend::{
    child_blended, figure_blended, figure_slot_blended, frame_blended, outcomes, pivot_blended,
};
use crate::model::{Figure, Frame, Pivot};

verus! {

/// Poses the subtree `a` in between itself and its counterpart `b`: `a` and
/// `b` are paired whatever their ids, their children by id.
pub fn interpolate_pivot<C: Copy, F: Fn(C, C) -> C>(a: &Pivot<C>, b: &Pivot<C>, blend: &F) -> (out:
    Pivot<C>)
    requires
        forall|p: C, q: C| blend.requires((p, q)),
    ensures
        pivot_blended(a@, b@, out@, outcomes(*blend)),
    decreases a,
{
    let x = blend(a.x, b.x);
    let y = blend(a.y, b.y);
    let mut children: Vec<Pivot<C>> = Vec::new();
    let mut i: usize = 0;
    while i < a.children.len()
        invariant
            i <= a.children.len(),
            children.len() == i,
            forall|p: C, q: C| blend.requires((p, q)),
            forall|k: int|
                0 <= k < i ==> child_blended(
                    a@.children[k],
                    b@.children,
                    #[trigger] children@[k]@,
                    outcomes(*blend),
                ),
        decreases a.children.len() - i,
    {
        let child_a = &a.children[i];
        let child = match b.child_position(&child_a.id) {
            Some(j) => {
                proof {
                    assert(b@.children[j as int] == b.children@[j as int]@);
                }
                interpolate_pivot(child_a, &b.children[j], blend)
            },
            None => child_a.clone(),
        };
        proof {
            assert(a@.children[i as int] == child_a@);
        }
        children.push(child);
        i += 1;
    }
    let out = Pivot { id: a.id.clone(), kind: a.kind.clone(), x, y, children };
    proof {
        assert forall|k: int| 0 <= k < a@.children.len() implies child_blended(
            a@.children[k],
            b@.children,
            #[trigger] out@.children[k],
            outcomes(*blend),
        ) by {
            assert(out@.children[k] == children@[k]@);
        }
    }
    out
}

/// Poses the figure `a` in between itself and its counterpart `b`, root
/// against root.
pub fn interpolate_figure<C: Copy, F: Fn(C, C) -> C>(a: &Figure<C>, b: &Figure<C>, blend: &F) -> (out:
    Figure<C>)
    requires
        forall|p: C, q: C| blend.requires((p, q)),
    ensures
        figure_blended(a@, b@, out@, outcomes(*blend)),
{
    Figure { id: a.id.clone(), root_pivot: interpolate_pivot(&a.root_pivot, &b.root_pivot, blend) }
}

/// Builds the frame in between `a` and `b`.
///
/// `blend` computes one coordinate of the pose in between from the coordinate
/// in `a` and the coordinate in `b`. A caller that blends linearly at a factor
/// `t` passes the function that takes `p` and `q` to `p + (q - p) * t`.
pub fn interpolate_frame<C: Copy, F: Fn(C, C) -> C>(a: &Frame<C>, b: &Frame<C>, blend: &F) -> (out:
    Frame<C>)
    requires
        forall|p: C, q: C| blend.requires((p, q)),
    ensures
        frame_blended(a@, b@, out@, outcomes(*blend)),
{
    let mut figures: Vec<Figure<C>> = Vec::new();
    let mut i: usize = 0;
    while i < a.figures.len()
        invariant
            i <= a.figures.len(),
            figures.len() == i,
            forall|p: C, q: C| blend.requires((p, q)),
            forall|k: int|
                0 <= k < i ==> figure_slot_blended(
                    a@.figures[k],
                    b@.figures,
                    #[trigger] figures@[k]@,
                    outcomes(*blend),
                ),
        decreases a.figures.len() - i,
    {
        let fig_a = &a.figures[i];
        let figure = match b.figure_position(&fig_a.id) {
            Some(j) => interpolate_figure(fig_a, &b.figures[j], blend),
            None => fig_a.clone(),
        };
        figures.push(figure);
        i += 1;
    }
    Frame { id: a.id.clone().concat("-interpolated"), figures }
}

} // verus!
