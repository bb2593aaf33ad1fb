//! Frames, figures and pivots, and their mathematical values.

use vstd::prelude::*;

verus! {

/// A node of a skeleton: a labelled point with the pivots that hang from it.
///
/// `kind` is a tag of the host, such as `"joint"` or `"fixed"`; it is carried
/// along and never read. `C` is the type of one coordinate: the library
/// copies coordinates and hands them to the caller's blend function, and does
/// no arithmetic of its own.
#[derive(Debug, PartialEq)]
pub struct Pivot<C> {
    pub id: String,
    pub kind: String,
    pub x: C,
    pub y: C,
    pub children: Vec<Pivot<C>>,
}

/// The mathematical value of a [`Pivot`].
pub struct PivotView<C> {
    pub id: Seq<char>,
    pub kind: Seq<char>,
    pub x: C,
    pub y: C,
    pub children: Seq<PivotView<C>>,
}

/// The value of a pivot: its own fields, and the values of its children in
/// order.
pub open spec fn pivot_view<C>(p: Pivot<C>) -> PivotView<C>
    decreases p,
{
    PivotView {
        id: p.id@,
        kind: p.kind@,
        x: p.x,
        y: p.y,
        children: Seq::new(
            p.children@.len(),
            |i: int|
                if 0 <= i < p.children@.len() {
                    pivot_view(p.children@[i])
                } else {
                    arbitrary()
                },
        ),
    }
}

impl<C> View for Pivot<C> {
    type V = PivotView<C>;

    open spec fn view(&self) -> PivotView<C> {
        pivot_view(*self)
    }
}

impl<C: Copy> Clone for Pivot<C> {
    /// A deep copy: the whole subtree, with the same value.
    fn clone(&self) -> (res: Self)
        ensures
            res@ == self@,
        decreases self,
    {
        let mut children: Vec<Pivot<C>> = Vec::new();
        let mut i: usize = 0;
        while i < self.children.len()
            invariant
                i <= self.children.len(),
                children.len() == i,
                forall|k: int| 0 <= k < i ==> children@[k]@ == self.children@[k]@,
            decreases self.children.len() - i,
        {
            children.push(self.children[i].clone());
            i += 1;
        }
        let res = Pivot {
            id: self.id.clone(),
            kind: self.kind.clone(),
            x: self.x,
            y: self.y,
            children,
        };
        assert(res@.children =~= self@.children);
        res
    }
}

/// A named skeleton, rooted at one pivot.
#[derive(Debug, PartialEq)]
pub struct Figure<C> {
    pub id: String,
    pub root_pivot: Pivot<C>,
}

/// The mathematical value of a [`Figure`].
pub struct FigureView<C> {
    pub id: Seq<char>,
    pub root_pivot: PivotView<C>,
}

impl<C> View for Figure<C> {
    type V = FigureView<C>;

    open spec fn view(&self) -> FigureView<C> {
        FigureView { id: self.id@, root_pivot: self.root_pivot@ }
    }
}

impl<C: Copy> Clone for Figure<C> {
    /// A deep copy of the figure and of its whole skeleton.
    fn clone(&self) -> (res: Self)
        ensures
            res@ == self@,
    {
        Figure { id: self.id.clone(), root_pivot: self.root_pivot.clone() }
    }
}

/// The figures of a scene at one instant, in presentation order.
#[derive(Debug, PartialEq)]
pub struct Frame<C> {
    pub id: String,
    pub figures: Vec<Figure<C>>,
}

/// The mathematical value of a [`Frame`].
pub struct FrameView<C> {
    pub id: Seq<char>,
    pub figures: Seq<FigureView<C>>,
}

impl<C> View for Frame<C> {
    type V = FrameView<C>;

    open spec fn view(&self) -> FrameView<C> {
        FrameView { id: self.id@, figures: self.figures@.map_values(|f: Figure<C>| f@) }
    }
}

impl<C: Copy> Clone for Frame<C> {
    /// A deep copy of the frame and of every figure in it.
    fn clone(&self) -> (res: Self)
        ensures
            res@ == self@,
    {
        let mut figures: Vec<Figure<C>> = Vec::new();
        let mut i: usize = 0;
        while i < self.figures.len()
            invariant
                i <= self.figures.len(),
                figures.len() == i,
                forall|k: int| 0 <= k < i ==> figures@[k]@ == self.figures@[k]@,
            decreases self.figures.len() - i,
        {
            figures.push(self.figures[i].clone());
            i += 1;
        }
        let res = Frame { id: self.id.clone(), figures };
        assert(res@.figures =~= self@.figures);
        res
    }
}

} // verus!
