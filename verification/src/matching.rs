//! Pairing by id: a figure or a pivot is paired with the first candidate on
//! the other side that carries its id.

use vstd::prelude::*;

use crate::model::{FigureView, Frame, Pivot, PivotView};

verus! {

/// Whether `j` is the position of the first entry of `ids` that equals `id`.
pub open spec fn is_first_match(ids: Seq<Seq<char>>, id: Seq<char>, j: int) -> bool {
    &&& 0 <= j < ids.len()
    &&& ids[j] == id
    &&& forall|k: int| 0 <= k < j ==> ids[k] != id
}

/// The position of the first entry of `ids` that equals `id`, or `None` where
/// no entry does.
pub open spec fn first_match(ids: Seq<Seq<char>>, id: Seq<char>) -> Option<int> {
    if exists|j: int| is_first_match(ids, id, j) {
        Some(choose|j: int| is_first_match(ids, id, j))
    } else {
        None
    }
}

/// The ids of a group of sibling pivots, in order.
pub open spec fn pivot_ids<C>(siblings: Seq<PivotView<C>>) -> Seq<Seq<char>> {
    siblings.map_values(|p: PivotView<C>| p.id)
}

/// The ids of the figures of a frame, in order.
pub open spec fn figure_ids<C>(figures: Seq<FigureView<C>>) -> Seq<Seq<char>> {
    figures.map_values(|f: FigureView<C>| f.id)
}

/// The first match is the one position that [`is_first_match`] holds of.
pub proof fn lemma_first_match_unique(ids: Seq<Seq<char>>, id: Seq<char>, j: int)
    requires
        is_first_match(ids, id, j),
    ensures
        first_match(ids, id) == Some(j),
{
    let c = choose|c: int| is_first_match(ids, id, c);
    assert(is_first_match(ids, id, c));
    if c < j {
        assert(ids[c] != id);
    } else if j < c {
        assert(ids[j] != id);
    }
}

/// Where no entry equals `id`, there is no first match.
pub proof fn lemma_first_match_none(ids: Seq<Seq<char>>, id: Seq<char>)
    requires
        forall|k: int| 0 <= k < ids.len() ==> ids[k] != id,
    ensures
        first_match(ids, id) is None,
{
}

impl<C> Pivot<C> {
    /// The position, among the children of this pivot, of the first child
    /// whose id is `id`.
    pub fn child_position(&self, id: &String) -> (found: Option<usize>)
        ensures
            match found {
                Some(j) => first_match(pivot_ids(self@.children), id@) == Some(j as int),
                None => first_match(pivot_ids(self@.children), id@) is None,
            },
    {
        let mut i: usize = 0;
        while i < self.children.len()
            invariant
                i <= self.children.len(),
                forall|k: int| 0 <= k < i ==> pivot_ids(self@.children)[k] != id@,
            decreases self.children.len() - i,
        {
            assert(self@.children[i as int] == self.children@[i as int]@);
            if self.children[i].id == *id {
                proof {
                    lemma_first_match_unique(pivot_ids(self@.children), id@, i as int);
                }
                return Some(i);
            }
            i += 1;
        }
        proof {
            lemma_first_match_none(pivot_ids(self@.children), id@);
        }
        None
    }
}

impl<C> Frame<C> {
    /// The position, among the figures of this frame, of the first figure
    /// whose id is `id`.
    pub fn figure_position(&self, id: &String) -> (found: Option<usize>)
        ensures
            match found {
                Some(j) => first_match(figure_ids(self@.figures), id@) == Some(j as int),
                None => first_match(figure_ids(self@.figures), id@) is None,
            },
    {
        let mut i: usize = 0;
        while i < self.figures.len()
            invariant
                i <= self.figures.len(),
                forall|k: int| 0 <= k < i ==> figure_ids(self@.figures)[k] != id@,
            decreases self.figures.len() - i,
        {
            if self.figures[i].id == *id {
                proof {
                    lemma_first_match_unique(figure_ids(self@.figures), id@, i as int);
                }
                return Some(i);
            }
            i += 1;
        }
        proof {
            lemma_first_match_none(figure_ids(self@.figures), id@);
        }
        None
    }
}

} // verus!
