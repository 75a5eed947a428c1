//! Stacks of images of one shape.

use crate::grid::{shape_fits, Grid, Matrix};
use vstd::prelude::*;

verus! {

/// The mathematical content of a stack: its slices, all of one shape.
pub struct StackModel<T> {
    /// Number of rows of every slice.
    pub rows: nat,
    /// Number of columns of every slice.
    pub cols: nat,
    /// The slices in order.
    pub slices: Seq<Matrix<T>>,
}

/// A sequence of images of one shape.
#[derive(Debug)]
pub struct Stack<T> {
    rows: usize,
    cols: usize,
    slices: Vec<Grid<T>>,
}

impl<T> Stack<T> {
    #[verifier::type_invariant]
    spec fn inv(&self) -> bool {
        &&& shape_fits(self.rows as int, self.cols as int)
        &&& forall|i: int|
            0 <= i < self.slices@.len() ==> (#[trigger] self.slices@[i])@.rows == self.rows
                && self.slices@[i]@.cols == self.cols
    }
}

impl<T> View for Stack<T> {
    type V = StackModel<T>;

    closed spec fn view(&self) -> StackModel<T> {
        StackModel {
            rows: self.rows as nat,
            cols: self.cols as nat,
            slices: Seq::new(self.slices@.len(), |i: int| self.slices@[i]@),
        }
    }
}

impl<T: Copy> Stack<T> {
    /// The stack of no slices of the given shape.
    pub fn new(rows: usize, cols: usize) -> (r: Stack<T>)
        requires
            shape_fits(rows as int, cols as int),
        ensures
            r@.rows == rows,
            r@.cols == cols,
            r@.slices == Seq::<Matrix<T>>::empty(),
    {
        let r = Stack { rows, cols, slices: Vec::new() };
        assert(r@.slices =~= Seq::<Matrix<T>>::empty());
        r
    }

    /// The stack with one more slice at its end.
    pub fn with_slice(self, slice: Grid<T>) -> (r: Stack<T>)
        requires
            slice@.rows == self@.rows,
            slice@.cols == self@.cols,
        ensures
            r@.rows == self@.rows,
            r@.cols == self@.cols,
            r@.slices == self@.slices.push(slice@),
    {
        proof {
            use_type_invariant(&self);
        }
        let Stack { rows, cols, mut slices } = self;
        slices.push(slice);
        let r = Stack { rows, cols, slices };
        assert(r@.slices =~= self@.slices.push(slice@));
        r
    }

    /// The number of slices, of rows and of columns.
    pub fn dim(&self) -> (r: (usize, usize, usize))
        ensures
            r.0 == self@.slices.len(),
            r.1 == self@.rows,
            r.2 == self@.cols,
            shape_fits(r.1 as int, r.2 as int),
    {
        proof {
            use_type_invariant(self);
        }
        (self.slices.len(), self.rows, self.cols)
    }

    /// The slice at position `i`.
    pub fn slice(&self, i: usize) -> (r: &Grid<T>)
        requires
            i < self@.slices.len(),
        ensures
            r@ == self@.slices[i as int],
            r@.rows == self@.rows,
            r@.cols == self@.cols,
    {
        proof {
            use_type_invariant(self);
        }
        &self.slices[i]
    }
}

} // verus!
