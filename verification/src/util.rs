//! Small general-purpose helpers.

use vstd::prelude::*;
use vstd::string::*;

verus! {

/// A pair of vectors that a stream of two-way results is split into:
/// successes to the left, failures to the right.
pub struct SplitVecContainer<L, R> {
    pub left: Vec<L>,
    pub right: Vec<R>,
}

impl<L, R> SplitVecContainer<L, R> {
    pub fn new(left: Vec<L>, right: Vec<R>) -> (r: Self)
        ensures
            r.left == left,
            r.right == right,
    {
        Self { left, right }
    }

    pub fn push_left(&mut self, left: L)
        ensures
            final(self).left@ == old(self).left@.push(left),
            final(self).right == old(self).right,
    {
        self.left.push(left);
    }

    pub fn push_right(&mut self, right: R)
        ensures
            final(self).right@ == old(self).right@.push(right),
            final(self).left == old(self).left,
    {
        self.right.push(right);
    }
}

impl<L, R> Default for SplitVecContainer<L, R> {
    fn default() -> (r: Self)
        ensures
            r.left@.len() == 0,
            r.right@.len() == 0,
    {
        Self { left: Vec::new(), right: Vec::new() }
    }
}

/// The order a listing is shown in.
#[derive(Debug, Copy, Clone, PartialEq, Eq, Structural)]
pub enum SortOrder {
    Ascending,
    Descending,
}

impl SortOrder {
    /// The opposite order.
    pub open spec fn toggled_spec(self) -> SortOrder {
        match self {
            SortOrder::Ascending => SortOrder::Descending,
            SortOrder::Descending => SortOrder::Ascending,
        }
    }

    pub fn toggle(&mut self)
        ensures
            *final(self) == old(self).toggled_spec(),
    {
        *self = self.toggled();
    }

    pub fn toggled(&self) -> (r: Self)
        ensures
            r == self.toggled_spec(),
    {
        match self {
            SortOrder::Ascending => SortOrder::Descending,
            SortOrder::Descending => SortOrder::Ascending,
        }
    }

    pub fn is_ascending(&self) -> (r: bool)
        ensures
            r == (*self == SortOrder::Ascending),
    {
        matches!(self, Self::Ascending)
    }

    pub fn is_descending(&self) -> (r: bool)
        ensures
            r == (*self == SortOrder::Descending),
    {
        matches!(self, Self::Descending)
    }
}

/// The string form of a path.
pub fn path_to_str(path: &str) -> (r: String)
    ensures
        r@ == path@,
{
    path.to_owned()
}

} // verus!
