//! Leaf data of the diagram model: generators, orientations, heights and
//! coordinate labels. The diagram engine that constructs these values is
//! external; this crate only stores, compares and serializes them, so each
//! type carries exactly the data that the persistence layer reads.

use vstd::prelude::*;

verus! {

/// An atomic, dimension-tagged identifier naming a basic cell.
#[derive(Clone, Copy, PartialEq, Eq, Structural, Hash, Debug)]
pub struct Generator {
    pub id: u64,
    pub dimension: u64,
}

/// The orientation carried by a zero-dimensional diagram or rewrite end.
#[derive(Clone, Copy, PartialEq, Eq, Structural, Hash, Debug)]
pub enum Orientation {
    Negative,
    Zero,
    Positive,
}

/// A linear direction of movement, as used by undo/redo navigation and by
/// homotopy actions.
#[derive(Clone, Copy, PartialEq, Eq, Structural, Hash, Debug)]
pub enum Direction {
    Forward,
    Backward,
}

/// A height in the interleaving of regular and singular slices.
#[derive(Clone, Copy, PartialEq, Eq, Structural, Hash, Debug)]
pub enum Height {
    Regular(u64),
    Singular(u64),
}

/// An index into the slices of a diagram: one of the two boundaries, or an
/// interior height.
#[derive(Clone, Copy, PartialEq, Eq, Structural, Hash, Debug)]
pub enum SliceIndex {
    Boundary(Side),
    Interior(Height),
}

/// Which end of a diagram a boundary path starts from.
#[derive(Clone, Copy, PartialEq, Eq, Structural, Hash, Debug)]
pub enum Side {
    Source,
    Target,
}

/// The boundary a positional label is anchored at: an end and a depth.
#[derive(Clone, Copy, PartialEq, Eq, Structural, Hash, Debug)]
pub struct BoundaryPath {
    pub side: Side,
    pub depth: u64,
}

/// The positional label optionally carried by a zero-dimensional rewrite:
/// a boundary anchor plus the coordinate path the rewrite originates at.
#[derive(Clone, Debug)]
pub struct Label {
    pub path: BoundaryPath,
    pub coords: Vec<Height>,
}

/// Mathematical value of a `Label`.
#[verifier::ext_equal]
pub struct LabelV {
    pub path: BoundaryPath,
    pub coords: Seq<Height>,
}

impl View for Label {
    type V = LabelV;

    open spec fn view(&self) -> LabelV {
        LabelV { path: self.path, coords: self.coords@ }
    }
}

/// Decides whether two labels hold the same anchor and the same coordinates.
pub fn eq_label(a: &Label, b: &Label) -> (r: bool)
    ensures
        r == (a@ == b@),
{
    if !(a.path == b.path) {
        return false;
    }
    if a.coords.len() != b.coords.len() {
        assert(a@.coords.len() != b@.coords.len());
        return false;
    }
    let n: usize = a.coords.len();
    let mut i: usize = 0;
    while i < n
        invariant
            n == a.coords@.len() == b.coords@.len(),
            0 <= i <= n,
            a.path == b.path,
            forall|j: int| 0 <= j < i ==> a.coords@[j] == b.coords@[j],
        decreases n - i,
    {
        if !(a.coords[i] == b.coords[i]) {
            assert(a@.coords[i as int] != b@.coords[i as int]);
            return false;
        }
        i = i + 1;
    }
    assert(a@.coords =~= b@.coords);
    assert(a@ =~= b@);
    true
}

/// Copies a label; the copy denotes the same mathematical value.
pub fn clone_label(a: &Label) -> (r: Label)
    ensures
        r@ == a@,
{
    let mut coords: Vec<Height> = Vec::new();
    let n: usize = a.coords.len();
    let mut i: usize = 0;
    while i < n
        invariant
            n == a.coords@.len(),
            0 <= i <= n,
            coords@.len() == i,
            forall|j: int| 0 <= j < i ==> coords@[j] == a.coords@[j],
        decreases n - i,
    {
        coords.push(a.coords[i]);
        i = i + 1;
    }
    let r = Label { path: a.path, coords };
    assert(r@.coords =~= a@.coords);
    assert(r@ =~= a@);
    r
}

} // verus!
