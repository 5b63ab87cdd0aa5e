//! Cubical surface elements: the mesh building blocks that higher layers
//! subdivide and render. Only the combinatorial shell lives here; vertex
//! coordinates belong to the rendering layer outside this crate.

use vstd::prelude::*;

verus! {

/// How free a vertex is to move during subdivision smoothing.
#[derive(Clone, Copy, PartialEq, Eq, Structural, Debug)]
pub enum Boundary {
    /// Corner - no freedom to move.
    Zero,
    /// Edge - free to move along a line.
    One,
    /// Surface - free to move in space.
    Two,
    /// Volume - free to move in time and space.
    Three,
}

/// An n-cube recorded by its two opposite (n - 1)-cubes and its order.
#[derive(Clone, Copy, PartialEq, Eq, Structural, Debug)]
pub struct CubeN {
    pub n: u8,
    pub subcube_0: usize,
    pub subcube_1: usize,
}

/// A cubical surface element: a single vertex, or an n-cube.
#[derive(Clone, Copy, PartialEq, Eq, Structural, Debug)]
pub enum ElementData {
    Cube0(u16),
    CubeN(CubeN),
}

impl ElementData {
    /// The dimension of the element: zero for a point, the recorded order
    /// otherwise.
    pub fn order(&self) -> (r: u8)
        ensures
            *self matches ElementData::Cube0(_) ==> r == 0,
            *self matches ElementData::CubeN(c) ==> r == c.n,
    {
        match self {
            ElementData::Cube0(_) => 0,
            ElementData::CubeN(cube) => cube.n,
        }
    }
}

} // verus!
