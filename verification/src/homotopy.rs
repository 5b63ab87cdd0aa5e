//! Homotopy moves: the contraction and expansion actions a user performs on
//! a diagram, recorded so that sessions can be replayed.

use vstd::prelude::*;

use crate::common::{Direction, SliceIndex};

verus! {

/// A preference between the two candidate factorizations of a contraction.
#[derive(Clone, Copy, PartialEq, Eq, Structural, Hash, Debug)]
pub enum Bias {
    Higher,
    Lower,
}

/// A contraction move: merge two adjacent singular levels.
#[derive(Clone, Debug)]
pub struct Contract {
    pub bias: Option<Bias>,
    pub location: Vec<SliceIndex>,
    pub height: u64,
    pub direction: Direction,
}

/// An expansion move: pull two coincident singular levels apart.
#[derive(Clone, Debug)]
pub struct Expand {
    pub location: Vec<SliceIndex>,
    pub direction: Direction,
}

/// A homotopy move.
#[derive(Clone, Debug)]
pub enum Homotopy {
    Contract(Contract),
    Expand(Expand),
}

/// Mathematical value of a `Contract`.
#[verifier::ext_equal]
pub struct ContractV {
    pub bias: Option<Bias>,
    pub location: Seq<SliceIndex>,
    pub height: u64,
    pub direction: Direction,
}

/// Mathematical value of an `Expand`.
#[verifier::ext_equal]
pub struct ExpandV {
    pub location: Seq<SliceIndex>,
    pub direction: Direction,
}

/// Mathematical value of a `Homotopy`.
#[verifier::ext_equal]
pub enum HomotopyV {
    Contract(ContractV),
    Expand(ExpandV),
}

impl View for Contract {
    type V = ContractV;

    open spec fn view(&self) -> ContractV {
        ContractV {
            bias: self.bias,
            location: self.location@,
            height: self.height,
            direction: self.direction,
        }
    }
}

impl View for Expand {
    type V = ExpandV;

    open spec fn view(&self) -> ExpandV {
        ExpandV { location: self.location@, direction: self.direction }
    }
}

impl View for Homotopy {
    type V = HomotopyV;

    open spec fn view(&self) -> HomotopyV {
        match *self {
            Homotopy::Contract(ref c) => HomotopyV::Contract(c@),
            Homotopy::Expand(ref e) => HomotopyV::Expand(e@),
        }
    }
}

/// Compares two runs of slice indices.
pub fn eq_slice_indices(a: &Vec<SliceIndex>, b: &Vec<SliceIndex>) -> (r: bool)
    ensures
        r == (a@ == b@),
{
    if a.len() != b.len() {
        return false;
    }
    let n: usize = a.len();
    let mut i: usize = 0;
    while i < n
        invariant
            n == a@.len() == b@.len(),
            0 <= i <= n,
            forall|j: int| 0 <= j < i ==> a@[j] == b@[j],
        decreases n - i,
    {
        if !(a[i] == b[i]) {
            return false;
        }
        i = i + 1;
    }
    proof {
        assert(a@ =~= b@);
    }
    true
}

/// Decides whether two homotopy moves are the same move.
pub fn eq_homotopy(a: &Homotopy, b: &Homotopy) -> (r: bool)
    ensures
        r == (a@ == b@),
{
    match (a, b) {
        (Homotopy::Contract(x), Homotopy::Contract(y)) => {
            let loc = eq_slice_indices(&x.location, &y.location);
            let bias_eq = match (&x.bias, &y.bias) {
                (None, None) => true,
                (Some(p), Some(q)) => (*p == *q),
                _ => false,
            };
            let r = loc && bias_eq && x.height == y.height && x.direction == y.direction;
            proof {
                if r {
                    assert(x@ =~= y@);
                }
            }
            r
        },
        (Homotopy::Expand(x), Homotopy::Expand(y)) => {
            let loc = eq_slice_indices(&x.location, &y.location);
            let r = loc && x.direction == y.direction;
            proof {
                if r {
                    assert(x@ =~= y@);
                }
            }
            r
        },
        _ => false,
    }
}

/// Copies a homotopy move; the copy denotes the same move.
pub fn clone_homotopy(a: &Homotopy) -> (r: Homotopy)
    ensures
        r@ == a@,
{
    match a {
        Homotopy::Contract(x) => {
            let r = Homotopy::Contract(
                Contract {
                    bias: x.bias,
                    location: clone_slice_indices(&x.location),
                    height: x.height,
                    direction: x.direction,
                },
            );
            proof {
                assert(r@ =~= a@);
            }
            r
        },
        Homotopy::Expand(x) => {
            let r = Homotopy::Expand(
                Expand { location: clone_slice_indices(&x.location), direction: x.direction },
            );
            proof {
                assert(r@ =~= a@);
            }
            r
        },
    }
}

/// Copies a run of slice indices.
pub fn clone_slice_indices(a: &Vec<SliceIndex>) -> (r: Vec<SliceIndex>)
    ensures
        r@ == a@,
{
    let mut out: Vec<SliceIndex> = Vec::new();
    let n: usize = a.len();
    let mut i: usize = 0;
    while i < n
        invariant
            n == a@.len(),
            0 <= i <= n,
            out@.len() == i,
            forall|j: int| 0 <= j < i ==> out@[j] == a@[j],
        decreases n - i,
    {
        out.push(a[i]);
        i = i + 1;
    }
    proof {
        assert(out@ =~= a@);
    }
    out
}

} // verus!
