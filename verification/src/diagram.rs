//! The diagram model: recursive diagrams, rewrites, cospans and cones.
//!
//! A diagram is either a zero-dimensional cell or a source diagram together
//! with an ordered run of cospans; a rewrite is either a zero-dimensional map
//! or a dimension together with an ordered run of cones. The engine that
//! builds and transforms these values is external; this crate stores,
//! compares and serializes them, so each type is plain data with a
//! mathematical view.

use vstd::prelude::*;

use crate::common::{Generator, Label, LabelV, Orientation};

verus! {

/// A zero-dimensional diagram: a generator with an orientation.
#[derive(Clone, Copy, PartialEq, Eq, Structural, Hash, Debug)]
pub struct Diagram0 {
    pub generator: Generator,
    pub orientation: Orientation,
}

/// A diagram: a point, or a source with a run of cospans.
pub enum Diagram {
    Diagram0(Diagram0),
    DiagramN(DiagramN),
}

/// A diagram of dimension at least one.
pub struct DiagramN {
    pub source: Box<Diagram>,
    pub cospans: Vec<Cospan>,
}

/// Two rewrites sharing a target, bounding one singular slice.
pub struct Cospan {
    pub forward: Rewrite,
    pub backward: Rewrite,
}

/// A rewrite: a zero-dimensional map, or a dimension with a run of cones.
pub enum Rewrite {
    Rewrite0(Rewrite0),
    RewriteN(RewriteN),
}

/// The two ends of a concrete zero-dimensional rewrite, with its optional
/// positional label.
pub struct Ends {
    pub source: Diagram0,
    pub target: Diagram0,
    pub label: Option<Label>,
}

/// A zero-dimensional rewrite: either the unit rewrite (no data) or a
/// concrete one with both ends present.
pub struct Rewrite0 {
    pub ends: Option<Ends>,
}

/// A rewrite of dimension at least one.
pub struct RewriteN {
    pub dimension: u64,
    pub cones: Vec<Cone>,
}

/// The atomic unit of an n-dimensional rewrite: a contiguous run of cospans
/// replaced by a single cospan, with its regular and singular slices.
pub struct Cone {
    pub index: u64,
    pub source: Vec<Cospan>,
    pub target: Cospan,
    pub regular_slices: Vec<Rewrite>,
    pub singular_slices: Vec<Rewrite>,
}

/// Mathematical value of a `Diagram`.
#[verifier::ext_equal]
pub enum DiagramV {
    D0(Diagram0),
    DN { source: Box<DiagramV>, cospans: Seq<CospanV> },
}

/// Mathematical value of a `Cospan`.
#[verifier::ext_equal]
pub struct CospanV {
    pub forward: RewriteV,
    pub backward: RewriteV,
}

/// Mathematical value of a `Rewrite`.
#[verifier::ext_equal]
pub enum RewriteV {
    R0(Option<EndsV>),
    RN { dimension: u64, cones: Seq<ConeV> },
}

/// Mathematical value of `Ends`.
#[verifier::ext_equal]
pub struct EndsV {
    pub source: Diagram0,
    pub target: Diagram0,
    pub label: Option<LabelV>,
}

/// Mathematical value of a `Cone`.
#[verifier::ext_equal]
pub struct ConeV {
    pub index: u64,
    pub source: Seq<CospanV>,
    pub target: Box<CospanV>,
    pub regular_slices: Seq<RewriteV>,
    pub singular_slices: Seq<RewriteV>,
}

pub open spec fn dview(d: Diagram) -> DiagramV
    decreases d,
{
    match d {
        Diagram::Diagram0(d0) => DiagramV::D0(d0),
        Diagram::DiagramN(dn) => DiagramV::DN {
            source: Box::new(dview(*dn.source)),
            cospans: cviews(dn.cospans@),
        },
    }
}

pub open spec fn cviews(s: Seq<Cospan>) -> Seq<CospanV>
    decreases s,
{
    if s.len() == 0 {
        Seq::empty()
    } else {
        cviews(s.drop_last()).push(cview(s.last()))
    }
}

pub open spec fn cview(c: Cospan) -> CospanV
    decreases c,
{
    CospanV { forward: rview(c.forward), backward: rview(c.backward) }
}

pub open spec fn rview(r: Rewrite) -> RewriteV
    decreases r,
{
    match r {
        Rewrite::Rewrite0(r0) => RewriteV::R0(
            match r0.ends {
                None => None,
                Some(e) => Some(
                    EndsV {
                        source: e.source,
                        target: e.target,
                        label: match e.label {
                            None => None,
                            Some(l) => Some(l@),
                        },
                    },
                ),
            },
        ),
        Rewrite::RewriteN(rn) => RewriteV::RN { dimension: rn.dimension, cones: kviews(rn.cones@) },
    }
}

pub open spec fn kviews(s: Seq<Cone>) -> Seq<ConeV>
    decreases s,
{
    if s.len() == 0 {
        Seq::empty()
    } else {
        kviews(s.drop_last()).push(kview(s.last()))
    }
}

pub open spec fn kview(k: Cone) -> ConeV
    decreases k,
{
    ConeV {
        index: k.index,
        source: cviews(k.source@),
        target: Box::new(cview(k.target)),
        regular_slices: rviews(k.regular_slices@),
        singular_slices: rviews(k.singular_slices@),
    }
}

pub open spec fn rviews(s: Seq<Rewrite>) -> Seq<RewriteV>
    decreases s,
{
    if s.len() == 0 {
        Seq::empty()
    } else {
        rviews(s.drop_last()).push(rview(s.last()))
    }
}

impl View for Diagram {
    type V = DiagramV;

    open spec fn view(&self) -> DiagramV {
        dview(*self)
    }
}

impl View for Cospan {
    type V = CospanV;

    open spec fn view(&self) -> CospanV {
        cview(*self)
    }
}

impl View for Rewrite {
    type V = RewriteV;

    open spec fn view(&self) -> RewriteV {
        rview(*self)
    }
}

impl View for Cone {
    type V = ConeV;

    open spec fn view(&self) -> ConeV {
        kview(*self)
    }
}

/// The view of a run of cospans is the run of their views, in order.
pub broadcast proof fn lemma_cviews(s: Seq<Cospan>)
    ensures
        (#[trigger] cviews(s)).len() == s.len(),
        forall|i: int| 0 <= i < s.len() ==> cviews(s)[i] == cview(s[i]),
    decreases s,
{
    if s.len() > 0 {
        lemma_cviews(s.drop_last());
    }
}

/// The view of a run of rewrites is the run of their views, in order.
pub broadcast proof fn lemma_rviews(s: Seq<Rewrite>)
    ensures
        (#[trigger] rviews(s)).len() == s.len(),
        forall|i: int| 0 <= i < s.len() ==> rviews(s)[i] == rview(s[i]),
    decreases s,
{
    if s.len() > 0 {
        lemma_rviews(s.drop_last());
    }
}

/// The view of a run of cones is the run of their views, in order.
pub broadcast proof fn lemma_kviews(s: Seq<Cone>)
    ensures
        (#[trigger] kviews(s)).len() == s.len(),
        forall|i: int| 0 <= i < s.len() ==> kviews(s)[i] == kview(s[i]),
    decreases s,
{
    if s.len() > 0 {
        lemma_kviews(s.drop_last());
    }
}

/// Dimension of a diagram value: zero for a point, one more than the source
/// otherwise.
pub open spec fn dimv(d: DiagramV) -> nat
    decreases d,
{
    match d {
        DiagramV::D0(_) => 0,
        DiagramV::DN { source, .. } => 1 + dimv(*source),
    }
}

/// Dimension clamped into a machine word; diagrams that deep cannot be built
/// in memory, but the clamp keeps the function total.
pub open spec fn dim64(d: DiagramV) -> u64 {
    if dimv(d) > u64::MAX {
        u64::MAX
    } else {
        dimv(d) as u64
    }
}

/// Computes the dimension of a diagram.
pub fn dimension(d: &Diagram) -> (r: u64)
    ensures
        r == dim64(d@),
    decreases *d,
{
    match d {
        Diagram::Diagram0(_) => 0,
        Diagram::DiagramN(dn) => {
            let s: u64 = dimension(&dn.source);
            if s == u64::MAX {
                u64::MAX
            } else {
                s + 1
            }
        },
    }
}

/// Decides structural equality of two diagrams.
pub fn eq_diagram(a: &Diagram, b: &Diagram) -> (r: bool)
    ensures
        r == (a@ == b@),
    decreases *a,
{
    match (a, b) {
        (Diagram::Diagram0(x), Diagram::Diagram0(y)) => (*x == *y),
        (Diagram::DiagramN(x), Diagram::DiagramN(y)) => {
            if !eq_diagram(&x.source, &y.source) {
                return false;
            }
            if x.cospans.len() != y.cospans.len() {
                proof {
                    lemma_cviews(x.cospans@);
                    lemma_cviews(y.cospans@);
                }
                return false;
            }
            let n: usize = x.cospans.len();
            let mut i: usize = 0;
            while i < n
                invariant
                    n == x.cospans@.len() == y.cospans@.len(),
                    0 <= i <= n,
                    *a == Diagram::DiagramN(*x),
                    *b == Diagram::DiagramN(*y),
                    forall|j: int| 0 <= j < i ==> cview(x.cospans@[j]) == cview(y.cospans@[j]),
                decreases n - i,
            {
                if !eq_cospan(&x.cospans[i], &y.cospans[i]) {
                    proof {
                        lemma_cviews(x.cospans@);
                        lemma_cviews(y.cospans@);
                        if a@ == b@ {
                            assert(cviews(x.cospans@) == cviews(y.cospans@));
                            assert(cviews(x.cospans@)[i as int] == cviews(y.cospans@)[i as int]);
                            assert(false);
                        }
                    }
                    return false;
                }
                i = i + 1;
            }
            proof {
                lemma_cviews(x.cospans@);
                lemma_cviews(y.cospans@);
                assert(cviews(x.cospans@) =~= cviews(y.cospans@));
                assert(a@ =~= b@);
            }
            true
        },
        _ => false,
    }
}

/// Decides structural equality of two cospans.
pub fn eq_cospan(a: &Cospan, b: &Cospan) -> (r: bool)
    ensures
        r == (a@ == b@),
    decreases *a,
{
    let fwd = eq_rewrite(&a.forward, &b.forward);
    if !fwd {
        return false;
    }
    let bwd = eq_rewrite(&a.backward, &b.backward);
    if !bwd {
        return false;
    }
    proof {
        assert(a@ =~= b@);
    }
    true
}

/// Decides structural equality of two rewrites.
pub fn eq_rewrite(a: &Rewrite, b: &Rewrite) -> (r: bool)
    ensures
        r == (a@ == b@),
    decreases *a,
{
    match (a, b) {
        (Rewrite::Rewrite0(x), Rewrite::Rewrite0(y)) => {
            match (&x.ends, &y.ends) {
                (None, None) => true,
                (Some(ex), Some(ey)) => {
                    if !(ex.source == ey.source && ex.target == ey.target) {
                        return false;
                    }
                    match (&ex.label, &ey.label) {
                        (None, None) => {
                            proof {
                                assert(a@ =~= b@);
                            }
                            true
                        },
                        (Some(lx), Some(ly)) => {
                            let r = crate::common::eq_label(lx, ly);
                            proof {
                                if lx@ == ly@ {
                                    assert(a@ =~= b@);
                                }
                            }
                            r
                        },
                        _ => false,
                    }
                },
                _ => false,
            }
        },
        (Rewrite::RewriteN(x), Rewrite::RewriteN(y)) => {
            if x.dimension != y.dimension {
                return false;
            }
            if x.cones.len() != y.cones.len() {
                proof {
                    lemma_kviews(x.cones@);
                    lemma_kviews(y.cones@);
                }
                return false;
            }
            let n: usize = x.cones.len();
            let mut i: usize = 0;
            while i < n
                invariant
                    n == x.cones@.len() == y.cones@.len(),
                    0 <= i <= n,
                    *a == Rewrite::RewriteN(*x),
                    *b == Rewrite::RewriteN(*y),
                    forall|j: int| 0 <= j < i ==> kview(x.cones@[j]) == kview(y.cones@[j]),
                decreases n - i,
            {
                proof {
                    assert(decreases_to!(*a => a->RewriteN_0));
                    assert(a->RewriteN_0 == *x);
                    assert(decreases_to!(*a => *x));
                    assert(decreases_to!(*x => x.cones));
                    assert(decreases_to!(x.cones => x.cones@));
                    assert(decreases_to!(x.cones@ => x.cones@[i as int]));
                    assert(decreases_to!(*a => x.cones@[i as int]));
                }
                if !eq_cone(&x.cones[i], &y.cones[i]) {
                    proof {
                        lemma_kviews(x.cones@);
                        lemma_kviews(y.cones@);
                        if a@ == b@ {
                            assert(kviews(x.cones@) == kviews(y.cones@));
                            assert(kviews(x.cones@)[i as int] == kviews(y.cones@)[i as int]);
                            assert(false);
                        }
                    }
                    return false;
                }
                i = i + 1;
            }
            proof {
                lemma_kviews(x.cones@);
                lemma_kviews(y.cones@);
                assert(kviews(x.cones@) =~= kviews(y.cones@));
                assert(a@ =~= b@);
            }
            true
        },
        _ => false,
    }
}

/// Decides structural equality of two cones.
pub fn eq_cone(a: &Cone, b: &Cone) -> (r: bool)
    ensures
        r == (a@ == b@),
    decreases *a,
{
    if a.index != b.index {
        return false;
    }
    if !eq_cospan(&a.target, &b.target) {
        return false;
    }
    if a.source.len() != b.source.len() {
        proof {
            lemma_cviews(a.source@);
            lemma_cviews(b.source@);
        }
        return false;
    }
    let n: usize = a.source.len();
    let mut i: usize = 0;
    while i < n
        invariant
            n == a.source@.len() == b.source@.len(),
            0 <= i <= n,
            forall|j: int| 0 <= j < i ==> cview(a.source@[j]) == cview(b.source@[j]),
        decreases n - i,
    {
        if !eq_cospan(&a.source[i], &b.source[i]) {
            proof {
                lemma_cviews(a.source@);
                lemma_cviews(b.source@);
                if a@ == b@ {
                    assert(cviews(a.source@) == cviews(b.source@));
                    assert(cviews(a.source@)[i as int] == cviews(b.source@)[i as int]);
                    assert(false);
                }
            }
            return false;
        }
        i = i + 1;
    }
    if a.regular_slices.len() != b.regular_slices.len() {
        proof {
            lemma_rviews(a.regular_slices@);
            lemma_rviews(b.regular_slices@);
        }
        return false;
    }
    let nr: usize = a.regular_slices.len();
    let mut ir: usize = 0;
    while ir < nr
        invariant
            nr == a.regular_slices@.len() == b.regular_slices@.len(),
            0 <= ir <= nr,
            forall|j: int|
                0 <= j < ir ==> rview(a.regular_slices@[j]) == rview(b.regular_slices@[j]),
        decreases nr - ir,
    {
        if !eq_rewrite(&a.regular_slices[ir], &b.regular_slices[ir]) {
            proof {
                lemma_rviews(a.regular_slices@);
                lemma_rviews(b.regular_slices@);
                if a@ == b@ {
                    assert(rviews(a.regular_slices@) == rviews(b.regular_slices@));
                    assert(rviews(a.regular_slices@)[ir as int] == rviews(
                        b.regular_slices@,
                    )[ir as int]);
                    assert(false);
                }
            }
            return false;
        }
        ir = ir + 1;
    }
    if a.singular_slices.len() != b.singular_slices.len() {
        proof {
            lemma_rviews(a.singular_slices@);
            lemma_rviews(b.singular_slices@);
        }
        return false;
    }
    let ns: usize = a.singular_slices.len();
    let mut is_: usize = 0;
    while is_ < ns
        invariant
            ns == a.singular_slices@.len() == b.singular_slices@.len(),
            0 <= is_ <= ns,
            forall|j: int|
                0 <= j < is_ ==> rview(a.singular_slices@[j]) == rview(b.singular_slices@[j]),
        decreases ns - is_,
    {
        if !eq_rewrite(&a.singular_slices[is_], &b.singular_slices[is_]) {
            proof {
                lemma_rviews(a.singular_slices@);
                lemma_rviews(b.singular_slices@);
                if a@ == b@ {
                    assert(rviews(a.singular_slices@) == rviews(b.singular_slices@));
                    assert(rviews(a.singular_slices@)[is_ as int] == rviews(
                        b.singular_slices@,
                    )[is_ as int]);
                    assert(false);
                }
            }
            return false;
        }
        is_ = is_ + 1;
    }
    proof {
        lemma_cviews(a.source@);
        lemma_cviews(b.source@);
        lemma_rviews(a.regular_slices@);
        lemma_rviews(b.regular_slices@);
        lemma_rviews(a.singular_slices@);
        lemma_rviews(b.singular_slices@);
        assert(cviews(a.source@) =~= cviews(b.source@));
        assert(rviews(a.regular_slices@) =~= rviews(b.regular_slices@));
        assert(rviews(a.singular_slices@) =~= rviews(b.singular_slices@));
        assert(a@ =~= b@);
    }
    true
}

/// Copies a diagram; the copy denotes the same mathematical value.
pub fn clone_diagram(a: &Diagram) -> (r: Diagram)
    ensures
        r@ == a@,
    decreases *a,
{
    match a {
        Diagram::Diagram0(d0) => Diagram::Diagram0(*d0),
        Diagram::DiagramN(dn) => {
            let source = Box::new(clone_diagram(&dn.source));
            let mut cospans: Vec<Cospan> = Vec::new();
            let n: usize = dn.cospans.len();
            let mut i: usize = 0;
            while i < n
                invariant
                    n == dn.cospans@.len(),
                    0 <= i <= n,
                    cospans@.len() == i,
                    *a == Diagram::DiagramN(*dn),
                    forall|j: int| 0 <= j < i ==> cview(cospans@[j]) == cview(dn.cospans@[j]),
                decreases n - i,
            {
                cospans.push(clone_cospan(&dn.cospans[i]));
                i = i + 1;
            }
            let r = Diagram::DiagramN(DiagramN { source, cospans });
            proof {
                lemma_cviews(dn.cospans@);
                match &r {
                    Diagram::DiagramN(rn) => {
                        lemma_cviews(rn.cospans@);
                        assert(cviews(rn.cospans@) =~= cviews(dn.cospans@));
                    },
                    _ => {},
                }
                assert(r@ =~= a@);
            }
            r
        },
    }
}

/// Copies a cospan; the copy denotes the same mathematical value.
pub fn clone_cospan(a: &Cospan) -> (r: Cospan)
    ensures
        r@ == a@,
    decreases *a,
{
    let r = Cospan {
        forward: clone_rewrite(&a.forward),
        backward: clone_rewrite(&a.backward),
    };
    proof {
        assert(r@ =~= a@);
    }
    r
}

/// Copies a rewrite; the copy denotes the same mathematical value.
pub fn clone_rewrite(a: &Rewrite) -> (r: Rewrite)
    ensures
        r@ == a@,
    decreases *a,
{
    match a {
        Rewrite::Rewrite0(r0) => {
            let ends = match &r0.ends {
                None => None,
                Some(e) => Some(
                    Ends {
                        source: e.source,
                        target: e.target,
                        label: match &e.label {
                            None => None,
                            Some(l) => Some(crate::common::clone_label(l)),
                        },
                    },
                ),
            };
            let r = Rewrite::Rewrite0(Rewrite0 { ends });
            proof {
                assert(r@ =~= a@);
            }
            r
        },
        Rewrite::RewriteN(rn) => {
            let mut cones: Vec<Cone> = Vec::new();
            let n: usize = rn.cones.len();
            let mut i: usize = 0;
            while i < n
                invariant
                    n == rn.cones@.len(),
                    0 <= i <= n,
                    cones@.len() == i,
                    *a == Rewrite::RewriteN(*rn),
                    forall|j: int| 0 <= j < i ==> kview(cones@[j]) == kview(rn.cones@[j]),
                decreases n - i,
            {
                proof {
                    assert(decreases_to!(*a => a->RewriteN_0));
                    assert(a->RewriteN_0 == *rn);
                    assert(decreases_to!(*a => *rn));
                    assert(decreases_to!(*rn => rn.cones));
                    assert(decreases_to!(rn.cones => rn.cones@));
                    assert(decreases_to!(rn.cones@ => rn.cones@[i as int]));
                    assert(decreases_to!(*a => rn.cones@[i as int]));
                }
                cones.push(clone_cone(&rn.cones[i]));
                i = i + 1;
            }
            let r = Rewrite::RewriteN(RewriteN { dimension: rn.dimension, cones });
            proof {
                lemma_kviews(rn.cones@);
                match &r {
                    Rewrite::RewriteN(rr) => {
                        lemma_kviews(rr.cones@);
                        assert(kviews(rr.cones@) =~= kviews(rn.cones@));
                    },
                    _ => {},
                }
                assert(r@ =~= a@);
            }
            r
        },
    }
}

/// Copies a cone; the copy denotes the same mathematical value.
pub fn clone_cone(a: &Cone) -> (r: Cone)
    ensures
        r@ == a@,
    decreases *a,
{
    let target = clone_cospan(&a.target);
    let mut source: Vec<Cospan> = Vec::new();
    let n: usize = a.source.len();
    let mut i: usize = 0;
    while i < n
        invariant
            n == a.source@.len(),
            0 <= i <= n,
            source@.len() == i,
            forall|j: int| 0 <= j < i ==> cview(source@[j]) == cview(a.source@[j]),
        decreases n - i,
    {
        source.push(clone_cospan(&a.source[i]));
        i = i + 1;
    }
    let mut regular_slices: Vec<Rewrite> = Vec::new();
    let nr: usize = a.regular_slices.len();
    let mut ir: usize = 0;
    while ir < nr
        invariant
            nr == a.regular_slices@.len(),
            0 <= ir <= nr,
            regular_slices@.len() == ir,
            forall|j: int|
                0 <= j < ir ==> rview(regular_slices@[j]) == rview(a.regular_slices@[j]),
        decreases nr - ir,
    {
        regular_slices.push(clone_rewrite(&a.regular_slices[ir]));
        ir = ir + 1;
    }
    let mut singular_slices: Vec<Rewrite> = Vec::new();
    let ns: usize = a.singular_slices.len();
    let mut is_: usize = 0;
    while is_ < ns
        invariant
            ns == a.singular_slices@.len(),
            0 <= is_ <= ns,
            singular_slices@.len() == is_,
            forall|j: int|
                0 <= j < is_ ==> rview(singular_slices@[j]) == rview(a.singular_slices@[j]),
        decreases ns - is_,
    {
        singular_slices.push(clone_rewrite(&a.singular_slices[is_]));
        is_ = is_ + 1;
    }
    let r = Cone { index: a.index, source, target, regular_slices, singular_slices };
    proof {
        lemma_cviews(a.source@);
        lemma_cviews(r.source@);
        lemma_rviews(a.regular_slices@);
        lemma_rviews(r.regular_slices@);
        lemma_rviews(a.singular_slices@);
        lemma_rviews(r.singular_slices@);
        assert(cviews(r.source@) =~= cviews(a.source@));
        assert(rviews(r.regular_slices@) =~= rviews(a.regular_slices@));
        assert(rviews(r.singular_slices@) =~= rviews(a.singular_slices@));
        assert(r@ =~= a@);
    }
    r
}

} // verus!
