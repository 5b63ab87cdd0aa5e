//! Content-addressed, deduplicating store for diagram graphs.
//!
//! Packing turns a structurally shared graph of diagrams, rewrites and cones
//! into flat tables of canonical records, where records reference children
//! only by 128-bit content keys; unpacking reconstructs live values from the
//! tables. A value's key is the hash of its canonical record bytes, so the
//! key depends on the value's structure alone: equal values receive equal
//! keys in any store, which is what deduplicates the tables.

use vstd::prelude::*;

use highway::HighwayHash;

use crate::common::{Generator, Height, Label, LabelV, Orientation, Side};
use crate::diagram::{
    cview, cviews, dim64, dview, kview, kviews, rview, rviews, Cone, ConeV, Cospan, CospanV,
    Diagram, Diagram0, DiagramN, DiagramV, Ends, EndsV, Rewrite, Rewrite0, RewriteN, RewriteV,
};

verus! {

/// The raw 128 bits of a content key.
pub type KeyBits = (u64, u64);

/// A content key for a value of kind `K`: derived purely from the value's
/// canonical content, and phantom-tagged so keys of different kinds cannot
/// be interchanged.
#[verifier::reject_recursive_types(K)]
pub struct Key<K> {
    pub bits: KeyBits,
    pub kind: core::marker::PhantomData<K>,
}

impl<K> View for Key<K> {
    type V = KeyBits;

    open spec fn view(&self) -> KeyBits {
        self.bits
    }
}

impl<K> Key<K> {
    /// Wraps raw bits as a key of kind `K`.
    pub fn new(bits: KeyBits) -> (r: Self)
        ensures
            r@ == bits,
    {
        Key { bits, kind: core::marker::PhantomData }
    }
}

impl<K> Clone for Key<K> {
    fn clone(&self) -> (r: Self)
        ensures
            r@ == self@,
    {
        Key { bits: self.bits, kind: core::marker::PhantomData }
    }
}

/// Canonical record of a cospan: the keys of its two rewrites.
#[derive(Clone, Copy)]
pub struct CospanRec {
    pub forward: KeyBits,
    pub backward: KeyBits,
}

/// Canonical record of a diagram; children are referenced by key only.
pub enum DiagramRec {
    D0 { generator: Generator, orientation: Orientation },
    DN { dimension: u64, source: KeyBits, cospans: Vec<CospanRec> },
}

/// Canonical record of a rewrite; cones are referenced by key, each paired
/// with its position index.
pub enum RewriteRec {
    R0 { source: Option<Diagram0>, target: Option<Diagram0>, label: Option<Label> },
    RN { dimension: u64, cones: Vec<ConeIndexRec> },
}

/// A cone key together with the cospan position the cone acts at.
#[derive(Clone, Copy)]
pub struct ConeIndexRec {
    pub index: u64,
    pub cone: KeyBits,
}

/// Canonical record of a cone; slices are referenced by key only.
pub struct ConeRec {
    pub source: Vec<CospanRec>,
    pub target: CospanRec,
    pub regular_slices: Vec<KeyBits>,
    pub singular_slices: Vec<KeyBits>,
}

/// Mathematical value of a `DiagramRec`.
#[verifier::ext_equal]
pub enum DiagramRecV {
    D0 { generator: Generator, orientation: Orientation },
    DN { dimension: u64, source: KeyBits, cospans: Seq<CospanRec> },
}

/// Mathematical value of a `RewriteRec`.
#[verifier::ext_equal]
pub enum RewriteRecV {
    R0 { source: Option<Diagram0>, target: Option<Diagram0>, label: Option<LabelV> },
    RN { dimension: u64, cones: Seq<ConeIndexRec> },
}

/// Mathematical value of a `ConeRec`.
#[verifier::ext_equal]
pub struct ConeRecV {
    pub source: Seq<CospanRec>,
    pub target: CospanRec,
    pub regular_slices: Seq<KeyBits>,
    pub singular_slices: Seq<KeyBits>,
}

impl View for DiagramRec {
    type V = DiagramRecV;

    open spec fn view(&self) -> DiagramRecV {
        match *self {
            DiagramRec::D0 { generator, orientation } => DiagramRecV::D0 {
                generator,
                orientation,
            },
            DiagramRec::DN { dimension, source, ref cospans } => DiagramRecV::DN {
                dimension,
                source,
                cospans: cospans@,
            },
        }
    }
}

impl View for RewriteRec {
    type V = RewriteRecV;

    open spec fn view(&self) -> RewriteRecV {
        match *self {
            RewriteRec::R0 { source, target, ref label } => RewriteRecV::R0 {
                source,
                target,
                label: match *label {
                    None => None,
                    Some(ref l) => Some(l@),
                },
            },
            RewriteRec::RN { dimension, ref cones } => RewriteRecV::RN {
                dimension,
                cones: cones@,
            },
        }
    }
}

impl View for ConeRec {
    type V = ConeRecV;

    open spec fn view(&self) -> ConeRecV {
        ConeRecV {
            source: self.source@,
            target: self.target,
            regular_slices: self.regular_slices@,
            singular_slices: self.singular_slices@,
        }
    }
}

/// The 128-bit structural fingerprint of a byte string, as computed by the
/// HighwayHash function under its all-zero default key. The output depends
/// on the bytes alone: the algorithm is hardware-agnostic and keyed only by
/// its explicit key.
pub uninterp spec fn hash128_of(bytes: Seq<u8>) -> KeyBits;

/// Relies on `highway::HighwayHasher` with `highway::Key::default()` and
/// `HighwayHash::finalize128`: a 128-bit hash that is a function of the
/// input bytes alone, identical on every platform.
#[verifier::external_body]
fn highway_hash128(bytes: &Vec<u8>) -> (r: KeyBits)
    ensures
        r == hash128_of(bytes@),
{
    let mut h = highway::HighwayHasher::default();
    h.append(bytes.as_slice());
    let out = h.finalize128();
    (out[0], out[1])
}

/// Little-endian bytes of a machine word.
pub open spec fn enc_u64(x: u64) -> Seq<u8> {
    seq![
        (x & 0xff) as u8,
        ((x >> 8) & 0xff) as u8,
        ((x >> 16) & 0xff) as u8,
        ((x >> 24) & 0xff) as u8,
        ((x >> 32) & 0xff) as u8,
        ((x >> 40) & 0xff) as u8,
        ((x >> 48) & 0xff) as u8,
        ((x >> 56) & 0xff) as u8,
    ]
}

/// Bytes of a content key.
pub open spec fn enc_bits(k: KeyBits) -> Seq<u8> {
    enc_u64(k.0) + enc_u64(k.1)
}

/// Byte tag of an orientation.
pub open spec fn enc_orientation(o: Orientation) -> Seq<u8> {
    match o {
        Orientation::Negative => seq![0u8],
        Orientation::Zero => seq![1u8],
        Orientation::Positive => seq![2u8],
    }
}

/// Bytes of a zero-dimensional diagram.
pub open spec fn enc_d0(d: Diagram0) -> Seq<u8> {
    enc_u64(d.generator.id) + enc_u64(d.generator.dimension) + enc_orientation(d.orientation)
}

/// Bytes of an optional zero-dimensional diagram.
pub open spec fn enc_opt_d0(d: Option<Diagram0>) -> Seq<u8> {
    match d {
        None => seq![0u8],
        Some(x) => seq![1u8] + enc_d0(x),
    }
}

/// Bytes of a height.
pub open spec fn enc_height(h: Height) -> Seq<u8> {
    match h {
        Height::Regular(n) => seq![0u8] + enc_u64(n),
        Height::Singular(n) => seq![1u8] + enc_u64(n),
    }
}

/// Bytes of a run of heights.
pub open spec fn enc_heights(s: Seq<Height>) -> Seq<u8>
    decreases s,
{
    if s.len() == 0 {
        Seq::empty()
    } else {
        enc_heights(s.drop_last()) + enc_height(s.last())
    }
}

/// Bytes of an optional positional label.
pub open spec fn enc_opt_label(l: Option<LabelV>) -> Seq<u8> {
    match l {
        None => seq![0u8],
        Some(lv) => seq![1u8] + (match lv.path.side {
            Side::Source => seq![0u8],
            Side::Target => seq![1u8],
        }) + enc_u64(lv.path.depth) + enc_u64(lv.coords.len() as u64) + enc_heights(lv.coords),
    }
}

/// Bytes of a run of cospan records.
pub open spec fn enc_cospanrecs(s: Seq<CospanRec>) -> Seq<u8>
    decreases s,
{
    if s.len() == 0 {
        Seq::empty()
    } else {
        enc_cospanrecs(s.drop_last()) + enc_bits(s.last().forward) + enc_bits(s.last().backward)
    }
}

/// Bytes of a run of cone references.
pub open spec fn enc_coneindexrecs(s: Seq<ConeIndexRec>) -> Seq<u8>
    decreases s,
{
    if s.len() == 0 {
        Seq::empty()
    } else {
        enc_coneindexrecs(s.drop_last()) + enc_u64(s.last().index) + enc_bits(s.last().cone)
    }
}

/// Bytes of a run of content keys.
pub open spec fn enc_bits_seq(s: Seq<KeyBits>) -> Seq<u8>
    decreases s,
{
    if s.len() == 0 {
        Seq::empty()
    } else {
        enc_bits_seq(s.drop_last()) + enc_bits(s.last())
    }
}

/// Canonical bytes of a diagram record. The stored dimension is derivable
/// from the source, so it does not enter the hash.
pub open spec fn drec_bytes(r: DiagramRecV) -> Seq<u8> {
    match r {
        DiagramRecV::D0 { generator, orientation } => seq![0u8] + enc_d0(
            Diagram0 { generator, orientation },
        ),
        DiagramRecV::DN { dimension, source, cospans } => seq![1u8] + enc_bits(source) + enc_u64(
            cospans.len() as u64,
        ) + enc_cospanrecs(cospans),
    }
}

/// Canonical bytes of a rewrite record.
pub open spec fn rrec_bytes(r: RewriteRecV) -> Seq<u8> {
    match r {
        RewriteRecV::R0 { source, target, label } => seq![0u8] + enc_opt_d0(source) + enc_opt_d0(
            target,
        ) + enc_opt_label(label),
        RewriteRecV::RN { dimension, cones } => seq![1u8] + enc_u64(dimension) + enc_u64(
            cones.len() as u64,
        ) + enc_coneindexrecs(cones),
    }
}

/// Canonical bytes of a cone record.
pub open spec fn krec_bytes(r: ConeRecV) -> Seq<u8> {
    enc_u64(r.source.len() as u64) + enc_cospanrecs(r.source) + enc_bits(r.target.forward)
        + enc_bits(r.target.backward) + enc_u64(r.regular_slices.len() as u64) + enc_bits_seq(
        r.regular_slices,
    ) + enc_u64(r.singular_slices.len() as u64) + enc_bits_seq(r.singular_slices)
}

/// The content key of a rewrite value: the hash of its canonical record.
pub open spec fn rkey(r: RewriteV) -> KeyBits
    decreases r, 1int,
{
    hash128_of(rbytes(r))
}

/// Canonical record bytes of a rewrite value.
pub open spec fn rbytes(r: RewriteV) -> Seq<u8>
    decreases r, 0int,
{
    match r {
        RewriteV::R0(ends) => seq![0u8] + (match ends {
            None => seq![0u8] + seq![0u8] + seq![0u8],
            Some(e) => (seq![1u8] + enc_d0(e.source)) + (seq![1u8] + enc_d0(e.target))
                + enc_opt_label(e.label),
        }),
        RewriteV::RN { dimension, cones } => seq![1u8] + enc_u64(dimension) + enc_u64(
            cones.len() as u64,
        ) + conekeys_bytes(cones),
    }
}

/// Per-cone contribution of a run of cones: each position index with the
/// cone's content key.
pub open spec fn conekeys_bytes(s: Seq<ConeV>) -> Seq<u8>
    decreases s,
{
    if s.len() == 0 {
        Seq::empty()
    } else {
        conekeys_bytes(s.drop_last()) + enc_u64(s.last().index) + enc_bits(kkey(s.last()))
    }
}

/// The content key of a cone value: the hash of its canonical record.
pub open spec fn kkey(k: ConeV) -> KeyBits
    decreases k, 1int,
{
    hash128_of(kbytes(k))
}

/// Canonical record bytes of a cone value.
pub open spec fn kbytes(k: ConeV) -> Seq<u8>
    decreases k, 0int,
{
    enc_u64(k.source.len() as u64) + cospankeys_bytes(k.source) + enc_bits(rkey((*k.target).forward))
        + enc_bits(rkey((*k.target).backward)) + enc_u64(k.regular_slices.len() as u64)
        + rewritekeys_bytes(k.regular_slices) + enc_u64(k.singular_slices.len() as u64)
        + rewritekeys_bytes(k.singular_slices)
}

/// Per-cospan contribution of a run of cospans: the keys of the two rewrites.
pub open spec fn cospankeys_bytes(s: Seq<CospanV>) -> Seq<u8>
    decreases s,
{
    if s.len() == 0 {
        Seq::empty()
    } else {
        cospankeys_bytes(s.drop_last()) + enc_bits(rkey(s.last().forward)) + enc_bits(
            rkey(s.last().backward),
        )
    }
}

/// Per-rewrite contribution of a run of rewrites: their content keys.
pub open spec fn rewritekeys_bytes(s: Seq<RewriteV>) -> Seq<u8>
    decreases s,
{
    if s.len() == 0 {
        Seq::empty()
    } else {
        rewritekeys_bytes(s.drop_last()) + enc_bits(rkey(s.last()))
    }
}

/// The content key of a diagram value: the hash of its canonical record.
pub open spec fn dkey(d: DiagramV) -> KeyBits
    decreases d, 1int,
{
    hash128_of(dbytes(d))
}

/// Canonical record bytes of a diagram value.
pub open spec fn dbytes(d: DiagramV) -> Seq<u8>
    decreases d, 0int,
{
    match d {
        DiagramV::D0(d0) => seq![0u8] + enc_d0(d0),
        DiagramV::DN { source, cospans } => seq![1u8] + enc_bits(dkey(*source)) + enc_u64(
            cospans.len() as u64,
        ) + cospankeys_bytes(cospans),
    }
}


/// Appends the little-endian bytes of a machine word.
fn push_u64(out: &mut Vec<u8>, x: u64)
    ensures
        final(out)@ == old(out)@ + enc_u64(x),
{
    proof {
        assert((x & 0xff) < 256 && ((x >> 8) & 0xff) < 256 && ((x >> 16) & 0xff) < 256 && ((x
            >> 24) & 0xff) < 256 && ((x >> 32) & 0xff) < 256 && ((x >> 40) & 0xff) < 256 && ((x
            >> 48) & 0xff) < 256 && ((x >> 56) & 0xff) < 256) by (bit_vector);
    }
    out.push((x & 0xff) as u8);
    out.push(((x >> 8) & 0xff) as u8);
    out.push(((x >> 16) & 0xff) as u8);
    out.push(((x >> 24) & 0xff) as u8);
    out.push(((x >> 32) & 0xff) as u8);
    out.push(((x >> 40) & 0xff) as u8);
    out.push(((x >> 48) & 0xff) as u8);
    out.push(((x >> 56) & 0xff) as u8);
    proof {
        assert(out@ =~= old(out)@ + enc_u64(x));
    }
}

/// Appends the bytes of a content key.
fn push_bits(out: &mut Vec<u8>, k: KeyBits)
    ensures
        final(out)@ == old(out)@ + enc_bits(k),
{
    push_u64(out, k.0);
    push_u64(out, k.1);
    proof {
        assert(out@ =~= old(out)@ + enc_bits(k));
    }
}

/// Appends the bytes of a zero-dimensional diagram.
fn push_d0(out: &mut Vec<u8>, d: Diagram0)
    ensures
        final(out)@ == old(out)@ + enc_d0(d),
{
    push_u64(out, d.generator.id);
    push_u64(out, d.generator.dimension);
    match d.orientation {
        Orientation::Negative => out.push(0u8),
        Orientation::Zero => out.push(1u8),
        Orientation::Positive => out.push(2u8),
    }
    proof {
        assert(out@ =~= old(out)@ + enc_d0(d));
    }
}

/// Appends the bytes of an optional zero-dimensional diagram.
fn push_opt_d0(out: &mut Vec<u8>, d: &Option<Diagram0>)
    ensures
        final(out)@ == old(out)@ + enc_opt_d0(*d),
{
    match d {
        None => {
            out.push(0u8);
        },
        Some(x) => {
            out.push(1u8);
            push_d0(out, *x);
        },
    }
    proof {
        assert(out@ =~= old(out)@ + enc_opt_d0(*d));
    }
}

/// Appends the bytes of an optional positional label.
fn push_opt_label(out: &mut Vec<u8>, l: &Option<Label>)
    ensures
        final(out)@ == old(out)@ + enc_opt_label(
            match *l {
                None => None,
                Some(ref lv) => Some(lv@),
            },
        ),
{
    match l {
        None => {
            out.push(0u8);
            proof {
                assert(out@ =~= old(out)@ + enc_opt_label(None));
            }
        },
        Some(lv) => {
            out.push(1u8);
            match lv.path.side {
                Side::Source => out.push(0u8),
                Side::Target => out.push(1u8),
            }
            push_u64(out, lv.path.depth);
            push_u64(out, lv.coords.len() as u64);
            let n: usize = lv.coords.len();
            let mut i: usize = 0;
            while i < n
                invariant
                    n == lv.coords@.len(),
                    0 <= i <= n,
                    out@ == old(out)@ + seq![1u8] + (match lv.path.side {
                        Side::Source => seq![0u8],
                        Side::Target => seq![1u8],
                    }) + enc_u64(lv.path.depth) + enc_u64(lv.coords@.len() as u64) + enc_heights(
                        lv.coords@.subrange(0, i as int),
                    ),
                decreases n - i,
            {
                let h = lv.coords[i];
                match h {
                    Height::Regular(x) => {
                        out.push(0u8);
                        push_u64(out, x);
                    },
                    Height::Singular(x) => {
                        out.push(1u8);
                        push_u64(out, x);
                    },
                }
                proof {
                    let sub1 = lv.coords@.subrange(0, i + 1);
                    assert(sub1.drop_last() =~= lv.coords@.subrange(0, i as int));
                    assert(sub1.last() == lv.coords@[i as int]);
                    assert(out@ =~= old(out)@ + seq![1u8] + (match lv.path.side {
                        Side::Source => seq![0u8],
                        Side::Target => seq![1u8],
                    }) + enc_u64(lv.path.depth) + enc_u64(lv.coords@.len() as u64) + enc_heights(
                        sub1,
                    ));
                }
                i = i + 1;
            }
            proof {
                assert(lv.coords@.subrange(0, n as int) =~= lv.coords@);
                assert(out@ =~= old(out)@ + enc_opt_label(Some(lv@)));
            }
        },
    }
}

/// Serializes a diagram record into its canonical bytes.
fn drec_to_bytes(rec: &DiagramRec) -> (r: Vec<u8>)
    ensures
        r@ == drec_bytes(rec@),
{
    let mut out: Vec<u8> = Vec::new();
    match rec {
        DiagramRec::D0 { generator, orientation } => {
            out.push(0u8);
            push_d0(&mut out, Diagram0 { generator: *generator, orientation: *orientation });
            proof {
                assert(out@ =~= drec_bytes(rec@));
            }
        },
        DiagramRec::DN { dimension: _, source, cospans } => {
            out.push(1u8);
            push_bits(&mut out, *source);
            push_u64(&mut out, cospans.len() as u64);
            let n: usize = cospans.len();
            let mut i: usize = 0;
            while i < n
                invariant
                    n == cospans@.len(),
                    0 <= i <= n,
                    out@ == seq![1u8] + enc_bits(*source) + enc_u64(cospans@.len() as u64)
                        + enc_cospanrecs(cospans@.subrange(0, i as int)),
                decreases n - i,
            {
                let c = cospans[i];
                push_bits(&mut out, c.forward);
                push_bits(&mut out, c.backward);
                proof {
                    let sub1 = cospans@.subrange(0, i + 1);
                    assert(sub1.drop_last() =~= cospans@.subrange(0, i as int));
                    assert(sub1.last() == cospans@[i as int]);
                    assert(out@ =~= seq![1u8] + enc_bits(*source) + enc_u64(cospans@.len() as u64)
                        + enc_cospanrecs(sub1));
                }
                i = i + 1;
            }
            proof {
                assert(cospans@.subrange(0, n as int) =~= cospans@);
                assert(out@ =~= drec_bytes(rec@));
            }
        },
    }
    out
}

/// Serializes a rewrite record into its canonical bytes.
fn rrec_to_bytes(rec: &RewriteRec) -> (r: Vec<u8>)
    ensures
        r@ == rrec_bytes(rec@),
{
    let mut out: Vec<u8> = Vec::new();
    match rec {
        RewriteRec::R0 { source, target, label } => {
            out.push(0u8);
            push_opt_d0(&mut out, source);
            push_opt_d0(&mut out, target);
            push_opt_label(&mut out, label);
            proof {
                assert(out@ =~= rrec_bytes(rec@));
            }
        },
        RewriteRec::RN { dimension, cones } => {
            out.push(1u8);
            push_u64(&mut out, *dimension);
            push_u64(&mut out, cones.len() as u64);
            let n: usize = cones.len();
            let mut i: usize = 0;
            while i < n
                invariant
                    n == cones@.len(),
                    0 <= i <= n,
                    out@ == seq![1u8] + enc_u64(*dimension) + enc_u64(cones@.len() as u64)
                        + enc_coneindexrecs(cones@.subrange(0, i as int)),
                decreases n - i,
            {
                let c = cones[i];
                push_u64(&mut out, c.index);
                push_bits(&mut out, c.cone);
                proof {
                    let sub1 = cones@.subrange(0, i + 1);
                    assert(sub1.drop_last() =~= cones@.subrange(0, i as int));
                    assert(sub1.last() == cones@[i as int]);
                    assert(out@ =~= seq![1u8] + enc_u64(*dimension) + enc_u64(cones@.len() as u64)
                        + enc_coneindexrecs(sub1));
                }
                i = i + 1;
            }
            proof {
                assert(cones@.subrange(0, n as int) =~= cones@);
                assert(out@ =~= rrec_bytes(rec@));
            }
        },
    }
    out
}

/// Appends the bytes of a run of cospan records.
fn push_cospanrecs(out: &mut Vec<u8>, recs: &Vec<CospanRec>)
    ensures
        final(out)@ == old(out)@ + enc_u64(recs@.len() as u64) + enc_cospanrecs(recs@),
{
    push_u64(out, recs.len() as u64);
    let n: usize = recs.len();
    let mut i: usize = 0;
    while i < n
        invariant
            n == recs@.len(),
            0 <= i <= n,
            out@ == old(out)@ + enc_u64(recs@.len() as u64) + enc_cospanrecs(
                recs@.subrange(0, i as int),
            ),
        decreases n - i,
    {
        let c = recs[i];
        push_bits(out, c.forward);
        push_bits(out, c.backward);
        proof {
            let sub1 = recs@.subrange(0, i + 1);
            assert(sub1.drop_last() =~= recs@.subrange(0, i as int));
            assert(sub1.last() == recs@[i as int]);
            assert(out@ =~= old(out)@ + enc_u64(recs@.len() as u64) + enc_cospanrecs(sub1));
        }
        i = i + 1;
    }
    proof {
        assert(recs@.subrange(0, n as int) =~= recs@);
    }
}

/// Appends the bytes of a run of content keys.
fn push_bits_seq(out: &mut Vec<u8>, keys: &Vec<KeyBits>)
    ensures
        final(out)@ == old(out)@ + enc_u64(keys@.len() as u64) + enc_bits_seq(keys@),
{
    push_u64(out, keys.len() as u64);
    let n: usize = keys.len();
    let mut i: usize = 0;
    while i < n
        invariant
            n == keys@.len(),
            0 <= i <= n,
            out@ == old(out)@ + enc_u64(keys@.len() as u64) + enc_bits_seq(
                keys@.subrange(0, i as int),
            ),
        decreases n - i,
    {
        let k = keys[i];
        push_bits(out, k);
        proof {
            let sub1 = keys@.subrange(0, i + 1);
            assert(sub1.drop_last() =~= keys@.subrange(0, i as int));
            assert(sub1.last() == keys@[i as int]);
            assert(out@ =~= old(out)@ + enc_u64(keys@.len() as u64) + enc_bits_seq(sub1));
        }
        i = i + 1;
    }
    proof {
        assert(keys@.subrange(0, n as int) =~= keys@);
    }
}

/// Serializes a cone record into its canonical bytes.
fn krec_to_bytes(rec: &ConeRec) -> (r: Vec<u8>)
    ensures
        r@ == krec_bytes(rec@),
{
    let mut out: Vec<u8> = Vec::new();
    push_cospanrecs(&mut out, &rec.source);
    push_bits(&mut out, rec.target.forward);
    push_bits(&mut out, rec.target.backward);
    push_bits_seq(&mut out, &rec.regular_slices);
    push_bits_seq(&mut out, &rec.singular_slices);
    proof {
        assert(out@ =~= krec_bytes(rec@));
    }
    out
}


/// Content-addressed store: three memo tables pairing live values with their
/// keys, and three record tables keyed by content key.
pub struct Store {
    diagram_memo: Vec<(Diagram, KeyBits)>,
    rewrite_memo: Vec<(Rewrite, KeyBits)>,
    cone_memo: Vec<(Cone, KeyBits)>,
    diagrams: std::collections::BTreeMap<KeyBits, DiagramRec>,
    rewrites: std::collections::BTreeMap<KeyBits, RewriteRec>,
    cones: std::collections::BTreeMap<KeyBits, ConeRec>,
}

impl Store {
    /// The diagram memo table, as a sequence of value/key pairs.
    pub closed spec fn memo_d(self) -> Seq<(Diagram, KeyBits)> {
        self.diagram_memo@
    }

    /// The rewrite memo table.
    pub closed spec fn memo_r(self) -> Seq<(Rewrite, KeyBits)> {
        self.rewrite_memo@
    }

    /// The cone memo table.
    pub closed spec fn memo_k(self) -> Seq<(Cone, KeyBits)> {
        self.cone_memo@
    }

    /// The diagram record table.
    pub closed spec fn diagrams_map(self) -> Map<KeyBits, DiagramRec> {
        self.diagrams@
    }

    /// The rewrite record table.
    pub closed spec fn rewrites_map(self) -> Map<KeyBits, RewriteRec> {
        self.rewrites@
    }

    /// The cone record table.
    pub closed spec fn cones_map(self) -> Map<KeyBits, ConeRec> {
        self.cones@
    }

    /// The descent budget the public unpackers run with: one more than the
    /// total number of stored records, so any descent that runs out must
    /// have passed through more records than the tables hold.
    pub open spec fn total_fuel(self) -> nat {
        self.diagrams_map().len() + self.rewrites_map().len() + self.cones_map().len() + 1
    }

    /// Whether some memoized diagram denotes the value `d`.
    pub open spec fn memo_d_contains(self, d: DiagramV) -> bool {
        exists|i: int| 0 <= i < self.memo_d().len() && dview((#[trigger] self.memo_d()[i]).0) == d
    }

    /// Whether some memoized diagram denotes `d` under key `k`.
    pub open spec fn memo_d_has(self, d: DiagramV, k: KeyBits) -> bool {
        exists|i: int|
            0 <= i < self.memo_d().len() && dview((#[trigger] self.memo_d()[i]).0) == d
                && self.memo_d()[i].1 == k
    }

    /// Whether some memoized diagram carries key `k`.
    pub open spec fn memo_d_at(self, k: KeyBits) -> bool {
        exists|i: int| 0 <= i < self.memo_d().len() && (#[trigger] self.memo_d()[i]).1 == k
    }

    /// The value of the memoized diagram carrying key `k`.
    pub open spec fn memo_d_value(self, k: KeyBits) -> DiagramV {
        dview(
            self.memo_d()[choose|i: int|
                0 <= i < self.memo_d().len() && (#[trigger] self.memo_d()[i]).1 == k].0,
        )
    }

    /// Whether some memoized rewrite denotes the value `r`.
    pub open spec fn memo_r_contains(self, r: RewriteV) -> bool {
        exists|i: int| 0 <= i < self.memo_r().len() && rview((#[trigger] self.memo_r()[i]).0) == r
    }

    /// Whether some memoized rewrite denotes `r` under key `k`.
    pub open spec fn memo_r_has(self, r: RewriteV, k: KeyBits) -> bool {
        exists|i: int|
            0 <= i < self.memo_r().len() && rview((#[trigger] self.memo_r()[i]).0) == r
                && self.memo_r()[i].1 == k
    }

    /// Whether some memoized rewrite carries key `k`.
    pub open spec fn memo_r_at(self, k: KeyBits) -> bool {
        exists|i: int| 0 <= i < self.memo_r().len() && (#[trigger] self.memo_r()[i]).1 == k
    }

    /// The value of the memoized rewrite carrying key `k`.
    pub open spec fn memo_r_value(self, k: KeyBits) -> RewriteV {
        rview(
            self.memo_r()[choose|i: int|
                0 <= i < self.memo_r().len() && (#[trigger] self.memo_r()[i]).1 == k].0,
        )
    }

    /// Whether some memoized cone denotes the value `c`.
    pub open spec fn memo_k_contains(self, c: ConeV) -> bool {
        exists|i: int| 0 <= i < self.memo_k().len() && kview((#[trigger] self.memo_k()[i]).0) == c
    }

    /// Whether some memoized cone denotes `c` under key `k`.
    pub open spec fn memo_k_has(self, c: ConeV, k: KeyBits) -> bool {
        exists|i: int|
            0 <= i < self.memo_k().len() && kview((#[trigger] self.memo_k()[i]).0) == c
                && self.memo_k()[i].1 == k
    }

    /// Whether some memoized cone carries key `k`.
    pub open spec fn memo_k_at(self, k: KeyBits) -> bool {
        exists|i: int| 0 <= i < self.memo_k().len() && (#[trigger] self.memo_k()[i]).1 == k
    }

    /// The value of the memoized cone carrying key `k`.
    pub open spec fn memo_k_value(self, k: KeyBits) -> ConeV {
        kview(
            self.memo_k()[choose|i: int|
                0 <= i < self.memo_k().len() && (#[trigger] self.memo_k()[i]).1 == k].0,
        )
    }

    /// No two memo entries denote the same value and no two carry the same
    /// key, in any of the three tables.
    pub open spec fn uniq(self) -> bool {
        &&& forall|i: int, j: int|
            0 <= i < j < self.memo_d().len() ==> dview((#[trigger] self.memo_d()[i]).0) != dview(
                (#[trigger] self.memo_d()[j]).0,
            ) && self.memo_d()[i].1 != self.memo_d()[j].1
        &&& forall|i: int, j: int|
            0 <= i < j < self.memo_r().len() ==> rview((#[trigger] self.memo_r()[i]).0) != rview(
                (#[trigger] self.memo_r()[j]).0,
            ) && self.memo_r()[i].1 != self.memo_r()[j].1
        &&& forall|i: int, j: int|
            0 <= i < j < self.memo_k().len() ==> kview((#[trigger] self.memo_k()[i]).0) != kview(
                (#[trigger] self.memo_k()[j]).0,
            ) && self.memo_k()[i].1 != self.memo_k()[j].1
    }

    /// Every memo entry carries the content key of its value.
    pub open spec fn canon_memo(self) -> bool {
        &&& forall|i: int|
            0 <= i < self.memo_d().len() ==> (#[trigger] self.memo_d()[i]).1 == dkey(
                dview(self.memo_d()[i].0),
            )
        &&& forall|i: int|
            0 <= i < self.memo_r().len() ==> (#[trigger] self.memo_r()[i]).1 == rkey(
                rview(self.memo_r()[i].0),
            )
        &&& forall|i: int|
            0 <= i < self.memo_k().len() ==> (#[trigger] self.memo_k()[i]).1 == kkey(
                kview(self.memo_k()[i].0),
            )
    }

    /// Every stored record sits under the hash of its own canonical bytes.
    pub open spec fn canon_recs(self) -> bool {
        &&& forall|k: KeyBits|
            self.diagrams_map().contains_key(k) ==> k == hash128_of(
                drec_bytes((#[trigger] self.diagrams_map()[k])@),
            )
        &&& forall|k: KeyBits|
            self.rewrites_map().contains_key(k) ==> k == hash128_of(
                rrec_bytes((#[trigger] self.rewrites_map()[k])@),
            )
        &&& forall|k: KeyBits|
            self.cones_map().contains_key(k) ==> k == hash128_of(
                krec_bytes((#[trigger] self.cones_map()[k])@),
            )
    }

    /// Every memoized key is backed by a record in the matching table, so
    /// no stored reference dangles.
    pub open spec fn covered(self) -> bool {
        &&& forall|i: int|
            0 <= i < self.memo_d().len() ==> self.diagrams_map().contains_key(
                (#[trigger] self.memo_d()[i]).1,
            )
        &&& forall|i: int|
            0 <= i < self.memo_r().len() ==> self.rewrites_map().contains_key(
                (#[trigger] self.memo_r()[i]).1,
            )
        &&& forall|i: int|
            0 <= i < self.memo_k().len() ==> self.cones_map().contains_key(
                (#[trigger] self.memo_k()[i]).1,
            )
    }

    /// The store invariant that packing establishes and preserves.
    pub open spec fn wf(self) -> bool {
        self.uniq() && self.canon_memo() && self.canon_recs() && self.covered()
    }

    /// Whether the record at `k` decodes to exactly the diagram value `d`.
    pub open spec fn d_decodes(self, k: KeyBits, d: DiagramV) -> bool {
        d_decodes_in(self.diagrams_map(), self.rewrites_map(), self.cones_map(), k, d)
    }

    /// Whether a cospan record decodes to exactly the cospan value `c`.
    pub open spec fn c_decodes(self, rec: CospanRec, c: CospanV) -> bool {
        c_decodes_in(self.rewrites_map(), self.cones_map(), rec, c)
    }

    /// Whether the record at `k` decodes to exactly the rewrite value `r`.
    pub open spec fn r_decodes(self, k: KeyBits, r: RewriteV) -> bool {
        r_decodes_in(self.rewrites_map(), self.cones_map(), k, r)
    }

    /// Whether a cone reference decodes to exactly the cone value `c`.
    pub open spec fn k_decodes(self, rec: ConeIndexRec, c: ConeV) -> bool {
        k_decodes_in(self.rewrites_map(), self.cones_map(), rec, c)
    }

    /// Every memoized value decodes from the record tables at its key.
    pub open spec fn mdc(self) -> bool {
        &&& forall|i: int|
            0 <= i < self.memo_d().len() ==> self.d_decodes(
                (#[trigger] self.memo_d()[i]).1,
                dview(self.memo_d()[i].0),
            )
        &&& forall|i: int|
            0 <= i < self.memo_r().len() ==> self.r_decodes(
                (#[trigger] self.memo_r()[i]).1,
                rview(self.memo_r()[i].0),
            )
        &&& forall|i: int|
            0 <= i < self.memo_k().len() ==> self.k_decodes(
                ConeIndexRec {
                    index: kview((#[trigger] self.memo_k()[i]).0).index,
                    cone: self.memo_k()[i].1,
                },
                kview(self.memo_k()[i].0),
            )
        &&& self.memo_d().len() <= usize::MAX
        &&& self.memo_r().len() <= usize::MAX
        &&& self.memo_k().len() <= usize::MAX
    }

    /// A store that can be unpacked from safely: memo keys are unambiguous
    /// and memoized values agree with the record tables.
    pub open spec fn ok(self) -> bool {
        self.uniq() && self.mdc()
    }

    /// Creates an empty store.
    pub fn new() -> (r: Store)
        ensures
            r.wf(),
            r.ok(),
            r.memo_d() == Seq::<(Diagram, KeyBits)>::empty(),
            r.memo_r() == Seq::<(Rewrite, KeyBits)>::empty(),
            r.memo_k() == Seq::<(Cone, KeyBits)>::empty(),
            r.diagrams_map() == Map::<KeyBits, DiagramRec>::empty(),
            r.rewrites_map() == Map::<KeyBits, RewriteRec>::empty(),
            r.cones_map() == Map::<KeyBits, ConeRec>::empty(),
    {
        Store {
            diagram_memo: Vec::new(),
            rewrite_memo: Vec::new(),
            cone_memo: Vec::new(),
            diagrams: std::collections::BTreeMap::new(),
            rewrites: std::collections::BTreeMap::new(),
            cones: std::collections::BTreeMap::new(),
        }
    }

    /// Builds a store around existing record tables, as an import does; the
    /// memo tables start empty.
    pub fn from_records(
        diagrams: std::collections::BTreeMap<KeyBits, DiagramRec>,
        rewrites: std::collections::BTreeMap<KeyBits, RewriteRec>,
        cones: std::collections::BTreeMap<KeyBits, ConeRec>,
    ) -> (r: Store)
        ensures
            r.ok(),
            r.diagrams_map() == diagrams@,
            r.rewrites_map() == rewrites@,
            r.cones_map() == cones@,
            r.memo_d() == Seq::<(Diagram, KeyBits)>::empty(),
    {
        Store {
            diagram_memo: Vec::new(),
            rewrite_memo: Vec::new(),
            cone_memo: Vec::new(),
            diagrams,
            rewrites,
            cones,
        }
    }

    /// The diagram record table, for serialization.
    pub fn diagram_records(&self) -> (r: &std::collections::BTreeMap<KeyBits, DiagramRec>)
        ensures
            r@ == self.diagrams_map(),
    {
        &self.diagrams
    }

    /// The rewrite record table, for serialization.
    pub fn rewrite_records(&self) -> (r: &std::collections::BTreeMap<KeyBits, RewriteRec>)
        ensures
            r@ == self.rewrites_map(),
    {
        &self.rewrites
    }

    /// The cone record table, for serialization.
    pub fn cone_records(&self) -> (r: &std::collections::BTreeMap<KeyBits, ConeRec>)
        ensures
            r@ == self.cones_map(),
    {
        &self.cones
    }

    /// Takes the three record tables out of the store, dropping the memo
    /// tables, as when only the persisted form of a session is kept.
    pub fn into_records(self) -> (r: (
        std::collections::BTreeMap<KeyBits, DiagramRec>,
        std::collections::BTreeMap<KeyBits, RewriteRec>,
        std::collections::BTreeMap<KeyBits, ConeRec>,
    ))
        ensures
            r.0@ == self.diagrams_map(),
            r.1@ == self.rewrites_map(),
            r.2@ == self.cones_map(),
    {
        let Store { diagram_memo: _, rewrite_memo: _, cone_memo: _, diagrams, rewrites, cones } =
            self;
        (diagrams, rewrites, cones)
    }
}

impl Default for Store {
    /// An empty store.
    fn default() -> (r: Store)
        ensures
            r.wf(),
            r.ok(),
            r.diagrams_map() == Map::<KeyBits, DiagramRec>::empty(),
            r.rewrites_map() == Map::<KeyBits, RewriteRec>::empty(),
            r.cones_map() == Map::<KeyBits, ConeRec>::empty(),
    {
        Store::new()
    }
}



/// Whether the diagram record at `k` decodes to exactly the value `d`,
/// against the given record tables.
pub open spec fn d_decodes_in(
    dm: Map<KeyBits, DiagramRec>,
    rm: Map<KeyBits, RewriteRec>,
    cm: Map<KeyBits, ConeRec>,
    k: KeyBits,
    d: DiagramV,
) -> bool
    decreases d,
{
    dm.contains_key(k) && match dm[k] {
        DiagramRec::D0 { generator, orientation } => d == DiagramV::D0(
            Diagram0 { generator, orientation },
        ),
        DiagramRec::DN { dimension: _, source, cospans } => match d {
            DiagramV::DN { source: sv, cospans: cs } => d_decodes_in(dm, rm, cm, source, *sv)
                && cs_decode_in(rm, cm, cospans@, cs),
            _ => false,
        },
    }
}

/// Whether a run of cospan records decodes pointwise to a run of cospan
/// values.
pub open spec fn cs_decode_in(
    rm: Map<KeyBits, RewriteRec>,
    cm: Map<KeyBits, ConeRec>,
    recs: Seq<CospanRec>,
    cs: Seq<CospanV>,
) -> bool
    decreases cs,
{
    if cs.len() == 0 {
        recs.len() == 0
    } else {
        recs.len() == cs.len() && cs_decode_in(rm, cm, recs.drop_last(), cs.drop_last())
            && c_decodes_in(rm, cm, recs.last(), cs.last())
    }
}

/// Whether a cospan record decodes to exactly the cospan value `c`.
pub open spec fn c_decodes_in(
    rm: Map<KeyBits, RewriteRec>,
    cm: Map<KeyBits, ConeRec>,
    rec: CospanRec,
    c: CospanV,
) -> bool
    decreases c,
{
    r_decodes_in(rm, cm, rec.forward, c.forward) && r_decodes_in(rm, cm, rec.backward, c.backward)
}

/// Whether the rewrite record at `k` decodes to exactly the value `r`.
pub open spec fn r_decodes_in(
    rm: Map<KeyBits, RewriteRec>,
    cm: Map<KeyBits, ConeRec>,
    k: KeyBits,
    r: RewriteV,
) -> bool
    decreases r,
{
    rm.contains_key(k) && match rm[k] {
        RewriteRec::R0 { source, target, ref label } => match (source, target) {
            (None, None) => label is None && r == RewriteV::R0(None),
            (Some(s), Some(t)) => r == RewriteV::R0(
                Some(
                    EndsV {
                        source: s,
                        target: t,
                        label: match *label {
                            None => None,
                            Some(ref l) => Some(l@),
                        },
                    },
                ),
            ),
            _ => false,
        },
        RewriteRec::RN { dimension, ref cones } => match r {
            RewriteV::RN { dimension: dv, cones: cs } => dv == dimension && dimension >= 1
                && ks_decode_in(rm, cm, cones@, cs),
            _ => false,
        },
    }
}

/// Whether a run of cone references decodes pointwise to a run of cone
/// values.
pub open spec fn ks_decode_in(
    rm: Map<KeyBits, RewriteRec>,
    cm: Map<KeyBits, ConeRec>,
    recs: Seq<ConeIndexRec>,
    cs: Seq<ConeV>,
) -> bool
    decreases cs,
{
    if cs.len() == 0 {
        recs.len() == 0
    } else {
        recs.len() == cs.len() && ks_decode_in(rm, cm, recs.drop_last(), cs.drop_last())
            && k_decodes_in(rm, cm, recs.last(), cs.last())
    }
}

/// Whether a cone reference decodes to exactly the cone value `c`: the
/// position index matches and the record at the key decodes.
pub open spec fn k_decodes_in(
    rm: Map<KeyBits, RewriteRec>,
    cm: Map<KeyBits, ConeRec>,
    rec: ConeIndexRec,
    c: ConeV,
) -> bool
    decreases c,
{
    c.index == rec.index && cm.contains_key(rec.cone) && match cm[rec.cone] {
        krec => {
            &&& cs_decode_in(rm, cm, krec.source@, c.source)
            &&& c_decodes_in(rm, cm, krec.target, *c.target)
            &&& rs_decode_in(rm, cm, krec.regular_slices@, c.regular_slices)
            &&& rs_decode_in(rm, cm, krec.singular_slices@, c.singular_slices)
        },
    }
}

/// Whether a run of rewrite keys decodes pointwise to a run of rewrite
/// values.
pub open spec fn rs_decode_in(
    rm: Map<KeyBits, RewriteRec>,
    cm: Map<KeyBits, ConeRec>,
    keys: Seq<KeyBits>,
    rs: Seq<RewriteV>,
) -> bool
    decreases rs,
{
    if rs.len() == 0 {
        keys.len() == 0
    } else {
        keys.len() == rs.len() && rs_decode_in(rm, cm, keys.drop_last(), rs.drop_last())
            && r_decodes_in(rm, cm, keys.last(), rs.last())
    }
}

/// After a swap-remove, every entry of the shorter table is one of the old
/// entries away from the removed position, and pairwise distinctness of
/// values and keys carries over.
proof fn lemma_swap_remove_entries<T, V>(
    pre: Seq<(T, KeyBits)>,
    post: Seq<(T, KeyBits)>,
    i: int,
    vf: spec_fn(T) -> V,
)
    requires
        0 <= i < pre.len(),
        post == pre.update(i, pre.last()).drop_last(),
    ensures
        forall|a: int|
            0 <= a < post.len() ==> exists|j: int|
                0 <= j < pre.len() && j != i && #[trigger] post[a] == pre[j],
        (forall|a: int, b: int|
            0 <= a < b < pre.len() ==> vf((#[trigger] pre[a]).0) != vf((#[trigger] pre[b]).0)
                && pre[a].1 != pre[b].1) ==> (forall|a: int, b: int|
            0 <= a < b < post.len() ==> vf((#[trigger] post[a]).0) != vf((#[trigger] post[b]).0)
                && post[a].1 != post[b].1),
{
    assert forall|a: int| 0 <= a < post.len() implies exists|j: int|
        0 <= j < pre.len() && j != i && #[trigger] post[a] == pre[j] by {
        if a == i {
            assert(post[a] == pre[pre.len() - 1]);
            assert(pre.len() - 1 != i);
        } else {
            assert(post[a] == pre[a]);
        }
    }
    if forall|a: int, b: int|
        0 <= a < b < pre.len() ==> vf((#[trigger] pre[a]).0) != vf((#[trigger] pre[b]).0)
            && pre[a].1 != pre[b].1 {
        assert forall|a: int, b: int| 0 <= a < b < post.len() implies vf(
            (#[trigger] post[a]).0,
        ) != vf((#[trigger] post[b]).0) && post[a].1 != post[b].1 by {
            let ja = if a == i { pre.len() - 1 } else { a };
            let jb = if b == i { pre.len() - 1 } else { b };
            assert(post[a] == pre[ja]);
            assert(post[b] == pre[jb]);
            if ja < jb {
                assert(vf(pre[ja].0) != vf(pre[jb].0) && pre[ja].1 != pre[jb].1);
            } else {
                assert(vf(pre[jb].0) != vf(pre[ja].0) && pre[jb].1 != pre[ja].1);
            }
        }
    }
}

/// After a swap-remove, every old entry away from the removed position is
/// still somewhere in the shorter table.
proof fn lemma_swap_remove_kept<T>(pre: Seq<T>, post: Seq<T>, i: int)
    requires
        0 <= i < pre.len(),
        post == pre.update(i, pre.last()).drop_last(),
    ensures
        forall|j: int|
            0 <= j < pre.len() && j != i ==> exists|a: int|
                0 <= a < post.len() && post[a] == #[trigger] pre[j],
{
    assert forall|j: int| 0 <= j < pre.len() && j != i implies exists|a: int|
        0 <= a < post.len() && post[a] == #[trigger] pre[j] by {
        if j == pre.len() - 1 {
            assert(post[i] == pre[j]);
        } else {
            assert(post[j] == pre[j]);
        }
    }
}

impl Store {
    /// Scans the diagram memo for an entry denoting `d`.
    fn memo_d_find(&self, d: &Diagram) -> (r: Option<KeyBits>)
        ensures
            match r {
                Some(k) => self.memo_d_has(d@, k),
                None => !self.memo_d_contains(d@),
            },
    {
        let n: usize = self.diagram_memo.len();
        let mut i: usize = 0;
        while i < n
            invariant
                n == self.memo_d().len(),
                0 <= i <= n,
                forall|j: int| 0 <= j < i ==> dview((#[trigger] self.memo_d()[j]).0) != d@,
            decreases n - i,
        {
            if crate::diagram::eq_diagram(&self.diagram_memo[i].0, d) {
                return Some(self.diagram_memo[i].1);
            }
            i = i + 1;
        }
        None
    }

    /// Scans the diagram memo for the entry carrying key `k`, returning a
    /// copy of its value.
    fn memo_d_key_find(&self, k: KeyBits) -> (r: Option<Diagram>)
        ensures
            match r {
                Some(v) => self.memo_d_at(k) && self.memo_d_has(v@, k) && (self.uniq() ==> v@
                    == self.memo_d_value(k)),
                None => !self.memo_d_at(k),
            },
    {
        let n: usize = self.diagram_memo.len();
        let mut i: usize = 0;
        while i < n
            invariant
                n == self.memo_d().len(),
                0 <= i <= n,
                forall|j: int| 0 <= j < i ==> (#[trigger] self.memo_d()[j]).1 != k,
            decreases n - i,
        {
            let e = &self.diagram_memo[i];
            if e.1.0 == k.0 && e.1.1 == k.1 {
                let v = crate::diagram::clone_diagram(&e.0);
                proof {
                    assert(self.memo_d()[i as int].1 == k);
                    if self.uniq() {
                        let j = choose|j: int|
                            0 <= j < self.memo_d().len() && (#[trigger] self.memo_d()[j]).1 == k;
                        if j != i {
                            if j < i {
                                assert(self.memo_d()[j].1 != self.memo_d()[i as int].1);
                            } else {
                                assert(self.memo_d()[i as int].1 != self.memo_d()[j].1);
                            }
                        }
                        assert(v@ == self.memo_d_value(k));
                    }
                }
                return Some(v);
            }
            i = i + 1;
        }
        None
    }

    /// Inserts a diagram memo entry, evicting any entry that denotes the
    /// same value or carries the same key, as a bidirectional table does.
    #[verifier::rlimit(100)]
    #[verifier::spinoff_prover]
    fn memo_d_insert(&mut self, d: Diagram, k: KeyBits)
        ensures
            final(self).diagrams_map() == old(self).diagrams_map(),
            final(self).rewrites_map() == old(self).rewrites_map(),
            final(self).cones_map() == old(self).cones_map(),
            final(self).memo_r() == old(self).memo_r(),
            final(self).memo_k() == old(self).memo_k(),
            final(self).memo_d_has(dview(d), k),
            forall|a: int|
                0 <= a < final(self).memo_d().len() ==> (exists|j: int|
                    0 <= j < old(self).memo_d().len() && #[trigger] final(self).memo_d()[a] == old(
                        self,
                    ).memo_d()[j]) || final(self).memo_d()[a] == (d, k),
            old(self).uniq() ==> final(self).uniq(),
            old(self).canon_memo() && k == dkey(dview(d)) ==> final(self).canon_memo(),
            old(self).canon_memo() && k == dkey(dview(d)) ==> forall|kb: KeyBits|
                old(self).memo_d_at(kb) ==> final(self).memo_d_at(kb),
            final(self).memo_d().len() <= usize::MAX,
    {
        let ghost pre = *self;
        // evict an entry denoting the same value, if one is there
        let vi = self.memo_d_value_index(&d);
        match vi {
            Some(i) => {
                let ghost before = self.memo_d();
                self.diagram_memo.swap_remove(i);
                proof {
                    lemma_swap_remove_entries(
                        before,
                        self.memo_d(),
                        i as int,
                        |t: Diagram| dview(t),
                    );
                }
            },
            None => {},
        }
        let ghost mid = *self;
        proof {
            if pre.uniq() {
                assert forall|a: int| 0 <= a < mid.memo_d().len() implies dview(
                    (#[trigger] mid.memo_d()[a]).0,
                ) != dview(d) by {
                    match vi {
                        Some(i) => {
                            let j = choose|j: int|
                                0 <= j < pre.memo_d().len() && j != i && mid.memo_d()[a]
                                    == pre.memo_d()[j];
                            assert(dview(pre.memo_d()[j].0) != dview(d));
                        },
                        None => {},
                    }
                }
            }
        }
        // evict the entry carrying the same key, if one is there
        let ki = self.memo_d_key_index(k);
        match ki {
            Some(i) => {
                let ghost before = self.memo_d();
                self.diagram_memo.swap_remove(i);
                proof {
                    lemma_swap_remove_entries(
                        before,
                        self.memo_d(),
                        i as int,
                        |t: Diagram| dview(t),
                    );
                }
            },
            None => {},
        }
        proof {
            if pre.uniq() {
                assert forall|a: int| 0 <= a < self.memo_d().len() implies dview(
                    (#[trigger] self.memo_d()[a]).0,
                ) != dview(d) && self.memo_d()[a].1 != k by {
                    match ki {
                        Some(i) => {
                            let j = choose|j: int|
                                0 <= j < mid.memo_d().len() && j != i && self.memo_d()[a]
                                    == mid.memo_d()[j];
                            assert(dview(mid.memo_d()[j].0) != dview(d));
                            assert(mid.memo_d()[j].1 != k);
                        },
                        None => {},
                    }
                }
            }
        }
        let ghost kept = self.memo_d();
        self.diagram_memo.push((d, k));
        let nlen: usize = self.diagram_memo.len();
        assert(self.memo_d().len() == nlen);
        proof {
            let m = self.memo_d();
            assert(m[m.len() - 1] == (d, k));
            assert(dview(m[m.len() - 1].0) == dview(d));
            assert(self.memo_d_has(dview(d), k));
            // membership of every final entry in the original table
            assert forall|a: int| 0 <= a < m.len() implies (exists|j: int|
                0 <= j < pre.memo_d().len() && #[trigger] m[a] == pre.memo_d()[j]) || m[a] == (
            d,
            k,
            ) by {
                if a < m.len() - 1 {
                    match ki {
                        Some(i) => {
                            let j2 = choose|j: int|
                                0 <= j < mid.memo_d().len() && j != i && m[a] == mid.memo_d()[j];
                            match vi {
                                Some(i1) => {
                                    let j1 = choose|j: int|
                                        0 <= j < pre.memo_d().len() && j != i1 && mid.memo_d()[j2]
                                            == pre.memo_d()[j];
                                    assert(m[a] == pre.memo_d()[j1]);
                                },
                                None => {},
                            }
                        },
                        None => {
                            match vi {
                                Some(i1) => {
                                    let j1 = choose|j: int|
                                        0 <= j < pre.memo_d().len() && j != i1 && m[a]
                                            == pre.memo_d()[j];
                                    assert(m[a] == pre.memo_d()[j1]);
                                },
                                None => {},
                            }
                        },
                    }
                }
            }
            if pre.canon_memo() && k == dkey(dview(d)) {
                assert forall|a: int| 0 <= a < m.len() implies (#[trigger] m[a]).1 == dkey(
                    dview(m[a].0),
                ) by {
                    if a < m.len() - 1 {
                        let j = choose|j: int|
                            0 <= j < pre.memo_d().len() && m[a] == pre.memo_d()[j];
                        assert(pre.memo_d()[j].1 == dkey(dview(pre.memo_d()[j].0)));
                    }
                }
                // every previously present key is still present: evicted
                // entries carried this entry's own key
                assert forall|kb: KeyBits| pre.memo_d_at(kb) implies self.memo_d_at(kb) by {
                    let a0 = choose|a0: int|
                        0 <= a0 < pre.memo_d().len() && (#[trigger] pre.memo_d()[a0]).1 == kb;
                    if kb == k {
                        assert(m[m.len() - 1].1 == k);
                    } else {
                        assert(pre.memo_d()[a0].1 == dkey(dview(pre.memo_d()[a0].0)));
                        match vi {
                            Some(i1) => {
                                assert(dview(pre.memo_d()[i1 as int].0) == dview(d));
                                assert(pre.memo_d()[i1 as int].1 == dkey(dview(d)));
                                assert(a0 != i1);
                                lemma_swap_remove_kept(pre.memo_d(), mid.memo_d(), i1 as int);
                                let b0 = choose|b0: int|
                                    0 <= b0 < mid.memo_d().len() && mid.memo_d()[b0]
                                        == pre.memo_d()[a0];
                                match ki {
                                    Some(i2) => {
                                        assert(mid.memo_d()[i2 as int].1 == k);
                                        assert(b0 != i2);
                                        lemma_swap_remove_kept(mid.memo_d(), kept, i2 as int);
                                        let c0 = choose|c0: int|
                                            0 <= c0 < kept.len() && kept[c0] == mid.memo_d()[b0];
                                        assert(m[c0] == pre.memo_d()[a0]);
                                    },
                                    None => {
                                        assert(m[b0] == pre.memo_d()[a0]);
                                    },
                                }
                            },
                            None => {
                                match ki {
                                    Some(i2) => {
                                        assert(mid.memo_d()[i2 as int].1 == k);
                                        assert(a0 != i2);
                                        lemma_swap_remove_kept(mid.memo_d(), kept, i2 as int);
                                        let c0 = choose|c0: int|
                                            0 <= c0 < kept.len() && kept[c0] == mid.memo_d()[a0];
                                        assert(m[c0] == pre.memo_d()[a0]);
                                    },
                                    None => {
                                        assert(m[a0] == pre.memo_d()[a0]);
                                    },
                                }
                            },
                        }
                    }
                }
            }
        }
    }

    /// First index of a diagram memo entry denoting `d`.
    fn memo_d_value_index(&self, d: &Diagram) -> (r: Option<usize>)
        ensures
            match r {
                Some(i) => i < self.memo_d().len() && dview(self.memo_d()[i as int].0) == d@
                    && (self.uniq() ==> forall|j: int|
                    0 <= j < self.memo_d().len() && j != i ==> dview(
                        (#[trigger] self.memo_d()[j]).0,
                    ) != d@),
                None => forall|j: int|
                    0 <= j < self.memo_d().len() ==> dview((#[trigger] self.memo_d()[j]).0) != d@,
            },
    {
        let n: usize = self.diagram_memo.len();
        let mut i: usize = 0;
        while i < n
            invariant
                n == self.memo_d().len(),
                0 <= i <= n,
                forall|j: int| 0 <= j < i ==> dview((#[trigger] self.memo_d()[j]).0) != d@,
            decreases n - i,
        {
            if crate::diagram::eq_diagram(&self.diagram_memo[i].0, d) {
                proof {
                    if self.uniq() {
                        assert forall|j: int|
                            0 <= j < self.memo_d().len() && j != i implies dview(
                            (#[trigger] self.memo_d()[j]).0,
                        ) != d@ by {
                            if j > i {
                                assert(dview(self.memo_d()[i as int].0) != dview(
                                    self.memo_d()[j].0,
                                ));
                            }
                        }
                    }
                }
                return Some(i);
            }
            i = i + 1;
        }
        None
    }

    /// First index of a diagram memo entry carrying key `k`.
    fn memo_d_key_index(&self, k: KeyBits) -> (r: Option<usize>)
        ensures
            match r {
                Some(i) => i < self.memo_d().len() && self.memo_d()[i as int].1 == k && (
                self.uniq() ==> forall|j: int|
                    0 <= j < self.memo_d().len() && j != i ==> (#[trigger] self.memo_d()[j]).1
                        != k),
                None => forall|j: int|
                    0 <= j < self.memo_d().len() ==> (#[trigger] self.memo_d()[j]).1 != k,
            },
    {
        let n: usize = self.diagram_memo.len();
        let mut i: usize = 0;
        while i < n
            invariant
                n == self.memo_d().len(),
                0 <= i <= n,
                forall|j: int| 0 <= j < i ==> (#[trigger] self.memo_d()[j]).1 != k,
            decreases n - i,
        {
            let e = &self.diagram_memo[i];
            if e.1.0 == k.0 && e.1.1 == k.1 {
                proof {
                    assert(self.memo_d()[i as int].1 == k);
                    if self.uniq() {
                        assert forall|j: int|
                            0 <= j < self.memo_d().len() && j != i implies (
                        #[trigger] self.memo_d()[j]).1 != k by {
                            if j > i {
                                assert(self.memo_d()[i as int].1 != self.memo_d()[j].1);
                            }
                        }
                    }
                }
                return Some(i);
            }
            i = i + 1;
        }
        None
    }
}


impl Store {
    /// Scans the rewrite memo for an entry denoting `d`.
    fn memo_r_find(&self, d: &Rewrite) -> (r: Option<KeyBits>)
        ensures
            match r {
                Some(k) => self.memo_r_has(d@, k),
                None => !self.memo_r_contains(d@),
            },
    {
        let n: usize = self.rewrite_memo.len();
        let mut i: usize = 0;
        while i < n
            invariant
                n == self.memo_r().len(),
                0 <= i <= n,
                forall|j: int| 0 <= j < i ==> rview((#[trigger] self.memo_r()[j]).0) != d@,
            decreases n - i,
        {
            if crate::diagram::eq_rewrite(&self.rewrite_memo[i].0, d) {
                return Some(self.rewrite_memo[i].1);
            }
            i = i + 1;
        }
        None
    }

    /// Scans the rewrite memo for the entry carrying key `k`, returning a
    /// copy of its value.
    fn memo_r_key_find(&self, k: KeyBits) -> (r: Option<Rewrite>)
        ensures
            match r {
                Some(v) => self.memo_r_at(k) && self.memo_r_has(v@, k) && (self.uniq() ==> v@
                    == self.memo_r_value(k)),
                None => !self.memo_r_at(k),
            },
    {
        let n: usize = self.rewrite_memo.len();
        let mut i: usize = 0;
        while i < n
            invariant
                n == self.memo_r().len(),
                0 <= i <= n,
                forall|j: int| 0 <= j < i ==> (#[trigger] self.memo_r()[j]).1 != k,
            decreases n - i,
        {
            let e = &self.rewrite_memo[i];
            if e.1.0 == k.0 && e.1.1 == k.1 {
                let v = crate::diagram::clone_rewrite(&e.0);
                proof {
                    assert(self.memo_r()[i as int].1 == k);
                    if self.uniq() {
                        let j = choose|j: int|
                            0 <= j < self.memo_r().len() && (#[trigger] self.memo_r()[j]).1 == k;
                        if j != i {
                            if j < i {
                                assert(self.memo_r()[j].1 != self.memo_r()[i as int].1);
                            } else {
                                assert(self.memo_r()[i as int].1 != self.memo_r()[j].1);
                            }
                        }
                        assert(v@ == self.memo_r_value(k));
                    }
                }
                return Some(v);
            }
            i = i + 1;
        }
        None
    }

    /// Inserts a rewrite memo entry, evicting any entry that denotes the
    /// same value or carries the same key, as a bidirectional table does.
    #[verifier::rlimit(100)]
    #[verifier::spinoff_prover]
    fn memo_r_insert(&mut self, d: Rewrite, k: KeyBits)
        ensures
            final(self).diagrams_map() == old(self).diagrams_map(),
            final(self).rewrites_map() == old(self).rewrites_map(),
            final(self).cones_map() == old(self).cones_map(),
            final(self).memo_d() == old(self).memo_d(),
            final(self).memo_k() == old(self).memo_k(),
            final(self).memo_r_has(rview(d), k),
            forall|a: int|
                0 <= a < final(self).memo_r().len() ==> (exists|j: int|
                    0 <= j < old(self).memo_r().len() && #[trigger] final(self).memo_r()[a] == old(
                        self,
                    ).memo_r()[j]) || final(self).memo_r()[a] == (d, k),
            old(self).uniq() ==> final(self).uniq(),
            old(self).canon_memo() && k == rkey(rview(d)) ==> final(self).canon_memo(),
            final(self).memo_r().len() <= usize::MAX,
    {
        let ghost pre = *self;
        // evict an entry denoting the same value, if one is there
        let vi = self.memo_r_value_index(&d);
        match vi {
            Some(i) => {
                let ghost before = self.memo_r();
                self.rewrite_memo.swap_remove(i);
                proof {
                    lemma_swap_remove_entries(
                        before,
                        self.memo_r(),
                        i as int,
                        |t: Rewrite| rview(t),
                    );
                }
            },
            None => {},
        }
        let ghost mid = *self;
        proof {
            if pre.uniq() {
                assert forall|a: int| 0 <= a < mid.memo_r().len() implies rview(
                    (#[trigger] mid.memo_r()[a]).0,
                ) != rview(d) by {
                    match vi {
                        Some(i) => {
                            let j = choose|j: int|
                                0 <= j < pre.memo_r().len() && j != i && mid.memo_r()[a]
                                    == pre.memo_r()[j];
                            assert(rview(pre.memo_r()[j].0) != rview(d));
                        },
                        None => {},
                    }
                }
            }
        }
        // evict the entry carrying the same key, if one is there
        let ki = self.memo_r_key_index(k);
        match ki {
            Some(i) => {
                let ghost before = self.memo_r();
                self.rewrite_memo.swap_remove(i);
                proof {
                    lemma_swap_remove_entries(
                        before,
                        self.memo_r(),
                        i as int,
                        |t: Rewrite| rview(t),
                    );
                }
            },
            None => {},
        }
        proof {
            if pre.uniq() {
                assert forall|a: int| 0 <= a < self.memo_r().len() implies rview(
                    (#[trigger] self.memo_r()[a]).0,
                ) != rview(d) && self.memo_r()[a].1 != k by {
                    match ki {
                        Some(i) => {
                            let j = choose|j: int|
                                0 <= j < mid.memo_r().len() && j != i && self.memo_r()[a]
                                    == mid.memo_r()[j];
                            assert(rview(mid.memo_r()[j].0) != rview(d));
                            assert(mid.memo_r()[j].1 != k);
                        },
                        None => {},
                    }
                }
            }
        }
        self.rewrite_memo.push((d, k));
        let nlen: usize = self.rewrite_memo.len();
        assert(self.memo_r().len() == nlen);
        proof {
            let m = self.memo_r();
            assert(m[m.len() - 1] == (d, k));
            assert(rview(m[m.len() - 1].0) == rview(d));
            assert(self.memo_r_has(rview(d), k));
            // membership of every final entry in the original table
            assert forall|a: int| 0 <= a < m.len() implies (exists|j: int|
                0 <= j < pre.memo_r().len() && #[trigger] m[a] == pre.memo_r()[j]) || m[a] == (
            d,
            k,
            ) by {
                if a < m.len() - 1 {
                    match ki {
                        Some(i) => {
                            let j2 = choose|j: int|
                                0 <= j < mid.memo_r().len() && j != i && m[a] == mid.memo_r()[j];
                            match vi {
                                Some(i1) => {
                                    let j1 = choose|j: int|
                                        0 <= j < pre.memo_r().len() && j != i1 && mid.memo_r()[j2]
                                            == pre.memo_r()[j];
                                    assert(m[a] == pre.memo_r()[j1]);
                                },
                                None => {},
                            }
                        },
                        None => {
                            match vi {
                                Some(i1) => {
                                    let j1 = choose|j: int|
                                        0 <= j < pre.memo_r().len() && j != i1 && m[a]
                                            == pre.memo_r()[j];
                                    assert(m[a] == pre.memo_r()[j1]);
                                },
                                None => {},
                            }
                        },
                    }
                }
            }
            if pre.canon_memo() && k == rkey(rview(d)) {
                assert forall|a: int| 0 <= a < m.len() implies (#[trigger] m[a]).1 == rkey(
                    rview(m[a].0),
                ) by {
                    if a < m.len() - 1 {
                        let j = choose|j: int|
                            0 <= j < pre.memo_r().len() && m[a] == pre.memo_r()[j];
                        assert(pre.memo_r()[j].1 == rkey(rview(pre.memo_r()[j].0)));
                    }
                }
            }
        }
    }

    /// First index of a rewrite memo entry denoting `d`.
    fn memo_r_value_index(&self, d: &Rewrite) -> (r: Option<usize>)
        ensures
            match r {
                Some(i) => i < self.memo_r().len() && rview(self.memo_r()[i as int].0) == d@
                    && (self.uniq() ==> forall|j: int|
                    0 <= j < self.memo_r().len() && j != i ==> rview(
                        (#[trigger] self.memo_r()[j]).0,
                    ) != d@),
                None => forall|j: int|
                    0 <= j < self.memo_r().len() ==> rview((#[trigger] self.memo_r()[j]).0) != d@,
            },
    {
        let n: usize = self.rewrite_memo.len();
        let mut i: usize = 0;
        while i < n
            invariant
                n == self.memo_r().len(),
                0 <= i <= n,
                forall|j: int| 0 <= j < i ==> rview((#[trigger] self.memo_r()[j]).0) != d@,
            decreases n - i,
        {
            if crate::diagram::eq_rewrite(&self.rewrite_memo[i].0, d) {
                proof {
                    if self.uniq() {
                        assert forall|j: int|
                            0 <= j < self.memo_r().len() && j != i implies rview(
                            (#[trigger] self.memo_r()[j]).0,
                        ) != d@ by {
                            if j > i {
                                assert(rview(self.memo_r()[i as int].0) != rview(
                                    self.memo_r()[j].0,
                                ));
                            }
                        }
                    }
                }
                return Some(i);
            }
            i = i + 1;
        }
        None
    }

    /// First index of a rewrite memo entry carrying key `k`.
    fn memo_r_key_index(&self, k: KeyBits) -> (r: Option<usize>)
        ensures
            match r {
                Some(i) => i < self.memo_r().len() && self.memo_r()[i as int].1 == k && (
                self.uniq() ==> forall|j: int|
                    0 <= j < self.memo_r().len() && j != i ==> (#[trigger] self.memo_r()[j]).1
                        != k),
                None => forall|j: int|
                    0 <= j < self.memo_r().len() ==> (#[trigger] self.memo_r()[j]).1 != k,
            },
    {
        let n: usize = self.rewrite_memo.len();
        let mut i: usize = 0;
        while i < n
            invariant
                n == self.memo_r().len(),
                0 <= i <= n,
                forall|j: int| 0 <= j < i ==> (#[trigger] self.memo_r()[j]).1 != k,
            decreases n - i,
        {
            let e = &self.rewrite_memo[i];
            if e.1.0 == k.0 && e.1.1 == k.1 {
                proof {
                    assert(self.memo_r()[i as int].1 == k);
                    if self.uniq() {
                        assert forall|j: int|
                            0 <= j < self.memo_r().len() && j != i implies (
                        #[trigger] self.memo_r()[j]).1 != k by {
                            if j > i {
                                assert(self.memo_r()[i as int].1 != self.memo_r()[j].1);
                            }
                        }
                    }
                }
                return Some(i);
            }
            i = i + 1;
        }
        None
    }
}

impl Store {
    /// Scans the cone memo for an entry denoting `d`.
    fn memo_k_find(&self, d: &Cone) -> (r: Option<KeyBits>)
        ensures
            match r {
                Some(k) => self.memo_k_has(d@, k),
                None => !self.memo_k_contains(d@),
            },
    {
        let n: usize = self.cone_memo.len();
        let mut i: usize = 0;
        while i < n
            invariant
                n == self.memo_k().len(),
                0 <= i <= n,
                forall|j: int| 0 <= j < i ==> kview((#[trigger] self.memo_k()[j]).0) != d@,
            decreases n - i,
        {
            if crate::diagram::eq_cone(&self.cone_memo[i].0, d) {
                return Some(self.cone_memo[i].1);
            }
            i = i + 1;
        }
        None
    }

    /// Scans the cone memo for the entry carrying key `k`, returning a
    /// copy of its value.
    fn memo_k_key_find(&self, k: KeyBits) -> (r: Option<Cone>)
        ensures
            match r {
                Some(v) => self.memo_k_at(k) && self.memo_k_has(v@, k) && (self.uniq() ==> v@
                    == self.memo_k_value(k)),
                None => !self.memo_k_at(k),
            },
    {
        let n: usize = self.cone_memo.len();
        let mut i: usize = 0;
        while i < n
            invariant
                n == self.memo_k().len(),
                0 <= i <= n,
                forall|j: int| 0 <= j < i ==> (#[trigger] self.memo_k()[j]).1 != k,
            decreases n - i,
        {
            let e = &self.cone_memo[i];
            if e.1.0 == k.0 && e.1.1 == k.1 {
                let v = crate::diagram::clone_cone(&e.0);
                proof {
                    assert(self.memo_k()[i as int].1 == k);
                    if self.uniq() {
                        let j = choose|j: int|
                            0 <= j < self.memo_k().len() && (#[trigger] self.memo_k()[j]).1 == k;
                        if j != i {
                            if j < i {
                                assert(self.memo_k()[j].1 != self.memo_k()[i as int].1);
                            } else {
                                assert(self.memo_k()[i as int].1 != self.memo_k()[j].1);
                            }
                        }
                        assert(v@ == self.memo_k_value(k));
                    }
                }
                return Some(v);
            }
            i = i + 1;
        }
        None
    }

    /// Inserts a cone memo entry, evicting any entry that denotes the
    /// same value or carries the same key, as a bidirectional table does.
    #[verifier::rlimit(100)]
    #[verifier::spinoff_prover]
    fn memo_k_insert(&mut self, d: Cone, k: KeyBits)
        ensures
            final(self).diagrams_map() == old(self).diagrams_map(),
            final(self).rewrites_map() == old(self).rewrites_map(),
            final(self).cones_map() == old(self).cones_map(),
            final(self).memo_d() == old(self).memo_d(),
            final(self).memo_r() == old(self).memo_r(),
            final(self).memo_k_has(kview(d), k),
            forall|a: int|
                0 <= a < final(self).memo_k().len() ==> (exists|j: int|
                    0 <= j < old(self).memo_k().len() && #[trigger] final(self).memo_k()[a] == old(
                        self,
                    ).memo_k()[j]) || final(self).memo_k()[a] == (d, k),
            old(self).uniq() ==> final(self).uniq(),
            old(self).canon_memo() && k == kkey(kview(d)) ==> final(self).canon_memo(),
            final(self).memo_k().len() <= usize::MAX,
    {
        let ghost pre = *self;
        // evict an entry denoting the same value, if one is there
        let vi = self.memo_k_value_index(&d);
        match vi {
            Some(i) => {
                let ghost before = self.memo_k();
                self.cone_memo.swap_remove(i);
                proof {
                    lemma_swap_remove_entries(
                        before,
                        self.memo_k(),
                        i as int,
                        |t: Cone| kview(t),
                    );
                }
            },
            None => {},
        }
        let ghost mid = *self;
        proof {
            if pre.uniq() {
                assert forall|a: int| 0 <= a < mid.memo_k().len() implies kview(
                    (#[trigger] mid.memo_k()[a]).0,
                ) != kview(d) by {
                    match vi {
                        Some(i) => {
                            let j = choose|j: int|
                                0 <= j < pre.memo_k().len() && j != i && mid.memo_k()[a]
                                    == pre.memo_k()[j];
                            assert(kview(pre.memo_k()[j].0) != kview(d));
                        },
                        None => {},
                    }
                }
            }
        }
        // evict the entry carrying the same key, if one is there
        let ki = self.memo_k_key_index(k);
        match ki {
            Some(i) => {
                let ghost before = self.memo_k();
                self.cone_memo.swap_remove(i);
                proof {
                    lemma_swap_remove_entries(
                        before,
                        self.memo_k(),
                        i as int,
                        |t: Cone| kview(t),
                    );
                }
            },
            None => {},
        }
        proof {
            if pre.uniq() {
                assert forall|a: int| 0 <= a < self.memo_k().len() implies kview(
                    (#[trigger] self.memo_k()[a]).0,
                ) != kview(d) && self.memo_k()[a].1 != k by {
                    match ki {
                        Some(i) => {
                            let j = choose|j: int|
                                0 <= j < mid.memo_k().len() && j != i && self.memo_k()[a]
                                    == mid.memo_k()[j];
                            assert(kview(mid.memo_k()[j].0) != kview(d));
                            assert(mid.memo_k()[j].1 != k);
                        },
                        None => {},
                    }
                }
            }
        }
        self.cone_memo.push((d, k));
        let nlen: usize = self.cone_memo.len();
        assert(self.memo_k().len() == nlen);
        proof {
            let m = self.memo_k();
            assert(m[m.len() - 1] == (d, k));
            assert(kview(m[m.len() - 1].0) == kview(d));
            assert(self.memo_k_has(kview(d), k));
            // membership of every final entry in the original table
            assert forall|a: int| 0 <= a < m.len() implies (exists|j: int|
                0 <= j < pre.memo_k().len() && #[trigger] m[a] == pre.memo_k()[j]) || m[a] == (
            d,
            k,
            ) by {
                if a < m.len() - 1 {
                    match ki {
                        Some(i) => {
                            let j2 = choose|j: int|
                                0 <= j < mid.memo_k().len() && j != i && m[a] == mid.memo_k()[j];
                            match vi {
                                Some(i1) => {
                                    let j1 = choose|j: int|
                                        0 <= j < pre.memo_k().len() && j != i1 && mid.memo_k()[j2]
                                            == pre.memo_k()[j];
                                    assert(m[a] == pre.memo_k()[j1]);
                                },
                                None => {},
                            }
                        },
                        None => {
                            match vi {
                                Some(i1) => {
                                    let j1 = choose|j: int|
                                        0 <= j < pre.memo_k().len() && j != i1 && m[a]
                                            == pre.memo_k()[j];
                                    assert(m[a] == pre.memo_k()[j1]);
                                },
                                None => {},
                            }
                        },
                    }
                }
            }
            if pre.canon_memo() && k == kkey(kview(d)) {
                assert forall|a: int| 0 <= a < m.len() implies (#[trigger] m[a]).1 == kkey(
                    kview(m[a].0),
                ) by {
                    if a < m.len() - 1 {
                        let j = choose|j: int|
                            0 <= j < pre.memo_k().len() && m[a] == pre.memo_k()[j];
                        assert(pre.memo_k()[j].1 == kkey(kview(pre.memo_k()[j].0)));
                    }
                }
            }
        }
    }

    /// First index of a cone memo entry denoting `d`.
    fn memo_k_value_index(&self, d: &Cone) -> (r: Option<usize>)
        ensures
            match r {
                Some(i) => i < self.memo_k().len() && kview(self.memo_k()[i as int].0) == d@
                    && (self.uniq() ==> forall|j: int|
                    0 <= j < self.memo_k().len() && j != i ==> kview(
                        (#[trigger] self.memo_k()[j]).0,
                    ) != d@),
                None => forall|j: int|
                    0 <= j < self.memo_k().len() ==> kview((#[trigger] self.memo_k()[j]).0) != d@,
            },
    {
        let n: usize = self.cone_memo.len();
        let mut i: usize = 0;
        while i < n
            invariant
                n == self.memo_k().len(),
                0 <= i <= n,
                forall|j: int| 0 <= j < i ==> kview((#[trigger] self.memo_k()[j]).0) != d@,
            decreases n - i,
        {
            if crate::diagram::eq_cone(&self.cone_memo[i].0, d) {
                proof {
                    if self.uniq() {
                        assert forall|j: int|
                            0 <= j < self.memo_k().len() && j != i implies kview(
                            (#[trigger] self.memo_k()[j]).0,
                        ) != d@ by {
                            if j > i {
                                assert(kview(self.memo_k()[i as int].0) != kview(
                                    self.memo_k()[j].0,
                                ));
                            }
                        }
                    }
                }
                return Some(i);
            }
            i = i + 1;
        }
        None
    }

    /// First index of a cone memo entry carrying key `k`.
    fn memo_k_key_index(&self, k: KeyBits) -> (r: Option<usize>)
        ensures
            match r {
                Some(i) => i < self.memo_k().len() && self.memo_k()[i as int].1 == k && (
                self.uniq() ==> forall|j: int|
                    0 <= j < self.memo_k().len() && j != i ==> (#[trigger] self.memo_k()[j]).1
                        != k),
                None => forall|j: int|
                    0 <= j < self.memo_k().len() ==> (#[trigger] self.memo_k()[j]).1 != k,
            },
    {
        let n: usize = self.cone_memo.len();
        let mut i: usize = 0;
        while i < n
            invariant
                n == self.memo_k().len(),
                0 <= i <= n,
                forall|j: int| 0 <= j < i ==> (#[trigger] self.memo_k()[j]).1 != k,
            decreases n - i,
        {
            let e = &self.cone_memo[i];
            if e.1.0 == k.0 && e.1.1 == k.1 {
                proof {
                    assert(self.memo_k()[i as int].1 == k);
                    if self.uniq() {
                        assert forall|j: int|
                            0 <= j < self.memo_k().len() && j != i implies (
                        #[trigger] self.memo_k()[j]).1 != k by {
                            if j > i {
                                assert(self.memo_k()[i as int].1 != self.memo_k()[j].1);
                            }
                        }
                    }
                }
                return Some(i);
            }
            i = i + 1;
        }
        None
    }
}



impl Store {
    /// Records a diagram record under the hash of its own bytes. Records
    /// are immutable once stored: a key that is already taken keeps its
    /// record, so stored facts are never invalidated. (Under the accepted
    /// collision risk the two records may differ; then the first one wins.)
    #[verifier::rlimit(100)]
    #[verifier::spinoff_prover]
    fn insert_diagram_rec(&mut self, k: KeyBits, rec: DiagramRec)
        requires
            k == hash128_of(drec_bytes(rec@)),
            old(self).canon_recs(),
        ensures
            final(self).canon_recs(),
            final(self).diagrams_map() == (if old(self).diagrams_map().contains_key(k) {
                old(self).diagrams_map()
            } else {
                old(self).diagrams_map().insert(k, rec)
            }),
            final(self).diagrams_map().contains_key(k),
            !old(self).diagrams_map().contains_key(k) ==> final(self).diagrams_map()[k] == rec,
            final(self).rewrites_map() == old(self).rewrites_map(),
            final(self).cones_map() == old(self).cones_map(),
            final(self).memo_d() == old(self).memo_d(),
            final(self).memo_r() == old(self).memo_r(),
            final(self).memo_k() == old(self).memo_k(),
            old(self).uniq() ==> final(self).uniq(),
            old(self).canon_memo() ==> final(self).canon_memo(),
    {
        broadcast use vstd::laws_cmp::group_laws_cmp;

        let ghost pre = *self;
        if !self.diagrams.contains_key(&k) {
            self.diagrams.insert(k, rec);
        }
        proof {
            assert forall|k2: KeyBits| self.diagrams_map().contains_key(k2) implies k2
                == hash128_of(drec_bytes((#[trigger] self.diagrams_map()[k2])@)) by {
                if k2 != k || pre.diagrams_map().contains_key(k2) {
                    assert(pre.diagrams_map().contains_key(k2));
                    assert(self.diagrams_map()[k2] == pre.diagrams_map()[k2]);
                }
            }
            assert forall|k2: KeyBits| self.rewrites_map().contains_key(k2) implies k2
                == hash128_of(rrec_bytes((#[trigger] self.rewrites_map()[k2])@)) by {
                assert(pre.rewrites_map().contains_key(k2));
                assert(self.rewrites_map()[k2] == pre.rewrites_map()[k2]);
            }
            assert forall|k2: KeyBits| self.cones_map().contains_key(k2) implies k2
                == hash128_of(krec_bytes((#[trigger] self.cones_map()[k2])@)) by {
                assert(pre.cones_map().contains_key(k2));
                assert(self.cones_map()[k2] == pre.cones_map()[k2]);
            }
        }
    }

    /// Records a rewrite record under the hash of its own bytes; a taken
    /// key keeps its record.
    #[verifier::rlimit(100)]
    #[verifier::spinoff_prover]
    fn insert_rewrite_rec(&mut self, k: KeyBits, rec: RewriteRec)
        requires
            k == hash128_of(rrec_bytes(rec@)),
            old(self).canon_recs(),
        ensures
            final(self).canon_recs(),
            final(self).rewrites_map() == (if old(self).rewrites_map().contains_key(k) {
                old(self).rewrites_map()
            } else {
                old(self).rewrites_map().insert(k, rec)
            }),
            final(self).rewrites_map().contains_key(k),
            !old(self).rewrites_map().contains_key(k) ==> final(self).rewrites_map()[k] == rec,
            final(self).diagrams_map() == old(self).diagrams_map(),
            final(self).cones_map() == old(self).cones_map(),
            final(self).memo_d() == old(self).memo_d(),
            final(self).memo_r() == old(self).memo_r(),
            final(self).memo_k() == old(self).memo_k(),
            old(self).uniq() ==> final(self).uniq(),
            old(self).canon_memo() ==> final(self).canon_memo(),
    {
        broadcast use vstd::laws_cmp::group_laws_cmp;

        let ghost pre = *self;
        if !self.rewrites.contains_key(&k) {
            self.rewrites.insert(k, rec);
        }
        proof {
            assert forall|k2: KeyBits| self.rewrites_map().contains_key(k2) implies k2
                == hash128_of(rrec_bytes((#[trigger] self.rewrites_map()[k2])@)) by {
                if k2 != k || pre.rewrites_map().contains_key(k2) {
                    assert(pre.rewrites_map().contains_key(k2));
                    assert(self.rewrites_map()[k2] == pre.rewrites_map()[k2]);
                }
            }
            assert forall|k2: KeyBits| self.diagrams_map().contains_key(k2) implies k2
                == hash128_of(drec_bytes((#[trigger] self.diagrams_map()[k2])@)) by {
                assert(pre.diagrams_map().contains_key(k2));
                assert(self.diagrams_map()[k2] == pre.diagrams_map()[k2]);
            }
            assert forall|k2: KeyBits| self.cones_map().contains_key(k2) implies k2
                == hash128_of(krec_bytes((#[trigger] self.cones_map()[k2])@)) by {
                assert(pre.cones_map().contains_key(k2));
                assert(self.cones_map()[k2] == pre.cones_map()[k2]);
            }
        }
    }

    /// Records a cone record under the hash of its own bytes; a taken key
    /// keeps its record.
    #[verifier::rlimit(100)]
    #[verifier::spinoff_prover]
    fn insert_cone_rec(&mut self, k: KeyBits, rec: ConeRec)
        requires
            k == hash128_of(krec_bytes(rec@)),
            old(self).canon_recs(),
        ensures
            final(self).canon_recs(),
            final(self).cones_map() == (if old(self).cones_map().contains_key(k) {
                old(self).cones_map()
            } else {
                old(self).cones_map().insert(k, rec)
            }),
            final(self).cones_map().contains_key(k),
            !old(self).cones_map().contains_key(k) ==> final(self).cones_map()[k] == rec,
            final(self).diagrams_map() == old(self).diagrams_map(),
            final(self).rewrites_map() == old(self).rewrites_map(),
            final(self).memo_d() == old(self).memo_d(),
            final(self).memo_r() == old(self).memo_r(),
            final(self).memo_k() == old(self).memo_k(),
            old(self).uniq() ==> final(self).uniq(),
            old(self).canon_memo() ==> final(self).canon_memo(),
    {
        broadcast use vstd::laws_cmp::group_laws_cmp;

        let ghost pre = *self;
        if !self.cones.contains_key(&k) {
            self.cones.insert(k, rec);
        }
        proof {
            assert forall|k2: KeyBits| self.cones_map().contains_key(k2) implies k2
                == hash128_of(krec_bytes((#[trigger] self.cones_map()[k2])@)) by {
                if k2 != k || pre.cones_map().contains_key(k2) {
                    assert(pre.cones_map().contains_key(k2));
                    assert(self.cones_map()[k2] == pre.cones_map()[k2]);
                }
            }
            assert forall|k2: KeyBits| self.diagrams_map().contains_key(k2) implies k2
                == hash128_of(drec_bytes((#[trigger] self.diagrams_map()[k2])@)) by {
                assert(pre.diagrams_map().contains_key(k2));
                assert(self.diagrams_map()[k2] == pre.diagrams_map()[k2]);
            }
            assert forall|k2: KeyBits| self.rewrites_map().contains_key(k2) implies k2
                == hash128_of(rrec_bytes((#[trigger] self.rewrites_map()[k2])@)) by {
                assert(pre.rewrites_map().contains_key(k2));
                assert(self.rewrites_map()[k2] == pre.rewrites_map()[k2]);
            }
        }
    }
}

/// Cospan records whose fields are the keys of the matching cospan values
/// serialize to the same bytes as the values' key run.
proof fn lemma_cospanrecs_match(recs: Seq<CospanRec>, cs: Seq<CospanV>)
    requires
        recs.len() == cs.len(),
        forall|i: int|
            0 <= i < recs.len() ==> (#[trigger] recs[i]).forward == rkey(cs[i].forward)
                && recs[i].backward == rkey(cs[i].backward),
    ensures
        enc_cospanrecs(recs) == cospankeys_bytes(cs),
    decreases recs.len(),
{
    if recs.len() > 0 {
        assert(forall|i: int|
            0 <= i < recs.drop_last().len() ==> #[trigger] recs.drop_last()[i] == recs[i]);
        lemma_cospanrecs_match(recs.drop_last(), cs.drop_last());
    }
}

/// Cone references whose keys match the cone values serialize to the same
/// bytes as the values' indexed key run.
proof fn lemma_coneindexrecs_match(recs: Seq<ConeIndexRec>, cs: Seq<ConeV>)
    requires
        recs.len() == cs.len(),
        forall|i: int|
            0 <= i < recs.len() ==> (#[trigger] recs[i]).index == cs[i].index && recs[i].cone
                == kkey(cs[i]),
    ensures
        enc_coneindexrecs(recs) == conekeys_bytes(cs),
    decreases recs.len(),
{
    if recs.len() > 0 {
        assert(forall|i: int|
            0 <= i < recs.drop_last().len() ==> #[trigger] recs.drop_last()[i] == recs[i]);
        lemma_coneindexrecs_match(recs.drop_last(), cs.drop_last());
    }
}

/// Key runs that match rewrite values pointwise serialize to the same bytes
/// as the values' key run.
proof fn lemma_bits_match(keys: Seq<KeyBits>, rs: Seq<RewriteV>)
    requires
        keys.len() == rs.len(),
        forall|i: int| 0 <= i < keys.len() ==> #[trigger] keys[i] == rkey(rs[i]),
    ensures
        enc_bits_seq(keys) == rewritekeys_bytes(rs),
    decreases keys.len(),
{
    if keys.len() > 0 {
        assert(forall|i: int|
            0 <= i < keys.drop_last().len() ==> #[trigger] keys.drop_last()[i] == keys[i]);
        lemma_bits_match(keys.drop_last(), rs.drop_last());
    }
}

impl Store {
    /// Packs a rewrite: returns its content key, memoizing the value and
    /// recording its canonical record, and likewise for all its children.
    /// The key depends on the rewrite's structure alone, so structurally
    /// equal rewrites receive equal keys in any store; packing a rewrite the
    /// store has already seen leaves the store unchanged.
    #[verifier::rlimit(100)]
    #[verifier::spinoff_prover]
    pub fn pack_rewrite(&mut self, r: &Rewrite) -> (res: Key<Rewrite>)
        requires
            old(self).wf(),
        ensures
            final(self).wf(),
            res@ == rkey(r@),
            final(self).memo_r_has(r@, rkey(r@)),
            final(self).memo_d() == old(self).memo_d(),
            final(self).rewrites_map().contains_key(rkey(r@)),
            old(self).memo_r_contains(r@) ==> *final(self) == *old(self),
            forall|k2: KeyBits|
                #![trigger old(self).diagrams_map().contains_key(k2)]
                old(self).diagrams_map().contains_key(k2) ==> final(self).diagrams_map().contains_key(k2) && final(self).diagrams_map()[k2] == old(self).diagrams_map()[k2],
            forall|k2: KeyBits|
                #![trigger old(self).rewrites_map().contains_key(k2)]
                old(self).rewrites_map().contains_key(k2) ==> final(self).rewrites_map().contains_key(k2) && final(self).rewrites_map()[k2] == old(self).rewrites_map()[k2],
            forall|k2: KeyBits|
                #![trigger old(self).cones_map().contains_key(k2)]
                old(self).cones_map().contains_key(k2) ==> final(self).cones_map().contains_key(
                    k2,
                ) && final(self).cones_map()[k2] == old(self).cones_map()[k2],
        decreases *r,
    {
        let found = self.memo_r_find(r);
        match found {
            Some(k) => {
                proof {
                    let i = choose|i: int|
                        0 <= i < self.memo_r().len() && rview((#[trigger] self.memo_r()[i]).0)
                            == r@ && self.memo_r()[i].1 == k;
                    assert(self.memo_r()[i].1 == rkey(rview(self.memo_r()[i].0)));
                }
                return Key::new(k);
            },
            None => {},
        }
        match r {
            Rewrite::Rewrite0(r0) => {
                let rec = match &r0.ends {
                    None => RewriteRec::R0 { source: None, target: None, label: None },
                    Some(e) => RewriteRec::R0 {
                        source: Some(e.source),
                        target: Some(e.target),
                        label: match &e.label {
                            None => None,
                            Some(l) => Some(crate::common::clone_label(l)),
                        },
                    },
                };
                let bytes = rrec_to_bytes(&rec);
                let k = highway_hash128(&bytes);
                proof {
                    assert(rrec_bytes(rec@) =~= rbytes(r@));
                    assert(k == rkey(r@));
                }
                self.insert_rewrite_rec(k, rec);
                self.memo_r_insert(crate::diagram::clone_rewrite(r), k);
                Key::new(k)
            },
            Rewrite::RewriteN(rn) => {
                let mut cones: Vec<ConeIndexRec> = Vec::new();
                let n: usize = rn.cones.len();
                let mut i: usize = 0;
                while i < n
                    invariant
                        n == rn.cones@.len(),
                        0 <= i <= n,
                        *r == Rewrite::RewriteN(*rn),
                        self.wf(),
                        self.memo_d() == old(self).memo_d(),
                        forall|k2: KeyBits|
                            #![trigger old(self).diagrams_map().contains_key(k2)]
                            old(self).diagrams_map().contains_key(k2)
                                ==> self.diagrams_map().contains_key(k2)
                                && self.diagrams_map()[k2] == old(self).diagrams_map()[k2],
                        forall|k2: KeyBits|
                            #![trigger old(self).rewrites_map().contains_key(k2)]
                            old(self).rewrites_map().contains_key(k2)
                                ==> self.rewrites_map().contains_key(k2)
                                && self.rewrites_map()[k2] == old(self).rewrites_map()[k2],
                        forall|k2: KeyBits|
                            #![trigger old(self).cones_map().contains_key(k2)]
                            old(self).cones_map().contains_key(k2)
                                ==> self.cones_map().contains_key(k2) && self.cones_map()[k2]
                                == old(self).cones_map()[k2],
                        cones@.len() == i,
                        forall|j: int|
                            0 <= j < i ==> (#[trigger] cones@[j]).index == kview(
                                rn.cones@[j],
                            ).index && cones@[j].cone == kkey(kview(rn.cones@[j])),
                    decreases n - i,
                {
                    proof {
                        assert(decreases_to!(*r => r->RewriteN_0));
                        assert(r->RewriteN_0 == *rn);
                        assert(decreases_to!(*r => *rn));
                        assert(decreases_to!(*rn => rn.cones));
                        assert(decreases_to!(rn.cones => rn.cones@));
                        assert(decreases_to!(rn.cones@ => rn.cones@[i as int]));
                        assert(decreases_to!(*r => rn.cones@[i as int]));
                    }
                    let cr = self.pack_cone(&rn.cones[i]);
                    cones.push(cr);
                    proof {
                        assert forall|k2: KeyBits|
                            old(self).diagrams_map().contains_key(k2) implies self.diagrams_map().contains_key(
                            k2,
                        ) && self.diagrams_map()[k2] == old(self).diagrams_map()[k2] by {}
                        assert forall|k2: KeyBits|
                            old(self).rewrites_map().contains_key(k2) implies self.rewrites_map().contains_key(
                            k2,
                        ) && self.rewrites_map()[k2] == old(self).rewrites_map()[k2] by {}
                        assert forall|k2: KeyBits|
                            old(self).cones_map().contains_key(k2) implies self.cones_map().contains_key(
                            k2,
                        ) && self.cones_map()[k2] == old(self).cones_map()[k2] by {}
                    }
                    i = i + 1;
                }
                let rec = RewriteRec::RN { dimension: rn.dimension, cones };
                let bytes = rrec_to_bytes(&rec);
                let k = highway_hash128(&bytes);
                proof {
                    crate::diagram::lemma_kviews(rn.cones@);
                    match &rec {
                        RewriteRec::RN { dimension: _, cones: cs } => {
                            lemma_coneindexrecs_match(cs@, kviews(rn.cones@));
                        },
                        _ => {},
                    }
                    assert(rrec_bytes(rec@) =~= rbytes(r@));
                    assert(k == rkey(r@));
                }
                self.insert_rewrite_rec(k, rec);
                self.memo_r_insert(crate::diagram::clone_rewrite(r), k);
                Key::new(k)
            },
        }
    }

    /// Packs a cospan: packs both rewrites and pairs their keys.
    #[verifier::rlimit(100)]
    #[verifier::spinoff_prover]
    pub fn pack_cospan(&mut self, c: &Cospan) -> (res: CospanRec)
        requires
            old(self).wf(),
        ensures
            final(self).wf(),
            res.forward == rkey(c@.forward),
            res.backward == rkey(c@.backward),
            final(self).memo_d() == old(self).memo_d(),
            final(self).rewrites_map().contains_key(rkey(c@.forward)),
            final(self).rewrites_map().contains_key(rkey(c@.backward)),
            forall|k2: KeyBits|
                #![trigger old(self).diagrams_map().contains_key(k2)]
                old(self).diagrams_map().contains_key(k2) ==> final(self).diagrams_map().contains_key(k2) && final(self).diagrams_map()[k2] == old(self).diagrams_map()[k2],
            forall|k2: KeyBits|
                #![trigger old(self).rewrites_map().contains_key(k2)]
                old(self).rewrites_map().contains_key(k2) ==> final(self).rewrites_map().contains_key(k2) && final(self).rewrites_map()[k2] == old(self).rewrites_map()[k2],
            forall|k2: KeyBits|
                #![trigger old(self).cones_map().contains_key(k2)]
                old(self).cones_map().contains_key(k2) ==> final(self).cones_map().contains_key(
                    k2,
                ) && final(self).cones_map()[k2] == old(self).cones_map()[k2],
        decreases *c,
    {
        let f = self.pack_rewrite(&c.forward);
        let b = self.pack_rewrite(&c.backward);
        CospanRec { forward: f.bits, backward: b.bits }
    }

    /// Packs a cone: returns its position index with its content key,
    /// memoizing the cone and recording its canonical record. Packing a cone
    /// the store has already seen leaves the store unchanged.
    #[verifier::rlimit(100)]
    #[verifier::spinoff_prover]
    pub fn pack_cone(&mut self, c: &Cone) -> (res: ConeIndexRec)
        requires
            old(self).wf(),
        ensures
            final(self).wf(),
            res.index == c@.index,
            res.cone == kkey(c@),
            final(self).memo_k_has(c@, kkey(c@)),
            final(self).memo_d() == old(self).memo_d(),
            final(self).cones_map().contains_key(kkey(c@)),
            old(self).memo_k_contains(c@) ==> *final(self) == *old(self),
            forall|k2: KeyBits|
                #![trigger old(self).diagrams_map().contains_key(k2)]
                old(self).diagrams_map().contains_key(k2) ==> final(self).diagrams_map().contains_key(k2) && final(self).diagrams_map()[k2] == old(self).diagrams_map()[k2],
            forall|k2: KeyBits|
                #![trigger old(self).rewrites_map().contains_key(k2)]
                old(self).rewrites_map().contains_key(k2) ==> final(self).rewrites_map().contains_key(k2) && final(self).rewrites_map()[k2] == old(self).rewrites_map()[k2],
            forall|k2: KeyBits|
                #![trigger old(self).cones_map().contains_key(k2)]
                old(self).cones_map().contains_key(k2) ==> final(self).cones_map().contains_key(
                    k2,
                ) && final(self).cones_map()[k2] == old(self).cones_map()[k2],
        decreases *c,
    {
        let found = self.memo_k_find(c);
        match found {
            Some(k) => {
                proof {
                    let i = choose|i: int|
                        0 <= i < self.memo_k().len() && kview((#[trigger] self.memo_k()[i]).0)
                            == c@ && self.memo_k()[i].1 == k;
                    assert(self.memo_k()[i].1 == kkey(kview(self.memo_k()[i].0)));
                }
                return ConeIndexRec { index: c.index, cone: k };
            },
            None => {},
        }
        let mut source: Vec<CospanRec> = Vec::new();
        let n: usize = c.source.len();
        let mut i: usize = 0;
        while i < n
            invariant
                n == c.source@.len(),
                0 <= i <= n,
                self.wf(),
                self.memo_d() == old(self).memo_d(),
                forall|k2: KeyBits|
                    #![trigger old(self).diagrams_map().contains_key(k2)]
                    old(self).diagrams_map().contains_key(k2)
                        ==> self.diagrams_map().contains_key(k2)
                        && self.diagrams_map()[k2] == old(self).diagrams_map()[k2],
                forall|k2: KeyBits|
                    #![trigger old(self).rewrites_map().contains_key(k2)]
                    old(self).rewrites_map().contains_key(k2)
                        ==> self.rewrites_map().contains_key(k2)
                        && self.rewrites_map()[k2] == old(self).rewrites_map()[k2],
                forall|k2: KeyBits|
                    #![trigger old(self).cones_map().contains_key(k2)]
                    old(self).cones_map().contains_key(k2)
                        ==> self.cones_map().contains_key(k2) && self.cones_map()[k2]
                        == old(self).cones_map()[k2],
                source@.len() == i,
                forall|j: int|
                    0 <= j < i ==> (#[trigger] source@[j]).forward == rkey(
                        cview(c.source@[j]).forward,
                    ) && source@[j].backward == rkey(cview(c.source@[j]).backward),
            decreases n - i,
        {
            proof {
                assert(decreases_to!(*c => c.source));
                assert(decreases_to!(c.source => c.source@));
                assert(decreases_to!(c.source@ => c.source@[i as int]));
                assert(decreases_to!(*c => c.source@[i as int]));
            }
            let cr = self.pack_cospan(&c.source[i]);
            source.push(cr);
            proof {
                assert forall|k2: KeyBits|
                    old(self).diagrams_map().contains_key(k2) implies self.diagrams_map().contains_key(
                    k2,
                ) && self.diagrams_map()[k2] == old(self).diagrams_map()[k2] by {}
                assert forall|k2: KeyBits|
                    old(self).rewrites_map().contains_key(k2) implies self.rewrites_map().contains_key(
                    k2,
                ) && self.rewrites_map()[k2] == old(self).rewrites_map()[k2] by {}
                assert forall|k2: KeyBits|
                    old(self).cones_map().contains_key(k2) implies self.cones_map().contains_key(
                    k2,
                ) && self.cones_map()[k2] == old(self).cones_map()[k2] by {}
            }
            i = i + 1;
        }
        let target = self.pack_cospan(&c.target);
        let mut regular_slices: Vec<KeyBits> = Vec::new();
        let nr: usize = c.regular_slices.len();
        let mut ir: usize = 0;
        while ir < nr
            invariant
                nr == c.regular_slices@.len(),
                0 <= ir <= nr,
                self.wf(),
                self.memo_d() == old(self).memo_d(),
                forall|k2: KeyBits|
                    #![trigger old(self).diagrams_map().contains_key(k2)]
                    old(self).diagrams_map().contains_key(k2)
                        ==> self.diagrams_map().contains_key(k2)
                        && self.diagrams_map()[k2] == old(self).diagrams_map()[k2],
                forall|k2: KeyBits|
                    #![trigger old(self).rewrites_map().contains_key(k2)]
                    old(self).rewrites_map().contains_key(k2)
                        ==> self.rewrites_map().contains_key(k2)
                        && self.rewrites_map()[k2] == old(self).rewrites_map()[k2],
                forall|k2: KeyBits|
                    #![trigger old(self).cones_map().contains_key(k2)]
                    old(self).cones_map().contains_key(k2)
                        ==> self.cones_map().contains_key(k2) && self.cones_map()[k2]
                        == old(self).cones_map()[k2],
                regular_slices@.len() == ir,
                forall|j: int|
                    0 <= j < ir ==> #[trigger] regular_slices@[j] == rkey(
                        rview(c.regular_slices@[j]),
                    ),
            decreases nr - ir,
        {
            proof {
                assert(decreases_to!(*c => c.regular_slices));
                assert(decreases_to!(c.regular_slices => c.regular_slices@));
                assert(decreases_to!(c.regular_slices@ => c.regular_slices@[ir as int]));
                assert(decreases_to!(*c => c.regular_slices@[ir as int]));
            }
            let kr = self.pack_rewrite(&c.regular_slices[ir]);
            regular_slices.push(kr.bits);
            proof {
                assert forall|k2: KeyBits|
                    old(self).diagrams_map().contains_key(k2) implies self.diagrams_map().contains_key(
                    k2,
                ) && self.diagrams_map()[k2] == old(self).diagrams_map()[k2] by {}
                assert forall|k2: KeyBits|
                    old(self).rewrites_map().contains_key(k2) implies self.rewrites_map().contains_key(
                    k2,
                ) && self.rewrites_map()[k2] == old(self).rewrites_map()[k2] by {}
                assert forall|k2: KeyBits|
                    old(self).cones_map().contains_key(k2) implies self.cones_map().contains_key(
                    k2,
                ) && self.cones_map()[k2] == old(self).cones_map()[k2] by {}
            }
            ir = ir + 1;
        }
        let mut singular_slices: Vec<KeyBits> = Vec::new();
        let ns: usize = c.singular_slices.len();
        let mut is_: usize = 0;
        while is_ < ns
            invariant
                ns == c.singular_slices@.len(),
                0 <= is_ <= ns,
                self.wf(),
                self.memo_d() == old(self).memo_d(),
                forall|k2: KeyBits|
                    #![trigger old(self).diagrams_map().contains_key(k2)]
                    old(self).diagrams_map().contains_key(k2)
                        ==> self.diagrams_map().contains_key(k2)
                        && self.diagrams_map()[k2] == old(self).diagrams_map()[k2],
                forall|k2: KeyBits|
                    #![trigger old(self).rewrites_map().contains_key(k2)]
                    old(self).rewrites_map().contains_key(k2)
                        ==> self.rewrites_map().contains_key(k2)
                        && self.rewrites_map()[k2] == old(self).rewrites_map()[k2],
                forall|k2: KeyBits|
                    #![trigger old(self).cones_map().contains_key(k2)]
                    old(self).cones_map().contains_key(k2)
                        ==> self.cones_map().contains_key(k2) && self.cones_map()[k2]
                        == old(self).cones_map()[k2],
                singular_slices@.len() == is_,
                forall|j: int|
                    0 <= j < is_ ==> #[trigger] singular_slices@[j] == rkey(
                        rview(c.singular_slices@[j]),
                    ),
            decreases ns - is_,
        {
            proof {
                assert(decreases_to!(*c => c.singular_slices));
                assert(decreases_to!(c.singular_slices => c.singular_slices@));
                assert(decreases_to!(c.singular_slices@ => c.singular_slices@[is_ as int]));
                assert(decreases_to!(*c => c.singular_slices@[is_ as int]));
            }
            let ks = self.pack_rewrite(&c.singular_slices[is_]);
            singular_slices.push(ks.bits);
            proof {
                assert forall|k2: KeyBits|
                    old(self).diagrams_map().contains_key(k2) implies self.diagrams_map().contains_key(
                    k2,
                ) && self.diagrams_map()[k2] == old(self).diagrams_map()[k2] by {}
                assert forall|k2: KeyBits|
                    old(self).rewrites_map().contains_key(k2) implies self.rewrites_map().contains_key(
                    k2,
                ) && self.rewrites_map()[k2] == old(self).rewrites_map()[k2] by {}
                assert forall|k2: KeyBits|
                    old(self).cones_map().contains_key(k2) implies self.cones_map().contains_key(
                    k2,
                ) && self.cones_map()[k2] == old(self).cones_map()[k2] by {}
            }
            is_ = is_ + 1;
        }
        let rec = ConeRec { source, target, regular_slices, singular_slices };
        let bytes = krec_to_bytes(&rec);
        let k = highway_hash128(&bytes);
        proof {
            crate::diagram::lemma_cviews(c.source@);
            crate::diagram::lemma_rviews(c.regular_slices@);
            crate::diagram::lemma_rviews(c.singular_slices@);
            lemma_cospanrecs_match(rec.source@, cviews(c.source@));
            lemma_bits_match(rec.regular_slices@, rviews(c.regular_slices@));
            lemma_bits_match(rec.singular_slices@, rviews(c.singular_slices@));
            assert(krec_bytes(rec@) =~= kbytes(c@));
            assert(k == kkey(c@));
        }
        self.insert_cone_rec(k, rec);
        self.memo_k_insert(crate::diagram::clone_cone(c), k);
        ConeIndexRec { index: c.index, cone: k }
    }

    /// Packs a diagram: returns its content key, memoizing the value and
    /// recording its canonical record, and likewise for everything reachable
    /// from it. The key depends on the diagram's structure alone, so
    /// structurally equal diagrams receive equal keys in any store, however
    /// they were built; packing a diagram the store has already seen leaves
    /// the store unchanged, which is what stores one record per distinct
    /// subvalue.
    #[verifier::rlimit(100)]
    #[verifier::spinoff_prover]
    pub fn pack_diagram(&mut self, d: &Diagram) -> (res: Key<Diagram>)
        requires
            old(self).wf(),
        ensures
            final(self).wf(),
            res@ == dkey(d@),
            final(self).memo_d_has(d@, dkey(d@)),
            final(self).diagrams_map().contains_key(dkey(d@)),
            forall|kb: KeyBits| old(self).memo_d_at(kb) ==> final(self).memo_d_at(kb),
            old(self).memo_d_contains(d@) ==> *final(self) == *old(self),
            forall|k2: KeyBits|
                #![trigger old(self).diagrams_map().contains_key(k2)]
                old(self).diagrams_map().contains_key(k2) ==> final(self).diagrams_map().contains_key(k2) && final(self).diagrams_map()[k2] == old(self).diagrams_map()[k2],
            forall|k2: KeyBits|
                #![trigger old(self).rewrites_map().contains_key(k2)]
                old(self).rewrites_map().contains_key(k2) ==> final(self).rewrites_map().contains_key(k2) && final(self).rewrites_map()[k2] == old(self).rewrites_map()[k2],
            forall|k2: KeyBits|
                #![trigger old(self).cones_map().contains_key(k2)]
                old(self).cones_map().contains_key(k2) ==> final(self).cones_map().contains_key(
                    k2,
                ) && final(self).cones_map()[k2] == old(self).cones_map()[k2],
        decreases *d,
    {
        let found = self.memo_d_find(d);
        match found {
            Some(k) => {
                proof {
                    let i = choose|i: int|
                        0 <= i < self.memo_d().len() && dview((#[trigger] self.memo_d()[i]).0)
                            == d@ && self.memo_d()[i].1 == k;
                    assert(self.memo_d()[i].1 == dkey(dview(self.memo_d()[i].0)));
                }
                return Key::new(k);
            },
            None => {},
        }
        let rec = match d {
            Diagram::Diagram0(d0) => DiagramRec::D0 {
                generator: d0.generator,
                orientation: d0.orientation,
            },
            Diagram::DiagramN(dn) => {
                let sk = self.pack_diagram(&dn.source);
                let mut cospans: Vec<CospanRec> = Vec::new();
                let n: usize = dn.cospans.len();
                let mut i: usize = 0;
                while i < n
                    invariant
                        n == dn.cospans@.len(),
                        0 <= i <= n,
                        self.wf(),
                        forall|kb: KeyBits|
                            old(self).memo_d_at(kb) ==> self.memo_d_at(kb),
                        forall|k2: KeyBits|
                            #![trigger old(self).diagrams_map().contains_key(k2)]
                            old(self).diagrams_map().contains_key(k2)
                                ==> self.diagrams_map().contains_key(k2)
                                && self.diagrams_map()[k2] == old(self).diagrams_map()[k2],
                        forall|k2: KeyBits|
                            #![trigger old(self).rewrites_map().contains_key(k2)]
                            old(self).rewrites_map().contains_key(k2)
                                ==> self.rewrites_map().contains_key(k2)
                                && self.rewrites_map()[k2] == old(self).rewrites_map()[k2],
                        forall|k2: KeyBits|
                            #![trigger old(self).cones_map().contains_key(k2)]
                            old(self).cones_map().contains_key(k2)
                                ==> self.cones_map().contains_key(k2) && self.cones_map()[k2]
                                == old(self).cones_map()[k2],
                        cospans@.len() == i,
                        forall|j: int|
                            0 <= j < i ==> (#[trigger] cospans@[j]).forward == rkey(
                                cview(dn.cospans@[j]).forward,
                            ) && cospans@[j].backward == rkey(cview(dn.cospans@[j]).backward),
                    decreases n - i,
                {
                    let cr = self.pack_cospan(&dn.cospans[i]);
                    cospans.push(cr);
                    proof {
                        assert forall|k2: KeyBits|
                            old(self).diagrams_map().contains_key(k2) implies self.diagrams_map().contains_key(
                            k2,
                        ) && self.diagrams_map()[k2] == old(self).diagrams_map()[k2] by {}
                        assert forall|k2: KeyBits|
                            old(self).rewrites_map().contains_key(k2) implies self.rewrites_map().contains_key(
                            k2,
                        ) && self.rewrites_map()[k2] == old(self).rewrites_map()[k2] by {}
                        assert forall|k2: KeyBits|
                            old(self).cones_map().contains_key(k2) implies self.cones_map().contains_key(
                            k2,
                        ) && self.cones_map()[k2] == old(self).cones_map()[k2] by {}
                    }
                    i = i + 1;
                }
                let dim: u64 = crate::diagram::dimension(d);
                DiagramRec::DN { dimension: dim, source: sk.bits, cospans }
            },
        };
        let bytes = drec_to_bytes(&rec);
        let k = highway_hash128(&bytes);
        proof {
            match d {
                Diagram::Diagram0(_) => {
                    assert(drec_bytes(rec@) =~= dbytes(d@));
                },
                Diagram::DiagramN(dn) => {
                    crate::diagram::lemma_cviews(dn.cospans@);
                    match &rec {
                        DiagramRec::DN { dimension: _, source: _, cospans: cs } => {
                            lemma_cospanrecs_match(cs@, cviews(dn.cospans@));
                        },
                        _ => {},
                    }
                    assert(drec_bytes(rec@) =~= dbytes(d@));
                },
            }
            assert(k == dkey(d@));
        }
        self.insert_diagram_rec(k, rec);
        self.memo_d_insert(crate::diagram::clone_diagram(d), k);
        Key::new(k)
    }
}


/// Copies a diagram record; the copy denotes the same record value.
fn clone_drec(rec: &DiagramRec) -> (r: DiagramRec)
    ensures
        r@ == rec@,
{
    match rec {
        DiagramRec::D0 { generator, orientation } => DiagramRec::D0 {
            generator: *generator,
            orientation: *orientation,
        },
        DiagramRec::DN { dimension, source, cospans } => {
            let mut cs: Vec<CospanRec> = Vec::new();
            let n: usize = cospans.len();
            let mut i: usize = 0;
            while i < n
                invariant
                    n == cospans@.len(),
                    0 <= i <= n,
                    cs@.len() == i,
                    forall|j: int| 0 <= j < i ==> cs@[j] == cospans@[j],
                decreases n - i,
            {
                cs.push(cospans[i]);
                i = i + 1;
            }
            let r = DiagramRec::DN { dimension: *dimension, source: *source, cospans: cs };
            proof {
                match &r {
                    DiagramRec::DN { dimension: _, source: _, cospans: rcs } => {
                        assert(rcs@ =~= cospans@);
                    },
                    _ => {},
                }
                assert(r@ =~= rec@);
            }
            r
        },
    }
}

/// Copies a rewrite record; the copy denotes the same record value.
fn clone_rrec(rec: &RewriteRec) -> (r: RewriteRec)
    ensures
        r@ == rec@,
{
    match rec {
        RewriteRec::R0 { source, target, label } => {
            let r = RewriteRec::R0 {
                source: *source,
                target: *target,
                label: match label {
                    None => None,
                    Some(l) => Some(crate::common::clone_label(l)),
                },
            };
            proof {
                assert(r@ =~= rec@);
            }
            r
        },
        RewriteRec::RN { dimension, cones } => {
            let mut cs: Vec<ConeIndexRec> = Vec::new();
            let n: usize = cones.len();
            let mut i: usize = 0;
            while i < n
                invariant
                    n == cones@.len(),
                    0 <= i <= n,
                    cs@.len() == i,
                    forall|j: int| 0 <= j < i ==> cs@[j] == cones@[j],
                decreases n - i,
            {
                cs.push(cones[i]);
                i = i + 1;
            }
            let r = RewriteRec::RN { dimension: *dimension, cones: cs };
            proof {
                match &r {
                    RewriteRec::RN { dimension: _, cones: rcs } => {
                        assert(rcs@ =~= cones@);
                    },
                    _ => {},
                }
                assert(r@ =~= rec@);
            }
            r
        },
    }
}

/// Copies a run of cospan records.
fn clone_cospanrecs(recs: &Vec<CospanRec>) -> (r: Vec<CospanRec>)
    ensures
        r@ == recs@,
{
    let mut cs: Vec<CospanRec> = Vec::new();
    let n: usize = recs.len();
    let mut i: usize = 0;
    while i < n
        invariant
            n == recs@.len(),
            0 <= i <= n,
            cs@.len() == i,
            forall|j: int| 0 <= j < i ==> cs@[j] == recs@[j],
        decreases n - i,
    {
        cs.push(recs[i]);
        i = i + 1;
    }
    proof {
        assert(cs@ =~= recs@);
    }
    cs
}

/// Copies a run of key bits.
fn clone_bits_vec(keys: &Vec<KeyBits>) -> (r: Vec<KeyBits>)
    ensures
        r@ == keys@,
{
    let mut ks: Vec<KeyBits> = Vec::new();
    let n: usize = keys.len();
    let mut i: usize = 0;
    while i < n
        invariant
            n == keys@.len(),
            0 <= i <= n,
            ks@.len() == i,
            forall|j: int| 0 <= j < i ==> ks@[j] == keys@[j],
        decreases n - i,
    {
        ks.push(keys[i]);
        i = i + 1;
    }
    proof {
        assert(ks@ =~= keys@);
    }
    ks
}

/// Copies a cone record; the copy denotes the same record value.
fn clone_krec(rec: &ConeRec) -> (r: ConeRec)
    ensures
        r@ == rec@,
{
    let r = ConeRec {
        source: clone_cospanrecs(&rec.source),
        target: rec.target,
        regular_slices: clone_bits_vec(&rec.regular_slices),
        singular_slices: clone_bits_vec(&rec.singular_slices),
    };
    proof {
        assert(r@ =~= rec@);
    }
    r
}

/// Pointwise decoding of every cospan gives decoding of the whole run.
proof fn lemma_cs_decode_pointwise(
    rm: Map<KeyBits, RewriteRec>,
    cm: Map<KeyBits, ConeRec>,
    recs: Seq<CospanRec>,
    cs: Seq<CospanV>,
)
    requires
        recs.len() == cs.len(),
        forall|i: int| 0 <= i < cs.len() ==> c_decodes_in(rm, cm, recs[i], #[trigger] cs[i]),
    ensures
        cs_decode_in(rm, cm, recs, cs),
    decreases cs.len(),
{
    if cs.len() > 0 {
        assert(forall|i: int|
            0 <= i < cs.drop_last().len() ==> #[trigger] cs.drop_last()[i] == cs[i]);
        assert(forall|i: int|
            0 <= i < recs.drop_last().len() ==> #[trigger] recs.drop_last()[i] == recs[i]);
        lemma_cs_decode_pointwise(rm, cm, recs.drop_last(), cs.drop_last());
    }
}

/// Pointwise decoding of every cone gives decoding of the whole run.
proof fn lemma_ks_decode_pointwise(
    rm: Map<KeyBits, RewriteRec>,
    cm: Map<KeyBits, ConeRec>,
    recs: Seq<ConeIndexRec>,
    cs: Seq<ConeV>,
)
    requires
        recs.len() == cs.len(),
        forall|i: int| 0 <= i < cs.len() ==> k_decodes_in(rm, cm, recs[i], #[trigger] cs[i]),
    ensures
        ks_decode_in(rm, cm, recs, cs),
    decreases cs.len(),
{
    if cs.len() > 0 {
        assert(forall|i: int|
            0 <= i < cs.drop_last().len() ==> #[trigger] cs.drop_last()[i] == cs[i]);
        assert(forall|i: int|
            0 <= i < recs.drop_last().len() ==> #[trigger] recs.drop_last()[i] == recs[i]);
        lemma_ks_decode_pointwise(rm, cm, recs.drop_last(), cs.drop_last());
    }
}

/// Pointwise decoding of every slice gives decoding of the whole run.
proof fn lemma_rs_decode_pointwise(
    rm: Map<KeyBits, RewriteRec>,
    cm: Map<KeyBits, ConeRec>,
    keys: Seq<KeyBits>,
    rs: Seq<RewriteV>,
)
    requires
        keys.len() == rs.len(),
        forall|i: int| 0 <= i < rs.len() ==> r_decodes_in(rm, cm, keys[i], #[trigger] rs[i]),
    ensures
        rs_decode_in(rm, cm, keys, rs),
    decreases rs.len(),
{
    if rs.len() > 0 {
        assert(forall|i: int|
            0 <= i < rs.drop_last().len() ==> #[trigger] rs.drop_last()[i] == rs[i]);
        assert(forall|i: int|
            0 <= i < keys.drop_last().len() ==> #[trigger] keys.drop_last()[i] == keys[i]);
        lemma_rs_decode_pointwise(rm, cm, keys.drop_last(), rs.drop_last());
    }
}


impl Store {
    /// Reconstructs the rewrite stored under `k`, memoizing the result; the
    /// fuel bounds descent through the record tables.
    #[verifier::rlimit(100)]
    #[verifier::spinoff_prover]
    fn unpack_rewrite_fuel(&mut self, k: KeyBits, fuel: u128) -> (r: Option<Rewrite>)
        ensures
            final(self).diagrams_map() == old(self).diagrams_map(),
            final(self).rewrites_map() == old(self).rewrites_map(),
            final(self).cones_map() == old(self).cones_map(),
            old(self).uniq() ==> final(self).uniq(),
            old(self).ok() ==> final(self).ok() && (r matches Some(v) ==> old(self).r_decodes(
                k,
                v@,
            )),
            old(self).uniq() && old(self).memo_r_at(k) ==> *final(self) == *old(self) && (r
                matches Some(v) && v@ == old(self).memo_r_value(k)),
            r_avail(old(self).rewrites_map(), old(self).cones_map(), k, fuel as nat) ==> r
                is Some,
            r matches Some(v) ==> final(self).memo_r_has(v@, k),
        decreases fuel, 0int,
    {
        broadcast use vstd::laws_cmp::group_laws_cmp;

        let hit = self.memo_r_key_find(k);
        match hit {
            Some(v) => {
                proof {
                    if self.ok() {
                        let i = choose|i: int|
                            0 <= i < self.memo_r().len() && (#[trigger] self.memo_r()[i]).1 == k;
                        assert(self.r_decodes(self.memo_r()[i].1, rview(self.memo_r()[i].0)));
                    }
                }
                return Some(v);
            },
            None => {},
        }
        let rec = {
            let rec_opt = self.rewrites.get(&k);
            match rec_opt {
                None => {
                    return None;
                },
                Some(rc) => clone_rrec(rc),
            }
        };
        match rec {
            RewriteRec::R0 { source, target, label } => {
                match (source, target) {
                    (None, None) => {
                        match label {
                            Some(_) => {
                                proof {
                                    assert(!r_avail(
                                        old(self).rewrites_map(),
                                        old(self).cones_map(),
                                        k,
                                        fuel as nat,
                                    ));
                                }
                                None
                            },
                            None => {
                                let v = Rewrite::Rewrite0(Rewrite0 { ends: None });
                                let ghost s2 = *self;
                                let vc = crate::diagram::clone_rewrite(&v);
                                let ghost vg = vc;
                                self.memo_r_insert(vc, k);
                                proof {
                                    self.lemma_restore_mdc_r(s2, vg, k);
                                }
                                Some(v)
                            },
                        }
                    },
                    (Some(sd), Some(td)) => {
                        let ends = Ends {
                            source: sd,
                            target: td,
                            label: match &label {
                                None => None,
                                Some(l) => Some(crate::common::clone_label(l)),
                            },
                        };
                        let v = Rewrite::Rewrite0(Rewrite0 { ends: Some(ends) });
                        let ghost s2 = *self;
                        let vc = crate::diagram::clone_rewrite(&v);
                        let ghost vg = vc;
                        self.memo_r_insert(vc, k);
                        proof {
                            self.lemma_restore_mdc_r(s2, vg, k);
                        }
                        Some(v)
                    },
                    _ => None,
                }
            },
            RewriteRec::RN { dimension, cones } => {
                if dimension == 0 {
                    return None;
                }
                if fuel == 0 {
                    return None;
                }
                proof {
                    if r_avail(old(self).rewrites_map(), old(self).cones_map(), k, fuel as nat) {
                        lemma_ks_avail_index(
                            old(self).rewrites_map(),
                            old(self).cones_map(),
                            cones@,
                            (fuel - 1) as nat,
                        );
                    }
                }
                let mut cs: Vec<Cone> = Vec::new();
                let n: usize = cones.len();
                let mut i: usize = 0;
                while i < n
                    invariant
                        n == cones@.len(),
                        0 <= i <= n,
                        cs@.len() == i,
                        self.diagrams_map() == old(self).diagrams_map(),
                        self.rewrites_map() == old(self).rewrites_map(),
                        self.cones_map() == old(self).cones_map(),
                        old(self).uniq() ==> self.uniq(),
                        old(self).ok() ==> self.ok(),
                        !old(self).memo_r_at(k),
                        old(self).ok() ==> forall|j: int|
                            0 <= j < i ==> k_decodes_in(
                                old(self).rewrites_map(),
                                old(self).cones_map(),
                                cones@[j],
                                kview(#[trigger] cs@[j]),
                            ),
                        fuel >= 1,
                        r_avail(old(self).rewrites_map(), old(self).cones_map(), k, fuel as nat)
                            ==> forall|j: int|
                            0 <= j < n ==> k_avail(
                                old(self).rewrites_map(),
                                old(self).cones_map(),
                                #[trigger] cones@[j],
                                (fuel - 1) as nat,
                            ),
                    decreases n - i,
                {
                    let c = self.unpack_cone_fuel(&cones[i], fuel - 1);
                    match c {
                        None => {
                            proof {
                                if r_avail(
                                    old(self).rewrites_map(),
                                    old(self).cones_map(),
                                    k,
                                    fuel as nat,
                                ) {
                                    assert(k_avail(
                                        old(self).rewrites_map(),
                                        old(self).cones_map(),
                                        cones@[i as int],
                                        (fuel - 1) as nat,
                                    ));
                                    assert(false);
                                }
                            }
                            return None;
                        },
                        Some(cv) => {
                            cs.push(cv);
                        },
                    }
                    i = i + 1;
                }
                let v = Rewrite::RewriteN(RewriteN { dimension, cones: cs });
                proof {
                    if old(self).ok() {
                        crate::diagram::lemma_kviews(v->RewriteN_0.cones@);
                        lemma_ks_decode_pointwise(
                            old(self).rewrites_map(),
                            old(self).cones_map(),
                            cones@,
                            kviews(v->RewriteN_0.cones@),
                        );
                        assert(old(self).r_decodes(k, v@));
                    }
                }
                let ghost s2 = *self;
                let vc = crate::diagram::clone_rewrite(&v);
                let ghost vg = vc;
                self.memo_r_insert(vc, k);
                proof {
                    self.lemma_restore_mdc_r(s2, vg, k);
                }
                Some(v)
            },
        }
    }

    /// After memoizing a freshly decoded rewrite, the memo tables still
    /// agree with the record tables.
    proof fn lemma_restore_mdc_r(&self, s2: Store, v: Rewrite, k: KeyBits)
        requires
            self.diagrams_map() == s2.diagrams_map(),
            self.rewrites_map() == s2.rewrites_map(),
            self.cones_map() == s2.cones_map(),
            self.memo_d() == s2.memo_d(),
            self.memo_k() == s2.memo_k(),
            self.memo_r().len() <= usize::MAX,
            forall|a: int|
                0 <= a < self.memo_r().len() ==> (exists|j: int|
                    0 <= j < s2.memo_r().len() && #[trigger] self.memo_r()[a] == s2.memo_r()[j])
                    || self.memo_r()[a] == (v, k),
        ensures
            s2.ok() && s2.r_decodes(k, rview(v)) ==> self.mdc(),
    {
        if s2.ok() && s2.r_decodes(k, rview(v)) {
            assert forall|a: int| 0 <= a < self.memo_r().len() implies self.r_decodes(
                (#[trigger] self.memo_r()[a]).1,
                rview(self.memo_r()[a].0),
            ) by {
                if self.memo_r()[a] == (v, k) {
                } else {
                    let j = choose|j: int|
                        0 <= j < s2.memo_r().len() && self.memo_r()[a] == s2.memo_r()[j];
                    assert(s2.r_decodes(s2.memo_r()[j].1, rview(s2.memo_r()[j].0)));
                }
            }
        }
    }

    /// Reconstructs the cospan a cospan record denotes.
    fn unpack_cospan_fuel(&mut self, rec: &CospanRec, fuel: u128) -> (r: Option<Cospan>)
        ensures
            final(self).diagrams_map() == old(self).diagrams_map(),
            final(self).rewrites_map() == old(self).rewrites_map(),
            final(self).cones_map() == old(self).cones_map(),
            old(self).uniq() ==> final(self).uniq(),
            old(self).ok() ==> final(self).ok() && (r matches Some(v) ==> old(self).c_decodes(
                *rec,
                v@,
            )),
            c_avail(old(self).rewrites_map(), old(self).cones_map(), *rec, fuel as nat) ==> r
                is Some,
        decreases fuel, 1int,
    {
        let fwd = self.unpack_rewrite_fuel(rec.forward, fuel);
        let f = match fwd {
            None => {
                return None;
            },
            Some(f) => f,
        };
        let bwd = self.unpack_rewrite_fuel(rec.backward, fuel);
        let b = match bwd {
            None => {
                return None;
            },
            Some(b) => b,
        };
        let v = Cospan { forward: f, backward: b };
        proof {
            if old(self).ok() {
                assert(v@.forward == f@ && v@.backward == b@);
            }
        }
        Some(v)
    }

    /// Reconstructs the cone a cone reference denotes, memoizing the cone;
    /// the reference's own position index is taken as the cone's index.
    #[verifier::rlimit(100)]
    #[verifier::spinoff_prover]
    fn unpack_cone_fuel(&mut self, cref: &ConeIndexRec, fuel: u128) -> (r: Option<Cone>)
        ensures
            final(self).diagrams_map() == old(self).diagrams_map(),
            final(self).rewrites_map() == old(self).rewrites_map(),
            final(self).cones_map() == old(self).cones_map(),
            old(self).uniq() ==> final(self).uniq(),
            old(self).ok() ==> final(self).ok() && (r matches Some(v) ==> old(self).k_decodes(
                *cref,
                v@,
            )),
            k_avail(old(self).rewrites_map(), old(self).cones_map(), *cref, fuel as nat) ==> r
                is Some,
            r matches Some(v) ==> final(self).memo_k_at(cref.cone),
        decreases fuel, 2int,
    {
        broadcast use vstd::laws_cmp::group_laws_cmp;

        let hit = self.memo_k_key_find(cref.cone);
        match hit {
            Some(c0) => {
                let mut c = c0;
                c.index = cref.index;
                proof {
                    if self.ok() {
                        let i = choose|i: int|
                            0 <= i < self.memo_k().len() && (#[trigger] self.memo_k()[i]).1
                                == cref.cone;
                        assert(self.k_decodes(
                            ConeIndexRec {
                                index: kview(self.memo_k()[i].0).index,
                                cone: self.memo_k()[i].1,
                            },
                            kview(self.memo_k()[i].0),
                        ));
                        assert(kview(c) =~= ConeV { index: cref.index, ..kview(c0) });
                    }
                }
                return Some(c);
            },
            None => {},
        }
        let rec = {
            let rec_opt = self.cones.get(&cref.cone);
            match rec_opt {
                None => {
                    return None;
                },
                Some(rc) => clone_krec(rc),
            }
        };
        proof {
            if k_avail(old(self).rewrites_map(), old(self).cones_map(), *cref, fuel as nat) {
                lemma_cs_avail_index(
                    old(self).rewrites_map(),
                    old(self).cones_map(),
                    rec.source@,
                    fuel as nat,
                );
                lemma_rs_avail_index(
                    old(self).rewrites_map(),
                    old(self).cones_map(),
                    rec.regular_slices@,
                    fuel as nat,
                );
                lemma_rs_avail_index(
                    old(self).rewrites_map(),
                    old(self).cones_map(),
                    rec.singular_slices@,
                    fuel as nat,
                );
            }
        }
        let mut source: Vec<Cospan> = Vec::new();
        let n: usize = rec.source.len();
        let mut i: usize = 0;
        while i < n
            invariant
                n == rec.source@.len(),
                0 <= i <= n,
                source@.len() == i,
                self.diagrams_map() == old(self).diagrams_map(),
                self.rewrites_map() == old(self).rewrites_map(),
                self.cones_map() == old(self).cones_map(),
                old(self).uniq() ==> self.uniq(),
                old(self).ok() ==> self.ok(),
                old(self).ok() ==> forall|j: int|
                    0 <= j < i ==> c_decodes_in(
                        old(self).rewrites_map(),
                        old(self).cones_map(),
                        rec.source@[j],
                        cview(#[trigger] source@[j]),
                    ),
                k_avail(old(self).rewrites_map(), old(self).cones_map(), *cref, fuel as nat)
                    ==> forall|j: int|
                    0 <= j < n ==> c_avail(
                        old(self).rewrites_map(),
                        old(self).cones_map(),
                        #[trigger] rec.source@[j],
                        fuel as nat,
                    ),
            decreases n - i,
        {
            let c = self.unpack_cospan_fuel(&rec.source[i], fuel);
            match c {
                None => {
                    proof {
                        if k_avail(
                            old(self).rewrites_map(),
                            old(self).cones_map(),
                            *cref,
                            fuel as nat,
                        ) {
                            assert(c_avail(
                                old(self).rewrites_map(),
                                old(self).cones_map(),
                                rec.source@[i as int],
                                fuel as nat,
                            ));
                            assert(false);
                        }
                    }
                    return None;
                },
                Some(cv) => {
                    source.push(cv);
                },
            }
            i = i + 1;
        }
        let target = match self.unpack_cospan_fuel(&rec.target, fuel) {
            None => {
                proof {
                    if k_avail(old(self).rewrites_map(), old(self).cones_map(), *cref, fuel as nat) {
                        assert(c_avail(
                            old(self).rewrites_map(),
                            old(self).cones_map(),
                            rec.target,
                            fuel as nat,
                        ));
                        assert(false);
                    }
                }
                return None;
            },
            Some(t) => t,
        };
        let mut regular_slices: Vec<Rewrite> = Vec::new();
        let nr: usize = rec.regular_slices.len();
        let mut ir: usize = 0;
        while ir < nr
            invariant
                nr == rec.regular_slices@.len(),
                0 <= ir <= nr,
                regular_slices@.len() == ir,
                self.diagrams_map() == old(self).diagrams_map(),
                self.rewrites_map() == old(self).rewrites_map(),
                self.cones_map() == old(self).cones_map(),
                old(self).uniq() ==> self.uniq(),
                old(self).ok() ==> self.ok(),
                old(self).ok() ==> forall|j: int|
                    0 <= j < ir ==> r_decodes_in(
                        old(self).rewrites_map(),
                        old(self).cones_map(),
                        rec.regular_slices@[j],
                        rview(#[trigger] regular_slices@[j]),
                    ),
                k_avail(old(self).rewrites_map(), old(self).cones_map(), *cref, fuel as nat)
                    ==> forall|j: int|
                    0 <= j < nr ==> r_avail(
                        old(self).rewrites_map(),
                        old(self).cones_map(),
                        #[trigger] rec.regular_slices@[j],
                        fuel as nat,
                    ),
            decreases nr - ir,
        {
            let rw = self.unpack_rewrite_fuel(rec.regular_slices[ir], fuel);
            match rw {
                None => {
                    proof {
                        if k_avail(
                            old(self).rewrites_map(),
                            old(self).cones_map(),
                            *cref,
                            fuel as nat,
                        ) {
                            assert(r_avail(
                                old(self).rewrites_map(),
                                old(self).cones_map(),
                                rec.regular_slices@[ir as int],
                                fuel as nat,
                            ));
                            assert(false);
                        }
                    }
                    return None;
                },
                Some(rv) => {
                    regular_slices.push(rv);
                },
            }
            ir = ir + 1;
        }
        let mut singular_slices: Vec<Rewrite> = Vec::new();
        let ns: usize = rec.singular_slices.len();
        let mut is_: usize = 0;
        while is_ < ns
            invariant
                ns == rec.singular_slices@.len(),
                0 <= is_ <= ns,
                singular_slices@.len() == is_,
                self.diagrams_map() == old(self).diagrams_map(),
                self.rewrites_map() == old(self).rewrites_map(),
                self.cones_map() == old(self).cones_map(),
                old(self).uniq() ==> self.uniq(),
                old(self).ok() ==> self.ok(),
                old(self).ok() ==> forall|j: int|
                    0 <= j < is_ ==> r_decodes_in(
                        old(self).rewrites_map(),
                        old(self).cones_map(),
                        rec.singular_slices@[j],
                        rview(#[trigger] singular_slices@[j]),
                    ),
                k_avail(old(self).rewrites_map(), old(self).cones_map(), *cref, fuel as nat)
                    ==> forall|j: int|
                    0 <= j < ns ==> r_avail(
                        old(self).rewrites_map(),
                        old(self).cones_map(),
                        #[trigger] rec.singular_slices@[j],
                        fuel as nat,
                    ),
            decreases ns - is_,
        {
            let rw = self.unpack_rewrite_fuel(rec.singular_slices[is_], fuel);
            match rw {
                None => {
                    proof {
                        if k_avail(
                            old(self).rewrites_map(),
                            old(self).cones_map(),
                            *cref,
                            fuel as nat,
                        ) {
                            assert(r_avail(
                                old(self).rewrites_map(),
                                old(self).cones_map(),
                                rec.singular_slices@[is_ as int],
                                fuel as nat,
                            ));
                            assert(false);
                        }
                    }
                    return None;
                },
                Some(rv) => {
                    singular_slices.push(rv);
                },
            }
            is_ = is_ + 1;
        }
        let v = Cone { index: cref.index, source, target, regular_slices, singular_slices };
        proof {
            if old(self).ok() {
                crate::diagram::lemma_cviews(v.source@);
                crate::diagram::lemma_rviews(v.regular_slices@);
                crate::diagram::lemma_rviews(v.singular_slices@);
                lemma_cs_decode_pointwise(
                    old(self).rewrites_map(),
                    old(self).cones_map(),
                    rec.source@,
                    cviews(v.source@),
                );
                lemma_rs_decode_pointwise(
                    old(self).rewrites_map(),
                    old(self).cones_map(),
                    rec.regular_slices@,
                    rviews(v.regular_slices@),
                );
                lemma_rs_decode_pointwise(
                    old(self).rewrites_map(),
                    old(self).cones_map(),
                    rec.singular_slices@,
                    rviews(v.singular_slices@),
                );
                assert(old(self).k_decodes(*cref, v@));
            }
        }
        let ghost s2 = *self;
        let vc = crate::diagram::clone_cone(&v);
        let ghost vg = vc;
        self.memo_k_insert(vc, cref.cone);
        proof {
            if old(self).ok() {
                assert(s2.ok());
                assert forall|a: int| 0 <= a < self.memo_k().len() implies self.k_decodes(
                    ConeIndexRec {
                        index: kview((#[trigger] self.memo_k()[a]).0).index,
                        cone: self.memo_k()[a].1,
                    },
                    kview(self.memo_k()[a].0),
                ) by {
                    if exists|j: int|
                        0 <= j < s2.memo_k().len() && self.memo_k()[a] == s2.memo_k()[j] {
                        let j = choose|j: int|
                            0 <= j < s2.memo_k().len() && self.memo_k()[a] == s2.memo_k()[j];
                        assert(s2.k_decodes(
                            ConeIndexRec {
                                index: kview(s2.memo_k()[j].0).index,
                                cone: s2.memo_k()[j].1,
                            },
                            kview(s2.memo_k()[j].0),
                        ));
                    } else {
                        assert(self.memo_k()[a] == (vg, cref.cone));
                        assert(kview(vg) == v@);
                    }
                }
            }
        }
        Some(v)
    }
}


impl Store {
    /// Reconstructs the diagram stored under `k`, memoizing the result; the
    /// fuel bounds descent through the record tables.
    #[verifier::rlimit(100)]
    #[verifier::spinoff_prover]
    fn unpack_diagram_fuel(&mut self, k: KeyBits, fuel: u128) -> (r: Option<Diagram>)
        ensures
            final(self).diagrams_map() == old(self).diagrams_map(),
            final(self).rewrites_map() == old(self).rewrites_map(),
            final(self).cones_map() == old(self).cones_map(),
            old(self).uniq() ==> final(self).uniq(),
            old(self).ok() ==> final(self).ok() && (r matches Some(v) ==> old(self).d_decodes(
                k,
                v@,
            )),
            old(self).uniq() && old(self).memo_d_at(k) ==> *final(self) == *old(self) && (r
                matches Some(v) && v@ == old(self).memo_d_value(k)),
            d_avail(
                old(self).diagrams_map(),
                old(self).rewrites_map(),
                old(self).cones_map(),
                k,
                fuel as nat,
            ) ==> r is Some,
            r matches Some(v) ==> final(self).memo_d_has(v@, k),
        decreases fuel,
    {
        broadcast use vstd::laws_cmp::group_laws_cmp;

        let hit = self.memo_d_key_find(k);
        match hit {
            Some(v) => {
                proof {
                    if self.ok() {
                        let i = choose|i: int|
                            0 <= i < self.memo_d().len() && (#[trigger] self.memo_d()[i]).1 == k;
                        assert(self.d_decodes(self.memo_d()[i].1, dview(self.memo_d()[i].0)));
                    }
                }
                return Some(v);
            },
            None => {},
        }
        let rec = {
            let rec_opt = self.diagrams.get(&k);
            match rec_opt {
                None => {
                    return None;
                },
                Some(rc) => clone_drec(rc),
            }
        };
        match rec {
            DiagramRec::D0 { generator, orientation } => {
                let v = Diagram::Diagram0(Diagram0 { generator, orientation });
                let ghost s2 = *self;
                let vc = crate::diagram::clone_diagram(&v);
                let ghost vg = vc;
                self.memo_d_insert(vc, k);
                proof {
                    self.lemma_restore_mdc_d(s2, vg, k);
                }
                Some(v)
            },
            DiagramRec::DN { dimension: _, source, cospans } => {
                if fuel == 0 {
                    return None;
                }
                proof {
                    if d_avail(
                        old(self).diagrams_map(),
                        old(self).rewrites_map(),
                        old(self).cones_map(),
                        k,
                        fuel as nat,
                    ) {
                        lemma_cs_avail_index(
                            old(self).rewrites_map(),
                            old(self).cones_map(),
                            cospans@,
                            (fuel - 1) as nat,
                        );
                    }
                }
                let sv = match self.unpack_diagram_fuel(source, fuel - 1) {
                    None => {
                        proof {
                            if d_avail(
                                old(self).diagrams_map(),
                                old(self).rewrites_map(),
                                old(self).cones_map(),
                                k,
                                fuel as nat,
                            ) {
                                assert(false);
                            }
                        }
                        return None;
                    },
                    Some(x) => x,
                };
                let mut cs: Vec<Cospan> = Vec::new();
                let n: usize = cospans.len();
                let mut i: usize = 0;
                while i < n
                    invariant
                        n == cospans@.len(),
                        0 <= i <= n,
                        cs@.len() == i,
                        self.diagrams_map() == old(self).diagrams_map(),
                        self.rewrites_map() == old(self).rewrites_map(),
                        self.cones_map() == old(self).cones_map(),
                        old(self).uniq() ==> self.uniq(),
                        old(self).ok() ==> self.ok(),
                        !old(self).memo_d_at(k),
                        fuel >= 1,
                        old(self).ok() ==> forall|j: int|
                            0 <= j < i ==> c_decodes_in(
                                old(self).rewrites_map(),
                                old(self).cones_map(),
                                cospans@[j],
                                cview(#[trigger] cs@[j]),
                            ),
                        d_avail(
                            old(self).diagrams_map(),
                            old(self).rewrites_map(),
                            old(self).cones_map(),
                            k,
                            fuel as nat,
                        ) ==> forall|j: int|
                            0 <= j < n ==> c_avail(
                                old(self).rewrites_map(),
                                old(self).cones_map(),
                                #[trigger] cospans@[j],
                                (fuel - 1) as nat,
                            ),
                    decreases n - i,
                {
                    let c = self.unpack_cospan_fuel(&cospans[i], fuel - 1);
                    match c {
                        None => {
                            proof {
                                if d_avail(
                                    old(self).diagrams_map(),
                                    old(self).rewrites_map(),
                                    old(self).cones_map(),
                                    k,
                                    fuel as nat,
                                ) {
                                    assert(c_avail(
                                        old(self).rewrites_map(),
                                        old(self).cones_map(),
                                        cospans@[i as int],
                                        (fuel - 1) as nat,
                                    ));
                                    assert(false);
                                }
                            }
                            return None;
                        },
                        Some(cv) => {
                            cs.push(cv);
                        },
                    }
                    i = i + 1;
                }
                let v = Diagram::DiagramN(DiagramN { source: Box::new(sv), cospans: cs });
                proof {
                    if old(self).ok() {
                        match &v {
                            Diagram::DiagramN(dn) => {
                                crate::diagram::lemma_cviews(dn.cospans@);
                                lemma_cs_decode_pointwise(
                                    old(self).rewrites_map(),
                                    old(self).cones_map(),
                                    cospans@,
                                    cviews(dn.cospans@),
                                );
                            },
                            _ => {},
                        }
                        assert(old(self).d_decodes(k, v@));
                    }
                }
                let ghost s2 = *self;
                let vc = crate::diagram::clone_diagram(&v);
                let ghost vg = vc;
                self.memo_d_insert(vc, k);
                proof {
                    self.lemma_restore_mdc_d(s2, vg, k);
                }
                Some(v)
            },
        }
    }

    /// After memoizing a freshly decoded diagram, the memo tables still
    /// agree with the record tables.
    proof fn lemma_restore_mdc_d(&self, s2: Store, v: Diagram, k: KeyBits)
        requires
            self.diagrams_map() == s2.diagrams_map(),
            self.rewrites_map() == s2.rewrites_map(),
            self.cones_map() == s2.cones_map(),
            self.memo_r() == s2.memo_r(),
            self.memo_k() == s2.memo_k(),
            self.memo_d().len() <= usize::MAX,
            forall|a: int|
                0 <= a < self.memo_d().len() ==> (exists|j: int|
                    0 <= j < s2.memo_d().len() && #[trigger] self.memo_d()[a] == s2.memo_d()[j])
                    || self.memo_d()[a] == (v, k),
        ensures
            s2.ok() && s2.d_decodes(k, dview(v)) ==> self.mdc(),
    {
        if s2.ok() && s2.d_decodes(k, dview(v)) {
            assert forall|a: int| 0 <= a < self.memo_d().len() implies self.d_decodes(
                (#[trigger] self.memo_d()[a]).1,
                dview(self.memo_d()[a].0),
            ) by {
                if self.memo_d()[a] == (v, k) {
                } else {
                    let j = choose|j: int|
                        0 <= j < s2.memo_d().len() && self.memo_d()[a] == s2.memo_d()[j];
                    assert(s2.d_decodes(s2.memo_d()[j].1, dview(s2.memo_d()[j].0)));
                }
            }
        }
    }

    /// Reconstructs the diagram stored under `key`. On a store whose memo
    /// and record tables agree, every returned diagram is exactly what the
    /// record table denotes at that key; a key whose record, or any record
    /// reachable from it, is missing yields nothing, never a partial value.
    pub fn unpack_diagram(&mut self, key: Key<Diagram>) -> (r: Option<Diagram>)
        ensures
            final(self).diagrams_map() == old(self).diagrams_map(),
            final(self).rewrites_map() == old(self).rewrites_map(),
            final(self).cones_map() == old(self).cones_map(),
            old(self).uniq() ==> final(self).uniq(),
            old(self).ok() ==> final(self).ok() && (r matches Some(v) ==> old(self).d_decodes(
                key@,
                v@,
            )),
            old(self).uniq() && old(self).memo_d_at(key@) ==> *final(self) == *old(self) && (r
                matches Some(v) && v@ == old(self).memo_d_value(key@)),
            d_avail(
                old(self).diagrams_map(),
                old(self).rewrites_map(),
                old(self).cones_map(),
                key@,
                old(self).total_fuel(),
            ) ==> r is Some,
            r matches Some(v) ==> final(self).memo_d_has(v@, key@),
    {
        broadcast use vstd::laws_cmp::group_laws_cmp;

        let fuel: u128 = (self.diagrams.len() as u128) + (self.rewrites.len() as u128)
            + (self.cones.len() as u128) + 1;
        proof {
            assert(fuel as nat == old(self).total_fuel());
        }
        self.unpack_diagram_fuel(key.bits, fuel)
    }

    /// Reconstructs the rewrite stored under `key`, with the same guarantees
    /// as diagram unpacking.
    pub fn unpack_rewrite(&mut self, key: Key<Rewrite>) -> (r: Option<Rewrite>)
        ensures
            final(self).diagrams_map() == old(self).diagrams_map(),
            final(self).rewrites_map() == old(self).rewrites_map(),
            final(self).cones_map() == old(self).cones_map(),
            old(self).uniq() ==> final(self).uniq(),
            old(self).ok() ==> final(self).ok() && (r matches Some(v) ==> old(self).r_decodes(
                key@,
                v@,
            )),
            old(self).uniq() && old(self).memo_r_at(key@) ==> *final(self) == *old(self) && (r
                matches Some(v) && v@ == old(self).memo_r_value(key@)),
            r_avail(old(self).rewrites_map(), old(self).cones_map(), key@, old(self).total_fuel())
                ==> r is Some,
            r matches Some(v) ==> final(self).memo_r_has(v@, key@),
    {
        broadcast use vstd::laws_cmp::group_laws_cmp;

        let fuel: u128 = (self.diagrams.len() as u128) + (self.rewrites.len() as u128)
            + (self.cones.len() as u128) + 1;
        proof {
            assert(fuel as nat == old(self).total_fuel());
        }
        self.unpack_rewrite_fuel(key.bits, fuel)
    }
}

/// Round-trip: after packing a diagram, the store's memo table leads the
/// diagram's key back to a structurally equal value, and that value packs to
/// the identical key again. This is what `unpack_diagram` returns on a
/// memo hit, and what `pack_diagram` returns for any value with this view.
pub proof fn lemma_pack_unpack_round_trip(s: Store, d: DiagramV)
    requires
        s.wf(),
        s.memo_d_has(d, dkey(d)),
    ensures
        s.memo_d_at(dkey(d)),
        s.memo_d_value(dkey(d)) == d,
        dkey(s.memo_d_value(dkey(d))) == dkey(d),
{
    let i = choose|i: int|
        0 <= i < s.memo_d().len() && dview((#[trigger] s.memo_d()[i]).0) == d && s.memo_d()[i].1
            == dkey(d);
    assert(s.memo_d_at(dkey(d)));
    let j = choose|j: int| 0 <= j < s.memo_d().len() && (#[trigger] s.memo_d()[j]).1 == dkey(d);
    if i != j {
        if i < j {
            assert(s.memo_d()[i].1 != s.memo_d()[j].1);
        } else {
            assert(s.memo_d()[j].1 != s.memo_d()[i].1);
        }
    }
    assert(s.memo_d_value(dkey(d)) == d);
}

/// Keys are content-addressed: the key a value packs to is a function of
/// the value's structure alone, so structurally equal values packed into
/// any stores, in any order, receive the same key.
pub proof fn lemma_key_deterministic(a: DiagramV, b: DiagramV)
    requires
        a == b,
    ensures
        dkey(a) == dkey(b),
{
}


/// The canonical record of a cospan value: the content keys of its two
/// rewrites.
pub open spec fn crec_of(c: CospanV) -> CospanRec {
    CospanRec { forward: rkey(c.forward), backward: rkey(c.backward) }
}

/// The canonical records of a run of cospan values, in order.
pub open spec fn crecs_of(s: Seq<CospanV>) -> Seq<CospanRec>
    decreases s,
{
    if s.len() == 0 {
        Seq::empty()
    } else {
        crecs_of(s.drop_last()).push(crec_of(s.last()))
    }
}

/// The canonical record of a diagram value; children are referenced by
/// their content keys.
pub open spec fn drec_of(d: DiagramV) -> DiagramRecV {
    match d {
        DiagramV::D0(d0) => DiagramRecV::D0 {
            generator: d0.generator,
            orientation: d0.orientation,
        },
        DiagramV::DN { source, cospans } => DiagramRecV::DN {
            dimension: dim64(d),
            source: dkey(*source),
            cospans: crecs_of(cospans),
        },
    }
}

/// The canonical record of a rewrite value.
pub open spec fn rrec_of(r: RewriteV) -> RewriteRecV {
    match r {
        RewriteV::R0(ends) => match ends {
            None => RewriteRecV::R0 { source: None, target: None, label: None },
            Some(e) => RewriteRecV::R0 {
                source: Some(e.source),
                target: Some(e.target),
                label: e.label,
            },
        },
        RewriteV::RN { dimension, cones } => RewriteRecV::RN {
            dimension,
            cones: kirecs_of(cones),
        },
    }
}

/// The indexed cone reference a cone value packs to.
pub open spec fn kirec_of(k: ConeV) -> ConeIndexRec {
    ConeIndexRec { index: k.index, cone: kkey(k) }
}

/// The indexed cone references of a run of cone values, in order.
pub open spec fn kirecs_of(s: Seq<ConeV>) -> Seq<ConeIndexRec>
    decreases s,
{
    if s.len() == 0 {
        Seq::empty()
    } else {
        kirecs_of(s.drop_last()).push(kirec_of(s.last()))
    }
}

/// The canonical record of a cone value.
pub open spec fn krec_of(k: ConeV) -> ConeRecV {
    ConeRecV {
        source: crecs_of(k.source),
        target: crec_of(*k.target),
        regular_slices: rkeys_of(k.regular_slices),
        singular_slices: rkeys_of(k.singular_slices),
    }
}

/// The content keys of a run of rewrite values, in order.
pub open spec fn rkeys_of(s: Seq<RewriteV>) -> Seq<KeyBits>
    decreases s,
{
    if s.len() == 0 {
        Seq::empty()
    } else {
        rkeys_of(s.drop_last()).push(rkey(s.last()))
    }
}

/// Cospan records built pointwise as canonical records form the canonical
/// record run.
proof fn lemma_crecs_of_pointwise(recs: Seq<CospanRec>, cs: Seq<CospanV>)
    requires
        recs.len() == cs.len(),
        forall|i: int| 0 <= i < recs.len() ==> #[trigger] recs[i] == crec_of(cs[i]),
    ensures
        recs == crecs_of(cs),
    decreases recs.len(),
{
    if recs.len() > 0 {
        assert(forall|i: int|
            0 <= i < recs.drop_last().len() ==> #[trigger] recs.drop_last()[i] == recs[i]);
        lemma_crecs_of_pointwise(recs.drop_last(), cs.drop_last());
        assert(recs =~= crecs_of(cs));
    } else {
        assert(recs =~= crecs_of(cs));
    }
}

/// Cone references built pointwise as canonical references form the
/// canonical reference run.
proof fn lemma_kirecs_of_pointwise(recs: Seq<ConeIndexRec>, cs: Seq<ConeV>)
    requires
        recs.len() == cs.len(),
        forall|i: int| 0 <= i < recs.len() ==> #[trigger] recs[i] == kirec_of(cs[i]),
    ensures
        recs == kirecs_of(cs),
    decreases recs.len(),
{
    if recs.len() > 0 {
        assert(forall|i: int|
            0 <= i < recs.drop_last().len() ==> #[trigger] recs.drop_last()[i] == recs[i]);
        lemma_kirecs_of_pointwise(recs.drop_last(), cs.drop_last());
        assert(recs =~= kirecs_of(cs));
    } else {
        assert(recs =~= kirecs_of(cs));
    }
}

/// Key runs built pointwise as content keys form the canonical key run.
proof fn lemma_rkeys_of_pointwise(keys: Seq<KeyBits>, rs: Seq<RewriteV>)
    requires
        keys.len() == rs.len(),
        forall|i: int| 0 <= i < keys.len() ==> #[trigger] keys[i] == rkey(rs[i]),
    ensures
        keys == rkeys_of(rs),
    decreases keys.len(),
{
    if keys.len() > 0 {
        assert(forall|i: int|
            0 <= i < keys.drop_last().len() ==> #[trigger] keys.drop_last()[i] == keys[i]);
        lemma_rkeys_of_pointwise(keys.drop_last(), rs.drop_last());
        assert(keys =~= rkeys_of(rs));
    } else {
        assert(keys =~= rkeys_of(rs));
    }
}

impl Store {
    /// Whether the canonical record of `d`, and of everything below it,
    /// sits in the tables under its content key. Packing into free slots
    /// establishes this; only a content-hash collision can obstruct it.
    pub open spec fn d_storable(self, d: DiagramV) -> bool
        decreases d,
    {
        &&& self.diagrams_map().contains_key(dkey(d))
        &&& self.diagrams_map()[dkey(d)]@ == drec_of(d)
        &&& match d {
            DiagramV::D0(_) => true,
            DiagramV::DN { source, cospans } => self.d_storable(*source) && self.cs_storable(
                cospans,
            ),
        }
    }

    /// Whether every cospan of a run is storable.
    pub open spec fn cs_storable(self, cs: Seq<CospanV>) -> bool
        decreases cs,
    {
        if cs.len() == 0 {
            true
        } else {
            self.cs_storable(cs.drop_last()) && self.c_storable(cs.last())
        }
    }

    /// Whether both rewrites of a cospan are storable.
    pub open spec fn c_storable(self, c: CospanV) -> bool
        decreases c,
    {
        self.r_storable(c.forward) && self.r_storable(c.backward)
    }

    /// Whether the canonical record of a rewrite, and of everything below
    /// it, sits in the tables under its content key; a rewrite of dimension
    /// zero in the run form is not a valid stored form.
    pub open spec fn r_storable(self, r: RewriteV) -> bool
        decreases r,
    {
        &&& self.rewrites_map().contains_key(rkey(r))
        &&& self.rewrites_map()[rkey(r)]@ == rrec_of(r)
        &&& match r {
            RewriteV::R0(_) => true,
            RewriteV::RN { dimension, cones } => dimension >= 1 && self.ks_storable(cones),
        }
    }

    /// Whether every cone of a run is storable.
    pub open spec fn ks_storable(self, cs: Seq<ConeV>) -> bool
        decreases cs,
    {
        if cs.len() == 0 {
            true
        } else {
            self.ks_storable(cs.drop_last()) && self.k_storable(cs.last())
        }
    }

    /// Whether the canonical record of a cone, and of everything below it,
    /// sits in the tables under its content key.
    pub open spec fn k_storable(self, k: ConeV) -> bool
        decreases k,
    {
        &&& self.cones_map().contains_key(kkey(k))
        &&& self.cones_map()[kkey(k)]@ == krec_of(k)
        &&& self.cs_storable(k.source)
        &&& self.c_storable(*k.target)
        &&& self.rs_storable(k.regular_slices)
        &&& self.rs_storable(k.singular_slices)
    }

    /// Whether every rewrite of a run is storable.
    pub open spec fn rs_storable(self, rs: Seq<RewriteV>) -> bool
        decreases rs,
    {
        if rs.len() == 0 {
            true
        } else {
            self.rs_storable(rs.drop_last()) && self.r_storable(rs.last())
        }
    }
}

/// Stored canonical records decode: a value whose canonical record, and
/// those of everything below it, sit in the tables under their content keys
/// is exactly what the tables denote at its key. Together with packing's
/// storage clauses this is the record-table half of the round trip, and it
/// entails spec-level table closure: every key such a record references
/// resolves in the same store.
#[verifier::rlimit(100)]
#[verifier::spinoff_prover]
pub proof fn lemma_d_storable_decodes(s: Store, d: DiagramV)
    requires
        s.d_storable(d),
    ensures
        s.d_decodes(dkey(d), d),
    decreases d,
{
    match d {
        DiagramV::D0(_) => {},
        DiagramV::DN { source, cospans } => {
            lemma_d_storable_decodes(s, *source);
            lemma_cs_storable_decode(s, cospans);
        },
    }
}

/// Run form of `lemma_d_storable_decodes` for cospans.
#[verifier::rlimit(100)]
#[verifier::spinoff_prover]
proof fn lemma_cs_storable_decode(s: Store, cs: Seq<CospanV>)
    requires
        s.cs_storable(cs),
    ensures
        cs_decode_in(s.rewrites_map(), s.cones_map(), crecs_of(cs), cs),
    decreases cs,
{
    if cs.len() > 0 {
        lemma_cs_storable_decode(s, cs.drop_last());
        lemma_c_storable_decodes(s, cs.last());
        assert(crecs_of(cs).drop_last() =~= crecs_of(cs.drop_last()));
        assert(crecs_of(cs).last() == crec_of(cs.last()));
    }
}

/// A storable cospan decodes from its canonical record.
#[verifier::rlimit(100)]
#[verifier::spinoff_prover]
proof fn lemma_c_storable_decodes(s: Store, c: CospanV)
    requires
        s.c_storable(c),
    ensures
        c_decodes_in(s.rewrites_map(), s.cones_map(), crec_of(c), c),
    decreases c,
{
    lemma_r_storable_decodes(s, c.forward);
    lemma_r_storable_decodes(s, c.backward);
}

/// A storable rewrite decodes at its content key.
#[verifier::rlimit(100)]
#[verifier::spinoff_prover]
pub proof fn lemma_r_storable_decodes(s: Store, r: RewriteV)
    requires
        s.r_storable(r),
    ensures
        s.r_decodes(rkey(r), r),
    decreases r,
{
    match r {
        RewriteV::R0(_) => {},
        RewriteV::RN { dimension, cones } => {
            lemma_ks_storable_decode(s, cones);
        },
    }
}

/// Run form of `lemma_r_storable_decodes` for cones.
#[verifier::rlimit(100)]
#[verifier::spinoff_prover]
proof fn lemma_ks_storable_decode(s: Store, cs: Seq<ConeV>)
    requires
        s.ks_storable(cs),
    ensures
        ks_decode_in(s.rewrites_map(), s.cones_map(), kirecs_of(cs), cs),
    decreases cs,
{
    if cs.len() > 0 {
        lemma_ks_storable_decode(s, cs.drop_last());
        lemma_k_storable_decodes(s, cs.last());
        assert(kirecs_of(cs).drop_last() =~= kirecs_of(cs.drop_last()));
        assert(kirecs_of(cs).last() == kirec_of(cs.last()));
    }
}

/// A storable cone decodes from its indexed reference.
#[verifier::rlimit(100)]
#[verifier::spinoff_prover]
proof fn lemma_k_storable_decodes(s: Store, k: ConeV)
    requires
        s.k_storable(k),
    ensures
        k_decodes_in(s.rewrites_map(), s.cones_map(), kirec_of(k), k),
    decreases k,
{
    lemma_cs_storable_decode(s, k.source);
    lemma_c_storable_decodes(s, *k.target);
    lemma_rs_storable_decode(s, k.regular_slices);
    lemma_rs_storable_decode(s, k.singular_slices);
}

/// Run form of `lemma_r_storable_decodes` for slice runs.
#[verifier::rlimit(100)]
#[verifier::spinoff_prover]
proof fn lemma_rs_storable_decode(s: Store, rs: Seq<RewriteV>)
    requires
        s.rs_storable(rs),
    ensures
        rs_decode_in(s.rewrites_map(), s.cones_map(), rkeys_of(rs), rs),
    decreases rs,
{
    if rs.len() > 0 {
        lemma_rs_storable_decode(s, rs.drop_last());
        lemma_r_storable_decodes(s, rs.last());
        assert(rkeys_of(rs).drop_last() =~= rkeys_of(rs.drop_last()));
        assert(rkeys_of(rs).last() == rkey(rs.last()));
    }
}


/// Whether the diagram record at `k` is fully resolvable from the record
/// tables within `f` units of descent, along the same descent the unpacker
/// walks. This speaks of the tables alone, never of the memo tables.
pub open spec fn d_avail(
    dm: Map<KeyBits, DiagramRec>,
    rm: Map<KeyBits, RewriteRec>,
    cm: Map<KeyBits, ConeRec>,
    k: KeyBits,
    f: nat,
) -> bool
    decreases f,
{
    dm.contains_key(k) && match dm[k] {
        DiagramRec::D0 { .. } => true,
        DiagramRec::DN { dimension: _, source, cospans } => f >= 1 && d_avail(
            dm,
            rm,
            cm,
            source,
            (f - 1) as nat,
        ) && cs_avail(rm, cm, cospans@, (f - 1) as nat),
    }
}

/// Resolvability of a run of cospan records.
pub open spec fn cs_avail(
    rm: Map<KeyBits, RewriteRec>,
    cm: Map<KeyBits, ConeRec>,
    recs: Seq<CospanRec>,
    f: nat,
) -> bool
    decreases f, 2int, recs.len(),
{
    if recs.len() == 0 {
        true
    } else {
        cs_avail(rm, cm, recs.drop_last(), f) && c_avail(rm, cm, recs.last(), f)
    }
}

/// Resolvability of a cospan record: both rewrite keys resolve.
pub open spec fn c_avail(
    rm: Map<KeyBits, RewriteRec>,
    cm: Map<KeyBits, ConeRec>,
    rec: CospanRec,
    f: nat,
) -> bool
    decreases f, 1int, 0int,
{
    r_avail(rm, cm, rec.forward, f) && r_avail(rm, cm, rec.backward, f)
}

/// Resolvability of the rewrite record at `k`: the record is present, has a
/// valid form, and its cones resolve one fuel unit down.
pub open spec fn r_avail(
    rm: Map<KeyBits, RewriteRec>,
    cm: Map<KeyBits, ConeRec>,
    k: KeyBits,
    f: nat,
) -> bool
    decreases f, 0int, 0int,
{
    rm.contains_key(k) && match rm[k] {
        RewriteRec::R0 { source, target, ref label } => match (source, target) {
            (None, None) => label is None,
            (Some(_), Some(_)) => true,
            _ => false,
        },
        RewriteRec::RN { dimension, ref cones } => dimension >= 1 && f >= 1 && ks_avail(
            rm,
            cm,
            cones@,
            (f - 1) as nat,
        ),
    }
}

/// Resolvability of a run of cone references.
pub open spec fn ks_avail(
    rm: Map<KeyBits, RewriteRec>,
    cm: Map<KeyBits, ConeRec>,
    recs: Seq<ConeIndexRec>,
    f: nat,
) -> bool
    decreases f, 4int, recs.len(),
{
    if recs.len() == 0 {
        true
    } else {
        ks_avail(rm, cm, recs.drop_last(), f) && k_avail(rm, cm, recs.last(), f)
    }
}

/// Resolvability of a cone reference: the cone record is present and its
/// parts resolve at the same fuel.
pub open spec fn k_avail(
    rm: Map<KeyBits, RewriteRec>,
    cm: Map<KeyBits, ConeRec>,
    rec: ConeIndexRec,
    f: nat,
) -> bool
    decreases f, 3int, 0int,
{
    cm.contains_key(rec.cone) && match cm[rec.cone] {
        krec => {
            &&& cs_avail(rm, cm, krec.source@, f)
            &&& c_avail(rm, cm, krec.target, f)
            &&& rs_avail(rm, cm, krec.regular_slices@, f)
            &&& rs_avail(rm, cm, krec.singular_slices@, f)
        },
    }
}

/// Resolvability of a run of rewrite keys.
pub open spec fn rs_avail(
    rm: Map<KeyBits, RewriteRec>,
    cm: Map<KeyBits, ConeRec>,
    keys: Seq<KeyBits>,
    f: nat,
) -> bool
    decreases f, 2int, keys.len(),
{
    if keys.len() == 0 {
        true
    } else {
        rs_avail(rm, cm, keys.drop_last(), f) && r_avail(rm, cm, keys.last(), f)
    }
}

/// A resolvable run has every element resolvable.
proof fn lemma_cs_avail_index(
    rm: Map<KeyBits, RewriteRec>,
    cm: Map<KeyBits, ConeRec>,
    recs: Seq<CospanRec>,
    f: nat,
)
    requires
        cs_avail(rm, cm, recs, f),
    ensures
        forall|j: int| 0 <= j < recs.len() ==> c_avail(rm, cm, #[trigger] recs[j], f),
    decreases recs.len(),
{
    if recs.len() > 0 {
        lemma_cs_avail_index(rm, cm, recs.drop_last(), f);
        assert forall|j: int| 0 <= j < recs.len() implies c_avail(rm, cm, #[trigger] recs[j], f) by {
            if j < recs.len() - 1 {
                assert(recs.drop_last()[j] == recs[j]);
            } else {
                assert(recs[j] == recs.last());
            }
        }
    }
}

/// A resolvable run has every element resolvable.
proof fn lemma_ks_avail_index(
    rm: Map<KeyBits, RewriteRec>,
    cm: Map<KeyBits, ConeRec>,
    recs: Seq<ConeIndexRec>,
    f: nat,
)
    requires
        ks_avail(rm, cm, recs, f),
    ensures
        forall|j: int| 0 <= j < recs.len() ==> k_avail(rm, cm, #[trigger] recs[j], f),
    decreases recs.len(),
{
    if recs.len() > 0 {
        lemma_ks_avail_index(rm, cm, recs.drop_last(), f);
        assert forall|j: int| 0 <= j < recs.len() implies k_avail(rm, cm, #[trigger] recs[j], f) by {
            if j < recs.len() - 1 {
                assert(recs.drop_last()[j] == recs[j]);
            } else {
                assert(recs[j] == recs.last());
            }
        }
    }
}

/// A resolvable run has every element resolvable.
proof fn lemma_rs_avail_index(
    rm: Map<KeyBits, RewriteRec>,
    cm: Map<KeyBits, ConeRec>,
    keys: Seq<KeyBits>,
    f: nat,
)
    requires
        rs_avail(rm, cm, keys, f),
    ensures
        forall|j: int| 0 <= j < keys.len() ==> r_avail(rm, cm, #[trigger] keys[j], f),
    decreases keys.len(),
{
    if keys.len() > 0 {
        lemma_rs_avail_index(rm, cm, keys.drop_last(), f);
        assert forall|j: int| 0 <= j < keys.len() implies r_avail(rm, cm, #[trigger] keys[j], f) by {
            if j < keys.len() - 1 {
                assert(keys.drop_last()[j] == keys[j]);
            } else {
                assert(keys[j] == keys.last());
            }
        }
    }
}


/// The larger of two descent budgets.
pub open spec fn nmax(a: nat, b: nat) -> nat {
    if a >= b {
        a
    } else {
        b
    }
}

/// The descent budget a diagram value needs: one unit per run level.
pub open spec fn d_need(d: DiagramV) -> nat
    decreases d,
{
    match d {
        DiagramV::D0(_) => 0,
        DiagramV::DN { source, cospans } => 1 + nmax(d_need(*source), cs_need(cospans)),
    }
}

/// The descent budget a run of cospan values needs.
pub open spec fn cs_need(cs: Seq<CospanV>) -> nat
    decreases cs,
{
    if cs.len() == 0 {
        0
    } else {
        nmax(cs_need(cs.drop_last()), c_need(cs.last()))
    }
}

/// The descent budget a cospan value needs.
pub open spec fn c_need(c: CospanV) -> nat
    decreases c,
{
    nmax(r_need(c.forward), r_need(c.backward))
}

/// The descent budget a rewrite value needs: one unit per cone level.
pub open spec fn r_need(r: RewriteV) -> nat
    decreases r,
{
    match r {
        RewriteV::R0(_) => 0,
        RewriteV::RN { dimension: _, cones } => 1 + ks_need(cones),
    }
}

/// The descent budget a run of cone values needs.
pub open spec fn ks_need(cs: Seq<ConeV>) -> nat
    decreases cs,
{
    if cs.len() == 0 {
        0
    } else {
        nmax(ks_need(cs.drop_last()), k_need(cs.last()))
    }
}

/// The descent budget a cone value needs.
pub open spec fn k_need(k: ConeV) -> nat
    decreases k,
{
    nmax(
        nmax(cs_need(k.source), c_need(*k.target)),
        nmax(rs_need(k.regular_slices), rs_need(k.singular_slices)),
    )
}

/// The descent budget a run of rewrite values needs.
pub open spec fn rs_need(rs: Seq<RewriteV>) -> nat
    decreases rs,
{
    if rs.len() == 0 {
        0
    } else {
        nmax(rs_need(rs.drop_last()), r_need(rs.last()))
    }
}

/// A key with a decode witness is resolvable within any budget the witness
/// fits: whenever some value decodes at `k` and its descent need is within
/// `f`, the tables resolve `k` at `f`. With the unpackers' resolvability
/// clause this is what owes a result for every decodable key whose witness
/// fits the record-count budget.
pub proof fn lemma_decode_witness_resolvable(
    dm: Map<KeyBits, DiagramRec>,
    rm: Map<KeyBits, RewriteRec>,
    cm: Map<KeyBits, ConeRec>,
    k: KeyBits,
    d: DiagramV,
    f: nat,
)
    requires
        d_decodes_in(dm, rm, cm, k, d),
        d_need(d) <= f,
    ensures
        d_avail(dm, rm, cm, k, f),
    decreases d,
{
    match d {
        DiagramV::D0(_) => {},
        DiagramV::DN { source, cospans } => {
            match dm[k] {
                DiagramRec::DN { dimension: _, source: sk, cospans: ref crecs } => {
                    lemma_decode_witness_resolvable(dm, rm, cm, sk, *source, (f - 1) as nat);
                    lemma_cs_decode_resolvable(rm, cm, crecs@, cospans, (f - 1) as nat);
                },
                _ => {},
            }
        },
    }
}

/// Run form of `lemma_decode_witness_resolvable` for cospans.
proof fn lemma_cs_decode_resolvable(
    rm: Map<KeyBits, RewriteRec>,
    cm: Map<KeyBits, ConeRec>,
    recs: Seq<CospanRec>,
    cs: Seq<CospanV>,
    f: nat,
)
    requires
        cs_decode_in(rm, cm, recs, cs),
        cs_need(cs) <= f,
    ensures
        cs_avail(rm, cm, recs, f),
    decreases cs,
{
    if cs.len() > 0 {
        lemma_cs_decode_resolvable(rm, cm, recs.drop_last(), cs.drop_last(), f);
        lemma_c_decode_resolvable(rm, cm, recs.last(), cs.last(), f);
    }
}

/// A cospan with a decode witness is resolvable within the witness's need.
proof fn lemma_c_decode_resolvable(
    rm: Map<KeyBits, RewriteRec>,
    cm: Map<KeyBits, ConeRec>,
    rec: CospanRec,
    c: CospanV,
    f: nat,
)
    requires
        c_decodes_in(rm, cm, rec, c),
        c_need(c) <= f,
    ensures
        c_avail(rm, cm, rec, f),
    decreases c,
{
    lemma_r_decode_resolvable(rm, cm, rec.forward, c.forward, f);
    lemma_r_decode_resolvable(rm, cm, rec.backward, c.backward, f);
}

/// A rewrite key with a decode witness is resolvable within the witness's
/// need.
pub proof fn lemma_r_decode_resolvable(
    rm: Map<KeyBits, RewriteRec>,
    cm: Map<KeyBits, ConeRec>,
    k: KeyBits,
    r: RewriteV,
    f: nat,
)
    requires
        r_decodes_in(rm, cm, k, r),
        r_need(r) <= f,
    ensures
        r_avail(rm, cm, k, f),
    decreases r,
{
    match r {
        RewriteV::R0(_) => {},
        RewriteV::RN { dimension: _, cones } => {
            match rm[k] {
                RewriteRec::RN { dimension: _, cones: ref krecs } => {
                    lemma_ks_decode_resolvable(rm, cm, krecs@, cones, (f - 1) as nat);
                },
                _ => {},
            }
        },
    }
}

/// Run form of `lemma_r_decode_resolvable` for cones.
proof fn lemma_ks_decode_resolvable(
    rm: Map<KeyBits, RewriteRec>,
    cm: Map<KeyBits, ConeRec>,
    recs: Seq<ConeIndexRec>,
    cs: Seq<ConeV>,
    f: nat,
)
    requires
        ks_decode_in(rm, cm, recs, cs),
        ks_need(cs) <= f,
    ensures
        ks_avail(rm, cm, recs, f),
    decreases cs,
{
    if cs.len() > 0 {
        lemma_ks_decode_resolvable(rm, cm, recs.drop_last(), cs.drop_last(), f);
        lemma_k_decode_resolvable(rm, cm, recs.last(), cs.last(), f);
    }
}

/// A cone reference with a decode witness is resolvable within the
/// witness's need.
proof fn lemma_k_decode_resolvable(
    rm: Map<KeyBits, RewriteRec>,
    cm: Map<KeyBits, ConeRec>,
    rec: ConeIndexRec,
    c: ConeV,
    f: nat,
)
    requires
        k_decodes_in(rm, cm, rec, c),
        k_need(c) <= f,
    ensures
        k_avail(rm, cm, rec, f),
    decreases c,
{
    match cm[rec.cone] {
        krec => {
            lemma_cs_decode_resolvable(rm, cm, krec.source@, c.source, f);
            lemma_c_decode_resolvable(rm, cm, krec.target, *c.target, f);
            lemma_rs_decode_resolvable(rm, cm, krec.regular_slices@, c.regular_slices, f);
            lemma_rs_decode_resolvable(rm, cm, krec.singular_slices@, c.singular_slices, f);
        },
    }
}

/// Run form of `lemma_r_decode_resolvable` for slice runs.
proof fn lemma_rs_decode_resolvable(
    rm: Map<KeyBits, RewriteRec>,
    cm: Map<KeyBits, ConeRec>,
    keys: Seq<KeyBits>,
    rs: Seq<RewriteV>,
    f: nat,
)
    requires
        rs_decode_in(rm, cm, keys, rs),
        rs_need(rs) <= f,
    ensures
        rs_avail(rm, cm, keys, f),
    decreases rs,
{
    if rs.len() > 0 {
        lemma_rs_decode_resolvable(rm, cm, keys.drop_last(), rs.drop_last(), f);
        lemma_r_decode_resolvable(rm, cm, keys.last(), rs.last(), f);
    }
}

} // verus!
