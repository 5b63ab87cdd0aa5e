//! Behavioral checks of the content-addressed store: round trip, dedup and
//! determinism of keys.

use homotopy_store::common::{Generator, Orientation};
use homotopy_store::diagram::{
    eq_diagram, eq_rewrite, Cone, Cospan, Diagram, Diagram0, DiagramN, Ends, Rewrite, Rewrite0,
    RewriteN,
};
use homotopy_store::store::{RewriteRec, Store};
use std::collections::BTreeMap;

fn point(id: u64) -> Diagram0 {
    Diagram0 {
        generator: Generator { id, dimension: 0 },
        orientation: Orientation::Zero,
    }
}

fn unit_rewrite() -> Rewrite {
    Rewrite::Rewrite0(Rewrite0 { ends: None })
}

fn concrete_rewrite(a: u64, b: u64) -> Rewrite {
    Rewrite::Rewrite0(Rewrite0 {
        ends: Some(Ends {
            source: point(a),
            target: point(b),
            label: None,
        }),
    })
}

fn sample_diagram() -> Diagram {
    // a one-dimensional diagram with two cospans sharing one rewrite shape
    Diagram::DiagramN(DiagramN {
        source: Box::new(Diagram::Diagram0(point(1))),
        cospans: vec![
            Cospan {
                forward: concrete_rewrite(1, 2),
                backward: concrete_rewrite(3, 2),
            },
            Cospan {
                forward: concrete_rewrite(1, 2),
                backward: unit_rewrite(),
            },
        ],
    })
}

fn deep_diagram() -> Diagram {
    // a two-dimensional diagram whose rewrite holds a cone
    let inner = Cospan {
        forward: concrete_rewrite(1, 4),
        backward: concrete_rewrite(2, 4),
    };
    let cone = Cone {
        index: 0,
        source: vec![Cospan {
            forward: concrete_rewrite(1, 2),
            backward: concrete_rewrite(3, 2),
        }],
        target: inner,
        regular_slices: vec![unit_rewrite()],
        singular_slices: vec![concrete_rewrite(2, 4), unit_rewrite()],
    };
    Diagram::DiagramN(DiagramN {
        source: Box::new(sample_diagram()),
        cospans: vec![Cospan {
            forward: Rewrite::RewriteN(RewriteN {
                dimension: 1,
                cones: vec![cone],
            }),
            backward: unit_rewrite(),
        }],
    })
}

#[test]
fn pack_unpack_round_trip() {
    let mut store = Store::new();
    let d = deep_diagram();
    let key = store.pack_diagram(&d);
    let back = store
        .unpack_diagram(key.clone())
        .expect("packed diagram must unpack");
    assert!(eq_diagram(&back, &d));
    // re-packing the unpacked value yields the identical key
    let key2 = store.pack_diagram(&back);
    assert_eq!(key.bits, key2.bits);
}

#[test]
fn rewrite_round_trip() {
    let mut store = Store::new();
    let r = concrete_rewrite(5, 6);
    let key = store.pack_rewrite(&r);
    let back = store.unpack_rewrite(key).expect("packed rewrite must unpack");
    assert!(eq_rewrite(&back, &r));
}

#[test]
fn equal_diagrams_pack_to_equal_keys() {
    // two independently constructed but structurally equal diagrams
    let mut store = Store::new();
    let k1 = store.pack_diagram(&sample_diagram());
    let k2 = store.pack_diagram(&sample_diagram());
    assert_eq!(k1.bits, k2.bits);
}

#[test]
fn repacking_shared_subvalue_stores_one_record() {
    let mut store = Store::new();
    store.pack_diagram(&sample_diagram());
    let diagrams = store.diagram_records().len();
    let rewrites = store.rewrite_records().len();
    // packing a structurally equal diagram again adds no records
    store.pack_diagram(&sample_diagram());
    assert_eq!(store.diagram_records().len(), diagrams);
    assert_eq!(store.rewrite_records().len(), rewrites);
    // the repeated rewrite shape inside the diagram was stored once:
    // unit, 1->2, 3->2 and nothing else
    assert_eq!(rewrites, 3);
}

#[test]
fn packing_is_deterministic_across_stores() {
    let mut s1 = Store::new();
    let mut s2 = Store::new();
    let k1 = s1.pack_diagram(&deep_diagram());
    let k2 = s2.pack_diagram(&deep_diagram());
    assert_eq!(k1.bits, k2.bits);
}

#[test]
fn distinct_values_receive_distinct_keys() {
    // would fail if the hash ignored its input
    let mut store = Store::new();
    let k1 = store.pack_diagram(&Diagram::Diagram0(point(1)));
    let k2 = store.pack_diagram(&Diagram::Diagram0(point(2)));
    assert_ne!(k1.bits, k2.bits);
}

#[test]
fn unpack_unknown_key_fails() {
    let mut store = Store::new();
    let d = sample_diagram();
    let key = store.pack_diagram(&d);
    let mut other = Store::new();
    let mut bits = key.bits;
    bits.0 = bits.0.wrapping_add(1);
    assert!(other
        .unpack_diagram(homotopy_store::store::Key::new(bits))
        .is_none());
}

#[test]
fn invalid_rewrite_record_is_rejected() {
    // a rewrite with a source but no target is not a valid form: packing
    // never produces one, so fabricate the record table by hand
    let mut rewrites: BTreeMap<(u64, u64), RewriteRec> = BTreeMap::new();
    rewrites.insert(
        (7, 7),
        RewriteRec::R0 {
            source: Some(point(1)),
            target: None,
            label: None,
        },
    );
    let mut store = Store::from_records(BTreeMap::new(), rewrites, BTreeMap::new());
    assert!(store
        .unpack_rewrite(homotopy_store::store::Key::new((7, 7)))
        .is_none());
}
