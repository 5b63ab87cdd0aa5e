//! Behavioral checks of whole-document packing, import rejection and the
//! legacy migration rules.

use homotopy_store::common::{Generator, Orientation};
use homotopy_store::diagram::{eq_diagram, Diagram, Diagram0};
use homotopy_store::document::{
    export_document, import_document, DecodeError, DocumentData, CURRENT_VERSION,
};
use homotopy_store::migration::{
    load, metadata_from_legacy, LegacyGenerator, LegacyMetadata, LegacyProof, LegacyWorkspace,
};
use homotopy_store::proofstate::{
    FolderInfo, GeneratorInfo, Metadata, Signature, SignatureItem, Workspace,
};
use homotopy_store::store::Store;
use homotopy_store::geom::{CubeN, ElementData};
use std::collections::BTreeMap;

fn point(id: u64) -> Diagram {
    Diagram::Diagram0(Diagram0 {
        generator: Generator { id, dimension: 0 },
        orientation: Orientation::Zero,
    })
}

fn sample_signature() -> Signature {
    Signature {
        items: vec![
            SignatureItem::Folder(FolderInfo {
                id: 1,
                name: "cells".to_string(),
                expanded: true,
            }),
            SignatureItem::Item(GeneratorInfo {
                generator: Generator { id: 1, dimension: 0 },
                name: "x".to_string(),
                color: "#ff0000".to_string(),
                oriented: false,
                invertible: false,
                single_preview: true,
                diagram: point(1),
            }),
        ],
    }
}

fn sample_metadata() -> Metadata {
    Metadata {
        title: Some("a proof".to_string()),
        author: None,
        abstr: None,
    }
}

#[test]
fn export_import_round_trip() {
    let workspace = Some(Workspace {
        diagram: point(2),
        path: Vec::new(),
        view: 0,
    });
    let data = export_document(&sample_signature(), &workspace, sample_metadata());
    assert_eq!(data.version, CURRENT_VERSION);
    let doc = import_document(data).expect("a freshly exported document must import");
    assert_eq!(doc.signature.items.len(), 2);
    match &doc.signature.items[1] {
        SignatureItem::Item(info) => {
            assert_eq!(info.name, "x");
            assert!(eq_diagram(&info.diagram, &point(1)));
        }
        SignatureItem::Folder(_) => panic!("expected an item"),
    }
    let ws = doc.workspace.expect("workspace must survive the round trip");
    assert!(eq_diagram(&ws.diagram, &point(2)));
    assert_eq!(doc.metadata.title, Some("a proof".to_string()));
}

#[test]
fn import_from_record_tables_alone() {
    // rebuild the store from its record tables only, as a real import does:
    // the memo tables start empty, so every diagram is decoded from records
    let workspace = Some(Workspace {
        diagram: point(2),
        path: Vec::new(),
        view: 0,
    });
    let data = export_document(&sample_signature(), &workspace, sample_metadata());
    let (diagrams, rewrites, cones) = data.store.into_records();
    let records_only = DocumentData {
        version: data.version,
        store: Store::from_records(diagrams, rewrites, cones),
        signature: data.signature,
        workspace: data.workspace,
        metadata: data.metadata,
    };
    let doc = import_document(records_only).expect("complete record tables must import");
    assert_eq!(doc.signature.items.len(), 2);
    match &doc.signature.items[1] {
        SignatureItem::Item(info) => assert!(eq_diagram(&info.diagram, &point(1))),
        SignatureItem::Folder(_) => panic!("expected an item"),
    }
    let ws = doc.workspace.expect("workspace must be rebuilt from records");
    assert!(eq_diagram(&ws.diagram, &point(2)));
}

#[test]
fn corrupt_import_is_rejected_whole() {
    // a record table that omits the key the workspace diagram references
    // must yield a decode error, never a partially reconstructed document
    let workspace = Some(Workspace {
        diagram: point(2),
        path: Vec::new(),
        view: 0,
    });
    let data = export_document(&sample_signature(), &workspace, sample_metadata());
    let gutted = DocumentData {
        version: data.version,
        store: Store::from_records(BTreeMap::new(), BTreeMap::new(), BTreeMap::new()),
        signature: data.signature,
        workspace: data.workspace,
        metadata: data.metadata,
    };
    assert!(matches!(
        import_document(gutted),
        Err(DecodeError::MissingRecord)
    ));
}

#[test]
fn unknown_version_is_rejected() {
    let data = export_document(&sample_signature(), &None, sample_metadata());
    let tagged = DocumentData {
        version: CURRENT_VERSION + 1,
        ..data
    };
    assert!(matches!(
        import_document(tagged),
        Err(DecodeError::UnsupportedVersion)
    ));
}

#[test]
fn legacy_metadata_drops_empty_fields() {
    let m = metadata_from_legacy(LegacyMetadata {
        title: "t".to_string(),
        author: String::new(),
        user_abstract: String::new(),
    });
    assert_eq!(m.title, Some("t".to_string()));
    assert_eq!(m.author, None);
    assert_eq!(m.abstr, None);
}

#[test]
fn legacy_load_builds_signature_and_workspace() {
    let legacy = LegacyProof {
        generator_info: vec![LegacyGenerator {
            generator: Generator { id: 4, dimension: 0 },
            name: "y".to_string(),
            color: "#00ff00".to_string(),
            diagram: point(4),
        }],
        workspace: Some(LegacyWorkspace { diagram: point(4) }),
    };
    let (signature, workspace) = load(legacy).expect("legacy data must load");
    assert_eq!(signature.items.len(), 1);
    match &signature.items[0] {
        SignatureItem::Item(info) => {
            assert_eq!(info.name, "y");
            assert!(info.oriented);
            assert!(!info.invertible);
        }
        SignatureItem::Folder(_) => panic!("expected an item"),
    }
    let ws = workspace.expect("workspace must be kept");
    // a zero-dimensional diagram is viewed at dimension zero
    assert_eq!(ws.view, 0);
    assert!(ws.path.is_empty());
}

#[test]
fn geom_element_order() {
    let p = ElementData::Cube0(3);
    assert_eq!(p.order(), 0);
    let c = ElementData::CubeN(CubeN {
        n: 2,
        subcube_0: 0,
        subcube_1: 1,
    });
    assert_eq!(c.order(), 2);
}
