//! Whole-document packing and unpacking: the versioned, content-addressed
//! form a document takes on disk, and the import that accepts it back.
//!
//! Export packs every diagram reachable from the signature and workspace
//! through one content store; import rebuilds them from the record tables
//! and rejects the whole document on the first failure, so no partially
//! reconstructed state is ever handed out.

use vstd::prelude::*;

use crate::common::Generator;
use crate::diagram::Diagram;
use crate::proofstate::{
    FolderInfo, GeneratorInfo, Metadata, Signature, SignatureItem, Workspace,
};
use crate::store::{d_avail, d_decodes_in, dkey, Key, Store};

verus! {

/// The schema version this crate writes.
pub const CURRENT_VERSION: u64 = 3;

/// Why an import was rejected before any state was installed.
#[derive(Clone, Copy, PartialEq, Eq, Structural, Debug)]
pub enum DecodeError {
    /// The bytes did not decode as any known envelope.
    Malformed,
    /// The envelope tag names a schema this crate does not know.
    UnsupportedVersion,
    /// A record referenced by the document is missing from the tables.
    MissingRecord,
}

/// Why an imported document failed the external structural check.
#[derive(Clone, Copy, PartialEq, Eq, Structural, Debug)]
pub enum ValidationError {
    /// The check rejected the named generator's diagram.
    Generator(Generator),
    /// The check rejected the workspace diagram.
    Workspace,
}

/// One signature entry in packed form: item diagrams are referenced by key.
pub enum SignatureEntryData {
    Folder { name: String, expanded: bool },
    Item {
        generator: Generator,
        name: String,
        color: String,
        oriented: bool,
        invertible: bool,
        diagram: Key<Diagram>,
    },
}

/// The workspace in packed form.
pub struct WorkspaceData {
    pub diagram: Key<Diagram>,
    pub path: Vec<crate::common::SliceIndex>,
    pub view: u8,
}

/// A whole document in packed, versioned form: the record tables plus the
/// signature, workspace and metadata that reference them by key.
pub struct DocumentData {
    pub version: u64,
    pub store: Store,
    pub signature: Vec<SignatureEntryData>,
    pub workspace: Option<WorkspaceData>,
    pub metadata: Metadata,
}

/// A live document, as import hands it back.
pub struct Document {
    pub signature: Signature,
    pub workspace: Option<Workspace>,
    pub metadata: Metadata,
}

/// Whether the diagram key of a packed signature entry is resolvable from
/// the document's record tables within the import's descent budget; folders
/// reference nothing.
pub open spec fn entry_avail(data: DocumentData, entry: SignatureEntryData) -> bool {
    match entry {
        SignatureEntryData::Folder { .. } => true,
        SignatureEntryData::Item { diagram, .. } => d_avail(
            data.store.diagrams_map(),
            data.store.rewrites_map(),
            data.store.cones_map(),
            diagram@,
            data.store.total_fuel(),
        ),
    }
}

/// Whether the workspace key of a packed document, if any, is resolvable
/// from its record tables within the import's descent budget.
pub open spec fn workspace_avail(data: DocumentData) -> bool {
    match data.workspace {
        None => true,
        Some(wd) => d_avail(
            data.store.diagrams_map(),
            data.store.rewrites_map(),
            data.store.cones_map(),
            wd.diagram@,
            data.store.total_fuel(),
        ),
    }
}

/// Whether a packed signature entry corresponds to a live one: folders map
/// to folders, items keep their fields, and the item key is the content key
/// of the item's diagram.
pub open spec fn entry_corresponds(item: SignatureItem, entry: SignatureEntryData) -> bool {
    match item {
        SignatureItem::Folder(f) => entry matches SignatureEntryData::Folder { name, expanded }
            && name@ == f.name@ && expanded == f.expanded,
        SignatureItem::Item(g) => entry matches SignatureEntryData::Item {
            generator,
            name,
            color,
            oriented,
            invertible,
            diagram,
        } && generator == g.generator && name@ == g.name@ && color@ == g.color@ && oriented
            == g.oriented && invertible == g.invertible && diagram@ == dkey(g.diagram@),
    }
}

/// Packs a document for export: every diagram reachable from the signature
/// or the workspace is packed through one store, and the result is tagged
/// with the current schema version.
pub fn export_document(signature: &Signature, workspace: &Option<Workspace>, metadata: Metadata)
    -> (r: DocumentData)
    ensures
        r.version == CURRENT_VERSION,
        r.store.wf(),
        r.signature@.len() == signature.items@.len(),
        forall|i: int|
            0 <= i < signature.items@.len() ==> entry_corresponds(
                #[trigger] signature.items@[i],
                r.signature@[i],
            ),
        match *workspace {
            Some(ref w) => (r.workspace matches Some(wd) && wd.diagram@ == dkey(w.diagram@)
                && wd.path@ == w.path@ && wd.view == w.view),
            None => r.workspace is None,
        },
        // every packed diagram stays memoized under its key, which is what
        // owes the memo-path round trip back through unpacking
        forall|i: int|
            0 <= i < signature.items@.len() ==> match #[trigger] signature.items@[i] {
                SignatureItem::Item(g) => r.store.memo_d_at(dkey(g.diagram@)),
                SignatureItem::Folder(_) => true,
            },
        match *workspace {
            Some(ref w) => r.store.memo_d_at(dkey(w.diagram@)),
            None => true,
        },
        r.metadata == metadata,
{
    let mut store = Store::new();
    let mut entries: Vec<SignatureEntryData> = Vec::new();
    let n: usize = signature.items.len();
    let mut i: usize = 0;
    while i < n
        invariant
            n == signature.items@.len(),
            0 <= i <= n,
            store.wf(),
            entries@.len() == i,
            forall|j: int|
                0 <= j < i ==> entry_corresponds(
                    #[trigger] signature.items@[j],
                    entries@[j],
                ),
            forall|j: int|
                0 <= j < i ==> match #[trigger] signature.items@[j] {
                    SignatureItem::Item(g) => store.memo_d_at(dkey(g.diagram@)),
                    SignatureItem::Folder(_) => true,
                },
        decreases n - i,
    {
        match &signature.items[i] {
            SignatureItem::Folder(f) => {
                entries.push(
                    SignatureEntryData::Folder { name: f.name.clone(), expanded: f.expanded },
                );
            },
            SignatureItem::Item(g) => {
                let key = store.pack_diagram(&g.diagram);
                entries.push(
                    SignatureEntryData::Item {
                        generator: g.generator,
                        name: g.name.clone(),
                        color: g.color.clone(),
                        oriented: g.oriented,
                        invertible: g.invertible,
                        diagram: key,
                    },
                );
            },
        }
        i = i + 1;
    }
    let workspace_data = match workspace {
        Some(w) => {
            let key = store.pack_diagram(&w.diagram);
            Some(
                WorkspaceData {
                    diagram: key,
                    path: crate::homotopy::clone_slice_indices(&w.path),
                    view: w.view,
                },
            )
        },
        None => None,
    };
    DocumentData {
        version: CURRENT_VERSION,
        store,
        signature: entries,
        workspace: workspace_data,
        metadata,
    }
}

/// Rebuilds a live document from its packed form. The whole import is
/// rejected when the version tag is unknown or any referenced record is
/// missing: on an agreeing store, every diagram handed back is exactly what
/// the record tables denote at its key, so a table that omits a needed
/// record can never produce a partial document.
pub fn import_document(data: DocumentData) -> (r: Result<Document, DecodeError>)
    ensures
        data.version != CURRENT_VERSION <==> (r matches Err(e) && e is UnsupportedVersion),
        r matches Err(e) ==> e is UnsupportedVersion || e is MissingRecord,
        data.version == CURRENT_VERSION && (forall|i: int|
            0 <= i < data.signature@.len() ==> entry_avail(data, #[trigger] data.signature@[i]))
            && workspace_avail(data) ==> r is Ok,
        r matches Ok(doc) ==> {
            &&& doc.signature.items@.len() == data.signature@.len()
            &&& doc.metadata == data.metadata
            &&& (data.workspace is Some <==> doc.workspace is Some)
            &&& data.store.ok() ==> forall|i: int|
                0 <= i < data.signature@.len() ==> #[trigger] import_entry_ok(data, doc, i)
            &&& data.store.ok() ==> match data.workspace {
                Some(wd) => (doc.workspace matches Some(w) && d_decodes_in(
                    data.store.diagrams_map(),
                    data.store.rewrites_map(),
                    data.store.cones_map(),
                    wd.diagram@,
                    w.diagram@,
                ) && w.path@ == wd.path@ && w.view == wd.view),
                None => doc.workspace is None,
            }
        },
{
    if data.version != CURRENT_VERSION {
        return Err(DecodeError::UnsupportedVersion);
    }
    let DocumentData { version: _, mut store, signature, workspace, metadata } = data;
    let ghost store0 = store;
    let mut items: Vec<SignatureItem> = Vec::new();
    let n: usize = signature.len();
    let mut i: usize = 0;
    let mut folder_index: u64 = 0;
    while i < n
        invariant
            n == signature@.len(),
            0 <= i <= n,
            items@.len() == i,
            data.version == CURRENT_VERSION,
            store.diagrams_map() == store0.diagrams_map(),
            store.rewrites_map() == store0.rewrites_map(),
            store.cones_map() == store0.cones_map(),
            store0.ok() ==> store.ok(),
            store0.ok() ==> forall|j: int|
                0 <= j < i ==> #[trigger] entry_imported(store0, signature@[j], items@[j]),
            store0 == data.store,
            signature@ == data.signature@,
        decreases n - i,
    {
        match &signature[i] {
            SignatureEntryData::Folder { name, expanded } => {
                folder_index = if folder_index == u64::MAX {
                    folder_index
                } else {
                    folder_index + 1
                };
                items.push(
                    SignatureItem::Folder(
                        FolderInfo { id: folder_index, name: name.clone(), expanded: *expanded },
                    ),
                );
            },
            SignatureEntryData::Item {
                generator,
                name,
                color,
                oriented,
                invertible,
                diagram,
            } => {
                let d = match store.unpack_diagram(diagram.clone()) {
                    None => {
                        proof {
                            if entry_avail(data, data.signature@[i as int]) {
                                assert(false);
                            }
                        }
                        return Err(DecodeError::MissingRecord);
                    },
                    Some(d) => d,
                };
                items.push(
                    SignatureItem::Item(
                        GeneratorInfo {
                            generator: *generator,
                            name: name.clone(),
                            color: color.clone(),
                            oriented: *oriented,
                            invertible: *invertible,
                            single_preview: true,
                            diagram: d,
                        },
                    ),
                );
            },
        }
        i = i + 1;
    }
    let ws = match &workspace {
        Some(wd) => {
            let d = match store.unpack_diagram(wd.diagram.clone()) {
                None => {
                    proof {
                        if workspace_avail(data) {
                            assert(false);
                        }
                    }
                    return Err(DecodeError::MissingRecord);
                },
                Some(d) => d,
            };
            Some(
                Workspace {
                    diagram: d,
                    path: crate::homotopy::clone_slice_indices(&wd.path),
                    view: wd.view,
                },
            )
        },
        None => None,
    };
    let doc = Document { signature: Signature { items }, workspace: ws, metadata };
    proof {
        if store0.ok() {
            assert forall|j: int| 0 <= j < data.signature@.len() implies #[trigger] import_entry_ok(
                data,
                doc,
                j,
            ) by {
                assert(entry_imported(store0, signature@[j], doc.signature.items@[j]));
            }
        }
    }
    Ok(doc)
}

/// Whether a live signature entry is a faithful import of a packed one:
/// folders keep their name, items keep their fields and their diagram is
/// exactly what the record tables denote at the packed key.
pub open spec fn entry_imported(s: Store, entry: SignatureEntryData, item: SignatureItem) -> bool {
    match entry {
        SignatureEntryData::Folder { name, expanded } => item matches SignatureItem::Folder(f)
            && f.name@ == name@ && f.expanded == expanded,
        SignatureEntryData::Item {
            generator,
            name,
            color,
            oriented,
            invertible,
            diagram,
        } => item matches SignatureItem::Item(g) && g.generator == generator && g.name@ == name@
            && g.color@ == color@ && g.oriented == oriented && g.invertible == invertible
            && d_decodes_in(s.diagrams_map(), s.rewrites_map(), s.cones_map(), diagram@, g.diagram@),
    }
}

/// The per-entry import guarantee of `import_document`, phrased over its
/// argument and result.
pub open spec fn import_entry_ok(data: DocumentData, doc: Document, i: int) -> bool {
    entry_imported(data.store, data.signature@[i], doc.signature.items@[i])
}

} // verus!
