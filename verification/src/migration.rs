//! Acceptance of the legacy on-disk schema: flat metadata fields plus a
//! proof description that the legacy decoder understands. The byte-level
//! decoding of both happens outside; this module holds the rules that turn
//! the decoded legacy data into a live signature and workspace.

use vstd::prelude::*;

use crate::common::Generator;
use crate::diagram::{dim64, Diagram};
use crate::proofstate::{GeneratorInfo, Metadata, Signature, SignatureItem, Workspace};

verus! {

/// The metadata fields of the legacy envelope; absent fields decode as
/// empty strings.
pub struct LegacyMetadata {
    pub title: String,
    pub author: String,
    pub user_abstract: String,
}

/// One generator entry of a legacy proof.
pub struct LegacyGenerator {
    pub generator: Generator,
    pub name: String,
    pub color: String,
    pub diagram: Diagram,
}

/// The legacy workspace: just the diagram under edit.
pub struct LegacyWorkspace {
    pub diagram: Diagram,
}

/// A decoded legacy proof: its generators and optional workspace.
pub struct LegacyProof {
    pub generator_info: Vec<LegacyGenerator>,
    pub workspace: Option<LegacyWorkspace>,
}

/// Turns legacy metadata into the current form: an empty field means the
/// user never set it, so it becomes absent.
pub fn metadata_from_legacy(m: LegacyMetadata) -> (r: Metadata)
    ensures
        r.title == (if m.title@.len() == 0 {
            Option::<String>::None
        } else {
            Some(m.title)
        }),
        r.author == (if m.author@.len() == 0 {
            Option::<String>::None
        } else {
            Some(m.author)
        }),
        r.abstr == (if m.user_abstract@.len() == 0 {
            Option::<String>::None
        } else {
            Some(m.user_abstract)
        }),
{
    let LegacyMetadata { title, author, user_abstract } = m;
    let title_out = if title.as_str().is_empty() {
        None
    } else {
        Some(title)
    };
    let author_out = if author.as_str().is_empty() {
        None
    } else {
        Some(author)
    };
    let abstr_out = if user_abstract.as_str().is_empty() {
        None
    } else {
        Some(user_abstract)
    };
    Metadata { title: title_out, author: author_out, abstr: abstr_out }
}

/// Whether a signature item is the live form of a legacy generator entry:
/// the legacy defaults are oriented, not invertible, single preview.
pub open spec fn legacy_item_loaded(g: LegacyGenerator, item: SignatureItem) -> bool {
    item matches SignatureItem::Item(info) && info.generator == g.generator && info.name == g.name
        && info.color == g.color && info.oriented == true && info.invertible == false
        && info.single_preview == true && info.diagram@ == g.diagram@
}

/// Builds a live signature and workspace from a decoded legacy proof. Every
/// generator entry becomes a signature item with the legacy defaults; the
/// workspace, when present, is viewed at its diagram's dimension capped at
/// two.
pub fn load(legacy: LegacyProof) -> (r: Option<(Signature, Option<Workspace>)>)
    ensures
        r matches Some(sw) && {
            let (signature, workspace) = sw;
            &&& signature.items@.len() == legacy.generator_info@.len()
            &&& forall|i: int|
                0 <= i < legacy.generator_info@.len() ==> legacy_item_loaded(
                    #[trigger] legacy.generator_info@[i],
                    signature.items@[i],
                )
            &&& match legacy.workspace {
                Some(w) => (workspace matches Some(ws) && ws.diagram@ == w.diagram@ && ws.path@
                    == Seq::<crate::common::SliceIndex>::empty() && ws.view == (if dim64(
                    w.diagram@,
                ) < 2 {
                    dim64(w.diagram@) as u8
                } else {
                    2u8
                })),
                None => workspace is None,
            }
        },
{
    let LegacyProof { generator_info, workspace } = legacy;
    let mut items: Vec<SignatureItem> = Vec::new();
    let n: usize = generator_info.len();
    let mut i: usize = 0;
    while i < n
        invariant
            n == generator_info@.len(),
            0 <= i <= n,
            items@.len() == i,
            forall|j: int|
                0 <= j < i ==> legacy_item_loaded(
                    #[trigger] generator_info@[j],
                    items@[j],
                ),
        decreases n - i,
    {
        let g = &generator_info[i];
        items.push(
            SignatureItem::Item(
                GeneratorInfo {
                    generator: g.generator,
                    name: g.name.clone(),
                    color: g.color.clone(),
                    oriented: true,
                    invertible: false,
                    single_preview: true,
                    diagram: crate::diagram::clone_diagram(&g.diagram),
                },
            ),
        );
        proof {
            assert(items@.last() matches SignatureItem::Item(info) && info.name@
                == generator_info@[i as int].name@);
        }
        i = i + 1;
    }
    let ws = match &workspace {
        Some(w) => {
            let dim: u64 = crate::diagram::dimension(&w.diagram);
            let view: u8 = if dim < 2 {
                dim as u8
            } else {
                2u8
            };
            Some(
                Workspace {
                    diagram: crate::diagram::clone_diagram(&w.diagram),
                    path: Vec::new(),
                    view,
                },
            )
        },
        None => None,
    };
    Some((Signature { items }, ws))
}

} // verus!
