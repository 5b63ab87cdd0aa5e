//! The proof-state model this core snapshots and packs: a signature of named
//! generators, an optional active workspace, document metadata, and the
//! actions that transform them. The editing semantics of these values lives
//! in the external diagram engine; this crate records, compares and
//! serializes them.

use vstd::prelude::*;

use crate::common::{Generator, SliceIndex};
use crate::diagram::Diagram;
use crate::homotopy::{Homotopy, HomotopyV};

verus! {

/// Document metadata; an absent entry means the user never set it.
pub struct Metadata {
    pub title: Option<String>,
    pub author: Option<String>,
    pub abstr: Option<String>,
}

/// The signature entry describing one named generator and its diagram.
pub struct GeneratorInfo {
    pub generator: Generator,
    pub name: String,
    pub color: String,
    pub oriented: bool,
    pub invertible: bool,
    pub single_preview: bool,
    pub diagram: Diagram,
}

/// A folder heading inside the signature listing.
pub struct FolderInfo {
    pub id: u64,
    pub name: String,
    pub expanded: bool,
}

/// One entry of the signature listing.
pub enum SignatureItem {
    Folder(FolderInfo),
    Item(GeneratorInfo),
}

/// The signature: the ordered listing of folders and generators.
pub struct Signature {
    pub items: Vec<SignatureItem>,
}

/// The active workspace: the diagram under edit, the path focused into it,
/// and the projection dimension it is viewed at.
pub struct Workspace {
    pub diagram: Diagram,
    pub path: Vec<SliceIndex>,
    pub view: u8,
}

/// A complete proof state: everything a session snapshot holds.
pub struct ProofState {
    pub signature: Signature,
    pub workspace: Option<Workspace>,
    pub metadata: Metadata,
}

/// An action the user performed on the proof state; recorded with each
/// history snapshot so sessions can be replayed.
pub enum ProofAction {
    CreateGeneratorZero,
    SelectGenerator(Generator),
    TakeIdentity,
    ClearWorkspace,
    Homotopy(Homotopy),
    ImportProof,
}

/// Mathematical value of a `ProofAction`.
#[verifier::ext_equal]
pub enum ProofActionV {
    CreateGeneratorZero,
    SelectGenerator(Generator),
    TakeIdentity,
    ClearWorkspace,
    Homotopy(HomotopyV),
    ImportProof,
}

impl View for ProofAction {
    type V = ProofActionV;

    open spec fn view(&self) -> ProofActionV {
        match *self {
            ProofAction::CreateGeneratorZero => ProofActionV::CreateGeneratorZero,
            ProofAction::SelectGenerator(g) => ProofActionV::SelectGenerator(g),
            ProofAction::TakeIdentity => ProofActionV::TakeIdentity,
            ProofAction::ClearWorkspace => ProofActionV::ClearWorkspace,
            ProofAction::Homotopy(ref h) => ProofActionV::Homotopy(h@),
            ProofAction::ImportProof => ProofActionV::ImportProof,
        }
    }
}

/// Whether an action is an import, the marker `get_last_import_segment`
/// truncates at.
pub open spec fn is_import(a: ProofActionV) -> bool {
    a is ImportProof
}

/// Decides whether two actions are the same action.
pub fn eq_action(a: &ProofAction, b: &ProofAction) -> (r: bool)
    ensures
        r == (a@ == b@),
{
    match (a, b) {
        (ProofAction::CreateGeneratorZero, ProofAction::CreateGeneratorZero) => true,
        (ProofAction::SelectGenerator(x), ProofAction::SelectGenerator(y)) => (*x == *y),
        (ProofAction::TakeIdentity, ProofAction::TakeIdentity) => true,
        (ProofAction::ClearWorkspace, ProofAction::ClearWorkspace) => true,
        (ProofAction::Homotopy(x), ProofAction::Homotopy(y)) => crate::homotopy::eq_homotopy(x, y),
        (ProofAction::ImportProof, ProofAction::ImportProof) => true,
        _ => false,
    }
}

/// Copies an action; the copy denotes the same action.
pub fn clone_action(a: &ProofAction) -> (r: ProofAction)
    ensures
        r@ == a@,
{
    match a {
        ProofAction::CreateGeneratorZero => ProofAction::CreateGeneratorZero,
        ProofAction::SelectGenerator(g) => ProofAction::SelectGenerator(*g),
        ProofAction::TakeIdentity => ProofAction::TakeIdentity,
        ProofAction::ClearWorkspace => ProofAction::ClearWorkspace,
        ProofAction::Homotopy(h) => ProofAction::Homotopy(crate::homotopy::clone_homotopy(h)),
        ProofAction::ImportProof => ProofAction::ImportProof,
    }
}

} // verus!
