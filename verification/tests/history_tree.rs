//! Behavioral checks of the branching undo/redo tree.

use homotopy_store::common::Generator;
use homotopy_store::history::{History, HistoryError};
use homotopy_store::proofstate::{Metadata, ProofAction, ProofState, Signature};

fn state(tag: &str) -> ProofState {
    ProofState {
        signature: Signature { items: Vec::new() },
        workspace: None,
        metadata: Metadata {
            title: Some(tag.to_string()),
            author: None,
            abstr: None,
        },
    }
}

fn title(h: &History) -> Option<String> {
    h.proof_state().state.metadata.title.clone()
}

fn select(id: u64) -> ProofAction {
    ProofAction::SelectGenerator(Generator { id, dimension: 0 })
}

#[test]
fn add_then_undo_round_trip() {
    // n adds followed by n undos return the cursor to the root
    let mut h = History::default();
    let n = 5u64;
    for i in 0..n {
        h.add(select(i), state(&format!("s{}", i)));
    }
    for _ in 0..n {
        h.undo().expect("undo must succeed below the root");
    }
    assert_eq!(title(&h), None);
    assert!(matches!(h.undo(), Err(HistoryError::Undo)));
}

#[test]
fn redo_returns_to_undone_snapshot() {
    let mut h = History::default();
    h.add(select(1), state("one"));
    h.add(select(2), state("two"));
    h.undo().unwrap();
    assert_eq!(title(&h), Some("one".to_string()));
    h.redo().expect("redo must reach the undone snapshot");
    assert_eq!(title(&h), Some("two".to_string()));
}

#[test]
fn redo_at_leaf_fails() {
    let mut h = History::default();
    h.add(select(1), state("one"));
    assert!(matches!(h.redo(), Err(HistoryError::Redo)));
    assert_eq!(title(&h), Some("one".to_string()));
}

#[test]
fn branch_selection_finds_first_branch() {
    // from node X: add A, undo, add B makes two children of X; try_redo(A)
    // must select A's snapshot even though B was created later
    let mut h = History::default();
    h.add(select(0), state("x"));
    let a = select(10);
    let b = select(20);
    h.add(homotopy_store::proofstate::clone_action(&a), state("pa"));
    h.undo().unwrap();
    h.add(b, state("pb"));
    h.undo().unwrap();
    assert_eq!(title(&h), Some("x".to_string()));
    h.try_redo(&a).expect("the A branch must be selectable");
    assert_eq!(title(&h), Some("pa".to_string()));
}

#[test]
fn branches_are_kept_not_overwritten() {
    // add A; add B; undo; add C; undo: the node now has both the B branch
    // and the C branch, and either can be replayed by its action
    let mut h = History::default();
    let a = select(1);
    let b = select(2);
    let c = select(3);
    h.add(a, state("pa"));
    h.add(homotopy_store::proofstate::clone_action(&b), state("pb"));
    h.undo().unwrap();
    h.add(homotopy_store::proofstate::clone_action(&c), state("pc"));
    h.undo().unwrap();
    h.try_redo(&b).expect("the earlier branch stays reachable");
    assert_eq!(title(&h), Some("pb".to_string()));
    h.undo().unwrap();
    h.try_redo(&c).expect("the later branch stays reachable");
    assert_eq!(title(&h), Some("pc".to_string()));
}

#[test]
fn try_redo_unknown_action_fails() {
    let mut h = History::default();
    h.add(select(1), state("one"));
    h.undo().unwrap();
    assert!(matches!(h.try_redo(&select(9)), Err(HistoryError::Redo)));
    assert_eq!(title(&h), None);
}

#[test]
fn get_actions_lists_path_from_root() {
    let mut h = History::default();
    h.add(select(1), state("a"));
    h.add(ProofAction::TakeIdentity, state("b"));
    h.add(select(3), state("c"));
    let actions = h.get_actions();
    assert_eq!(actions.len(), 3);
    assert!(matches!(actions[0], ProofAction::SelectGenerator(g) if g.id == 1));
    assert!(matches!(actions[1], ProofAction::TakeIdentity));
    assert!(matches!(actions[2], ProofAction::SelectGenerator(g) if g.id == 3));
    assert!(matches!(h.last_action(), Some(ProofAction::SelectGenerator(g)) if g.id == 3));
}

#[test]
fn import_segment_stops_at_import() {
    let mut h = History::default();
    h.add(select(1), state("a"));
    h.add(ProofAction::ImportProof, state("b"));
    h.add(select(2), state("c"));
    let seg = h.get_last_import_segment();
    assert_eq!(seg.len(), 2);
    assert!(matches!(seg[0], ProofAction::ImportProof));
    assert!(matches!(seg[1], ProofAction::SelectGenerator(g) if g.id == 2));
    let all = h.get_actions();
    assert_eq!(all.len(), 3);
}
