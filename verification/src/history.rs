//! Branching undo/redo tree of proof-state snapshots.
//!
//! Every edit appends a full snapshot as a new child of the current node, so
//! undoing and then acting again creates a sibling branch instead of
//! overwriting history. The tree is an arena of nodes addressed by stable
//! indices; a single cursor marks the current node.

use vstd::prelude::*;

use crate::proofstate::{ProofAction, ProofActionV, ProofState};

verus! {

/// A history-level navigation action.
pub enum Action {
    Move(Direction),
}

/// The direction of a navigation action.
pub enum Direction {
    Linear(crate::common::Direction),
}

/// One recorded proof state, tagged with the action that produced it; the
/// session root carries no action.
pub struct Snapshot {
    pub state: ProofState,
    pub action: Option<ProofAction>,
}

impl Snapshot {
    /// Pairs a proof state with the action that produced it.
    pub fn new(action: Option<ProofAction>, state: ProofState) -> (r: Snapshot)
        ensures
            r.action == action,
            r.state == state,
    {
        Snapshot { state, action }
    }
}

/// Failure of an undo or redo navigation; the cursor stays where it was.
#[derive(Clone, Copy, PartialEq, Eq, Structural, Debug)]
pub enum HistoryError {
    Undo,
    Redo,
}

impl HistoryError {
    /// A human-readable description of the failure.
    pub fn message(&self) -> (r: &'static str)
        ensures
            *self is Undo ==> r@ == "error while performing undo"@,
            *self is Redo ==> r@ == "error while performing redo"@,
    {
        match self {
            HistoryError::Undo => "error while performing undo",
            HistoryError::Redo => "error while performing redo",
        }
    }
}

/// Whether a state offers undo or redo moves.
pub trait UndoState {
    fn can_undo(&self) -> bool;

    fn can_redo(&self) -> bool;

    fn can_move(&self, dir: &Direction) -> bool {
        match dir {
            Direction::Linear(crate::common::Direction::Forward) => self.can_redo(),
            Direction::Linear(crate::common::Direction::Backward) => self.can_undo(),
        }
    }
}

/// One node of the history arena.
pub struct HNode {
    pub snapshot: Snapshot,
    pub parent: Option<usize>,
    pub children: Vec<usize>,
}

/// The branching session history: an arena of snapshot nodes and the cursor
/// of the current one.
pub struct History {
    nodes: Vec<HNode>,
    current: usize,
}

impl History {
    /// The arena, as a sequence of nodes.
    pub closed spec fn nodes_seq(self) -> Seq<HNode> {
        self.nodes@
    }

    /// The cursor.
    pub closed spec fn current_spec(self) -> usize {
        self.current
    }

    /// The snapshot at the cursor.
    pub open spec fn current_snapshot(self) -> Snapshot {
        self.nodes_seq()[self.current_spec() as int].snapshot
    }

    /// Arena consistency: the parent and child links describe one tree whose
    /// root is node zero, children are listed in creation order, and every
    /// node but the root is tagged with an action.
    pub open spec fn wf(self) -> bool {
        &&& 1 <= self.nodes_seq().len() <= usize::MAX
        &&& self.current_spec() < self.nodes_seq().len()
        &&& self.nodes_seq()[0].parent is None
        &&& self.nodes_seq()[0].snapshot.action is None
        &&& forall|i: int|
            1 <= i < self.nodes_seq().len() ==> ((#[trigger] self.nodes_seq()[i].parent) matches Some(
                p,
            ) && p < i)
        &&& forall|i: int|
            1 <= i < self.nodes_seq().len() ==> (#[trigger] self.nodes_seq()[i].snapshot.action)
                is Some
        &&& forall|i: int, q: int|
            0 <= i < self.nodes_seq().len() && 0 <= q < self.nodes_seq()[i].children@.len() ==> i
                < ((#[trigger] self.nodes_seq()[i].children@[q]) as int)
                < self.nodes_seq().len() && self.nodes_seq()[self.nodes_seq()[i].children@[q] as int].parent
                == Some(i as usize)
        &&& forall|i: int, q1: int, q2: int|
            0 <= i < self.nodes_seq().len() && 0 <= q1 < q2 < self.nodes_seq()[i].children@.len()
                ==> (#[trigger] self.nodes_seq()[i].children@[q1]) < (
            #[trigger] self.nodes_seq()[i].children@[q2])
        &&& forall|j: int|
            1 <= j < self.nodes_seq().len() ==> self.nodes_seq()[(
            #[trigger] self.nodes_seq()[j].parent)->0 as int].children@.contains(j as usize)
    }

    /// The actions along the path from the root down to node `i`, oldest
    /// first; the root's absent action contributes nothing.
    pub open spec fn path_actions(self, i: int) -> Seq<ProofActionV>
        decreases i,
    {
        if i <= 0 || i >= self.nodes_seq().len() {
            Seq::empty()
        } else {
            let p = self.nodes_seq()[i].parent->0 as int;
            let here = match self.nodes_seq()[i].snapshot.action {
                Some(a) => seq![a@],
                None => Seq::<ProofActionV>::empty(),
            };
            if 0 <= p < i {
                self.path_actions(p) + here
            } else {
                here
            }
        }
    }

    /// The actions from the most recent import (inclusive) down to node `i`,
    /// oldest first; without an import on the path this is the whole path.
    pub open spec fn import_segment(self, i: int) -> Seq<ProofActionV>
        decreases i,
    {
        if i <= 0 || i >= self.nodes_seq().len() {
            Seq::empty()
        } else {
            let p = self.nodes_seq()[i].parent->0 as int;
            match self.nodes_seq()[i].snapshot.action {
                Some(a) => if crate::proofstate::is_import(a@) {
                    seq![a@]
                } else {
                    if 0 <= p < i {
                        self.import_segment(p) + seq![a@]
                    } else {
                        seq![a@]
                    }
                },
                None => Seq::<ProofActionV>::empty(),
            }
        }
    }

    /// The snapshot at the cursor.
    pub fn proof_state(&self) -> (r: &Snapshot)
        requires
            self.wf(),
        ensures
            *r == self.current_snapshot(),
    {
        &self.nodes[self.current].snapshot
    }

    /// Records `state`, tagged with `action`, as a new child of the current
    /// node and moves the cursor to it. Siblings created by earlier actions
    /// stay in place: this is what makes the history branch.
    pub fn add(&mut self, action: ProofAction, state: ProofState)
        requires
            old(self).wf(),
        ensures
            final(self).wf(),
            final(self).nodes_seq().len() == old(self).nodes_seq().len() + 1,
            final(self).current_spec() == old(self).nodes_seq().len(),
            (final(self).current_snapshot().action matches Some(a) && a == action),
            final(self).current_snapshot().state == state,
            final(self).nodes_seq().last().parent == Some(old(self).current_spec()),
            final(self).nodes_seq().last().children@ == Seq::<usize>::empty(),
            forall|i: int|
                0 <= i < old(self).nodes_seq().len() ==> (#[trigger] final(self).nodes_seq()[i]).snapshot
                    == old(self).nodes_seq()[i].snapshot && final(self).nodes_seq()[i].parent
                    == old(self).nodes_seq()[i].parent,
            forall|i: int|
                0 <= i < old(self).nodes_seq().len() && i != old(self).current_spec() ==> (
                #[trigger] final(self).nodes_seq()[i]).children@ == old(
                    self,
                ).nodes_seq()[i].children@,
            final(self).nodes_seq()[old(self).current_spec() as int].children@ == old(
                self,
            ).nodes_seq()[old(self).current_spec() as int].children@.push(
                old(self).nodes_seq().len() as usize,
            ),
    {
        let idx = self.nodes.len();
        let node = HNode {
            snapshot: Snapshot { state, action: Some(action) },
            parent: Some(self.current),
            children: Vec::new(),
        };
        self.nodes.push(node);
        let n: usize = self.nodes.len();
        assert(self.nodes@.len() == n);
        let cur = self.current;
        let entry = &mut self.nodes[cur];
        entry.children.push(idx);
        self.current = idx;
        proof {
            assert forall|j: int|
                1 <= j < self.nodes_seq().len() implies self.nodes_seq()[(
            #[trigger] self.nodes_seq()[j].parent)->0 as int].children@.contains(j as usize) by {
                if j < idx {
                    let p = old(self).nodes_seq()[j].parent->0 as int;
                    assert(old(self).nodes_seq()[p].children@.contains(j as usize));
                    if p == cur {
                        let q = choose|q: int|
                            0 <= q < old(self).nodes_seq()[p].children@.len() && old(
                                self,
                            ).nodes_seq()[p].children@[q] == j as usize;
                        assert(self.nodes_seq()[p].children@[q] == j as usize);
                    }
                } else {
                    assert(self.nodes_seq()[cur as int].children@.last() == idx);
                }
            }
            assert(self.wf());
        }
    }

    /// Moves the cursor to the parent of the current node; fails, leaving
    /// the cursor in place, exactly when the cursor is at the root.
    pub fn undo(&mut self) -> (r: Result<(), HistoryError>)
        requires
            old(self).wf(),
        ensures
            final(self).wf(),
            final(self).nodes_seq() == old(self).nodes_seq(),
            match r {
                Ok(()) => old(self).current_spec() != 0 && Some(final(self).current_spec()) == old(
                    self,
                ).nodes_seq()[old(self).current_spec() as int].parent,
                Err(e) => old(self).current_spec() == 0 && e is Undo && *final(self) == *old(self),
            },
    {
        match self.nodes[self.current].parent {
            Some(p) => {
                self.current = p;
                Ok(())
            },
            None => {
                proof {
                    if self.current != 0 {
                        assert(self.nodes_seq()[self.current as int].parent is Some);
                    }
                }
                Err(HistoryError::Undo)
            },
        }
    }

    /// Moves the cursor to the most recently added child of the current
    /// node; fails, leaving the cursor in place, exactly when the current
    /// node has no children.
    pub fn redo(&mut self) -> (r: Result<(), HistoryError>)
        requires
            old(self).wf(),
        ensures
            final(self).wf(),
            final(self).nodes_seq() == old(self).nodes_seq(),
            match r {
                Ok(()) => old(self).nodes_seq()[old(self).current_spec() as int].children@.len()
                    > 0 && final(self).current_spec() == old(self).nodes_seq()[old(
                    self,
                ).current_spec() as int].children@.last(),
                Err(e) => old(self).nodes_seq()[old(self).current_spec() as int].children@.len()
                    == 0 && e is Redo && *final(self) == *old(self),
            },
    {
        let cur = self.current;
        let m: usize = self.nodes[cur].children.len();
        if m == 0 {
            return Err(HistoryError::Redo);
        }
        let next = self.nodes[cur].children[m - 1];
        self.current = next;
        Ok(())
    }

    /// Moves the cursor to the first child of the current node whose
    /// recorded action equals `action`; fails, leaving the cursor in place,
    /// exactly when no child carries that action. This replays a specific
    /// previously-taken branch.
    pub fn try_redo(&mut self, action: &ProofAction) -> (r: Result<(), HistoryError>)
        requires
            old(self).wf(),
        ensures
            final(self).wf(),
            final(self).nodes_seq() == old(self).nodes_seq(),
            match r {
                Ok(()) => {
                    let cs = old(self).nodes_seq()[old(self).current_spec() as int].children@;
                    exists|q: int|
                        {
                            &&& 0 <= q < cs.len()
                            &&& final(self).current_spec() == cs[q]
                            &&& ((#[trigger] old(self).nodes_seq()[cs[q] as int].snapshot.action)
                                matches Some(a) && a@ == action@)
                            &&& forall|q2: int|
                                0 <= q2 < q ==> !((#[trigger] old(
                                    self,
                                ).nodes_seq()[cs[q2] as int].snapshot.action) matches Some(a2)
                                    && a2@ == action@)
                        }
                },
                Err(e) => {
                    &&& e is Redo
                    &&& *final(self) == *old(self)
                    &&& forall|q: int|
                        0 <= q < old(self).nodes_seq()[old(
                            self,
                        ).current_spec() as int].children@.len() ==> !((#[trigger] old(
                            self,
                        ).nodes_seq()[old(self).nodes_seq()[old(
                            self,
                        ).current_spec() as int].children@[q] as int].snapshot.action) matches Some(
                            a,
                        ) && a@ == action@)
                },
            },
    {
        let cur = self.current;
        let m: usize = self.nodes[cur].children.len();
        let mut q: usize = 0;
        while q < m
            invariant
                old(self).wf(),
                *self == *old(self),
                cur == old(self).current_spec(),
                m == self.nodes_seq()[cur as int].children@.len(),
                0 <= q <= m,
                forall|q2: int|
                    0 <= q2 < q ==> !((#[trigger] self.nodes_seq()[self.nodes_seq()[cur as int].children@[q2] as int].snapshot.action)
                        matches Some(a2) && a2@ == action@),
            decreases m - q,
        {
            let c = self.nodes[cur].children[q];
            let matched = match &self.nodes[c].snapshot.action {
                Some(a) => crate::proofstate::eq_action(a, action),
                None => false,
            };
            if matched {
                self.current = c;
                return Ok(());
            }
            q = q + 1;
        }
        Err(HistoryError::Redo)
    }

    /// The recorded actions from the root down to the current node, oldest
    /// first.
    pub fn get_actions(&self) -> (r: Vec<ProofAction>)
        requires
            self.wf(),
        ensures
            Seq::new(r@.len(), |i: int| r@[i]@) == self.path_actions(self.current_spec() as int),
    {
        let mut acc: Vec<ProofAction> = Vec::new();
        let mut cur = self.current;
        while cur != 0
            invariant
                self.wf(),
                cur < self.nodes_seq().len(),
                self.path_actions(cur as int) + Seq::new(acc@.len(), |i: int| acc@[acc@.len() - 1 - i]@)
                    == self.path_actions(self.current_spec() as int),
            decreases cur,
        {
            let ghost pre = acc@;
            match &self.nodes[cur].snapshot.action {
                Some(a) => {
                    acc.push(crate::proofstate::clone_action(a));
                },
                None => {},
            }
            let p = match self.nodes[cur].parent {
                Some(p) => p,
                None => 0,
            };
            proof {
                assert(self.nodes_seq()[cur as int].parent is Some);
                let rev = Seq::new(acc@.len(), |i: int| acc@[acc@.len() - 1 - i]@);
                let prev = Seq::new(pre.len(), |i: int| pre[pre.len() - 1 - i]@);
                assert(rev =~= seq![self.nodes_seq()[cur as int].snapshot.action->0@] + prev);
                assert(self.path_actions(p as int) + rev =~= self.path_actions(
                    self.current_spec() as int,
                ));
            }
            cur = p;
        }
        let n: usize = acc.len();
        let mut out: Vec<ProofAction> = Vec::new();
        let mut i: usize = 0;
        while i < n
            invariant
                n == acc@.len(),
                0 <= i <= n,
                out@.len() == i,
                forall|j: int| 0 <= j < i ==> (#[trigger] out@[j])@ == acc@[n - 1 - j]@,
            decreases n - i,
        {
            out.push(crate::proofstate::clone_action(&acc[n - 1 - i]));
            i = i + 1;
        }
        proof {
            assert(Seq::new(out@.len(), |i: int| out@[i]@) =~= Seq::new(
                acc@.len(),
                |i: int| acc@[acc@.len() - 1 - i]@,
            ));
            assert(self.path_actions(0) == Seq::<ProofActionV>::empty());
            assert(Seq::new(out@.len(), |i: int| out@[i]@) =~= self.path_actions(
                self.current_spec() as int,
            ));
        }
        out
    }

    /// The recorded actions from the most recent import action (inclusive)
    /// down to the current node, oldest first, for replay after a load.
    pub fn get_last_import_segment(&self) -> (r: Vec<ProofAction>)
        requires
            self.wf(),
        ensures
            Seq::new(r@.len(), |i: int| r@[i]@) == self.import_segment(self.current_spec() as int),
    {
        let mut acc: Vec<ProofAction> = Vec::new();
        let mut cur = self.current;
        let mut stop = false;
        while cur != 0 && !stop
            invariant
                self.wf(),
                cur < self.nodes_seq().len(),
                !stop ==> self.import_segment(cur as int) + Seq::new(
                    acc@.len(),
                    |i: int| acc@[acc@.len() - 1 - i]@,
                ) == self.import_segment(self.current_spec() as int),
                stop ==> Seq::new(acc@.len(), |i: int| acc@[acc@.len() - 1 - i]@)
                    == self.import_segment(self.current_spec() as int),
            decreases cur, (if stop { 0int } else { 1int }),
        {
            let ghost pre = acc@;
            let mut was_import = false;
            match &self.nodes[cur].snapshot.action {
                Some(a) => {
                    acc.push(crate::proofstate::clone_action(a));
                    was_import = matches!(a, ProofAction::ImportProof);
                },
                None => {},
            }
            let p = match self.nodes[cur].parent {
                Some(p) => p,
                None => 0,
            };
            proof {
                assert(self.nodes_seq()[cur as int].parent is Some);
                let rev = Seq::new(acc@.len(), |i: int| acc@[acc@.len() - 1 - i]@);
                let prev = Seq::new(pre.len(), |i: int| pre[pre.len() - 1 - i]@);
                assert(rev =~= seq![self.nodes_seq()[cur as int].snapshot.action->0@] + prev);
                if was_import {
                    assert(rev =~= self.import_segment(self.current_spec() as int));
                } else {
                    assert(self.import_segment(p as int) + rev =~= self.import_segment(
                        self.current_spec() as int,
                    ));
                }
            }
            if was_import {
                stop = true;
            } else {
                cur = p;
            }
        }
        let n: usize = acc.len();
        let mut out: Vec<ProofAction> = Vec::new();
        let mut i: usize = 0;
        while i < n
            invariant
                n == acc@.len(),
                0 <= i <= n,
                out@.len() == i,
                forall|j: int| 0 <= j < i ==> (#[trigger] out@[j])@ == acc@[n - 1 - j]@,
            decreases n - i,
        {
            out.push(crate::proofstate::clone_action(&acc[n - 1 - i]));
            i = i + 1;
        }
        proof {
            assert(Seq::new(out@.len(), |i: int| out@[i]@) =~= Seq::new(
                acc@.len(),
                |i: int| acc@[acc@.len() - 1 - i]@,
            ));
            assert(self.import_segment(0) == Seq::<ProofActionV>::empty());
            assert(Seq::new(out@.len(), |i: int| out@[i]@) =~= self.import_segment(
                self.current_spec() as int,
            ));
        }
        out
    }

    /// The action that produced the current node, absent at the root.
    pub fn last_action(&self) -> (r: Option<ProofAction>)
        requires
            self.wf(),
        ensures
            match r {
                Some(a) => (self.current_snapshot().action matches Some(b) && a@ == b@),
                None => self.current_snapshot().action is None,
            },
    {
        match &self.nodes[self.current].snapshot.action {
            Some(a) => Some(crate::proofstate::clone_action(a)),
            None => None,
        }
    }
}

impl UndoState for History {
    /// Whether the cursor can move to a parent.
    fn can_undo(&self) -> bool {
        self.current != 0
    }

    /// Whether the cursor can move to a child.
    fn can_redo(&self) -> bool {
        self.nodes.len() > self.current && self.nodes[self.current].children.len() > 0
    }
}

impl Default for History {
    /// A history holding only an empty root snapshot.
    fn default() -> (r: History)
        ensures
            r.wf(),
            r.nodes_seq().len() == 1,
            r.current_spec() == 0,
    {
        let root = HNode {
            snapshot: Snapshot {
                state: ProofState {
                    signature: crate::proofstate::Signature { items: Vec::new() },
                    workspace: None,
                    metadata: crate::proofstate::Metadata { title: None, author: None, abstr: None },
                },
                action: None,
            },
            parent: None,
            children: Vec::new(),
        };
        let mut nodes: Vec<HNode> = Vec::new();
        nodes.push(root);
        History { nodes, current: 0 }
    }
}

/// Undoing right after an add returns the cursor to the node it sat on
/// before the add: one application of the history round trip.
pub proof fn lemma_add_then_undo(h0: History, h1: History, h2: History)
    requires
        h0.wf(),
        // h1 is the state add left behind
        h1.nodes_seq().len() == h0.nodes_seq().len() + 1,
        h1.current_spec() == h0.nodes_seq().len(),
        h1.nodes_seq().last().parent == Some(h0.current_spec()),
        // h2 is the state a successful undo left behind
        h2.nodes_seq() == h1.nodes_seq(),
        Some(h2.current_spec()) == h1.nodes_seq()[h1.current_spec() as int].parent,
    ensures
        h2.current_spec() == h0.current_spec(),
{
}

} // verus!
