//! The guarded commit: the order in which a commit is checked and written, and
//! what each piece of outside work decides. The caller performs each requested
//! action against the repository and reports what it found.
use vstd::prelude::*;

use crate::commit::Author;
use crate::error::{Error, ErrorView};

verus! {

/// The index-level flags of one status entry of the repository.
#[derive(Clone, Copy, Debug)]
pub struct StatusEntry {
    pub index_new: bool,
    pub index_modified: bool,
    pub index_deleted: bool,
    pub index_renamed: bool,
    pub index_typechange: bool,
}

/// Whether an entry records a staged change.
pub open spec fn is_staged(e: StatusEntry) -> bool {
    e.index_new || e.index_modified || e.index_deleted || e.index_renamed || e.index_typechange
}

/// Whether some entry of `entries` records a staged change.
pub open spec fn any_staged(entries: Seq<StatusEntry>) -> bool {
    exists|i: int| 0 <= i < entries.len() && is_staged(#[trigger] entries[i])
}

/// Succeeds when some status entry records a staged change, and fails with
/// `NoStagedChanges` otherwise. Stops at the first staged entry.
pub fn check_staged_changes(entries: &Vec<StatusEntry>) -> (r: Result<(), Error>)
    ensures
        any_staged(entries@) ==> r is Ok,
        !any_staged(entries@) ==> (r matches Err(e) && e@ == ErrorView::NoStagedChanges),
{
    let mut i: usize = 0;
    while i < entries.len()
        invariant
            i <= entries@.len(),
            forall|j: int| 0 <= j < i ==> !is_staged(#[trigger] entries@[j]),
        decreases entries@.len() - i,
    {
        let e = entries[i];
        if e.index_new || e.index_modified || e.index_deleted || e.index_renamed
            || e.index_typechange {
            return Ok(());
        }
        i = i + 1;
    }
    Err(Error::NoStagedChanges)
}

/// Whether a set of status entries has a staged change does not depend on the
/// order in which the entries come.
pub proof fn lemma_staged_check_order_independent(a: Seq<StatusEntry>, b: Seq<StatusEntry>)
    requires
        a.to_multiset() =~= b.to_multiset(),
    ensures
        any_staged(a) == any_staged(b),
{
    a.to_multiset_ensures();
    b.to_multiset_ensures();
    if any_staged(a) {
        let i = choose|i: int| 0 <= i < a.len() && is_staged(#[trigger] a[i]);
        assert(a.contains(a[i]));
        assert(b.to_multiset().count(a[i]) > 0);
        assert(b.contains(a[i]));
    }
    if any_staged(b) {
        let i = choose|i: int| 0 <= i < b.len() && is_staged(#[trigger] b[i]);
        assert(b.contains(b[i]));
        assert(a.to_multiset().count(b[i]) > 0);
        assert(a.contains(b[i]));
    }
}

/// The outside work that a guarded commit waits for.
#[derive(Clone, Copy, Debug, PartialEq, Eq, Structural)]
pub enum CommitStage {
    ScanStatus,
    InspectHead,
    WriteTree,
    ResolveParent,
    ReadIdentity,
    CreateCommit,
    Done,
    Failed,
}

/// What the caller found when it performed the requested action.
#[derive(Debug)]
pub enum CommitEvent {
    /// The repository's status entries.
    Statuses(Vec<StatusEntry>),
    /// Whether the head refers to a branch.
    Head(bool),
    /// The index was written as a tree.
    TreeWritten,
    /// The branch tip was resolved to the parent commit.
    ParentResolved,
    /// The configured user name and email, where present.
    Identity(Option<String>, Option<String>),
    /// The commit was created and the branch advanced.
    Committed,
}

/// What the caller is to do next.
#[derive(Debug)]
pub enum CommitAction {
    /// Read the repository's status entries.
    ScanStatus,
    /// Look at the head: is it a branch?
    InspectHead,
    /// Write the index as a tree.
    WriteTree,
    /// Resolve the branch tip to its commit.
    ResolveParent,
    /// Read the configured user name and email.
    ReadIdentity,
    /// Create the commit with this identity as author and committer, on the
    /// tree and parent found, and advance the branch to it.
    CreateCommit(Author),
    /// The commit is made.
    Finish,
    /// Stop with this error; nothing further is written.
    Abort(Error),
}

/// Whether `event` answers what `stage` waits for.
pub open spec fn answers(stage: CommitStage, event: CommitEvent) -> bool {
    match event {
        CommitEvent::Statuses(_) => stage == CommitStage::ScanStatus,
        CommitEvent::Head(_) => stage == CommitStage::InspectHead,
        CommitEvent::TreeWritten => stage == CommitStage::WriteTree,
        CommitEvent::ParentResolved => stage == CommitStage::ResolveParent,
        CommitEvent::Identity(_, _) => stage == CommitStage::ReadIdentity,
        CommitEvent::Committed => stage == CommitStage::CreateCommit,
    }
}

/// The steps of a guarded commit: from `pre`, on `event`, the session moves to
/// `post` and asks for `action`.
pub open spec fn transition(
    pre: CommitStage,
    event: CommitEvent,
    post: CommitStage,
    action: CommitAction,
) -> bool {
    match event {
        CommitEvent::Statuses(entries) => pre == CommitStage::ScanStatus && if any_staged(
            entries@,
        ) {
            post == CommitStage::InspectHead && action is InspectHead
        } else {
            post == CommitStage::Failed && (action matches CommitAction::Abort(e) && e@
                == ErrorView::NoStagedChanges)
        },
        CommitEvent::Head(is_branch) => pre == CommitStage::InspectHead && if is_branch {
            post == CommitStage::WriteTree && action is WriteTree
        } else {
            post == CommitStage::Failed && (action matches CommitAction::Abort(e) && e@
                == ErrorView::HeadIsNotABranch)
        },
        CommitEvent::TreeWritten => pre == CommitStage::WriteTree && post
            == CommitStage::ResolveParent && action is ResolveParent,
        CommitEvent::ParentResolved => pre == CommitStage::ResolveParent && post
            == CommitStage::ReadIdentity && action is ReadIdentity,
        CommitEvent::Identity(name, email) => pre == CommitStage::ReadIdentity && match (
            name,
            email,
        ) {
            (Some(n), Some(e)) if n@.len() > 0 && e@.len() > 0 => post == CommitStage::CreateCommit
                && (action matches CommitAction::CreateCommit(a) && a@ == (n@, e@)),
            (Some(n), _) if n@.len() > 0 => post == CommitStage::Failed && (action matches CommitAction::Abort(
                err,
            ) && err@ == ErrorView::MissingUserEmail),
            _ => post == CommitStage::Failed && (action matches CommitAction::Abort(err) && err@
                == ErrorView::MissingUserName),
        },
        CommitEvent::Committed => pre == CommitStage::CreateCommit && post == CommitStage::Done
            && action is Finish,
    }
}

/// A guarded commit in progress.
pub struct GuardedCommit {
    stage: CommitStage,
}

impl GuardedCommit {
    /// The outside work that the session waits for.
    pub closed spec fn stage_spec(&self) -> CommitStage {
        self.stage
    }

    /// Starts a guarded commit. The first action is always the status scan.
    pub fn start() -> (r: (GuardedCommit, CommitAction))
        ensures
            r.0.stage_spec() == CommitStage::ScanStatus,
            r.1 is ScanStatus,
    {
        (GuardedCommit { stage: CommitStage::ScanStatus }, CommitAction::ScanStatus)
    }

    /// The outside work that the session waits for.
    pub fn stage(&self) -> (r: CommitStage)
        ensures
            r == self.stage_spec(),
    {
        self.stage
    }

    /// Whether `event` answers what the session waits for.
    pub fn awaits(&self, event: &CommitEvent) -> (r: bool)
        ensures
            r == answers(self.stage_spec(), *event),
    {
        match event {
            CommitEvent::Statuses(_) => self.stage == CommitStage::ScanStatus,
            CommitEvent::Head(_) => self.stage == CommitStage::InspectHead,
            CommitEvent::TreeWritten => self.stage == CommitStage::WriteTree,
            CommitEvent::ParentResolved => self.stage == CommitStage::ResolveParent,
            CommitEvent::Identity(_, _) => self.stage == CommitStage::ReadIdentity,
            CommitEvent::Committed => self.stage == CommitStage::CreateCommit,
        }
    }

    /// Takes the outcome of the requested action and decides the next one.
    pub fn step(&mut self, event: CommitEvent) -> (action: CommitAction)
        requires
            answers(old(self).stage_spec(), event),
        ensures
            transition(old(self).stage_spec(), event, final(self).stage_spec(), action),
    {
        match event {
            CommitEvent::Statuses(entries) => match check_staged_changes(&entries) {
                Ok(()) => {
                    self.stage = CommitStage::InspectHead;
                    CommitAction::InspectHead
                },
                Err(e) => {
                    self.stage = CommitStage::Failed;
                    CommitAction::Abort(e)
                },
            },
            CommitEvent::Head(is_branch) => {
                if is_branch {
                    self.stage = CommitStage::WriteTree;
                    CommitAction::WriteTree
                } else {
                    self.stage = CommitStage::Failed;
                    CommitAction::Abort(Error::HeadIsNotABranch)
                }
            },
            CommitEvent::TreeWritten => {
                self.stage = CommitStage::ResolveParent;
                CommitAction::ResolveParent
            },
            CommitEvent::ParentResolved => {
                self.stage = CommitStage::ReadIdentity;
                CommitAction::ReadIdentity
            },
            CommitEvent::Identity(name, email) => match Author::new(name, email) {
                Ok(author) => {
                    self.stage = CommitStage::CreateCommit;
                    CommitAction::CreateCommit(author)
                },
                Err(e) => {
                    self.stage = CommitStage::Failed;
                    CommitAction::Abort(e)
                },
            },
            CommitEvent::Committed => {
                self.stage = CommitStage::Done;
                CommitAction::Finish
            },
        }
    }
}

/// The status scan decides the commit: with no staged entry the session stops
/// with `NoStagedChanges`, and with one it goes on to the head, whatever the
/// order of the entries.
pub proof fn lemma_scan_decides(entries: Vec<StatusEntry>, post: CommitStage, action: CommitAction)
    requires
        transition(CommitStage::ScanStatus, CommitEvent::Statuses(entries), post, action),
    ensures
        !any_staged(entries@) <==> (action matches CommitAction::Abort(e) && e@
            == ErrorView::NoStagedChanges),
        any_staged(entries@) <==> action is InspectHead,
{
}

/// A tree is written only right after the head was found to be a branch, so a
/// detached head stops the commit before anything is written.
pub proof fn lemma_tree_written_only_on_branch(
    pre: CommitStage,
    event: CommitEvent,
    post: CommitStage,
    action: CommitAction,
)
    requires
        transition(pre, event, post, action),
        action is WriteTree,
    ensures
        pre == CommitStage::InspectHead,
        event == CommitEvent::Head(true),
{
}

/// A detached head stops the session with `HeadIsNotABranch`.
pub proof fn lemma_detached_head_aborts(post: CommitStage, action: CommitAction)
    requires
        transition(CommitStage::InspectHead, CommitEvent::Head(false), post, action),
    ensures
        post == CommitStage::Failed,
        action matches CommitAction::Abort(e) && e@ == ErrorView::HeadIsNotABranch,
{
}

} // verus!
