//! The failures that the library reports.
use vstd::prelude::*;

verus! {

/// A failure of one of the library's operations.
#[derive(Debug)]
pub enum Error {
    /// The repository's head does not point to a branch.
    HeadIsNotABranch,
    /// The prefix matched in a branch name has no team registered for it.
    UnknownPrefix(String),
    /// The branch name does not follow the ticket pattern.
    InvalidBranchName(String),
    /// Nothing is staged for a commit.
    NoStagedChanges,
    /// The issue number in a branch name does not fit 32 bits.
    InvalidIssueNumber(String),
    /// The repository's configuration gives no user name.
    MissingUserName,
    /// The repository's configuration gives no user email.
    MissingUserEmail,
    /// A commit message needs a team name.
    EmptyTeamName,
    /// A commit message needs a body.
    EmptyMessage,
}

/// An `Error` with its strings seen as character sequences.
pub enum ErrorView {
    HeadIsNotABranch,
    UnknownPrefix(Seq<char>),
    InvalidBranchName(Seq<char>),
    NoStagedChanges,
    InvalidIssueNumber(Seq<char>),
    MissingUserName,
    MissingUserEmail,
    EmptyTeamName,
    EmptyMessage,
}

impl View for Error {
    type V = ErrorView;

    open spec fn view(&self) -> ErrorView {
        match self {
            Error::HeadIsNotABranch => ErrorView::HeadIsNotABranch,
            Error::UnknownPrefix(p) => ErrorView::UnknownPrefix(p@),
            Error::InvalidBranchName(b) => ErrorView::InvalidBranchName(b@),
            Error::NoStagedChanges => ErrorView::NoStagedChanges,
            Error::InvalidIssueNumber(d) => ErrorView::InvalidIssueNumber(d@),
            Error::MissingUserName => ErrorView::MissingUserName,
            Error::MissingUserEmail => ErrorView::MissingUserEmail,
            Error::EmptyTeamName => ErrorView::EmptyTeamName,
            Error::EmptyMessage => ErrorView::EmptyMessage,
        }
    }
}

} // verus!
