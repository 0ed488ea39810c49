//! Commits as the history view holds them.
use vstd::prelude::*;

use crate::author::{Author, AuthorView};
use crate::ids::ObjectId;

verus! {

/// A point in time: seconds since the Unix epoch and the offset of its time zone in seconds.
#[derive(Clone, Copy, Debug, PartialEq, Eq, Structural)]
pub struct Time {
    pub seconds: i64,
    pub offset: i32,
}

impl Time {
    pub fn zero() -> (t: Time)
        ensures
            t.seconds == 0,
            t.offset == 0,
    {
        Time { seconds: 0, offset: 0 }
    }
}

/// Whether a commit carries a signature, and what is known of it.
#[derive(Clone, Copy, Debug, PartialEq, Eq, Structural)]
pub enum SignatureState {
    Unsigned,
    Unverified,
    Verifying,
    Verified,
    Failed,
}

/// A half-open range `start..end` into one of the application's shared buffers.
#[derive(Clone, Copy, Debug, PartialEq, Eq, Structural)]
pub struct Span {
    pub start: usize,
    pub end: usize,
}

impl Span {
    pub fn new(start: usize, end: usize) -> (s: Span)
        ensures
            s.start == start,
            s.end == end,
    {
        Span { start, end }
    }

    pub fn is_empty(&self) -> (r: bool)
        ensures
            r == (self.end <= self.start),
    {
        self.end <= self.start
    }
}

/// A commit as history loading delivers it, with its title held by value.
#[derive(Debug)]
pub struct LoadedCommit {
    pub id: ObjectId,
    pub parent_ids: Vec<ObjectId>,
    pub committer_time: Time,
    pub author: Author,
    pub attributions: Span,
    pub title: Vec<u8>,
    pub metadata_loaded: bool,
    pub has_agent_marker: bool,
    pub signature: SignatureState,
}

/// A commit row of the history view; its title and attributions are spans of shared buffers.
#[derive(Debug)]
pub struct CommitRow {
    pub id: ObjectId,
    pub parent_ids: Vec<ObjectId>,
    pub committer_time: Time,
    pub author: Author,
    pub attributions: Span,
    pub title: Span,
    pub metadata_loaded: bool,
    pub has_agent_marker: bool,
    pub signature: SignatureState,
}

/// The mathematical value of a [`CommitRow`].
pub struct RowView {
    pub id: ObjectId,
    pub parents: Seq<ObjectId>,
    pub committer_time: Time,
    pub author: AuthorView,
    pub attributions: Span,
    pub title: Span,
    pub metadata_loaded: bool,
    pub has_agent_marker: bool,
    pub signature: SignatureState,
}

impl View for CommitRow {
    type V = RowView;

    open spec fn view(&self) -> RowView {
        RowView {
            id: self.id,
            parents: self.parent_ids@,
            committer_time: self.committer_time,
            author: self.author@,
            attributions: self.attributions,
            title: self.title,
            metadata_loaded: self.metadata_loaded,
            has_agent_marker: self.has_agent_marker,
            signature: self.signature,
        }
    }
}

/// The values of a sequence of rows.
pub open spec fn row_views(rows: Seq<CommitRow>) -> Seq<RowView> {
    rows.map_values(|r: CommitRow| r@)
}

/// The identities of a sequence of rows.
pub open spec fn row_ids(rows: Seq<CommitRow>) -> Seq<ObjectId> {
    rows.map_values(|r: CommitRow| r.id)
}

/// A copy of a list of identities.
pub fn copy_ids(ids: &Vec<ObjectId>) -> (r: Vec<ObjectId>)
    ensures
        r@ == ids@,
{
    let mut out: Vec<ObjectId> = Vec::new();
    let mut i: usize = 0;
    while i < ids.len()
        invariant
            i <= ids@.len(),
            out@ == ids@.subrange(0, i as int),
        decreases ids@.len() - i,
    {
        out.push(ids[i]);
        i += 1;
        assert(out@ =~= ids@.subrange(0, i as int));
    }
    assert(ids@.subrange(0, ids@.len() as int) =~= ids@);
    out
}

impl CommitRow {
    /// A copy of this row.
    pub fn duplicate(&self) -> (r: CommitRow)
        ensures
            r@ == self@,
    {
        CommitRow {
            id: self.id,
            parent_ids: copy_ids(&self.parent_ids),
            committer_time: self.committer_time,
            author: self.author.duplicate(),
            attributions: self.attributions,
            title: self.title,
            metadata_loaded: self.metadata_loaded,
            has_agent_marker: self.has_agent_marker,
            signature: self.signature,
        }
    }
}

/// A copy of a list of rows.
pub fn copy_rows(rows: &Vec<CommitRow>) -> (r: Vec<CommitRow>)
    ensures
        row_views(r@) == row_views(rows@),
        r@.len() == rows@.len(),
{
    let mut out: Vec<CommitRow> = Vec::new();
    let mut i: usize = 0;
    while i < rows.len()
        invariant
            i <= rows@.len(),
            out@.len() == i,
            forall|k: int| 0 <= k < i ==> #[trigger] out@[k]@ == rows@[k]@,
        decreases rows@.len() - i,
    {
        out.push(rows[i].duplicate());
        i += 1;
    }
    assert(row_views(out@) =~= row_views(rows@));
    out
}

} // verus!
