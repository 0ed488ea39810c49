//! Commit authors, trailer attributions and their classification.
use vstd::prelude::*;
use vstd::string::StringSliceAdditionalSpecFns;

use crate::bytes::{copy_bytes, eq_at, eq_ignore_ascii_case, eq_ignore_ascii_case_at, eq_ignore_case};

verus! {

/// A raw Git identity: a name and an email, both kept as bytes.
#[derive(Debug, PartialEq, Eq)]
pub struct Author {
    pub name: Vec<u8>,
    pub email: Vec<u8>,
}

/// The mathematical value of an [`Author`].
pub struct AuthorView {
    pub name: Seq<u8>,
    pub email: Seq<u8>,
}

impl View for Author {
    type V = AuthorView;

    open spec fn view(&self) -> AuthorView {
        AuthorView { name: self.name@, email: self.email@ }
    }
}

/// The addresses used by assistant bots as their commit email.
pub open spec fn is_bot_email(email: Seq<u8>) -> bool {
    eq_ignore_case(email, "codex@openai.com".spec_bytes()) || eq_ignore_case(
        email,
        "noreply@anthropic.com".spec_bytes(),
    )
}

/// The suffix of GitHub's private commit addresses.
pub open spec fn noreply_suffix() -> Seq<u8> {
    "@users.noreply.github.com".spec_bytes()
}

/// The email ends in the GitHub noreply domain, compared without regard to ASCII case.
pub open spec fn is_github_noreply_email(email: Seq<u8>) -> bool {
    noreply_suffix().len() <= email.len() && eq_ignore_case(
        email.subrange(email.len() - noreply_suffix().len(), email.len() as int),
        noreply_suffix(),
    )
}

impl Author {
    pub fn new(name: Vec<u8>, email: Vec<u8>) -> (a: Author)
        ensures
            a.name@ == name@,
            a.email@ == email@,
    {
        Author { name, email }
    }

    /// A copy of this identity.
    pub fn duplicate(&self) -> (a: Author)
        ensures
            a@ == self@,
    {
        Author { name: copy_bytes(self.name.as_slice()), email: copy_bytes(self.email.as_slice()) }
    }

    /// Whether two identities hold the same bytes.
    pub fn same(&self, other: &Author) -> (r: bool)
        ensures
            r == (self@ == other@),
    {
        let n = self.name.len() == other.name.len() && eq_at(self.name.as_slice(), 0, other.name.as_slice());
        let e = self.email.len() == other.email.len() && eq_at(self.email.as_slice(), 0, other.email.as_slice());
        proof {
            if self.name@.len() == other.name@.len() {
                assert(self.name@.subrange(0, other.name@.len() as int) =~= self.name@);
            }
            if self.email@.len() == other.email@.len() {
                assert(self.email@.subrange(0, other.email@.len() as int) =~= self.email@);
            }
        }
        n && e
    }

    /// Whether the email is one of the well-known assistant bot addresses.
    pub fn is_bot(&self) -> (r: bool)
        ensures
            r == is_bot_email(self.email@),
    {
        eq_ignore_ascii_case(self.email.as_slice(), "codex@openai.com".as_bytes())
            || eq_ignore_ascii_case(self.email.as_slice(), "noreply@anthropic.com".as_bytes())
    }

    /// Whether the email is a private GitHub noreply address.
    pub fn is_github_noreply(&self) -> (r: bool)
        ensures
            r == is_github_noreply_email(self.email@),
    {
        let suffix = "@users.noreply.github.com".as_bytes();
        let email = self.email.as_slice();
        if suffix.len() > email.len() {
            return false;
        }
        let start = email.len() - suffix.len();
        eq_ignore_ascii_case_at(email, start, suffix)
    }
}

/// The trailer through which a person or agent is credited.
#[derive(Clone, Copy, Debug, PartialEq, Eq, Structural)]
pub enum AttributionKind {
    CoAuthor,
    Assisted,
    Reviewed,
    Acked,
    Tested,
    SignedOff,
}

/// A credited identity taken from a commit trailer.
#[derive(Debug, PartialEq, Eq)]
pub struct Attribution {
    pub kind: AttributionKind,
    pub author: Author,
}

/// The mathematical value of an [`Attribution`].
pub struct AttributionView {
    pub kind: AttributionKind,
    pub author: AuthorView,
}

impl View for Attribution {
    type V = AttributionView;

    open spec fn view(&self) -> AttributionView {
        AttributionView { kind: self.kind, author: self.author@ }
    }
}

/// An attribution credits an agent if its identity is a bot or its trailer says the work was assisted.
pub open spec fn is_agent_attribution(a: AttributionView) -> bool {
    is_bot_email(a.author.email) || a.kind == AttributionKind::Assisted
}

impl Attribution {
    pub fn duplicate(&self) -> (a: Attribution)
        ensures
            a@ == self@,
    {
        Attribution { kind: self.kind, author: self.author.duplicate() }
    }

    /// Whether this attribution credits an agent.
    pub fn is_agent(&self) -> (r: bool)
        ensures
            r == is_agent_attribution(self@),
    {
        self.author.is_bot() || self.kind == AttributionKind::Assisted
    }
}

} // verus!
