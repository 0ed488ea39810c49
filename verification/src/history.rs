//! What history loading decides on its own: the kind of a reference, whether a message carries an
//! agent marker, and the table that interns author identities.
use vstd::prelude::*;
use vstd::string::StringSliceAdditionalSpecFns;

use crate::author::{Author, AuthorView};
use crate::bytes::{contains_bytes, contains_subslice, copy_bytes, eq_at, has_prefix, starts_with};

verus! {

/// The kind of a reference that decorates a commit.
#[derive(Clone, Copy, Debug, PartialEq, Eq, Structural)]
pub enum DecorationKind {
    Head,
    Local,
    Remote,
    Tag,
    AnnotatedTag,
    Special,
}

/// The kind of a reference, by the namespace of its full name.
pub open spec fn reference_kind(name: Seq<u8>) -> DecorationKind {
    if has_prefix(name, "refs/heads/".spec_bytes()) {
        DecorationKind::Local
    } else if has_prefix(name, "refs/tags/".spec_bytes()) {
        DecorationKind::Tag
    } else if has_prefix(name, "refs/remotes/".spec_bytes()) {
        DecorationKind::Remote
    } else {
        DecorationKind::Special
    }
}

/// The kind of the reference with the full name `name`: a local branch, a tag, a remote-tracking
/// branch, or anything else.
pub fn decoration_kind(name: &[u8]) -> (r: DecorationKind)
    ensures
        r == reference_kind(name@),
{
    if starts_with(name, "refs/heads/".as_bytes()) {
        DecorationKind::Local
    } else if starts_with(name, "refs/tags/".as_bytes()) {
        DecorationKind::Tag
    } else if starts_with(name, "refs/remotes/".as_bytes()) {
        DecorationKind::Remote
    } else {
        DecorationKind::Special
    }
}

/// The message carries one of the markers with which agents sign their messages.
pub open spec fn has_agent_marker(message: Seq<u8>) -> bool {
    contains_bytes(message, "--- agent".spec_bytes()) || contains_bytes(message, "<!-- agent -->".spec_bytes())
}

/// Whether a commit message carries an agent marker anywhere.
pub fn contains_agent_marker(message: &[u8]) -> (r: bool)
    ensures
        r == has_agent_marker(message@),
{
    let rule = "--- agent".as_bytes();
    let comment = "<!-- agent -->".as_bytes();
    proof {
        reveal_strlit("--- agent");
        reveal_strlit("<!-- agent -->");
        vstd::string::is_ascii_spec_bytes("--- agent");
        vstd::string::is_ascii_spec_bytes("<!-- agent -->");
    }
    contains_subslice(message, rule) || contains_subslice(message, comment)
}

/// The table with `value` added, unless it holds it already.
pub open spec fn interned<T>(table: Seq<T>, value: T) -> Seq<T> {
    if table.contains(value) {
        table
    } else {
        table.push(value)
    }
}

/// The views of a list of identities.
pub open spec fn author_views(authors: Seq<Author>) -> Seq<AuthorView> {
    authors.map_values(|a: Author| a@)
}

/// The views of a list of byte strings.
pub open spec fn byte_views(strings: Seq<Vec<u8>>) -> Seq<Seq<u8>> {
    strings.map_values(|s: Vec<u8>| s@)
}

/// A table of author identities in which each identity, and each name and email, is held once.
pub struct Authors {
    pub strings: Vec<Vec<u8>>,
    pub authors: Vec<Author>,
}

impl Authors {
    /// Nothing is held twice.
    pub open spec fn wf(&self) -> bool {
        &&& byte_views(self.strings@).no_duplicates()
        &&& author_views(self.authors@).no_duplicates()
    }

    /// An empty table.
    pub fn new() -> (t: Authors)
        ensures
            t.wf(),
            t.strings@.len() == 0,
            t.authors@.len() == 0,
    {
        Authors { strings: Vec::new(), authors: Vec::new() }
    }

    /// The position of the string `value`, which is added where the table lacks it.
    pub fn intern_string(&mut self, value: &[u8]) -> (r: usize)
        requires
            old(self).wf(),
        ensures
            final(self).wf(),
            final(self).authors == old(self).authors,
            byte_views(final(self).strings@) == interned(byte_views(old(self).strings@), value@),
            r < final(self).strings@.len(),
            final(self).strings@[r as int]@ == value@,
    {
        let ghost before = byte_views(self.strings@);
        let mut i: usize = 0;
        while i < self.strings.len()
            invariant
                *self == *old(self),
                self.wf(),
                before == byte_views(self.strings@),
                i <= self.strings@.len(),
                forall|j: int| 0 <= j < i ==> self.strings@[j]@ != value@,
            decreases self.strings@.len() - i,
        {
            if same_bytes(self.strings[i].as_slice(), value) {
                assert(before[i as int] == value@);
                return i;
            }
            i += 1;
        }
        proof {
            assert forall|j: int| 0 <= j < before.len() implies before[j] != value@ by {
                assert(before[j] == self.strings@[j]@);
            }
        }
        self.strings.push(copy_bytes(value));
        proof {
            assert(byte_views(self.strings@) =~= before.push(value@));
            assert(!before.contains(value@));
            assert forall|a: int, b: int| 0 <= a < b < before.len() + 1 implies before.push(value@)[a] != before.push(
                value@,
            )[b] by {
                if b == before.len() {
                    assert(before.push(value@)[a] == before[a]);
                }
            }
        }
        i
    }

    /// The position of the identity `name <email>`, which is added where the table lacks it; its name
    /// and email are interned as well.
    pub fn intern_author(&mut self, name: &[u8], email: &[u8]) -> (r: usize)
        requires
            old(self).wf(),
        ensures
            final(self).wf(),
            byte_views(final(self).strings@) == interned(
                interned(byte_views(old(self).strings@), name@),
                email@,
            ),
            author_views(final(self).authors@) == interned(
                author_views(old(self).authors@),
                AuthorView { name: name@, email: email@ },
            ),
            r < final(self).authors@.len(),
            final(self).authors@[r as int]@ == (AuthorView { name: name@, email: email@ }),
    {
        self.intern_string(name);
        self.intern_string(email);
        let ghost wanted = AuthorView { name: name@, email: email@ };
        let ghost before = author_views(self.authors@);
        let ghost mid = *self;
        let mut i: usize = 0;
        while i < self.authors.len()
            invariant
                *self == mid,
                mid.wf(),
                byte_views(mid.strings@) == interned(interned(byte_views(old(self).strings@), name@), email@),
                before == author_views(old(self).authors@),
                before == author_views(self.authors@),
                wanted == (AuthorView { name: name@, email: email@ }),
                i <= self.authors@.len(),
                forall|j: int| 0 <= j < i ==> self.authors@[j]@ != wanted,
            decreases self.authors@.len() - i,
        {
            let n = same_bytes(self.authors[i].name.as_slice(), name);
            let e = same_bytes(self.authors[i].email.as_slice(), email);
            if n && e {
                assert(before[i as int] == wanted);
                return i;
            }
            i += 1;
        }
        proof {
            assert forall|j: int| 0 <= j < before.len() implies before[j] != wanted by {
                assert(before[j] == self.authors@[j]@);
            }
        }
        self.authors.push(Author::new(copy_bytes(name), copy_bytes(email)));
        proof {
            assert(author_views(self.authors@) =~= before.push(wanted));
            assert(!before.contains(wanted));
            assert forall|a: int, b: int| 0 <= a < b < before.len() + 1 implies before.push(wanted)[a] != before.push(
                wanted,
            )[b] by {
                if b == before.len() {
                    assert(before.push(wanted)[a] == before[a]);
                }
            }
        }
        i
    }
}

/// Interning a value a second time leaves the table as the first time left it, and both times the
/// value is found at the same position.
pub proof fn lemma_interning_is_idempotent<T>(table: Seq<T>, value: T, first: int, second: int)
    requires
        table.no_duplicates(),
        0 <= first < interned(table, value).len(),
        interned(table, value)[first] == value,
        0 <= second < interned(interned(table, value), value).len(),
        interned(interned(table, value), value)[second] == value,
    ensures
        interned(interned(table, value), value) == interned(table, value),
        first == second,
        interned(table, value).no_duplicates(),
{
    let once = interned(table, value);
    assert(once.contains(value));
    if !table.contains(value) {
        assert forall|a: int, b: int| 0 <= a < b < once.len() implies once[a] != once[b] by {
            if b == table.len() {
                assert(once[a] == table[a]);
            } else {
                assert(once[a] == table[a] && once[b] == table[b]);
            }
        }
    }
}

/// Whether two byte strings are equal.
pub fn same_bytes(a: &[u8], b: &[u8]) -> (r: bool)
    ensures
        r == (a@ == b@),
{
    if a.len() != b.len() {
        return false;
    }
    let r = eq_at(a, 0, b);
    assert(a@.subrange(0, b@.len() as int) =~= a@);
    r
}

} // verus!
