//! The metadata drawn beside a commit in the history: its short identity, references, date,
//! author, credited trailers, markers and title.
use vstd::prelude::*;
use vstd::string::StringSliceAdditionalSpecFns;

use crate::app::{CopyKind, RefMode};
use crate::author::{Attribution, AttributionKind, AttributionView, Author, AuthorView, is_agent_attribution, is_bot_email, is_github_noreply_email};
use crate::bytes::{copy_bytes, push_all};
use crate::commit::CommitRow;
use crate::history::DecorationKind;
use crate::ids::ObjectId;
use crate::look::{Look, Piece, PieceView, Tint, decoration_look, decoration_style, piece_views, plain, plain_look, raw, tinted};
use crate::paint::{Decoration, decoration_entry, decoration_entry_at, decoration_view};
use crate::summary::{joined_by, lemma_joined_len, lemma_joined_push, push_piece, short_hex, short_hex_of};

verus! {

/// The label of an identity: its name, followed by its email in angle brackets where asked.
pub open spec fn author_text(a: AuthorView, show_email: bool) -> Seq<u8> {
    if show_email {
        a.name + " <".spec_bytes() + a.email + ">".spec_bytes()
    } else {
        a.name
    }
}

/// The label of an identity: its name, followed by its email in angle brackets where asked.
pub fn author_label(author: &Author, show_email: bool) -> (r: Vec<u8>)
    ensures
        r@ == author_text(author@, show_email),
{
    let mut out = copy_bytes(author.name.as_slice());
    if show_email {
        push_all(&mut out, " <".as_bytes());
        push_all(&mut out, author.email.as_slice());
        push_all(&mut out, ">".as_bytes());
    }
    out
}

/// A credited name and its look.
pub type Actor = (Vec<u8>, Look);

/// The value of an [`Actor`].
pub open spec fn actor_view(a: Actor) -> (Seq<u8>, Look) {
    (a.0@, a.1)
}

/// How a credited identity is shown beside a commit by `author`, `shown` being the identity as it
/// is displayed: a star where it is the author, else the label of `shown`, in brackets for an
/// agent, whose email is never shown; in green, italic for a private GitHub address.
pub open spec fn credited(author: AuthorView, a: AttributionView, shown: AuthorView, show_emails: bool) -> (Seq<u8>, Look) {
    let text = if a.author == author {
        "*".spec_bytes()
    } else {
        let name = author_text(shown, show_emails && !is_agent_attribution(a));
        if is_agent_attribution(a) {
            "[".spec_bytes() + name + "]".spec_bytes()
        } else {
            name
        }
    };
    (text, if is_github_noreply_email(a.author.email) {
        Look { italic: true, ..tinted(Tint::Green) }
    } else {
        tinted(Tint::Green)
    })
}

/// The identities credited through trailers of `kind`, in order; `shown` holds the identity
/// displayed for each attribution.
pub open spec fn actors_of(
    author: AuthorView,
    atts: Seq<AttributionView>,
    shown: Seq<AuthorView>,
    kind: AttributionKind,
    show_emails: bool,
) -> Seq<(Seq<u8>, Look)>
    decreases atts.len(),
{
    if atts.len() == 0 {
        Seq::empty()
    } else {
        let rest = actors_of(author, atts.drop_last(), shown.take(atts.len() - 1), kind, show_emails);
        if atts.last().kind == kind {
            rest.push(credited(author, atts.last(), shown[atts.len() - 1], show_emails))
        } else {
            rest
        }
    }
}

/// The trailers that are credited beside a commit, in the order they are listed.
pub open spec fn trailer_kind(i: int) -> AttributionKind {
    if i == 0 {
        AttributionKind::CoAuthor
    } else if i == 1 {
        AttributionKind::Assisted
    } else if i == 2 {
        AttributionKind::Reviewed
    } else if i == 3 {
        AttributionKind::Acked
    } else if i == 4 {
        AttributionKind::Tested
    } else {
        AttributionKind::SignedOff
    }
}

/// The marker in front of the identities credited through one kind of trailer.
pub open spec fn trailer_marker(i: int) -> Seq<u8> {
    if i == 0 {
        "Co: ".spec_bytes()
    } else if i == 1 {
        "As: ".spec_bytes()
    } else if i == 2 {
        "Re: ".spec_bytes()
    } else if i == 3 {
        "Ack: ".spec_bytes()
    } else if i == 4 {
        "Te: ".spec_bytes()
    } else {
        "So: ".spec_bytes()
    }
}

/// The short marker of one kind of trailer where several kinds credit the same identities.
pub open spec fn grouped_marker(i: int) -> Seq<u8> {
    if i == 0 {
        "Co".spec_bytes()
    } else if i == 1 {
        "A".spec_bytes()
    } else if i == 2 {
        "Re".spec_bytes()
    } else if i == 3 {
        "Ack".spec_bytes()
    } else if i == 4 {
        "Te".spec_bytes()
    } else {
        "So".spec_bytes()
    }
}

/// Identities credited through one or more kinds of trailer: the marker of the first kind, the
/// short markers of all of them, and the identities.
pub struct GroupView {
    pub marker: Seq<u8>,
    pub markers: Seq<Seq<u8>>,
    pub actors: Seq<(Seq<u8>, Look)>,
}

/// The first of `groups`, from position `k` on, that credits exactly `actors`.
pub open spec fn group_with(groups: Seq<GroupView>, actors: Seq<(Seq<u8>, Look)>, k: int) -> Option<int>
    decreases groups.len() - k,
{
    if k < 0 || k >= groups.len() {
        None
    } else if groups[k].actors == actors {
        Some(k)
    } else {
        group_with(groups, actors, k + 1)
    }
}

/// The groups of credited identities for the first `n` kinds of trailer: a kind that credits
/// nobody is left out, one that credits the same identities as an earlier group joins it, and
/// any other starts a group of its own.
pub open spec fn groups_upto(
    author: AuthorView,
    atts: Seq<AttributionView>,
    shown: Seq<AuthorView>,
    show_emails: bool,
    n: int,
) -> Seq<GroupView>
    decreases n,
{
    if n <= 0 {
        Seq::empty()
    } else {
        let groups = groups_upto(author, atts, shown, show_emails, n - 1);
        let actors = actors_of(author, atts, shown, trailer_kind(n - 1), show_emails);
        if actors.len() == 0 {
            groups
        } else {
            match group_with(groups, actors, 0) {
                Some(g) => groups.update(
                    g,
                    GroupView { markers: groups[g].markers.push(grouped_marker(n - 1)), ..groups[g] },
                ),
                None => groups.push(
                    GroupView { marker: trailer_marker(n - 1), markers: seq![grouped_marker(n - 1)], actors },
                ),
            }
        }
    }
}

/// `parts` in order with `sep` between each two.
pub open spec fn joined_text(parts: Seq<Seq<u8>>, sep: Seq<u8>) -> Seq<u8>
    decreases parts.len(),
{
    if parts.len() == 0 {
        Seq::empty()
    } else if parts.len() == 1 {
        parts[0]
    } else {
        joined_text(parts.drop_last(), sep) + sep + parts.last()
    }
}

/// The pieces of one group: its marker, dimmed green (the full marker of a single kind, else the
/// short markers joined by commas), the identities joined by commas, and a space.
pub open spec fn group_pieces(g: GroupView) -> Seq<PieceView> {
    seq![
        PieceView {
            text: if g.markers.len() == 1 {
                g.marker
            } else {
                joined_text(g.markers, ", ".spec_bytes()) + ": ".spec_bytes()
            },
            look: Look { dim: true, ..tinted(Tint::Green) },
        },
    ] + joined_by(g.actors.map_values(|a: (Seq<u8>, Look)| PieceView { text: a.0, look: a.1 }), ", ".spec_bytes())
        + seq![raw(" ".spec_bytes())]
}

/// The pieces of all groups, in order.
pub open spec fn all_group_pieces(groups: Seq<GroupView>) -> Seq<PieceView>
    decreases groups.len(),
{
    if groups.len() == 0 {
        Seq::empty()
    } else {
        all_group_pieces(groups.drop_last()) + group_pieces(groups.last())
    }
}

/// Identities credited through one or more kinds of trailer.
pub struct Group {
    pub marker: Vec<u8>,
    pub markers: Vec<Vec<u8>>,
    pub actors: Vec<Actor>,
}

/// The value of a [`Group`].
pub open spec fn group_view(g: Group) -> GroupView {
    GroupView {
        marker: g.marker@,
        markers: g.markers@.map_values(|m: Vec<u8>| m@),
        actors: g.actors@.map_values(|a: Actor| actor_view(a)),
    }
}

/// The values of groups.
pub open spec fn group_views(gs: Seq<Group>) -> Seq<GroupView> {
    gs.map_values(|g: Group| group_view(g))
}

/// The views of identities.
pub open spec fn author_views(authors: Seq<Author>) -> Seq<AuthorView> {
    authors.map_values(|a: Author| a@)
}

/// The views of attributions.
pub open spec fn attribution_views(atts: Seq<Attribution>) -> Seq<AttributionView> {
    atts.map_values(|a: Attribution| a@)
}

/// How one attribution is shown beside a commit by `author`.
fn credited_actor(author: &Author, a: &Attribution, shown: &Author, show_emails: bool) -> (r: Actor)
    ensures
        actor_view(r) == credited(author@, a@, shown@, show_emails),
{
    let agent = a.is_agent();
    let text = if a.author.same(author) {
        copy_bytes("*".as_bytes())
    } else {
        let name = author_label(shown, show_emails && !agent);
        if agent {
            let mut t = copy_bytes("[".as_bytes());
            push_all(&mut t, name.as_slice());
            push_all(&mut t, "]".as_bytes());
            t
        } else {
            name
        }
    };
    let italic = a.author.is_github_noreply();
    (text, Look { fg: Some(Tint::Green), bold: false, dim: false, italic, reversed: false, undimmed: false })
}

/// The identities credited through trailers of `kind`, in order.
fn actors_for(author: &Author, atts: &Vec<Attribution>, shown: &Vec<Author>, kind: AttributionKind, show_emails: bool) -> (r: Vec<
    Actor,
>)
    requires
        shown@.len() == atts@.len(),
    ensures
        r@.map_values(|a: Actor| actor_view(a)) == actors_of(
            author@,
            attribution_views(atts@),
            author_views(shown@),
            kind,
            show_emails,
        ),
{
    let ghost all = attribution_views(atts@);
    let ghost names = author_views(shown@);
    let mut out: Vec<Actor> = Vec::new();
    let mut i: usize = 0;
    while i < atts.len()
        invariant
            i <= atts@.len(),
            shown@.len() == atts@.len(),
            all == attribution_views(atts@),
            names == author_views(shown@),
            out@.map_values(|a: Actor| actor_view(a)) == actors_of(
                author@,
                all.take(i as int),
                names.take(i as int),
                kind,
                show_emails,
            ),
        decreases atts@.len() - i,
    {
        assert(all.take(i + 1).drop_last() =~= all.take(i as int));
        assert(names.take(i + 1).take(i as int) =~= names.take(i as int));
        assert(all.take(i + 1).last() == atts@[i as int]@);
        assert(names.take(i + 1)[i as int] == shown@[i as int]@);
        let ghost before = out@;
        if atts[i].kind == kind {
            let actor = credited_actor(author, &atts[i], &shown[i], show_emails);
            out.push(actor);
            assert(out@.map_values(|a: Actor| actor_view(a)) =~= before.map_values(|a: Actor| actor_view(a)).push(
                actor_view(out@.last()),
            ));
        }
        i += 1;
    }
    assert(all.take(i as int) =~= all);
    assert(names.take(i as int) =~= names);
    out
}

/// Whether two lists of credited identities are the same.
fn same_actors(a: &Vec<Actor>, b: &Vec<Actor>) -> (r: bool)
    ensures
        r == (a@.map_values(|x: Actor| actor_view(x)) == b@.map_values(|x: Actor| actor_view(x))),
{
    let ghost va = a@.map_values(|x: Actor| actor_view(x));
    let ghost vb = b@.map_values(|x: Actor| actor_view(x));
    if a.len() != b.len() {
        assert(va.len() != vb.len());
        return false;
    }
    let mut k: usize = 0;
    while k < a.len()
        invariant
            k <= a@.len(),
            a@.len() == b@.len(),
            va == a@.map_values(|x: Actor| actor_view(x)),
            vb == b@.map_values(|x: Actor| actor_view(x)),
            forall|j: int| 0 <= j < k ==> va[j] == vb[j],
        decreases a@.len() - k,
    {
        let same_text = a[k].0.len() == b[k].0.len() && crate::bytes::eq_at(a[k].0.as_slice(), 0, b[k].0.as_slice());
        proof {
            if a@[k as int].0@.len() == b@[k as int].0@.len() {
                assert(a@[k as int].0@.subrange(0, b@[k as int].0@.len() as int) =~= a@[k as int].0@);
            }
        }
        if !same_text || a[k].1 != b[k].1 {
            assert(va[k as int] != vb[k as int]);
            return false;
        }
        k += 1;
    }
    assert(va =~= vb);
    true
}

/// The first of `groups` that credits exactly `actors`.
fn find_group(groups: &Vec<Group>, actors: &Vec<Actor>) -> (r: Option<usize>)
    ensures
        match r {
            Some(g) => g < groups@.len() && group_with(
                group_views(groups@),
                actors@.map_values(|a: Actor| actor_view(a)),
                0,
            ) == Some(g as int),
            None => group_with(group_views(groups@), actors@.map_values(|a: Actor| actor_view(a)), 0) is None,
        },
{
    let ghost gs = group_views(groups@);
    let ghost wanted = actors@.map_values(|a: Actor| actor_view(a));
    let mut k: usize = 0;
    while k < groups.len()
        invariant
            k <= groups@.len(),
            gs == group_views(groups@),
            wanted == actors@.map_values(|a: Actor| actor_view(a)),
            group_with(gs, wanted, 0) == group_with(gs, wanted, k as int),
        decreases groups@.len() - k,
    {
        if same_actors(&groups[k].actors, actors) {
            return Some(k);
        }
        k += 1;
    }
    None
}

/// The short markers joined by commas, then a colon.
fn joined_markers(markers: &Vec<Vec<u8>>) -> (r: Vec<u8>)
    ensures
        r@ == joined_text(markers@.map_values(|m: Vec<u8>| m@), ", ".spec_bytes()) + ": ".spec_bytes(),
{
    let ghost ms = markers@.map_values(|m: Vec<u8>| m@);
    let mut out: Vec<u8> = Vec::new();
    let mut i: usize = 0;
    while i < markers.len()
        invariant
            i <= markers@.len(),
            ms == markers@.map_values(|m: Vec<u8>| m@),
            out@ == joined_text(ms.take(i as int), ", ".spec_bytes()),
        decreases markers@.len() - i,
    {
        assert(ms.take(i + 1).drop_last() =~= ms.take(i as int));
        if i > 0 {
            push_all(&mut out, ", ".as_bytes());
        }
        push_all(&mut out, markers[i].as_slice());
        proof {
            if i == 0 {
                assert(out@ =~= ms.take(1)[0]);
            }
        }
        i += 1;
    }
    assert(ms.take(i as int) =~= ms);
    push_all(&mut out, ": ".as_bytes());
    out
}

/// Appends the pieces of one group.
fn push_group(spans: &mut Vec<Piece>, g: &Group)
    ensures
        piece_views(final(spans)@) == piece_views(old(spans)@) + group_pieces(group_view(*g)),
{
    let ghost gv = group_view(*g);
    let text = if g.markers.len() == 1 {
        copy_bytes(g.marker.as_slice())
    } else {
        joined_markers(&g.markers)
    };
    push_piece(spans, Piece { text, look: Look { fg: Some(Tint::Green), bold: false, dim: true, italic: false, reversed: false, undimmed: false } });
    let ghost start = piece_views(spans@);
    let ghost sep = ", ".spec_bytes();
    let ghost all = gv.actors.map_values(|a: (Seq<u8>, Look)| PieceView { text: a.0, look: a.1 });
    let mut index: usize = 0;
    while index < g.actors.len()
        invariant
            index <= g.actors@.len(),
            gv == group_view(*g),
            sep == ", ".spec_bytes(),
            all == gv.actors.map_values(|a: (Seq<u8>, Look)| PieceView { text: a.0, look: a.1 }),
            piece_views(spans@) == start + joined_by(all.take(index as int), sep),
        decreases g.actors@.len() - index,
    {
        let p = Piece { text: copy_bytes(g.actors[index].0.as_slice()), look: g.actors[index].1 };
        assert(p@ == all[index as int]);
        assert(all.take(index + 1) =~= all.take(index as int).push(all[index as int]));
        proof {
            lemma_joined_push(all.take(index as int), sep, p@);
        }
        let ghost before = piece_views(spans@);
        let ghost pv = p@;
        if index > 0 {
            push_piece(spans, Piece { text: copy_bytes(", ".as_bytes()), look: plain_look() });
        }
        assert(piece_views(spans@) =~= before + (if all.take(index as int).len() == 0 {
            Seq::empty()
        } else {
            seq![raw(sep)]
        }));
        push_piece(spans, p);
        assert(piece_views(spans@) =~= start + joined_by(all.take(index + 1), sep));
        index += 1;
    }
    assert(all.take(index as int) =~= all);
    push_piece(spans, Piece { text: copy_bytes(" ".as_bytes()), look: plain_look() });
    assert(piece_views(spans@) =~= piece_views(old(spans)@) + group_pieces(gv));
}

/// The kind, marker and short marker of the `i`-th credited trailer.
fn trailer_at(i: usize) -> (r: (AttributionKind, Vec<u8>, Vec<u8>))
    requires
        i < 6,
    ensures
        r.0 == trailer_kind(i as int),
        r.1@ == trailer_marker(i as int),
        r.2@ == grouped_marker(i as int),
{
    if i == 0 {
        (AttributionKind::CoAuthor, copy_bytes("Co: ".as_bytes()), copy_bytes("Co".as_bytes()))
    } else if i == 1 {
        (AttributionKind::Assisted, copy_bytes("As: ".as_bytes()), copy_bytes("A".as_bytes()))
    } else if i == 2 {
        (AttributionKind::Reviewed, copy_bytes("Re: ".as_bytes()), copy_bytes("Re".as_bytes()))
    } else if i == 3 {
        (AttributionKind::Acked, copy_bytes("Ack: ".as_bytes()), copy_bytes("Ack".as_bytes()))
    } else if i == 4 {
        (AttributionKind::Tested, copy_bytes("Te: ".as_bytes()), copy_bytes("Te".as_bytes()))
    } else {
        (AttributionKind::SignedOff, copy_bytes("So: ".as_bytes()), copy_bytes("So".as_bytes()))
    }
}

/// The groups of identities credited beside a commit by `author`, for all kinds of trailer;
/// `shown` holds the identity displayed for each attribution.
pub fn trailer_groups(author: &Author, atts: &Vec<Attribution>, shown: &Vec<Author>, show_emails: bool) -> (r: Vec<Group>)
    requires
        shown@.len() == atts@.len(),
    ensures
        group_views(r@) == groups_upto(author@, attribution_views(atts@), author_views(shown@), show_emails, 6),
{
    let mut groups: Vec<Group> = Vec::new();
    let mut i: usize = 0;
    assert(group_views(groups@) =~= groups_upto(author@, attribution_views(atts@), author_views(shown@), show_emails, 0));
    while i < 6
        invariant
            i <= 6,
            shown@.len() == atts@.len(),
            group_views(groups@) == groups_upto(author@, attribution_views(atts@), author_views(shown@), show_emails, i as int),
        decreases 6 - i,
    {
        let ghost before = group_views(groups@);
        let (kind, marker, short) = trailer_at(i);
        let actors = actors_for(author, atts, shown, kind, show_emails);
        let ghost wanted = actors@.map_values(|a: Actor| actor_view(a));
        if actors.len() > 0 {
            match find_group(&groups, &actors) {
                Some(g) => {
                    let mut grp = groups.remove(g);
                    let ghost old_markers = grp.markers@;
                    let ghost sv = short@;
                    grp.markers.push(short);
                    assert(grp.markers@.map_values(|m: Vec<u8>| m@) =~= old_markers.map_values(|m: Vec<u8>| m@).push(sv));
                    groups.insert(g, grp);
                    assert(group_views(groups@) =~= before.update(
                        g as int,
                        GroupView { markers: before[g as int].markers.push(grouped_marker(i as int)), ..before[g as int] },
                    ));
                },
                None => {
                    let mut markers: Vec<Vec<u8>> = Vec::new();
                    let ghost sv = short@;
                    markers.push(short);
                    assert(markers@.map_values(|m: Vec<u8>| m@) =~= seq![sv]);
                    groups.push(Group { marker, markers, actors });
                    assert(group_views(groups@) =~= before.push(
                        GroupView { marker: trailer_marker(i as int), markers: seq![grouped_marker(i as int)], actors: wanted },
                    ));
                },
            }
        } else {
            assert(wanted.len() == 0);
        }
        i += 1;
    }
    groups
}

/// Appends the pieces of all groups.
fn push_groups(spans: &mut Vec<Piece>, groups: &Vec<Group>)
    ensures
        piece_views(final(spans)@) == piece_views(old(spans)@) + all_group_pieces(group_views(groups@)),
{
    let ghost gs = group_views(groups@);
    let mut i: usize = 0;
    while i < groups.len()
        invariant
            i <= groups@.len(),
            gs == group_views(groups@),
            piece_views(spans@) == piece_views(old(spans)@) + all_group_pieces(gs.take(i as int)),
        decreases groups@.len() - i,
    {
        assert(gs.take(i + 1).drop_last() =~= gs.take(i as int));
        push_group(spans, &groups[i]);
        assert(piece_views(spans@) =~= piece_views(old(spans)@) + all_group_pieces(gs.take(i + 1)));
        i += 1;
    }
    assert(gs.take(i as int) =~= gs);
}

/// How the metadata of a row is drawn.
#[derive(Clone, Copy, Debug, PartialEq, Eq, Structural)]
pub struct MetadataOptions {
    pub show_committer_date: bool,
    pub show_author_name: bool,
    pub show_emails: bool,
    pub show_trailers: bool,
    pub has_notes: bool,
    pub ref_mode: RefMode,
    pub selected: bool,
    pub preview_author_copy: bool,
    pub copy_feedback: Option<CopyKind>,
}

/// The look of the short identity: bold magenta, plain while it or the author is being copied,
/// and reversed on the selected row.
pub open spec fn id_look(o: MetadataOptions) -> Look {
    let base = if o.preview_author_copy || o.copy_feedback == Some(CopyKind::Id) {
        plain()
    } else {
        Look { bold: true, ..tinted(Tint::Magenta) }
    };
    if o.selected {
        Look { reversed: true, ..base }
    } else {
        base
    }
}

/// A reference of `kind` is listed under `mode`: all of them, all but the special ones, or none.
pub open spec fn shown_kind(kind: DecorationKind, mode: RefMode) -> bool {
    match mode {
        RefMode::All => true,
        RefMode::Default => kind != DecorationKind::Special,
        RefMode::Off => false,
    }
}

/// The references of `ds` that `mode` lists, in order.
pub open spec fn shown_decorations(ds: Seq<(Seq<u8>, DecorationKind)>, mode: RefMode) -> Seq<(Seq<u8>, DecorationKind)>
    decreases ds.len(),
{
    if ds.len() == 0 {
        Seq::empty()
    } else {
        let rest = shown_decorations(ds.drop_last(), mode);
        if shown_kind(ds.last().1, mode) {
            rest.push(ds.last())
        } else {
            rest
        }
    }
}

/// The references in parentheses, each in the look of its kind and separated by commas; a
/// single space where there are none.
#[verifier::opaque]
pub open spec fn reference_pieces(ds: Seq<(Seq<u8>, DecorationKind)>) -> Seq<PieceView> {
    if ds.len() == 0 {
        seq![raw(" ".spec_bytes())]
    } else {
        seq![raw(" (".spec_bytes())] + joined_by(
            ds.map_values(|d: (Seq<u8>, DecorationKind)| PieceView { text: d.0, look: decoration_look(d.1) }),
            ", ".spec_bytes(),
        ) + seq![raw(") ".spec_bytes())]
    }
}

/// The author, `shown` being the identity as it is displayed: its label, in brackets for an
/// agent, whose email is never shown; green, bold magenta while the author is about to be copied,
/// plain once copied; italic for a private GitHub address.
pub open spec fn author_piece(author: AuthorView, shown: AuthorView, o: MetadataOptions) -> PieceView {
    let bot = is_bot_email(author.email);
    let label = author_text(shown, o.show_emails && !bot);
    let base = if o.copy_feedback == Some(CopyKind::Author) {
        plain()
    } else if o.preview_author_copy {
        Look { bold: true, ..tinted(Tint::Magenta) }
    } else {
        tinted(Tint::Green)
    };
    PieceView {
        text: if bot {
            "[".spec_bytes() + label + "] ".spec_bytes()
        } else {
            label + " ".spec_bytes()
        },
        look: if is_github_noreply_email(author.email) {
            Look { italic: true, ..base }
        } else {
            base
        },
    }
}

/// The references of the row `id` in `decorations`.
pub open spec fn row_decorations(decorations: Seq<(ObjectId, Vec<Decoration>)>, id: ObjectId) -> Seq<(Seq<u8>, DecorationKind)> {
    match decoration_entry(decorations, id) {
        Some(ds) => ds,
        None => Seq::empty(),
    }
}

/// The committer date in blue, where dates are shown.
pub open spec fn date_pieces(date: Seq<u8>, o: MetadataOptions) -> Seq<PieceView> {
    if o.show_committer_date {
        seq![PieceView { text: date + " ".spec_bytes(), look: tinted(Tint::Blue) }]
    } else {
        Seq::empty()
    }
}

/// The author and, where trailers are shown, the groups of credited identities, where names are
/// shown.
#[verifier::opaque]
pub open spec fn author_pieces(
    author: AuthorView,
    shown_author: AuthorView,
    atts: Seq<AttributionView>,
    shown: Seq<AuthorView>,
    o: MetadataOptions,
) -> Seq<PieceView> {
    if o.show_author_name {
        seq![author_piece(author, shown_author, o)] + if o.show_trailers {
            all_group_pieces(groups_upto(author, atts, shown, o.show_emails, 6))
        } else {
            Seq::empty()
        }
    } else {
        Seq::empty()
    }
}

/// The markers of an agent's commit and of notes.
pub open spec fn marker_pieces(has_agent_marker: bool, o: MetadataOptions) -> Seq<PieceView> {
    (if has_agent_marker {
        seq![PieceView { text: "[A] ".spec_bytes(), look: tinted(Tint::LightMagenta) }]
    } else {
        Seq::empty()
    }) + (if o.has_notes {
        seq![PieceView { text: "[N] ".spec_bytes(), look: tinted(Tint::LightMagenta) }]
    } else {
        Seq::empty()
    })
}

/// The metadata beside a commit: its short identity; its references; its date in blue; its
/// author with the groups of credited identities; the agent and note markers; and, while emails
/// are hidden, its title. `shown_author` and `shown` are the identities as displayed for the author
/// and for each attribution.
pub open spec fn metadata_pieces(
    id: ObjectId,
    author: AuthorView,
    shown_author: AuthorView,
    has_agent_marker: bool,
    title: Seq<u8>,
    atts: Seq<AttributionView>,
    shown: Seq<AuthorView>,
    ds: Seq<(Seq<u8>, DecorationKind)>,
    date: Seq<u8>,
    o: MetadataOptions,
) -> Seq<PieceView> {
    seq![PieceView { text: short_hex(id), look: id_look(o) }] + reference_pieces(shown_decorations(ds, o.ref_mode))
        + date_pieces(date, o) + author_pieces(author, shown_author, atts, shown, o) + marker_pieces(has_agent_marker, o) + (
    if !o.show_emails {
        seq![raw(title)]
    } else {
        Seq::empty()
    })
}

/// Appends the references of a row that `mode` lists.
fn push_references(spans: &mut Vec<Piece>, ds: &Vec<Decoration>, mode: RefMode)
    ensures
        piece_views(final(spans)@) == piece_views(old(spans)@) + reference_pieces(
            shown_decorations(ds@.map_values(|d: Decoration| decoration_view(d)), mode),
        ),
{
    reveal(reference_pieces);
    let ghost all = ds@.map_values(|d: Decoration| decoration_view(d));
    let ghost sep = ", ".spec_bytes();
    let mut names: Vec<Piece> = Vec::new();
    let ghost mut shown: Seq<(Seq<u8>, DecorationKind)> = Seq::empty();
    let mut i: usize = 0;
    while i < ds.len()
        invariant
            i <= ds@.len(),
            all == ds@.map_values(|d: Decoration| decoration_view(d)),
            sep == ", ".spec_bytes(),
            shown == shown_decorations(all.take(i as int), mode),
            piece_views(names@) == joined_by(
                shown.map_values(|d: (Seq<u8>, DecorationKind)| PieceView { text: d.0, look: decoration_look(d.1) }),
                sep,
            ),
        decreases ds@.len() - i,
    {
        assert(all.take(i + 1).drop_last() =~= all.take(i as int));
        let kind = ds[i].kind;
        let listed = match mode {
            RefMode::All => true,
            RefMode::Default => kind != DecorationKind::Special,
            RefMode::Off => false,
        };
        if listed {
            let p = Piece { text: copy_bytes(ds[i].name.as_slice()), look: decoration_style(kind) };
            let ghost f = |d: (Seq<u8>, DecorationKind)| PieceView { text: d.0, look: decoration_look(d.1) };
            proof {
                lemma_joined_push(shown.map_values(f), sep, p@);
            }
            let ghost before = piece_views(names@);
            if names.len() > 0 {
                push_piece(&mut names, Piece { text: copy_bytes(", ".as_bytes()), look: plain_look() });
            }
            proof {
                lemma_joined_len(shown.map_values(f), sep);
            }
            push_piece(&mut names, p);
            proof {
                assert(shown.push(all[i as int]).map_values(f) =~= shown.map_values(f).push(p@));
                shown = shown.push(all[i as int]);
            }
        }
        i += 1;
    }
    assert(all.take(i as int) =~= all);
    proof {
        lemma_joined_len(
            shown.map_values(|d: (Seq<u8>, DecorationKind)| PieceView { text: d.0, look: decoration_look(d.1) }),
            sep,
        );
    }
    if names.len() == 0 {
        push_piece(spans, Piece { text: copy_bytes(" ".as_bytes()), look: plain_look() });
    } else {
        push_piece(spans, Piece { text: copy_bytes(" (".as_bytes()), look: plain_look() });
        let ghost mid = piece_views(spans@);
        let mut k: usize = 0;
        while k < names.len()
            invariant
                k <= names@.len(),
                piece_views(spans@) == mid + piece_views(names@).take(k as int),
            decreases names@.len() - k,
        {
            let p = Piece { text: copy_bytes(names[k].text.as_slice()), look: names[k].look };
            push_piece(spans, p);
            assert(piece_views(names@).take(k + 1) =~= piece_views(names@).take(k as int).push(piece_views(names@)[k as int]));
            k += 1;
        }
        assert(piece_views(names@).take(k as int) =~= piece_views(names@));
        push_piece(spans, Piece { text: copy_bytes(") ".as_bytes()), look: plain_look() });
    }
}

/// Appends the references of commit `id` that `mode` lists.
fn push_row_references(spans: &mut Vec<Piece>, decorations: &Vec<(ObjectId, Vec<Decoration>)>, id: ObjectId, mode: RefMode)
    ensures
        piece_views(final(spans)@) == piece_views(old(spans)@) + reference_pieces(
            shown_decorations(row_decorations(decorations@, id), mode),
        ),
{
    match decoration_entry_at(decorations, id) {
        Some(k) => push_references(spans, &decorations[k].1, mode),
        None => {
            let empty: Vec<Decoration> = Vec::new();
            assert(empty@.map_values(|d: Decoration| decoration_view(d)) =~= Seq::<(Seq<u8>, DecorationKind)>::empty());
            push_references(spans, &empty, mode);
        },
    }
}

/// Appends the author and the groups of credited identities, as `author_pieces` says.
fn push_author(
    spans: &mut Vec<Piece>,
    author: &Author,
    shown_author: &Author,
    attributions: &Vec<Attribution>,
    shown: &Vec<Author>,
    options: MetadataOptions,
)
    requires
        shown@.len() == attributions@.len(),
    ensures
        piece_views(final(spans)@) == piece_views(old(spans)@) + author_pieces(
            author@,
            shown_author@,
            attribution_views(attributions@),
            author_views(shown@),
            options,
        ),
{
    reveal(author_pieces);
    if options.show_author_name {
        let bot = author.is_bot();
        let label = author_label(shown_author, options.show_emails && !bot);
        let text = if bot {
            let mut t = copy_bytes("[".as_bytes());
            push_all(&mut t, label.as_slice());
            push_all(&mut t, "] ".as_bytes());
            t
        } else {
            let mut t = label;
            push_all(&mut t, " ".as_bytes());
            t
        };
        let copied = options.copy_feedback == Some(CopyKind::Author);
        let look = Look {
            fg: if copied {
                None
            } else if options.preview_author_copy {
                Some(Tint::Magenta)
            } else {
                Some(Tint::Green)
            },
            bold: !copied && options.preview_author_copy,
            dim: false,
            italic: author.is_github_noreply(),
            reversed: false,
            undimmed: false,
        };
        let p = Piece { text, look };
        assert(p@ == author_piece(author@, shown_author@, options));
        push_piece(spans, p);
        let ghost after = piece_views(spans@);
        if options.show_trailers {
            let groups = trailer_groups(author, attributions, shown, options.show_emails);
            push_groups(spans, &groups);
        }
        assert(piece_views(spans@) =~= piece_views(old(spans)@) + author_pieces(
            author@,
            shown_author@,
            attribution_views(attributions@),
            author_views(shown@),
            options,
        ));
    } else {
        assert(piece_views(spans@) =~= piece_views(old(spans)@) + author_pieces(
            author@,
            shown_author@,
            attribution_views(attributions@),
            author_views(shown@),
            options,
        ));
    }
}

/// Appends a marker in light magenta.
fn push_marker(spans: &mut Vec<Piece>, text: &[u8])
    ensures
        piece_views(final(spans)@) == piece_views(old(spans)@).push(
            PieceView { text: text@, look: tinted(Tint::LightMagenta) },
        ),
{
    push_piece(
        spans,
        Piece {
            text: copy_bytes(text),
            look: Look { fg: Some(Tint::LightMagenta), bold: false, dim: false, italic: false, reversed: false, undimmed: false },
        },
    );
}

/// The metadata line of a commit row: `title` is its title, `attributions` its credited
/// trailers, `decorations` the references of all commits and `date` the text of its committer
/// date; `shown_author` and `shown` are the identities displayed for its author and for each
/// attribution, as a mailmap resolves them.
#[verifier::rlimit(40)]
pub fn metadata_line(
    row: &CommitRow,
    title: &[u8],
    attributions: &Vec<Attribution>,
    decorations: &Vec<(ObjectId, Vec<Decoration>)>,
    shown_author: &Author,
    shown: &Vec<Author>,
    date: &[u8],
    options: MetadataOptions,
) -> (r: Vec<Piece>)
    requires
        shown@.len() == attributions@.len(),
    ensures
        piece_views(r@) == metadata_pieces(
            row.id,
            row.author@,
            shown_author@,
            row.has_agent_marker,
            title@,
            attribution_views(attributions@),
            author_views(shown@),
            row_decorations(decorations@, row.id),
            date@,
            options,
        ),
{
    let mut spans: Vec<Piece> = Vec::new();
    let plain_id = options.preview_author_copy || options.copy_feedback == Some(CopyKind::Id);
    let id_style = Look {
        fg: if plain_id { None } else { Some(Tint::Magenta) },
        bold: !plain_id,
        dim: false,
        italic: false,
        reversed: options.selected,
        undimmed: false,
    };
    push_piece(&mut spans, Piece { text: short_hex_of(row.id), look: id_style });
    let ghost after_id = piece_views(spans@);
    assert(after_id =~= seq![PieceView { text: short_hex(row.id), look: id_look(options) }]);
    push_row_references(&mut spans, decorations, row.id, options.ref_mode);
    let ghost after_refs = piece_views(spans@);
    if options.show_committer_date {
        let mut text = copy_bytes(date);
        push_all(&mut text, " ".as_bytes());
        push_piece(
            &mut spans,
            Piece { text, look: Look { fg: Some(Tint::Blue), bold: false, dim: false, italic: false, reversed: false, undimmed: false } },
        );
    }
    let ghost after_date = piece_views(spans@);
    assert(after_date =~= after_refs + date_pieces(date@, options));
    push_author(&mut spans, &row.author, shown_author, attributions, shown, options);
    let ghost after_author = piece_views(spans@);
    if row.has_agent_marker {
        push_marker(&mut spans, "[A] ".as_bytes());
    }
    if options.has_notes {
        push_marker(&mut spans, "[N] ".as_bytes());
    }
    let ghost after_markers = piece_views(spans@);
    assert(after_markers =~= after_author + marker_pieces(row.has_agent_marker, options));
    if !options.show_emails {
        push_piece(&mut spans, Piece { text: copy_bytes(title), look: plain_look() });
    }
    assert(piece_views(spans@) =~= metadata_pieces(
        row.id,
        row.author@,
        shown_author@,
        row.has_agent_marker,
        title@,
        attribution_views(attributions@),
        author_views(shown@),
        row_decorations(decorations@, row.id),
        date@,
        options,
    ));
    spans
}

/// The title of a commit's diff: its short identity, its author as shown, in brackets for an
/// agent, whose email is never shown, and its title.
pub open spec fn diff_title(id: ObjectId, author: AuthorView, shown: AuthorView, title: Seq<u8>, show_emails: bool) -> Seq<u8> {
    let bot = is_bot_email(author.email);
    let label = author_text(shown, show_emails && !bot);
    short_hex(id) + " ".spec_bytes() + (if bot {
        "[".spec_bytes() + label + "]".spec_bytes()
    } else {
        label
    }) + " ".spec_bytes() + title
}

/// The title of a commit's diff; `shown_author` is its author as a mailmap resolves it.
pub fn commit_diff_title(row: &CommitRow, title: &[u8], shown_author: &Author, show_emails: bool) -> (r: Vec<u8>)
    ensures
        r@ == diff_title(row.id, row.author@, shown_author@, title@, show_emails),
{
    let bot = row.author.is_bot();
    let label = author_label(shown_author, show_emails && !bot);
    let mut out = short_hex_of(row.id);
    push_all(&mut out, " ".as_bytes());
    if bot {
        push_all(&mut out, "[".as_bytes());
        push_all(&mut out, label.as_slice());
        push_all(&mut out, "]".as_bytes());
    } else {
        push_all(&mut out, label.as_slice());
    }
    push_all(&mut out, " ".as_bytes());
    push_all(&mut out, title);
    out
}

} // verus!
