use gix_tix::app::{CopyKind, RefMode};
use gix_tix::author::{Attribution, AttributionKind, Author};
use gix_tix::commit::{CommitRow, SignatureState, Span, Time};
use gix_tix::history::DecorationKind;
use gix_tix::ids::ObjectId;
use gix_tix::look::{Look, Piece, Tint};
use gix_tix::metadata::{MetadataOptions, author_label, metadata_line};
use gix_tix::paint::Decoration;

fn author(name: &str, email: &str) -> Author {
    Author::new(name.as_bytes().to_vec(), email.as_bytes().to_vec())
}

fn row(author: Author) -> CommitRow {
    CommitRow {
        id: ObjectId { high: 0x0101_0101_0101_0101, middle: 0, low: 0 },
        parent_ids: Vec::new(),
        committer_time: Time::zero(),
        author,
        attributions: Span::new(0, 0),
        title: Span::new(0, 0),
        metadata_loaded: true,
        has_agent_marker: false,
        signature: SignatureState::Unsigned,
    }
}

fn options() -> MetadataOptions {
    MetadataOptions {
        show_committer_date: false,
        show_author_name: true,
        show_emails: false,
        show_trailers: true,
        has_notes: false,
        ref_mode: RefMode::Default,
        selected: false,
        preview_author_copy: false,
        copy_feedback: None,
    }
}

fn text(pieces: &[Piece]) -> String {
    pieces.iter().map(|piece| String::from_utf8(piece.text.clone()).unwrap()).collect()
}

fn look_of(pieces: &[Piece], needle: &str) -> Look {
    pieces.iter().find(|piece| piece.text.starts_with(needle.as_bytes())).expect("the piece is drawn").look
}

fn duplicate(authors: &[Author]) -> Vec<Author> {
    authors.iter().map(|a| a.duplicate()).collect()
}

fn credits() -> Vec<Attribution> {
    [
        (AttributionKind::CoAuthor, "Helper", "noreply@anthropic.com"),
        (AttributionKind::CoAuthor, "Codex", "codex@openai.com"),
        (AttributionKind::Assisted, "Helper", "noreply@anthropic.com"),
        (AttributionKind::Assisted, "Codex", "codex@openai.com"),
        (AttributionKind::Reviewed, "Human", "human@example.com"),
        (AttributionKind::Acked, "Acknowledger", "ack@example.com"),
        (AttributionKind::Tested, "Tester", "tester@example.com"),
        (AttributionKind::SignedOff, "Signer", "signer@example.com"),
    ]
    .into_iter()
    .map(|(kind, name, email)| Attribution { kind, author: author(name, email) })
    .collect()
}

#[test]
fn renders_grouped_attributions_and_bot_names() {
    let row = row(author("Codex", "codex@openai.com"));
    let attributions = credits();
    let mut mapped: Vec<Author> = attributions.iter().map(|a| a.author.duplicate()).collect();
    mapped[4] = author("Mapped Human", "mapped@example.com");
    let line = |shown: &Vec<Author>, options: MetadataOptions| {
        metadata_line(&row, b"subject", &attributions, &Vec::new(), &row.author.duplicate(), shown, b"", options)
    };

    let pieces = line(&mapped, options());
    let drawn = text(&pieces);
    assert!(
        drawn.contains("[Codex] Co, A: [Helper], * Re: Mapped Human Ack: Acknowledger Te: Tester So: Signer subject"),
        "attributions with identical displayed actors share their markers: {drawn:?}"
    );
    assert_eq!(look_of(&pieces, "[Codex]").fg, Some(Tint::Green), "bot authors use the agent color");
    assert_eq!(look_of(&pieces, "Co, A:").fg, Some(Tint::Green), "grouped attribution markers use the agent color");
    assert!(look_of(&pieces, "Co, A:").dim, "attribution markers are dimmed");
    assert_eq!(look_of(&pieces, "Mapped Human").fg, Some(Tint::Green), "human trailer actors are green");
    assert_eq!(look_of(&pieces, "[Helper]").fg, Some(Tint::Green), "bot co-authors use agent styling");

    assert!(!text(&line(&mapped, MetadataOptions { show_trailers: false, ..options() })).contains("Co:"));
    let hidden = text(&line(&mapped, MetadataOptions { show_author_name: false, ..options() }));
    assert!(!hidden.contains("Codex") && !hidden.contains("Mapped Human"));

    let recorded = duplicate(&attributions.iter().map(|a| a.author.duplicate()).collect::<Vec<_>>());
    assert!(text(&line(&recorded, options())).contains("Re: Human"), "recorded names without a mailmap");
    let with_emails = text(&line(&recorded, MetadataOptions { show_emails: true, ..options() }));
    assert!(with_emails.contains("Human <human@example.com>"));
    assert!(!with_emails.contains("codex@openai.com"));
    assert!(!with_emails.contains("noreply@anthropic.com"));
}

#[test]
fn toggles_full_actor_and_comment() {
    let row = row(author("author", "author@example.com"));
    let line = |show_emails| {
        text(&metadata_line(
            &row,
            b"unique comment",
            &Vec::new(),
            &Vec::new(),
            &row.author.duplicate(),
            &Vec::new(),
            b"",
            MetadataOptions { show_emails, ..options() },
        ))
    };
    assert!(line(true).contains("author <author@example.com>"));
    assert!(!line(true).contains("unique comment"));
    assert!(!line(false).contains("<author@example.com>"));
    assert!(line(false).contains("unique comment"));
}

fn private_address(local: &str, domain: &str) -> String {
    [local, domain].join("@")
}

#[test]
fn italicizes_github_noreply_actors() {
    let author_email = private_address("1+author", "users.noreply.github.com");
    let reviewer_email = private_address("alice", "USERS.NOREPLY.GITHUB.COM");
    let row = row(author("Author", &author_email));
    let attributions = vec![Attribution { kind: AttributionKind::Reviewed, author: author("Alice", &reviewer_email) }];
    let shown = duplicate(&[attributions[0].author.duplicate()]);
    let pieces = metadata_line(
        &row,
        b"subject",
        &attributions,
        &Vec::new(),
        &row.author.duplicate(),
        &shown,
        b"",
        MetadataOptions { show_emails: true, ..options() },
    );
    for actor in [format!("Author <{author_email}>"), format!("Alice <{reviewer_email}>")] {
        assert!(text(&pieces).contains(&actor));
        assert!(look_of(&pieces, &actor).italic, "{actor} is italic");
    }
}

#[test]
fn lists_references_dates_markers_and_the_selected_identity() {
    let mut row = row(author("author", "author@example.com"));
    row.has_agent_marker = true;
    let decorations = vec![(
        row.id,
        vec![
            Decoration { name: b"HEAD".to_vec(), kind: DecorationKind::Head },
            Decoration { name: b"main".to_vec(), kind: DecorationKind::Local },
            Decoration { name: b"refs/stash".to_vec(), kind: DecorationKind::Special },
        ],
    )];
    let line = |options: MetadataOptions| {
        metadata_line(&row, b"title", &Vec::new(), &decorations, &row.author.duplicate(), &Vec::new(), b"2026-08-12", options)
    };
    let pieces = line(MetadataOptions { show_committer_date: true, has_notes: true, ..options() });
    assert_eq!(text(&pieces), "0101010 (HEAD, main) 2026-08-12 author [A] [N] title");
    assert_eq!(pieces[0].look, Look { fg: Some(Tint::Magenta), bold: true, dim: false, italic: false, reversed: false, undimmed: false });
    assert_eq!(look_of(&pieces, "HEAD").bold, true);
    assert_eq!(look_of(&pieces, "main").fg, Some(Tint::Cyan));
    assert_eq!(look_of(&pieces, "2026").fg, Some(Tint::Blue));
    assert_eq!(look_of(&pieces, "[A]").fg, Some(Tint::LightMagenta));

    assert_eq!(text(&line(MetadataOptions { ref_mode: RefMode::All, ..options() })), "0101010 (HEAD, main, refs/stash) author [A] title");
    assert_eq!(text(&line(MetadataOptions { ref_mode: RefMode::Off, ..options() })), "0101010 author [A] title");

    let selected = line(MetadataOptions { selected: true, copy_feedback: Some(CopyKind::Id), ..options() });
    assert_eq!(selected[0].look, Look { fg: None, bold: false, dim: false, italic: false, reversed: true, undimmed: false });
    let copied = line(MetadataOptions { copy_feedback: Some(CopyKind::Author), ..options() });
    assert_eq!(look_of(&copied, "author").fg, None, "a copied author loses its colour for a frame");
    let preview = line(MetadataOptions { preview_author_copy: true, ..options() });
    assert_eq!(look_of(&preview, "author").fg, Some(Tint::Magenta));
    assert_eq!(preview[0].look.fg, None, "the identity is plain while the author is previewed");
}

#[test]
fn labels_show_emails_in_angle_brackets() {
    let a = author("A U Thor", "author@example.com");
    assert_eq!(author_label(&a, true), b"A U Thor <author@example.com>".to_vec());
    assert_eq!(author_label(&a, false), b"A U Thor".to_vec());
}
