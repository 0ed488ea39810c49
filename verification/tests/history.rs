use gix_tix::history::{Authors, DecorationKind, contains_agent_marker, decoration_kind};

#[test]
fn recognizes_supported_agent_markers() {
    assert!(contains_agent_marker(b"subject\n\n--- agent\n"));
    assert!(contains_agent_marker(b"subject\n\n<!-- agent -->\n"));
    assert!(!contains_agent_marker(b"subject\n\nagent"));
}

#[test]
fn classifies_reference_kinds() {
    assert_eq!(decoration_kind(b"refs/heads/main"), DecorationKind::Local);
    assert_eq!(decoration_kind(b"refs/tags/v1"), DecorationKind::Tag);
    assert_eq!(decoration_kind(b"refs/remotes/origin/main"), DecorationKind::Remote);
    assert_eq!(decoration_kind(b"refs/patches/main/patch"), DecorationKind::Special);
    assert_eq!(decoration_kind(b"refs/stash"), DecorationKind::Special);
}

#[test]
fn interns_raw_author_identities() {
    let mut authors = Authors::new();

    let first = authors.intern_author(b"author\xff", b"one@example.com");
    let second = authors.intern_author(b"author\xff", b"one@example.com");
    let other = authors.intern_author(b"author\xff", b"two@example.com");

    assert_eq!(first, second, "equal identities share one entry");
    assert_ne!(first, other, "different emails remain distinct");
    assert_eq!(authors.authors.len(), 2);
    assert_eq!(authors.authors[first].name, b"author\xff", "Git names remain byte strings");
}

#[test]
fn interning_a_name_twice_keeps_one_string() {
    let mut authors = Authors::new();
    let a = authors.intern_string(b"name");
    let b = authors.intern_string(b"other");
    let c = authors.intern_string(b"name");
    assert_eq!(a, c);
    assert_ne!(a, b);
    assert_eq!(authors.strings.len(), 2);
}

#[test]
fn agent_markers_may_stand_anywhere_in_the_message() {
    assert!(contains_agent_marker(b"--- agent"));
    assert!(contains_agent_marker(b"x<!-- agent -->y"));
    assert!(!contains_agent_marker(b""));
    assert!(!contains_agent_marker(b"-- agent"));
}

#[test]
fn reference_prefixes_must_match_whole_namespaces() {
    assert_eq!(decoration_kind(b"refs/heads"), DecorationKind::Special);
    assert_eq!(decoration_kind(b"refs/tags/"), DecorationKind::Tag);
    assert_eq!(decoration_kind(b"HEAD"), DecorationKind::Special);
}
