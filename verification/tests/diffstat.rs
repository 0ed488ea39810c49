use gix_tix::app::{ChangeGroup, ChangeKind, Changes, ComparedParent, PathChange};
use gix_tix::author::Author;
use gix_tix::commit::{CommitRow, SignatureState, Span, Time};
use gix_tix::diffstat::{BuiltInDiff, commit_diff_summary};
use gix_tix::ids::ObjectId;
use gix_tix::look::{Piece, Tint};
use gix_tix::metadata::commit_diff_title;

fn line(pieces: &[Piece]) -> String {
    pieces.iter().map(|piece| String::from_utf8(piece.text.clone()).unwrap()).collect()
}

fn change(kind: ChangeKind, path: &str, source: Option<&str>) -> PathChange {
    PathChange {
        kind,
        group: ChangeGroup::Tree,
        source: source.map(|s| s.as_bytes().to_vec()),
        path: path.as_bytes().to_vec(),
        lines: None,
    }
}

fn row(name: &str, email: &str) -> CommitRow {
    CommitRow {
        id: ObjectId { high: 0x0101_0101_0101_0101, middle: 0x0101_0101_0101_0101, low: 0x0101_0101 },
        parent_ids: Vec::new(),
        committer_time: Time::zero(),
        author: Author::new(name.as_bytes().to_vec(), email.as_bytes().to_vec()),
        attributions: Span::new(0, 0),
        title: Span::new(0, 0),
        metadata_loaded: true,
        has_agent_marker: false,
        signature: SignatureState::Unsigned,
    }
}

#[test]
fn renders_and_streams_compact_commit_diff_summaries() {
    let row = row("author", "author@example.com");
    let mapped = Author::new(b"mapped author".to_vec(), b"mapped@example.com".to_vec());
    assert_eq!(commit_diff_title(&row, b"subject", &mapped, false), b"0101010 mapped author subject".to_vec());
    assert_eq!(
        commit_diff_title(&row, b"subject", &mapped, true),
        b"0101010 mapped author <mapped@example.com> subject".to_vec()
    );
    let changes = Changes {
        parent: None,
        paths: vec![change(ChangeKind::Added, "new", None), change(ChangeKind::Modified, "old", None)],
        lines_added: 0,
        lines_removed: 0,
    };
    let summary = commit_diff_summary(&changes, &vec![Some((2, 0)), Some((1, 1))], 3, 1);
    assert_eq!(summary.len(), 3);
    assert_eq!(line(&summary[0]), " new | 2 ++");
    assert_eq!(line(&summary[1]), " old | 2 +-");
    assert_eq!(line(&summary[2]), "root · A 1 + M 1 = 2 · +3 -1 ");
    assert_eq!(summary[2][0].look.fg, Some(Tint::Cyan), "the compared parent is cyan");
    assert_eq!(summary[2][1].look.fg, Some(Tint::Green));
    assert_eq!(summary[2].last().map(|p| p.text.clone()), Some(b" ".to_vec()));
    assert_eq!(summary[0][2].look.fg, Some(Tint::Green));
    assert_eq!(summary[1][3].look.fg, Some(Tint::LightRed));
}

#[test]
fn pads_paths_by_their_display_width() {
    let changes = Changes {
        parent: None,
        paths: vec![change(ChangeKind::Added, "日本", None), change(ChangeKind::Renamed, "b", Some("a"))],
        lines_added: 0,
        lines_removed: 0,
    };
    let summary = commit_diff_summary(&changes, &vec![Some((1, 0)), None], 0, 0);
    assert_eq!(line(&summary[0]), " 日本   |   1 +", "wide characters take two columns each");
    assert_eq!(line(&summary[1]), " a -> b | Bin", "binary files have no bar");
    assert_eq!(line(&summary[2]), "root · A 1 + R 1 = 2");
}

#[test]
fn scales_bars_to_forty_columns_and_keeps_small_changes_visible() {
    let changes = Changes {
        parent: None,
        paths: vec![change(ChangeKind::Modified, "big", None), change(ChangeKind::Modified, "tiny", None)],
        lines_added: 0,
        lines_removed: 0,
    };
    let summary = commit_diff_summary(&changes, &vec![Some((100, 100)), Some((1, 0))], 0, 0);
    assert_eq!(summary[0][2].text.len(), 20);
    assert_eq!(summary[0][3].text.len(), 20);
    assert_eq!(line(&summary[1]), " tiny | 1 +".replace("| 1", "|   1"));
    assert_eq!(summary.len(), 3, "a line per path with a count, then the summary");
    let fewer = commit_diff_summary(&changes, &vec![Some((1, 0))], 0, 0);
    assert_eq!(fewer.len(), 2, "paths without a count have no line");
}

#[test]
fn names_the_compared_parent_and_empty_changes() {
    let id = ObjectId { high: 0xabcd_ef01_2345_6789, middle: 0, low: 0 };
    let one = Changes { parent: Some(ComparedParent { index: 0, total: 1, id }), paths: Vec::new(), lines_added: 0, lines_removed: 0 };
    let summary = commit_diff_summary(&one, &Vec::new(), 0, 0);
    assert_eq!(summary.len(), 1);
    assert_eq!(line(&summary[0]), "vs parent abcdef0 · No changes");
    assert!(summary[0][1].look.dim, "an empty diff is dimmed");
    let merge = Changes { parent: Some(ComparedParent { index: 1, total: 2, id }), ..one };
    assert_eq!(line(&commit_diff_summary(&merge, &Vec::new(), 0, 0)[0]), "vs parent 2/2 abcdef0 · No changes");
}

#[test]
fn measures_the_widest_diff_line() {
    let diff = BuiltInDiff::new(b"title".to_vec(), vec![b"--- a/old".to_vec(), "日本".as_bytes().to_vec()]);
    assert_eq!(diff.max_width, 9);
    let wide = BuiltInDiff::new(Vec::new(), vec!["日本日本日本".as_bytes().to_vec(), b"x".to_vec()]);
    assert_eq!(wide.max_width, 12);
    assert_eq!(BuiltInDiff::new(Vec::new(), Vec::new()).max_width, 0);
}
