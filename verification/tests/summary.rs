use gix_tix::commit::SignatureState;
use gix_tix::look::color_graph;
use gix_tix::app::{App, ChangeGroup, ChangeKind, ChangePane, Changes, PathChange, SelectionRelation};
use gix_tix::look::{
    Look, Piece, Tint, change_color, decoration_style, graph_style, path_change_color, signature_color, toggle,
};
use gix_tix::summary::{
    append_change_aggregate, changes_summary, selection_info_line, short_hex_of, tree_change_counts,
    worktree_change_counts,
};

fn text(pieces: &[Piece]) -> String {
    pieces.iter().map(|piece| String::from_utf8(piece.text.clone()).unwrap()).collect()
}

fn change(kind: ChangeKind, group: ChangeGroup) -> PathChange {
    PathChange { kind, group, source: None, path: b"same".to_vec(), lines: Some((0, 0)) }
}

fn changes(paths: Vec<PathChange>, lines_added: u64, lines_removed: u64) -> Changes {
    Changes { parent: None, paths, lines_added, lines_removed }
}

fn plain() -> Look {
    Look { fg: None, bold: false, dim: false, italic: false, reversed: false, undimmed: false }
}

fn tint(t: Tint) -> Look {
    Look { fg: Some(t), ..plain() }
}

fn bright(t: Tint) -> Look {
    Look { fg: Some(t), undimmed: true, ..plain() }
}

#[test]
fn summarizes_staged_and_unstaged_changes_in_the_top_border() {
    let app = App::new(1);
    let worktree = changes(
        vec![change(ChangeKind::Added, ChangeGroup::Staged), change(ChangeKind::Modified, ChangeGroup::Unstaged)],
        3,
        1,
    );
    let header = text(&changes_summary(ChangePane::Worktree, &app, &worktree));
    assert!(
        header.contains("Worktree ── S 1 + U 1 = 2 · +3 -1"),
        "the border distinguishes staged and unstaged rows: {header:?}"
    );

    let modified = changes((0..12).map(|_| change(ChangeKind::Modified, ChangeGroup::Tree)).collect(), 0, 0);
    let summary = text(&changes_summary(ChangePane::Tree, &app, &modified));
    assert!(summary.contains("M 12"));
    assert!(!summary.contains("+0") && !summary.contains("-0"), "empty diff counts are hidden");
    assert!(!summary.contains("= 12"), "a single term already expresses the total");

    let clean = changes_summary(ChangePane::Worktree, &app, &Changes::new());
    assert_eq!(text(&clean), "─ Worktree clean ── ");
    assert_eq!(clean[1].look, tint(Tint::Green), "the clean label is green");
}

#[test]
fn tree_summaries_count_kinds_in_a_fixed_order() {
    let app = App::new(1);
    let tree = changes(
        vec![
            change(ChangeKind::Deleted, ChangeGroup::Tree),
            change(ChangeKind::Added, ChangeGroup::Tree),
            change(ChangeKind::Added, ChangeGroup::Tree),
            change(ChangeKind::Unmerged, ChangeGroup::Tree),
        ],
        5,
        0,
    );
    let pieces = changes_summary(ChangePane::Tree, &app, &tree);
    assert_eq!(text(&pieces), "─ Tree ------- ── A 2 + D 1 = 4 · +5 ");
    assert_eq!(pieces[1], Piece { text: b"A 2".to_vec(), look: tint(Tint::Green) });
    assert_eq!(pieces[3], Piece { text: b"D 1".to_vec(), look: tint(Tint::LightRed) });
    assert_eq!(
        tree_change_counts(&tree),
        vec![(b'A', 2, Tint::Green), (b'D', 1, Tint::LightRed)],
        "unmerged paths are not counted by kind"
    );
}

#[test]
fn worktree_counts_leave_out_empty_groups() {
    let staged = changes(vec![change(ChangeKind::Added, ChangeGroup::Staged)], 0, 0);
    assert_eq!(worktree_change_counts(&staged), vec![(b'S', 1, Tint::Green)]);
    let unstaged = changes(vec![change(ChangeKind::Modified, ChangeGroup::Unstaged)], 0, 0);
    assert_eq!(worktree_change_counts(&unstaged), vec![(b'U', 1, Tint::LightRed)]);
    assert!(worktree_change_counts(&Changes::new()).is_empty());
}

#[test]
fn aggregates_show_totals_only_where_they_add_something() {
    let mut spans = Vec::new();
    append_change_aggregate(&mut spans, vec![(b'M', 2, Tint::Yellow)], 3, 0, 4);
    assert_eq!(text(&spans), "M 2 = 3 · -4 ");
    let mut spans = Vec::new();
    append_change_aggregate(&mut spans, Vec::new(), 3, 0, 0);
    assert!(spans.is_empty(), "no counts, no lines: nothing");
}

#[test]
fn selection_info_lists_line_counts_and_relations() {
    let counted = changes(Vec::new(), 3, 2);
    let pieces = selection_info_line(Some(&counted), Some(SelectionRelation::Tracking { ahead: 1, behind: 4 }));
    assert_eq!(text(&pieces), "+3 -2 ⇡1⇣4", "commits behind follow commits ahead directly");
    assert_eq!(pieces[0].look, bright(Tint::Green));
    assert_eq!(pieces[2].look, bright(Tint::LightRed));
    assert_eq!(text(&selection_info_line(None, Some(SelectionRelation::Tracking { ahead: 0, behind: 4 }))), "⇣4");
    assert_eq!(text(&selection_info_line(None, Some(SelectionRelation::Visible(5)))), "⇡5");
    assert!(selection_info_line(Some(&changes(Vec::new(), 0, 0)), None).is_empty());
}

#[test]
fn short_identities_are_the_first_seven_hex_digits() {
    let id = gix_tix::ids::ObjectId { high: 0x0123_4567_89ab_cdef, middle: 0, low: 0 };
    assert_eq!(short_hex_of(id), b"0123456".to_vec());
    let id = gix_tix::ids::ObjectId { high: 0xfedc_ba98_7654_3210, middle: 1, low: 2 };
    assert_eq!(short_hex_of(id), b"fedcba9".to_vec());
}

#[test]
fn styles_follow_the_palette() {
    assert_eq!(change_color(ChangeKind::Renamed), Tint::Cyan);
    assert_eq!(change_color(ChangeKind::TypeChanged), Tint::Magenta);
    assert_eq!(path_change_color(&change(ChangeKind::Deleted, ChangeGroup::Staged)), Tint::Green);
    assert_eq!(path_change_color(&change(ChangeKind::Added, ChangeGroup::Unstaged)), Tint::LightRed);
    assert_eq!(path_change_color(&change(ChangeKind::Deleted, ChangeGroup::Tree)), Tint::LightRed);
    assert_eq!(signature_color(gix_tix::commit::SignatureState::Verifying), Tint::Orange);
    assert_eq!(decoration_style(gix_tix::history::DecorationKind::Head), Look { bold: true, ..tint(Tint::Cyan) });
    assert_eq!(graph_style(0), tint(Tint::Magenta));
    assert_eq!(graph_style(4), tint(Tint::Reset));
    assert_eq!(graph_style(7), Look { bold: true, ..tint(Tint::Magenta) });
    assert_eq!(graph_style(15), tint(Tint::Yellow));
    assert_eq!(toggle(b"emails", false).look, Look { dim: true, ..plain() });
    assert_eq!(toggle(b"emails", true).look, plain());
}

#[test]
fn renders_selection_info_beside_the_right_marker_without_dimming_it() {
    let changes = changes(vec![change(ChangeKind::Modified, ChangeGroup::Tree)], 3, 4);
    let pieces = selection_info_line(Some(&changes), Some(SelectionRelation::Tracking { ahead: 1, behind: 2 }));
    assert_eq!(text(&pieces), "+3 -4 ⇡1⇣2");
    assert_eq!(pieces[0].look.fg, Some(Tint::Green));
    assert_eq!(pieces[2].look.fg, Some(Tint::LightRed));
    assert!(pieces.iter().all(|piece| !piece.look.dim && (piece.look.fg.is_none() || piece.look.undimmed)));

    let line = |relation| text(&selection_info_line(None, relation));
    assert_eq!(line(Some(SelectionRelation::Tracking { ahead: 0, behind: 2 })), "⇣2");
    assert_eq!(line(Some(SelectionRelation::Tracking { ahead: 0, behind: 0 })), "");
    assert!(
        selection_info_line(Some(&Changes::new()), None).is_empty(),
        "selection information hides empty diff counts"
    );
}

#[test]
fn colors_graph_cells_by_lane_disk_and_highlight() {
    let graph: Vec<char> = "● │─".chars().collect();
    let cells = color_graph(&graph, 0, 10, None, SignatureState::Verified);
    assert_eq!(cells, vec![(0, tint(Tint::Green)), (2, tint(Tint::Yellow)), (3, tint(Tint::Yellow))]);
    let shifted = color_graph(&graph, 1, 2, None, SignatureState::Unsigned);
    assert_eq!(shifted, vec![(1, tint(Tint::Yellow))], "columns count from the panned offset");
    let highlighted = color_graph(&graph, 0, 1, Some(Tint::Cyan), SignatureState::Failed);
    assert_eq!(highlighted, vec![(0, Look { reversed: true, ..tint(Tint::Cyan) })]);
    assert!(color_graph(&graph, 9, 5, None, SignatureState::Unsigned).is_empty());
    assert_eq!(color_graph(&vec!['●'], 0, 1, None, SignatureState::Unverified), vec![(0, tint(Tint::Orange))]);
}
