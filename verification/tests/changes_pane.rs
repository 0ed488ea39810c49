use gix_tix::app::{App, ChangeGroup, ChangeKind, ChangePane, Changes, PathChange};
use gix_tix::changes_pane::{change_line, render_changes};
use gix_tix::look::{Look, Piece, Tint, diff_line_style};

fn text(pieces: &[Piece]) -> String {
    pieces.iter().map(|piece| String::from_utf8(piece.text.clone()).unwrap()).collect()
}

fn path(kind: ChangeKind, group: ChangeGroup, name: &str, lines: Option<(u32, u32)>) -> PathChange {
    PathChange { kind, group, source: None, path: name.as_bytes().to_vec(), lines }
}

fn changes(n: usize) -> Changes {
    Changes {
        parent: None,
        paths: (0..n).map(|i| path(ChangeKind::Modified, ChangeGroup::Tree, &format!("file-{i}"), Some((1, 2)))).collect(),
        lines_added: 0,
        lines_removed: 0,
    }
}

#[test]
fn overflowing_panes_leave_a_row_for_the_hidden_paths() {
    let mut app = App::new(1);
    let frame = render_changes(&mut app, ChangePane::Tree, &changes(5), 20, 3);
    assert_eq!(frame.visible_paths, 2);
    let shown: Vec<String> = frame.lines.iter().map(|line| text(line)).collect();
    assert_eq!(shown, vec!["M file-0", "M file-1"]);
    let note = frame.hidden.expect("the paths below are counted");
    assert_eq!(String::from_utf8(note.text).unwrap(), "… 3 lines not shown");
    assert!(note.look.dim);
    assert_eq!((app.tree_changes.page, app.tree_changes.max), (2, 4), "the pane records its bounds");
}

#[test]
fn panes_that_fit_show_every_path_without_a_note() {
    let mut app = App::new(1);
    let frame = render_changes(&mut app, ChangePane::Worktree, &changes(2), 20, 3);
    assert_eq!(frame.visible_paths, 2);
    assert_eq!(frame.lines.len(), 2);
    assert!(frame.hidden.is_none());
    let single = render_changes(&mut app, ChangePane::Tree, &changes(1), 20, 1);
    assert_eq!(single.visible_paths, 1, "a single path never gives way to a note");
    assert!(single.hidden.is_none());
}

#[test]
fn empty_panes_record_no_paths() {
    let mut app = App::new(1);
    let frame = render_changes(&mut app, ChangePane::Tree, &changes(3), 20, 0);
    assert!(frame.lines.is_empty() && frame.hidden.is_none() && frame.visible_paths == 0);
    assert_eq!(app.tree_changes.max, 0);
    assert_eq!(app.tree_changes.horizontal_page, 20);
}

#[test]
fn the_focused_selection_is_reversed_and_shows_its_lines() {
    let mut app = App::new(1);
    app.changes_focus = Some(ChangePane::Tree);
    app.tree_changes.selected = 1;
    let frame = render_changes(&mut app, ChangePane::Tree, &changes(3), 8, 5);
    assert_eq!(text(&frame.lines[0]), "M file-0");
    assert_eq!(text(&frame.lines[1]), "M file-1 +1 -2");
    assert!(frame.lines[1][2].look.reversed);
    assert!(!frame.lines[0][2].look.reversed);
    assert_eq!(app.tree_changes.horizontal_max, 14 - 8, "the widest line reaches past the pane");
}

#[test]
fn path_lines_color_their_kind() {
    let staged = path(ChangeKind::Deleted, ChangeGroup::Staged, "gone", None);
    let line = change_line(&staged, true);
    assert_eq!(text(&line), "D gone");
    assert_eq!(line[0].look.fg, Some(Tint::Green), "staged paths are green whatever their kind");
    let renamed = PathChange {
        kind: ChangeKind::Renamed,
        group: ChangeGroup::Tree,
        source: Some(b"old".to_vec()),
        path: b"new".to_vec(),
        lines: Some((0, 3)),
    };
    let line = change_line(&renamed, true);
    assert_eq!(text(&line), "R old -> new -3");
    assert_eq!(line[0].look.fg, Some(Tint::Cyan));
}

#[test]
fn diff_lines_are_colored_by_their_prefix() {
    let plain = Look { fg: None, bold: false, dim: false, italic: false, reversed: false, undimmed: false };
    assert_eq!(diff_line_style(b"@@ -1 +1 @@").fg, Some(Tint::Cyan));
    assert_eq!(diff_line_style(b"+added").fg, Some(Tint::Green));
    assert_eq!(diff_line_style(b"--- a/old").fg, Some(Tint::LightRed));
    assert_eq!(diff_line_style(b"Binary files differ").fg, Some(Tint::Yellow));
    assert_eq!(diff_line_style(b" context"), plain);
}
