use gix_tix::animation::{Row, covered_by_overlay, emphasis_columns, emphasized_rows, row_matches, row_score};
use gix_tix::layout::Area;
use gix_tix::ids::ObjectId;

fn id(n: u32) -> ObjectId {
    ObjectId::from_low(n)
}

fn rows(ids: &[u32], trees: &[u32]) -> Vec<Row> {
    ids.iter()
        .zip(trees)
        .enumerate()
        .map(|(index, (id_value, tree))| Row { id: id(*id_value), tree: Some(id(*tree)), y: index as u16 })
        .collect()
}

#[test]
fn rewritten_rows_match_by_tree_even_if_the_author_changed_with_the_id() {
    let source = rows(&[1, 2], &[10, 20]);
    let target = rows(&[3, 2], &[10, 20]);
    assert_eq!(row_matches(&source, &target), [(0, 0), (1, 1)]);
}

#[test]
fn duplicate_trees_are_matched_in_relative_order() {
    let source = rows(&[1, 2, 3], &[10, 10, 20]);
    let target = rows(&[4, 5, 3], &[10, 10, 20]);
    assert_eq!(row_matches(&source, &target), [(0, 0), (1, 1), (2, 2)]);
}

#[test]
fn identities_outweigh_trees_and_unknown_trees_never_match() {
    let a = Row { id: id(1), tree: None, y: 0 };
    let b = Row { id: id(2), tree: None, y: 1 };
    assert_eq!(row_score(&a, &a), 2);
    assert_eq!(row_score(&a, &b), 0, "rows without a known tree only match by identity");
    let c = Row { id: id(3), tree: Some(id(9)), y: 0 };
    let d = Row { id: id(4), tree: Some(id(9)), y: 0 };
    assert_eq!(row_score(&c, &d), 1);
}

#[test]
fn a_new_top_commit_shifts_the_alignment() {
    let source = rows(&[1, 2, 3], &[10, 20, 30]);
    let target = rows(&[4, 1, 2, 3], &[40, 10, 20, 30]);
    assert_eq!(row_matches(&source, &target), [(0, 1), (1, 2), (2, 3)]);
    assert_eq!(row_matches(&source, &rows(&[], &[])), Vec::<(usize, usize)>::new());
    assert_eq!(row_matches(&rows(&[1], &[10]), &rows(&[2], &[20])), Vec::<(usize, usize)>::new());
}

#[test]
fn removals_and_unrelated_replacements_are_immediate() {
    let source = rows(&[1, 2], &[10, 20]);
    let removal = rows(&[2], &[20]);
    assert!(emphasized_rows(&source, &removal, &Vec::new()).is_empty(), "a removal has no new row to emphasize");

    let source = rows(&[1], &[10]);
    let unrelated = rows(&[2], &[20]);
    assert!(emphasized_rows(&source, &unrelated, &Vec::new()).is_empty(), "an unrelated history has no visual anchor");
}

#[test]
fn reworded_and_new_rows_are_emphasized_unless_covered() {
    let source = rows(&[1, 2], &[10, 20]);
    let reworded = rows(&[3, 2], &[10, 20]);
    assert_eq!(emphasized_rows(&source, &reworded, &Vec::new()), vec![0]);
    let source = rows(&[1, 2, 3], &[10, 20, 30]);
    let new_top = rows(&[4, 1, 2, 3], &[40, 10, 20, 30]);
    assert_eq!(emphasized_rows(&source, &new_top, &Vec::new()), vec![0]);
    let overlay = vec![Area { x: 0, y: 0, width: 10, height: 1 }];
    assert!(emphasized_rows(&source, &new_top, &overlay).is_empty(), "rows under an overlay stay as they are");
    assert!(covered_by_overlay(0, &overlay));
    assert!(!covered_by_overlay(1, &overlay));
}

#[test]
fn emphasis_is_clipped_to_the_history_and_the_buffer() {
    let history = Area { x: 2, y: 1, width: 20, height: 3 };
    let buffer = Area { x: 0, y: 0, width: 10, height: 10 };
    assert_eq!(emphasis_columns(history, buffer, 0), None, "above the history");
    assert_eq!(emphasis_columns(history, buffer, 4), None, "below the history");
    assert_eq!(emphasis_columns(history, buffer, 2), Some((2, 10)));
}
