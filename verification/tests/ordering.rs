use gix_tix::author::Author;
use gix_tix::commit::{CommitRow, SignatureState, Span, Time};
use gix_tix::ids::ObjectId;
use gix_tix::lanes::compute_lanes;
use gix_tix::ordering::{emission_order, last_position};

fn id(n: u32) -> ObjectId {
    ObjectId::from_low(n)
}

fn commit(n: u32, parents: &[u32]) -> CommitRow {
    CommitRow {
        id: id(n),
        parent_ids: parents.iter().map(|p| id(*p)).collect(),
        committer_time: Time::zero(),
        author: Author::new(b"a".to_vec(), b"a@example.com".to_vec()),
        attributions: Span::new(0, 0),
        title: Span::new(0, 0),
        metadata_loaded: true,
        has_agent_marker: false,
        signature: SignatureState::Unsigned,
    }
}

fn ids(rows: &[CommitRow]) -> Vec<ObjectId> {
    rows.iter().map(|row| row.id).collect()
}

#[test]
fn every_commit_is_drawn_before_its_parents() {
    let rows = vec![commit(1, &[]), commit(2, &[1]), commit(4, &[3, 2]), commit(3, &[1])];
    let (ordered, _) = compute_lanes(rows);
    let order = ids(&ordered);
    for (k, row) in ordered.iter().enumerate() {
        for parent in &row.parent_ids {
            assert!(order[k + 1..].contains(parent), "{:?} comes after its child", parent);
        }
    }
    assert_eq!(order, [id(4), id(3), id(2), id(1)]);
}

#[test]
fn a_cycle_keeps_the_loaded_order() {
    let rows = vec![commit(1, &[2]), commit(2, &[1]), commit(3, &[])];
    let (ordered, _) = compute_lanes(rows);
    assert_eq!(ids(&ordered), [id(1), id(2), id(3)]);
    let rows = vec![commit(1, &[2]), commit(2, &[1])];
    let keys = ids(&rows);
    assert_eq!(emission_order(&rows, &keys), None);
}

#[test]
fn parents_outside_the_history_are_dropped() {
    let rows = vec![commit(2, &[1, 9]), commit(1, &[])];
    let (ordered, _) = compute_lanes(rows);
    assert_eq!(ordered[0].parent_ids, vec![id(1)]);
}

#[test]
fn the_last_occurrence_names_a_duplicated_row() {
    let keys = vec![id(1), id(2), id(1)];
    assert_eq!(last_position(&keys, id(1)), Some(2));
    assert_eq!(last_position(&keys, id(3)), None);
}

#[test]
fn rows_without_a_cycle_always_have_an_order() {
    let rows = vec![commit(1, &[3]), commit(2, &[3]), commit(3, &[]), commit(4, &[1, 9])];
    let keys = ids(&rows);
    let order = emission_order(&rows, &keys).expect("an acyclic history has an order");
    assert_eq!(order.len(), 4);
    let position = |row: usize| order.iter().position(|r| *r == row).unwrap();
    assert!(position(3) < position(0) && position(0) < position(2) && position(1) < position(2));
    let looped = vec![commit(1, &[1])];
    assert_eq!(emission_order(&looped, &ids(&looped)), None, "a row naming itself has no order");
}
