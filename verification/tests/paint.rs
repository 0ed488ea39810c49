use gix_tix::ids::ObjectId;
use gix_tix::paint::{GraphCommit, HistoryGraph};

fn id(n: u32) -> ObjectId {
    ObjectId::from_low(n)
}

fn graph(commits: &[(u32, Vec<u32>, u32)]) -> HistoryGraph {
    let mut graph = HistoryGraph::new();
    for (n, parents, generation) in commits {
        graph.insert(GraphCommit {
            id: id(*n),
            parents: parents.iter().map(|p| id(*p)).collect(),
            commit_time: (*generation).into(),
            generation: Some(*generation),
        });
    }
    graph
}

#[test]
fn paints_criss_cross_relations_from_cached_parents() {
    let graph = graph(&[
        (1, vec![], 1),
        (2, vec![1], 2),
        (3, vec![1], 2),
        (4, vec![2, 3], 3),
        (5, vec![3, 2], 3),
        (6, vec![4], 4),
        (7, vec![5], 4),
    ]);

    assert_eq!(
        graph.paint(id(6), &vec![id(7)]),
        Some((2, 2)),
        "both merge tips stop at the shared criss-cross ancestry"
    );
}

#[test]
fn painting_needs_every_commit_in_the_graph() {
    let graph = graph(&[(1, vec![], 1), (2, vec![1], 2)]);
    assert_eq!(graph.paint(id(3), &vec![id(1)]), None);
    assert_eq!(graph.paint(id(2), &vec![id(1), id(9)]), None);
    assert_eq!(graph.paint(id(2), &vec![]), Some((2, 0)), "without others every reachable commit is ahead");
}

#[test]
fn a_linear_history_is_ahead_by_its_distance() {
    let graph = graph(&[(1, vec![], 1), (2, vec![1], 2), (3, vec![2], 3), (4, vec![3], 4)]);
    assert_eq!(graph.paint(id(4), &vec![id(2)]), Some((2, 0)));
    assert_eq!(graph.paint(id(2), &vec![id(4)]), Some((0, 2)));
    assert_eq!(graph.paint(id(3), &vec![id(3)]), Some((0, 0)));
}

#[test]
fn parents_outside_the_graph_are_not_counted() {
    let graph = graph(&[(2, vec![1], 2), (3, vec![1], 2)]);
    assert_eq!(graph.paint(id(2), &vec![id(3)]), Some((1, 1)));
}

#[test]
fn inserting_a_known_commit_replaces_it() {
    let mut graph = graph(&[(1, vec![], 1), (2, vec![], 2)]);
    graph.insert(GraphCommit { id: id(2), parents: vec![id(1)], commit_time: 2, generation: Some(2) });
    assert_eq!(graph.commits.len(), 2);
    assert_eq!(graph.paint(id(2), &vec![id(1)]), Some((1, 0)));
}

use gix_tix::app::SelectionRelation;
use gix_tix::paint::SelectionRef;

fn reference(name: &str, upstream: Option<Option<u32>>) -> SelectionRef {
    SelectionRef { name: name.as_bytes().to_vec(), upstream: upstream.map(|u| u.map(id)) }
}

#[test]
fn selection_relation_prefers_tracking_counts_and_remembers_them() {
    let mut graph = graph(&[(1, vec![], 1), (2, vec![1], 2), (3, vec![2], 3), (4, vec![2], 3)]);
    let refs = vec![reference("topic", Some(None)), reference("main", Some(Some(4)))];
    assert_eq!(
        graph.selection_relation(id(3), &refs, &vec![id(1)]),
        Some(SelectionRelation::Tracking { ahead: 1, behind: 1 })
    );
    assert_eq!(graph.relations.len(), 1, "the painted counts are remembered");
    assert_eq!(
        graph.selection_relation(id(3), &refs, &vec![]),
        Some(SelectionRelation::Tracking { ahead: 1, behind: 1 })
    );
    assert_eq!(graph.relations.len(), 1, "remembered counts are not painted again");
}

#[test]
fn selection_relation_counts_visible_commits_only_without_upstreams() {
    let mut graph = graph(&[(1, vec![], 1), (2, vec![1], 2), (3, vec![2], 3)]);
    let plain = vec![reference("topic", None)];
    assert_eq!(graph.selection_relation(id(3), &plain, &vec![id(1)]), Some(SelectionRelation::Visible(2)));
    assert_eq!(graph.selection_relation(id(3), &plain, &vec![]), None, "nothing is hidden");
    assert_eq!(graph.selection_relation(id(3), &vec![], &vec![id(1)]), None, "no reference points at the commit");
    let unresolved = vec![reference("topic", Some(None))];
    assert_eq!(graph.selection_relation(id(3), &unresolved, &vec![id(1)]), None, "a missing upstream relates nothing");
    let missing = vec![reference("topic", Some(Some(9)))];
    assert_eq!(graph.selection_relation(id(3), &missing, &vec![id(1)]), None, "an upstream outside the graph");
}

use gix_tix::history::DecorationKind;
use gix_tix::paint::Decoration;

#[test]
fn selection_refs_sort_by_name_and_take_upstreams_of_local_branches() {
    let mut graph = graph(&[(1, vec![], 1)]);
    graph.tracking.push((id(1), vec![reference("main", Some(Some(7))), reference("topic", Some(None))]));
    let decorations = vec![
        (id(2), vec![Decoration { name: b"elsewhere".to_vec(), kind: DecorationKind::Local }]),
        (
            id(1),
            vec![
                Decoration { name: b"topic".to_vec(), kind: DecorationKind::Local },
                Decoration { name: b"origin/main".to_vec(), kind: DecorationKind::Remote },
                Decoration { name: b"main".to_vec(), kind: DecorationKind::Local },
                Decoration { name: b"HEAD".to_vec(), kind: DecorationKind::Head },
                Decoration { name: b"main".to_vec(), kind: DecorationKind::Tag },
            ],
        ),
    ];
    let refs = graph.selection_refs(id(1), &decorations);
    assert_eq!(
        refs,
        vec![
            reference("HEAD", None),
            reference("main", None),
            reference("main", Some(Some(7))),
            reference("origin/main", None),
            reference("topic", Some(None)),
        ]
    );
    assert!(graph.selection_refs(id(3), &decorations).is_empty());
}

use gix_tix::paint::visible_decorations_changed;

fn row(n: u32) -> gix_tix::commit::CommitRow {
    gix_tix::commit::CommitRow {
        id: id(n),
        parent_ids: Vec::new(),
        committer_time: gix_tix::commit::Time::zero(),
        author: gix_tix::author::Author::new(b"a".to_vec(), b"a@example.com".to_vec()),
        attributions: gix_tix::commit::Span::new(0, 0),
        title: gix_tix::commit::Span::new(0, 0),
        metadata_loaded: true,
        has_agent_marker: false,
        signature: gix_tix::commit::SignatureState::Unsigned,
    }
}

fn local(name: &str) -> Decoration {
    Decoration { name: name.as_bytes().to_vec(), kind: DecorationKind::Local }
}

#[test]
fn only_decorations_of_visible_rows_count_as_changes() {
    let rows = vec![row(1), row(2)];
    let old = vec![(id(1), vec![local("main")]), (id(9), vec![local("gone")])];
    let hidden_change = vec![(id(1), vec![local("main")])];
    assert!(!visible_decorations_changed(&old, &hidden_change, &rows), "a ref of a hidden commit is ignored");
    let moved = vec![(id(2), vec![local("main")])];
    assert!(visible_decorations_changed(&old, &moved, &rows), "a ref moving between visible rows is a change");
    let renamed = vec![(id(1), vec![local("topic")])];
    assert!(visible_decorations_changed(&old, &renamed, &rows), "a renamed ref is a change");
    let retyped = vec![(id(1), vec![Decoration { name: b"main".to_vec(), kind: DecorationKind::Tag }])];
    assert!(visible_decorations_changed(&old, &retyped, &rows), "a changed kind is a change");
    let emptied = vec![(id(1), Vec::new())];
    assert!(visible_decorations_changed(&old, &emptied, &rows), "an emptied list differs from a full one");
    assert!(!visible_decorations_changed(&old, &old, &Vec::new()), "nothing visible, nothing changed");
}
