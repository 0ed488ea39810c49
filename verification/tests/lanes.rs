use gix_tix::lanes::transition;

#[test]
fn a_transition_spans_the_columns_before_after_and_of_the_row() {
    let mut cells = Vec::new();
    let mut out: Vec<char> = "x".chars().collect();
    let range = transition(1, 1, 2, &vec![(0, 0), (2, 0)], &mut cells, &mut out);
    assert_eq!(range, (1, 7));
    assert_eq!(out.iter().collect::<String>(), "x├───● ");
}

#[test]
fn edges_may_reach_past_the_columns_before_and_after() {
    let mut cells = Vec::new();
    let mut out = Vec::new();
    let range = transition(0, 2, 1, &vec![(1, 0), (1, 1)], &mut cells, &mut out);
    assert_eq!(range, (0, 4));
    assert_eq!(out.iter().collect::<String>(), "┌─● ");
}
