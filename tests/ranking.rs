use tollo::matcher::MIN_SCORE;
use tollo::ranking::rank_positions;

#[test]
fn scores_below_the_floor_are_dropped() {
    let scores = vec![Some(50), Some(51), None, Some(90)];
    let ranks = vec![0, 0, 0, 0];
    assert_eq!(rank_positions(&scores, &ranks, MIN_SCORE, 3), vec![1, 3]);
}

#[test]
fn positions_come_by_rank_then_position() {
    let scores = vec![Some(80), Some(80), Some(80), Some(80)];
    let ranks = vec![2, 0, 2, 1];
    assert_eq!(rank_positions(&scores, &ranks, MIN_SCORE, 2), vec![1, 3, 0, 2]);
}

#[test]
fn ranks_above_the_bound_are_left_out() {
    let scores = vec![Some(80), Some(80)];
    let ranks = vec![5, 1];
    assert_eq!(rank_positions(&scores, &ranks, MIN_SCORE, 3), vec![1]);
    assert!(rank_positions(&Vec::new(), &Vec::new(), MIN_SCORE, 0).is_empty());
}

#[test]
fn bbc_scenario_keeps_input_order_on_equal_ranks() {
    // "BBC News HD [UK]", "CNN International", "BBC One 1080p" against "bbc":
    // both BBC names begin with the query, so both rank 0.
    let scores = vec![Some(72), None, Some(72)];
    let ranks = vec![0, 3, 0];
    assert_eq!(rank_positions(&scores, &ranks, MIN_SCORE, 3), vec![0, 2]);
}
