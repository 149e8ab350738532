use grid_dqn::dqn::{
    compute_targets, ddqn_target, explore_threshold, masked_argmax, should_explore,
    should_sync_target,
};

#[test]
fn double_dqn_target_scenario() {
    // reward 1.0, discount 0.9, target-network value 2.0, in thousandths
    assert_eq!(ddqn_target(1000, 900, false, 2000), 2800);
    assert_eq!(ddqn_target(1000, 900, true, 2000), 1000);
}

#[test]
fn double_dqn_target_negative_value() {
    assert_eq!(ddqn_target(0, 900, false, -2000), -1800);
    assert_eq!(ddqn_target(-500, 1000, false, 700), 200);
    assert_eq!(ddqn_target(-500, 0, false, 700), -500);
}

#[test]
fn masked_argmax_skips_masked() {
    let q = vec![5i64, 9, 7];
    let mask = vec![false, true, false];
    assert_eq!(masked_argmax(&q, &mask), 2);
}

#[test]
fn masked_argmax_breaks_ties_low() {
    let q = vec![3i64, 3, 3];
    let mask = vec![false, false, false];
    assert_eq!(masked_argmax(&q, &mask), 0);
    let mask2 = vec![true, false, false];
    assert_eq!(masked_argmax(&q, &mask2), 1);
}

#[test]
fn masked_argmax_all_legal() {
    let q = vec![1i64, 2, 3, -4];
    let mask = vec![false, false, false, false];
    assert_eq!(masked_argmax(&q, &mask), 2);
}

#[test]
fn compute_targets_scenario() {
    let rewards = vec![1000i64, 500];
    let dones = vec![false, true];
    let masks = vec![vec![false, false, true], vec![false, false, false]];
    let q_next_online = vec![vec![0i64, 2500, 9000], vec![1i64, 2, 3]];
    let q_next_target = vec![vec![0i64, 2000, 0], vec![7i64, 8, 9]];
    let q_pred = vec![1000i64, 400];
    let (targets, errors) = compute_targets(
        &rewards,
        &dones,
        &masks,
        &q_next_online,
        &q_next_target,
        &q_pred,
        900,
    );
    // row one: the masked action 2 is never selected even though its
    // online value is greatest; action 1 is evaluated by the target net
    assert_eq!(targets[0], 1000 + 900 * 2000 / 1000);
    assert_eq!(errors[0], targets[0] - 1000);
    // row two: termination zeroes the bootstrap
    assert_eq!(targets[1], 500);
    assert_eq!(errors[1], 100);
}

#[test]
fn explore_threshold_anneals() {
    assert_eq!(explore_threshold(0, 20000), 800);
    assert_eq!(explore_threshold(10000, 20000), 400);
    assert_eq!(explore_threshold(20000, 20000), 40);
}

#[test]
fn explore_always_during_warmup() {
    assert!(should_explore(999, 100, 500, 20000));
    assert!(!should_explore(999, 19999, 500, 20000));
    assert!(should_explore(0, 19999, 500, 20000));
}

#[test]
fn sync_fires_on_interval() {
    assert!(should_sync_target(499, 500));
    assert!(!should_sync_target(500, 500));
    assert!(should_sync_target(999, 500));
    assert!(!should_sync_target(0, 500));
    assert!(should_sync_target(0, 1));
}
