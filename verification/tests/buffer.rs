use grid_dqn::replay_buffer::{ReplayBuffer, INITIAL_MAX_PRIORITY, PRIORITY_EPSILON};

fn insert_one(b: &mut ReplayBuffer, reward: i64) {
    let states = vec![vec![false; 216]];
    let next_states = vec![vec![true; 216]];
    let actions = vec![0u32];
    let rewards = vec![reward];
    let dones = vec![false];
    let masks = vec![vec![false; 4]];
    b.insert_step(&states, &next_states, &actions, &rewards, &dones, &masks);
}

#[test]
fn buffer_growth_and_wrap() {
    let mut b = ReplayBuffer::new(4);
    assert_eq!(b.rewards.len(), 0);
    assert!(!b.filled);
    for k in 0..4 {
        insert_one(&mut b, k as i64);
        if k < 3 {
            assert_eq!(b.rewards.len(), k + 1);
            assert_eq!(b.next, k + 1);
            assert!(!b.filled);
        }
    }
    assert!(b.filled);
    assert_eq!(b.next, 0);
    assert_eq!(b.rewards.len(), 4);
    insert_one(&mut b, 9);
    assert_eq!(b.rewards.len(), 4);
    assert_eq!(b.next, 1);
    assert!(b.filled);
}

#[test]
fn buffer_overwrite_scenario() {
    let mut b = ReplayBuffer::new(4);
    for r in 1..=6i64 {
        insert_one(&mut b, r);
    }
    assert_eq!(b.rewards, vec![5, 6, 3, 4]);
    assert!(b.filled);
    assert_eq!(b.next, 2);
}

#[test]
fn buffer_priorities_positive() {
    let mut b = ReplayBuffer::new(3);
    for r in 0..5i64 {
        insert_one(&mut b, r);
    }
    b.update_errors(&vec![0, 2], &vec![0, -7]);
    for &p in &b.priorities {
        assert!(p > 0);
    }
    assert!(b.max_priority > 0);
}

#[test]
fn buffer_insert_seeds_max_priority() {
    let mut b = ReplayBuffer::new(4);
    insert_one(&mut b, 1);
    assert_eq!(b.priorities, vec![INITIAL_MAX_PRIORITY]);
    b.update_errors(&vec![0], &vec![50000]);
    assert_eq!(b.priorities, vec![50000 + PRIORITY_EPSILON]);
    assert_eq!(b.max_priority, 50000 + PRIORITY_EPSILON);
    insert_one(&mut b, 2);
    assert_eq!(b.priorities[1], 50000 + PRIORITY_EPSILON);
}

#[test]
fn update_errors_magnitude_and_epsilon() {
    let mut b = ReplayBuffer::new(2);
    insert_one(&mut b, 1);
    insert_one(&mut b, 2);
    b.update_errors(&vec![0, 1], &vec![-300, 0]);
    assert_eq!(b.priorities, vec![301, 1]);
}

#[test]
fn update_errors_idempotent_concrete() {
    let mut once = ReplayBuffer::new(3);
    for r in 0..3i64 {
        insert_one(&mut once, r);
    }
    let indices = vec![0usize, 2, 0];
    let errors = vec![40i64, -25000, 12];
    once.update_errors(&indices, &errors);
    let mut twice = ReplayBuffer::new(3);
    for r in 0..3i64 {
        insert_one(&mut twice, r);
    }
    twice.update_errors(&indices, &errors);
    twice.update_errors(&indices, &errors);
    assert_eq!(once.priorities, twice.priorities);
    assert_eq!(once.max_priority, twice.max_priority);
}

#[test]
fn update_errors_max_priority_monotonic() {
    let mut b = ReplayBuffer::new(2);
    insert_one(&mut b, 1);
    insert_one(&mut b, 2);
    let before = b.max_priority;
    b.update_errors(&vec![0], &vec![2]);
    assert!(b.max_priority >= before);
    assert_eq!(b.max_priority, before);
    b.update_errors(&vec![1], &vec![1_000_000]);
    assert!(b.max_priority > before);
}

#[test]
fn sample_after_fill() {
    let mut b = ReplayBuffer::new(4);
    for r in 1..=4i64 {
        insert_one(&mut b, r);
    }
    assert!(b.filled);
    let s = b.sample(4);
    assert_eq!(s.indices.len(), 4);
    let mut seen = vec![false; 4];
    for (k, &i) in s.indices.iter().enumerate() {
        assert!(i < 4);
        assert!(!seen[i], "indices must be distinct");
        seen[i] = true;
        assert_eq!(s.rewards[k], b.rewards[i]);
        assert_eq!(s.weights[k], b.priorities[i]);
        assert_eq!(s.states[k], b.states[i]);
        assert_eq!(s.next_states[k], b.next_states[i]);
        assert_eq!(s.actions[k], b.actions[i]);
        assert_eq!(s.dones[k], b.dones[i]);
        assert_eq!(s.masks[k], b.masks[i]);
    }
    let total: u64 = b.priorities.iter().sum();
    assert_eq!(s.total_weight, total);
}

#[test]
fn sample_smaller_batch_distinct() {
    let mut b = ReplayBuffer::new(8);
    for r in 0..8i64 {
        insert_one(&mut b, r);
    }
    b.update_errors(&vec![3], &vec![10_000_000]);
    let s = b.sample(3);
    assert_eq!(s.indices.len(), 3);
    for k1 in 0..3 {
        for k2 in (k1 + 1)..3 {
            assert_ne!(s.indices[k1], s.indices[k2]);
        }
    }
}
