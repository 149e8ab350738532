use grid_dqn::env::{is_border, GridEnv, GRID_SIZE, MAX_SAME, MAX_TIME, NUM_CHANNELS};

fn at(x: usize, y: usize) -> usize {
    y * GRID_SIZE + x
}

fn empty_env() -> GridEnv {
    GridEnv {
        coins: vec![false; 36],
        pits: vec![false; 36],
        walls: vec![false; 36],
        boxes: vec![false; 36],
        goal_pos: (5, 5),
        agent_pos: (2, 2),
        timer: 0,
        pos_buf: Vec::new(),
    }
}

#[test]
fn border_test() {
    assert!(is_border(-1, 0));
    assert!(is_border(0, -1));
    assert!(is_border(6, 3));
    assert!(is_border(3, 6));
    assert!(!is_border(0, 0));
    assert!(!is_border(5, 5));
}

#[test]
fn reset_layout() {
    let mut e = GridEnv::new();
    e.reset();
    // the border is all walls
    for x in 0..GRID_SIZE {
        assert!(e.walls[at(x, 0)]);
        assert!(e.walls[at(x, 5)]);
        assert!(e.walls[at(0, x)]);
        assert!(e.walls[at(5, x)]);
    }
    // the coin row, an inner wall, the single pit; no boxes anywhere
    assert!(e.coins[at(1, 2)]);
    assert!(e.coins[at(4, 2)]);
    assert!(e.coins[at(1, 3)]);
    assert!(e.coins[at(4, 4)]);
    assert!(e.walls[at(3, 1)]);
    assert!(e.walls[at(3, 3)]);
    assert!(e.pits[at(2, 3)]);
    assert!(!e.pits[at(1, 1)]);
    assert!(e.boxes.iter().all(|&b| !b));
    assert_eq!(e.goal_pos, (4, 1));
    assert_eq!(e.agent_pos, (1, 4));
    assert_eq!(e.timer, 0);
    assert!(e.pos_buf.is_empty());
}

#[test]
fn reset_observation() {
    let mut e = GridEnv::new();
    let obs = e.reset();
    assert_eq!(obs.len(), NUM_CHANNELS * 36);
    // wall layer holds the border wall, goal and agent layers are one-hot
    assert!(obs[2 * 36 + at(0, 0)]);
    assert!(!obs[2 * 36 + at(1, 1)]);
    assert!(obs[4 * 36 + at(4, 1)]);
    assert!(!obs[4 * 36 + at(0, 0)]);
    assert!(obs[5 * 36 + at(1, 4)]);
    assert_eq!(obs.iter().skip(4 * 36).take(36).filter(|&&b| b).count(), 1);
    assert_eq!(obs.iter().skip(5 * 36).filter(|&&b| b).count(), 1);
}

#[test]
fn wall_bump_leaves_agent() {
    let mut e = GridEnv::new();
    e.reset();
    let coins_before = e.coins.clone();
    let boxes_before = e.boxes.clone();
    let (_obs, reward, done, trunc) = e.step(0);
    assert_eq!(e.agent_pos, (1, 4));
    assert_eq!(reward, -1);
    assert!(!done);
    assert!(!trunc);
    assert_eq!(e.coins, coins_before);
    assert_eq!(e.boxes, boxes_before);
}

#[test]
fn box_push_moves_box() {
    let mut e = empty_env();
    e.boxes[at(3, 2)] = true;
    let (_obs, reward, done, _trunc) = e.step(1);
    assert_eq!(e.agent_pos, (3, 2));
    assert!(!e.boxes[at(3, 2)]);
    assert!(e.boxes[at(4, 2)]);
    assert_eq!(reward, -1);
    assert!(!done);
}

#[test]
fn box_push_into_box_cancelled() {
    let mut e = empty_env();
    e.boxes[at(3, 2)] = true;
    e.boxes[at(4, 2)] = true;
    let (_obs, reward, done, _trunc) = e.step(1);
    assert_eq!(e.agent_pos, (2, 2));
    assert!(e.boxes[at(3, 2)]);
    assert!(e.boxes[at(4, 2)]);
    assert_eq!(reward, -1);
    assert!(!done);
}

#[test]
fn box_push_into_wall_cancelled() {
    let mut e = empty_env();
    e.boxes[at(3, 2)] = true;
    e.walls[at(4, 2)] = true;
    let (_obs, reward, _done, _trunc) = e.step(1);
    assert_eq!(e.agent_pos, (2, 2));
    assert!(e.boxes[at(3, 2)]);
    assert_eq!(reward, -1);
}

#[test]
fn box_push_off_grid_cancelled() {
    let mut e = empty_env();
    e.agent_pos = (4, 2);
    e.boxes[at(5, 2)] = true;
    let (_obs, reward, _done, _trunc) = e.step(1);
    assert_eq!(e.agent_pos, (4, 2));
    assert!(e.boxes[at(5, 2)]);
    assert_eq!(reward, -1);
}

#[test]
fn coin_consumed_once() {
    let mut e = empty_env();
    e.coins[at(3, 2)] = true;
    let (_obs, reward, done, _trunc) = e.step(1);
    assert_eq!(e.agent_pos, (3, 2));
    assert_eq!(reward, 99);
    assert!(!done);
    assert!(!e.coins[at(3, 2)]);
}

#[test]
fn goal_terminates_with_goal_reward() {
    let mut e = empty_env();
    e.agent_pos = (5, 4);
    let (_obs, reward, done, _trunc) = e.step(3);
    assert_eq!(e.agent_pos, (5, 5));
    assert_eq!(reward, 999);
    assert!(done);
}

#[test]
fn goal_beats_pit_no_double_count() {
    let mut e = empty_env();
    e.goal_pos = (3, 2);
    e.pits[at(3, 2)] = true;
    let (_obs, reward, done, _trunc) = e.step(1);
    assert_eq!(reward, 999);
    assert!(done);
}

#[test]
fn pit_terminates_with_penalty() {
    let mut e = empty_env();
    e.pits[at(3, 2)] = true;
    let (_obs, reward, done, _trunc) = e.step(1);
    assert_eq!(e.agent_pos, (3, 2));
    assert_eq!(reward, -1001);
    assert!(done);
}

#[test]
fn truncation_by_timer() {
    let mut e = empty_env();
    // alternate left and right so the stuck detector never fires
    for k in 0..MAX_TIME as usize {
        let action = if k % 2 == 0 { 0 } else { 1 };
        let (_obs, _reward, done, trunc) = e.step(action);
        assert!(!done);
        if k + 1 < MAX_TIME as usize {
            assert!(!trunc, "no truncation before the time limit");
        } else {
            assert!(trunc, "the time limit truncates the episode");
        }
    }
    assert_eq!(e.timer, MAX_TIME);
}

#[test]
fn truncation_by_standing_still() {
    let mut e = GridEnv::new();
    e.reset();
    // bumping the wall on the left keeps the agent at (1, 4)
    for k in 0..MAX_SAME {
        let (_obs, _reward, _done, trunc) = e.step(0);
        assert!(!trunc, "step {} must not truncate yet", k + 1);
    }
    let (_obs, _reward, _done, trunc) = e.step(0);
    assert!(trunc, "the position history is now all the same spot");
}

#[test]
fn get_empty_respects_grid_and_taken() {
    let mut ref_grid = vec![3u32; 36];
    ref_grid[at(1, 1)] = 0;
    ref_grid[at(2, 1)] = 0;
    let taken = vec![(1usize, 1usize)];
    for _ in 0..20 {
        let p = grid_dqn::env::get_empty(&ref_grid, &taken);
        assert_eq!(p, (2, 1));
    }
    let none_taken: Vec<(usize, usize)> = Vec::new();
    for _ in 0..20 {
        let p = grid_dqn::env::get_empty(&ref_grid, &none_taken);
        assert!(p == (1, 1) || p == (2, 1));
    }
}

#[test]
fn render_draws_every_feature() {
    let mut e = GridEnv::new();
    e.reset();
    let chars = e.render();
    assert_eq!(chars.len(), 42);
    for y in 0..6 {
        assert_eq!(chars[y * 7 + 6], '\n');
    }
    assert_eq!(chars[0], '*');
    assert_eq!(chars[2 * 7 + 1], '@');
    assert_eq!(chars[3 * 7 + 2], '!');
    assert_eq!(chars[1 * 7 + 4], 'G');
    assert_eq!(chars[4 * 7 + 1], 'A');
    assert_eq!(chars[1 * 7 + 1], ' ');
}
