//! The decision core of the double-DQN training loop: masked action
//! selection, bootstrapped target computation, TD errors, and the
//! exploration and synchronization schedules.
//!
//! Q-values, rewards and the discount are fixed-point integers in
//! thousandths of a unit.

use vstd::arithmetic::div_mod::lemma_div_is_ordered;
use vstd::prelude::*;

verus! {

/// One whole unit in the fixed-point encoding of Q-values, rewards and
/// the discount.
pub const FIXED_SCALE: i64 = 1000;

/// The largest magnitude, in thousandths, that rewards and Q-values
/// handed to the target computation may have.
pub const VALUE_BOUND: i64 = 1000000000;

/// The starting epsilon of the epsilon-greedy rollout policy, in
/// thousandths.
pub const EPSILON_START_PERMILLE: u64 = 800;

/// The floor the annealed epsilon never goes below, in thousandths.
pub const EPSILON_FLOOR_PERMILLE: u64 = 50;

/// The running state of a left-to-right argmax scan that has covered
/// the first `i` entries: `best` is -1 while no legal entry was seen,
/// else the first legal index holding the greatest value so far.
pub open spec fn argmax_from(q: Seq<i64>, mask: Seq<bool>, i: int, best: int) -> int
    decreases q.len() - i,
{
    if i >= q.len() {
        best
    } else if !mask[i] && (best < 0 || q[i] > q[best]) {
        argmax_from(q, mask, i + 1, i)
    } else {
        argmax_from(q, mask, i + 1, best)
    }
}

/// The index the masked argmax selects: the first legal index holding
/// the greatest value among legal indices, and -1 when every action is
/// masked.
pub open spec fn masked_argmax_spec(q: Seq<i64>, mask: Seq<bool>) -> int {
    argmax_from(q, mask, 0, -1)
}

proof fn lemma_argmax_from_props(q: Seq<i64>, mask: Seq<bool>, i: int, best: int)
    requires
        q.len() == mask.len(),
        0 <= i <= q.len(),
        best == -1 || (0 <= best < i && !mask[best]),
        best == -1 ==> forall|j: int| 0 <= j < i ==> mask[j],
        best >= 0 ==> forall|j: int| 0 <= j < i && !mask[j] ==> q[j] <= q[best],
        best >= 0 ==> forall|j: int| 0 <= j < best && !mask[j] ==> q[j] < q[best],
    ensures
        (best >= 0 || exists|j: int| i <= j < q.len() && !mask[j]) ==> ({
            let a = argmax_from(q, mask, i, best);
            &&& 0 <= a < q.len()
            &&& !mask[a]
            &&& forall|j: int| 0 <= j < q.len() && !mask[j] ==> q[j] <= q[a]
            &&& forall|j: int| 0 <= j < a && !mask[j] ==> q[j] < q[a]
        }),
    decreases q.len() - i,
{
    if i < q.len() {
        if !mask[i] && (best < 0 || q[i] > q[best]) {
            lemma_argmax_from_props(q, mask, i + 1, i);
        } else {
            lemma_argmax_from_props(q, mask, i + 1, best);
        }
    }
}

/// The masked argmax never selects a masked action: whenever some
/// action is legal, it yields the first legal index whose value is
/// greatest among legal indices.
pub proof fn lemma_masked_argmax_legal(q: Seq<i64>, mask: Seq<bool>)
    requires
        q.len() == mask.len(),
        exists|j: int| 0 <= j < mask.len() && !mask[j],
    ensures
        ({
            let a = masked_argmax_spec(q, mask);
            &&& 0 <= a < q.len()
            &&& !mask[a]
            &&& forall|j: int| 0 <= j < q.len() && !mask[j] ==> q[j] <= q[a]
            &&& forall|j: int| 0 <= j < a && !mask[j] ==> q[j] < q[a]
        }),
{
    lemma_argmax_from_props(q, mask, 0, -1);
}

/// Selects the action with the greatest Q-value among the legal ones,
/// ties resolved toward the lowest index; masked actions are never
/// selected, however their values compare.
pub fn masked_argmax(q_vals: &Vec<i64>, mask: &Vec<bool>) -> (r: usize)
    requires
        q_vals@.len() == mask@.len(),
        exists|j: int| 0 <= j < mask@.len() && !mask@[j],
    ensures
        r as int == masked_argmax_spec(q_vals@, mask@),
        r < mask@.len(),
        !mask@[r as int],
        forall|j: int|
            0 <= j < q_vals@.len() && !mask@[j] ==> q_vals@[j] <= q_vals@[r as int],
        forall|j: int| 0 <= j < r && !mask@[j] ==> q_vals@[j] < q_vals@[r as int],
{
    let mut i: usize = 0;
    let mut best: usize = 0;
    let mut found: bool = false;
    while i < q_vals.len()
        invariant
            i <= q_vals@.len(),
            q_vals@.len() == mask@.len(),
            masked_argmax_spec(q_vals@, mask@) == argmax_from(
                q_vals@,
                mask@,
                i as int,
                if found {
                    best as int
                } else {
                    -1
                },
            ),
            !found ==> forall|j: int| 0 <= j < i ==> mask@[j],
            found ==> best < i && !mask@[best as int],
        decreases q_vals@.len() - i,
    {
        if !mask[i] && (!found || q_vals[i] > q_vals[best]) {
            best = i;
            found = true;
        }
        i += 1;
    }
    proof {
        if !found {
            let j = choose|j: int| 0 <= j < mask@.len() && !mask@[j];
            assert(mask@[j]);
        }
        lemma_masked_argmax_legal(q_vals@, mask@);
    }
    best
}

/// The double-DQN bootstrapped target, in thousandths: the reward plus
/// the discounted next-state value, rounded toward zero, with the
/// bootstrap zeroed exactly on true termination — truncation does not
/// zero it.
pub open spec fn ddqn_target_spec(reward: int, discount: int, done: bool, next_q: int) -> int {
    if done {
        reward
    } else if next_q >= 0 {
        reward + discount * next_q / (FIXED_SCALE as int)
    } else {
        reward - discount * (-next_q) / (FIXED_SCALE as int)
    }
}

/// Computes the double-DQN target `reward + discount * next_q` in
/// fixed point, zeroing the bootstrap exactly when `done` holds.
pub fn ddqn_target(reward: i64, discount: i64, done: bool, next_q: i64) -> (r: i64)
    requires
        0 <= discount <= FIXED_SCALE,
        -VALUE_BOUND <= reward <= VALUE_BOUND,
        -VALUE_BOUND <= next_q <= VALUE_BOUND,
    ensures
        r as int == ddqn_target_spec(reward as int, discount as int, done, next_q as int),
        done ==> r == reward,
        -2 * VALUE_BOUND <= r <= 2 * VALUE_BOUND,
    {
    if done {
        reward
    } else {
        let d = discount as u64;
        let mag: u64 = if next_q >= 0 {
            next_q as u64
        } else {
            (-next_q) as u64
        };
        proof {
            assert(d * mag <= 1000000000000) by (nonlinear_arith)
                requires
                    d <= 1000,
                    mag <= 1000000000,
            ;
        }
        let prod = d * mag;
        let scaled = prod / (FIXED_SCALE as u64);
        proof {
            lemma_div_is_ordered(prod as int, 1000000000000, FIXED_SCALE as int);
        }
        if next_q >= 0 {
            reward + (scaled as i64)
        } else {
            reward - (scaled as i64)
        }
    }
}

/// One training iteration's decisions on plain values: for each sampled
/// transition, select the next action by the online network's masked
/// argmax, evaluate that action with the target network, form the
/// bootstrapped target, and return the targets together with the TD
/// errors against the online predictions.
pub fn compute_targets(
    rewards: &Vec<i64>,
    dones: &Vec<bool>,
    masks: &Vec<Vec<bool>>,
    q_next_online: &Vec<Vec<i64>>,
    q_next_target: &Vec<Vec<i64>>,
    q_pred: &Vec<i64>,
    discount: i64,
) -> (r: (Vec<i64>, Vec<i64>))
    requires
        dones@.len() == rewards@.len(),
        masks@.len() == rewards@.len(),
        q_next_online@.len() == rewards@.len(),
        q_next_target@.len() == rewards@.len(),
        q_pred@.len() == rewards@.len(),
        0 <= discount <= FIXED_SCALE,
        forall|k: int|
            0 <= k < rewards@.len() ==> -VALUE_BOUND <= #[trigger] rewards@[k] <= VALUE_BOUND,
        forall|k: int|
            0 <= k < rewards@.len() ==> -VALUE_BOUND <= #[trigger] q_pred@[k] <= VALUE_BOUND,
        forall|k: int|
            #![trigger masks@[k]]
            0 <= k < rewards@.len() ==> {
                &&& q_next_online@[k]@.len() == masks@[k]@.len()
                &&& q_next_target@[k]@.len() == masks@[k]@.len()
                &&& exists|j: int| 0 <= j < masks@[k]@.len() && !masks@[k]@[j]
            },
        forall|k: int, j: int|
            0 <= k < rewards@.len() && 0 <= j < q_next_target@[k]@.len() ==> -VALUE_BOUND
                <= #[trigger] q_next_target@[k]@[j] <= VALUE_BOUND,
    ensures
        r.0@.len() == rewards@.len(),
        r.1@.len() == rewards@.len(),
        forall|k: int|
            #![trigger r.0@[k]]
            0 <= k < rewards@.len() ==> {
                let a = masked_argmax_spec(q_next_online@[k]@, masks@[k]@);
                &&& r.0@[k] == ddqn_target_spec(
                    rewards@[k] as int,
                    discount as int,
                    dones@[k],
                    q_next_target@[k]@[a] as int,
                )
                &&& r.1@[k] == r.0@[k] - q_pred@[k]
            },
{
    let batch = rewards.len();
    let mut targets: Vec<i64> = Vec::new();
    let mut errors: Vec<i64> = Vec::new();
    let mut k: usize = 0;
    while k < batch
        invariant
            k <= batch,
            batch == rewards@.len(),
            dones@.len() == rewards@.len(),
            masks@.len() == rewards@.len(),
            q_next_online@.len() == rewards@.len(),
            q_next_target@.len() == rewards@.len(),
            q_pred@.len() == rewards@.len(),
            0 <= discount <= FIXED_SCALE,
            forall|c: int|
                0 <= c < rewards@.len() ==> -VALUE_BOUND <= #[trigger] rewards@[c] <= VALUE_BOUND,
            forall|c: int|
                0 <= c < rewards@.len() ==> -VALUE_BOUND <= #[trigger] q_pred@[c] <= VALUE_BOUND,
            forall|c: int|
                #![trigger masks@[c]]
                0 <= c < rewards@.len() ==> {
                    &&& q_next_online@[c]@.len() == masks@[c]@.len()
                    &&& q_next_target@[c]@.len() == masks@[c]@.len()
                    &&& exists|j: int| 0 <= j < masks@[c]@.len() && !masks@[c]@[j]
                },
            forall|c: int, j: int|
                0 <= c < rewards@.len() && 0 <= j < q_next_target@[c]@.len() ==> -VALUE_BOUND
                    <= #[trigger] q_next_target@[c]@[j] <= VALUE_BOUND,
            targets@.len() == k,
            errors@.len() == k,
            forall|c: int|
                #![trigger targets@[c]]
                0 <= c < k ==> {
                    let a = masked_argmax_spec(q_next_online@[c]@, masks@[c]@);
                    &&& targets@[c] == ddqn_target_spec(
                        rewards@[c] as int,
                        discount as int,
                        dones@[c],
                        q_next_target@[c]@[a] as int,
                    )
                    &&& errors@[c] == targets@[c] - q_pred@[c]
                },
        decreases batch - k,
    {
        let a = masked_argmax(&q_next_online[k], &masks[k]);
        let t = ddqn_target(rewards[k], discount, dones[k], q_next_target[k][a]);
        targets.push(t);
        errors.push(t - q_pred[k]);
        k += 1;
    }
    (targets, errors)
}

/// The exploration threshold after `step` of `total` training
/// iterations, in thousandths: the starting epsilon scaled by the
/// remaining fraction of training, never below the floor.
pub open spec fn explore_threshold_spec(step: u64, total: u64) -> int
    recommends
        total > 0,
{
    let done_permille = step * 1000 / (total as int);
    let rem = if done_permille >= 1000 {
        0int
    } else {
        1000 - done_permille
    };
    let floored = if rem < EPSILON_FLOOR_PERMILLE {
        EPSILON_FLOOR_PERMILLE as int
    } else {
        rem
    };
    EPSILON_START_PERMILLE * floored / 1000
}

/// The annealed epsilon of the rollout policy, in thousandths.
pub fn explore_threshold(step: u64, total_iterations: u64) -> (r: u64)
    requires
        total_iterations > 0,
        step <= u64::MAX / 1000,
    ensures
        r as int == explore_threshold_spec(step, total_iterations),
{
    let done_permille = step * 1000 / total_iterations;
    let rem: u64 = if done_permille >= 1000 {
        0
    } else {
        1000 - done_permille
    };
    let floored: u64 = if rem < EPSILON_FLOOR_PERMILLE {
        EPSILON_FLOOR_PERMILLE
    } else {
        rem
    };
    EPSILON_START_PERMILLE * floored / 1000
}

/// Whether the rollout picks a random action: always during the
/// warmup, and otherwise exactly when the drawn thousandth falls under
/// the annealed epsilon threshold.
pub fn should_explore(
    draw_permille: u64,
    step: u64,
    warmup_steps: u64,
    total_iterations: u64,
) -> (r: bool)
    requires
        total_iterations > 0,
        step <= u64::MAX / 1000,
    ensures
        r == (step < warmup_steps || (draw_permille as int) < explore_threshold_spec(
            step,
            total_iterations,
        )),
{
    step < warmup_steps || draw_permille < explore_threshold(step, total_iterations)
}

/// Whether this environment step ends with a hard copy of the online
/// parameters into the target network's parameter set.
pub fn should_sync_target(step: u64, interval: u64) -> (r: bool)
    requires
        interval > 0,
        step < u64::MAX,
    ensures
        r == (((step + 1) as int) % (interval as int) == 0),
{
    (step + 1) % interval == 0
}

} // verus!
