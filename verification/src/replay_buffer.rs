//! A replay buffer for use with off-policy algorithms: a fixed-capacity
//! circular store of transitions with priority-weighted sampling and
//! TD-error-driven priority updates.
//!
//! Priorities are fixed-point integers in hundred-thousandths of a unit,
//! so the epsilon floor of one hundred-thousandth is the integer 1.

use vstd::arithmetic::div_mod::lemma_mod_bound;
use vstd::arithmetic::div_mod::lemma_mod_sub_multiples_vanish;
use vstd::arithmetic::div_mod::lemma_small_mod;
use vstd::prelude::*;

use crate::env::State;

verus! {

/// The floor added to every updated priority, in hundred-thousandths.
pub const PRIORITY_EPSILON: u64 = 1;

/// The priority given to the first transitions, in hundred-thousandths.
pub const INITIAL_MAX_PRIORITY: u64 = 10000;

/// Stores transitions and generates mini batches.
pub struct ReplayBuffer {
    pub capacity: usize,
    /// Write cursor: the slot the next transition lands in.
    pub next: usize,
    pub states: Vec<State>,
    pub next_states: Vec<State>,
    pub actions: Vec<u32>,
    pub rewards: Vec<i64>,
    /// Termination flags; truncation is not stored here.
    pub dones: Vec<bool>,
    pub masks: Vec<Vec<bool>>,
    pub priorities: Vec<u64>,
    /// True once the write cursor has wrapped; gates sampling.
    pub filled: bool,
    /// Seeds newly inserted transitions; never decreases.
    pub max_priority: u64,
}

/// Copies a vector of flags.
fn copy_bools(v: &Vec<bool>) -> (r: Vec<bool>)
    ensures
        r@ == v@,
{
    let mut r: Vec<bool> = Vec::new();
    let mut i: usize = 0;
    while i < v.len()
        invariant
            i <= v@.len(),
            r@ == v@.take(i as int),
        decreases v@.len() - i,
    {
        r.push(v[i]);
        proof {
            assert(r@ =~= v@.take(i + 1));
        }
        i += 1;
    }
    proof {
        assert(v@.take(v@.len() as int) =~= v@);
    }
    r
}

/// Where the k-th transition of a batch lands: the write cursor advanced
/// by k, wrapped around the capacity.
pub open spec fn slot_of(next: int, cap: int, k: int) -> int {
    (next + k) % cap
}

/// The wrapped cursor written out: within one lap it either stays below
/// the capacity or comes back down by exactly one capacity.
proof fn lemma_slot_formula(next: int, cap: int, k: int)
    requires
        0 < cap,
        0 <= next < cap,
        0 <= k <= cap,
    ensures
        slot_of(next, cap, k) == if next + k < cap {
            next + k
        } else {
            next + k - cap
        },
        0 <= slot_of(next, cap, k) < cap,
{
    if next + k < cap {
        lemma_small_mod((next + k) as nat, cap as nat);
    } else {
        lemma_mod_sub_multiples_vanish(next + k, cap);
        lemma_small_mod((next + k - cap) as nat, cap as nat);
    }
}


/// The priority a TD error maps to: its magnitude plus the epsilon
/// floor, so it is always positive.
pub open spec fn priority_of(e: i64) -> u64 {
    ((if e >= 0 {
        e as int
    } else {
        -(e as int)
    }) + PRIORITY_EPSILON) as u64
}

/// The priorities and the maximum priority after the first `n` pairs of
/// an update are applied in order.
pub open spec fn updated_priorities(
    prios: Seq<u64>,
    maxp: u64,
    indices: Seq<usize>,
    errors: Seq<i64>,
    n: int,
) -> (Seq<u64>, u64)
    decreases n,
{
    if n <= 0 {
        (prios, maxp)
    } else {
        let prev = updated_priorities(prios, maxp, indices, errors, n - 1);
        let np = priority_of(errors[n - 1]);
        (
            prev.0.update(indices[n - 1] as int, np),
            if np > prev.1 {
                np
            } else {
                prev.1
            },
        )
    }
}

proof fn lemma_updated_len(
    prios: Seq<u64>,
    maxp: u64,
    indices: Seq<usize>,
    errors: Seq<i64>,
    n: int,
)
    requires
        n <= indices.len(),
        n <= errors.len(),
        forall|k: int| 0 <= k < n ==> #[trigger] indices[k] < prios.len(),
    ensures
        updated_priorities(prios, maxp, indices, errors, n).0.len() == prios.len(),
    decreases n,
{
    if n > 0 {
        lemma_updated_len(prios, maxp, indices, errors, n - 1);
    }
}

/// The maximum never decreases, and ends up at or above every priority
/// the update wrote.
proof fn lemma_updated_max_bounds(
    prios: Seq<u64>,
    maxp: u64,
    indices: Seq<usize>,
    errors: Seq<i64>,
    n: int,
)
    requires
        n <= indices.len(),
        n <= errors.len(),
    ensures
        updated_priorities(prios, maxp, indices, errors, n).1 >= maxp,
        forall|k: int|
            0 <= k < n ==> priority_of(#[trigger] errors[k]) <= updated_priorities(
                prios,
                maxp,
                indices,
                errors,
                n,
            ).1,
    decreases n,
{
    if n > 0 {
        lemma_updated_max_bounds(prios, maxp, indices, errors, n - 1);
    }
}

/// A maximum that already dominates every written priority stays put.
proof fn lemma_updated_max_absorbs(
    prios: Seq<u64>,
    maxp: u64,
    indices: Seq<usize>,
    errors: Seq<i64>,
    n: int,
)
    requires
        n <= indices.len(),
        n <= errors.len(),
        forall|k: int| 0 <= k < n ==> priority_of(#[trigger] errors[k]) <= maxp,
    ensures
        updated_priorities(prios, maxp, indices, errors, n).1 == maxp,
    decreases n,
{
    if n > 0 {
        lemma_updated_max_absorbs(prios, maxp, indices, errors, n - 1);
    }
}

/// A position no pair writes keeps its priority.
proof fn lemma_updated_frame(
    prios: Seq<u64>,
    maxp: u64,
    indices: Seq<usize>,
    errors: Seq<i64>,
    n: int,
    i: int,
)
    requires
        n <= indices.len(),
        n <= errors.len(),
        0 <= i < prios.len(),
        forall|k: int| 0 <= k < n ==> #[trigger] indices[k] < prios.len(),
        forall|k: int| 0 <= k < n ==> indices[k] != i,
    ensures
        updated_priorities(prios, maxp, indices, errors, n).0[i] == prios[i],
    decreases n,
{
    if n > 0 {
        lemma_updated_frame(prios, maxp, indices, errors, n - 1, i);
        lemma_updated_len(prios, maxp, indices, errors, n - 1);
    }
}

/// Two starting stores that agree at a position, or whose position is
/// written anyway, end with the same priority there: what an update
/// writes depends on the errors alone.
proof fn lemma_updated_agree(
    p: Seq<u64>,
    q: Seq<u64>,
    m1: u64,
    m2: u64,
    indices: Seq<usize>,
    errors: Seq<i64>,
    n: int,
    i: int,
)
    requires
        p.len() == q.len(),
        0 <= n <= indices.len(),
        n <= errors.len(),
        forall|k: int| 0 <= k < n ==> #[trigger] indices[k] < p.len(),
        0 <= i < p.len(),
        p[i] == q[i] || exists|k: int| 0 <= k < n && #[trigger] indices[k] == i,
    ensures
        updated_priorities(p, m1, indices, errors, n).0[i] == updated_priorities(
            q,
            m2,
            indices,
            errors,
            n,
        ).0[i],
    decreases n,
{
    if n > 0 {
        lemma_updated_len(p, m1, indices, errors, n - 1);
        lemma_updated_len(q, m2, indices, errors, n - 1);
        let j = indices[n - 1] as int;
        if i != j {
            if p[i] != q[i] {
                let k = choose|k: int| 0 <= k < n && #[trigger] indices[k] == i;
                assert(k < n - 1);
                assert(exists|k2: int| 0 <= k2 < n - 1 && #[trigger] indices[k2] == i);
            }
            lemma_updated_agree(p, q, m1, m2, indices, errors, n - 1, i);
        }
    }
}

/// Updating priorities twice with the same indices and errors leaves
/// exactly the state one update leaves: per index the stored priority
/// depends only on the error, and the maximum already dominates every
/// priority the second pass writes.
pub proof fn lemma_update_errors_idempotent(
    prios: Seq<u64>,
    maxp: u64,
    indices: Seq<usize>,
    errors: Seq<i64>,
    n: int,
)
    requires
        0 <= n <= indices.len(),
        n <= errors.len(),
        forall|k: int| 0 <= k < n ==> #[trigger] indices[k] < prios.len(),
    ensures
        ({
            let once = updated_priorities(prios, maxp, indices, errors, n);
            updated_priorities(once.0, once.1, indices, errors, n) == once
        }),
{
    let once = updated_priorities(prios, maxp, indices, errors, n);
    let p1 = once.0;
    let m1 = once.1;
    lemma_updated_max_bounds(prios, maxp, indices, errors, n);
    lemma_updated_max_absorbs(p1, m1, indices, errors, n);
    lemma_updated_len(prios, maxp, indices, errors, n);
    lemma_updated_len(p1, m1, indices, errors, n);
    let p2 = updated_priorities(p1, m1, indices, errors, n).0;
    assert forall|i: int| 0 <= i < p1.len() implies p2[i] == p1[i] by {
        if exists|k: int| 0 <= k < n && #[trigger] indices[k] == i {
            lemma_updated_agree(p1, prios, m1, maxp, indices, errors, n, i);
        } else {
            lemma_updated_frame(p1, m1, indices, errors, n, i);
        }
    }
    assert(p2 =~= p1);
}

/// The total of a weight sequence.
pub open spec fn sum_weights(s: Seq<u64>) -> int
    decreases s.len(),
{
    if s.len() == 0 {
        0
    } else {
        s[0] + sum_weights(s.drop_first())
    }
}

/// How many weights are positive.
pub open spec fn count_positive(s: Seq<u64>) -> int
    decreases s.len(),
{
    if s.len() == 0 {
        0
    } else {
        (if s[0] > 0 {
            1int
        } else {
            0int
        }) + count_positive(s.drop_first())
    }
}

proof fn lemma_sum_nonneg(s: Seq<u64>)
    ensures
        sum_weights(s) >= 0,
    decreases s.len(),
{
    if s.len() > 0 {
        lemma_sum_nonneg(s.drop_first());
    }
}

/// Splits one element off the tail sum.
proof fn lemma_sum_skip(s: Seq<u64>, i: int)
    requires
        0 <= i < s.len(),
    ensures
        sum_weights(s.skip(i)) == s[i] + sum_weights(s.skip(i + 1)),
{
    assert(s.skip(i).drop_first() =~= s.skip(i + 1));
    assert(s.skip(i)[0] == s[i]);
}

/// Zeroing a weight takes exactly that weight out of the total.
proof fn lemma_sum_update_zero(s: Seq<u64>, i: int)
    requires
        0 <= i < s.len(),
    ensures
        sum_weights(s.update(i, 0u64)) == sum_weights(s) - s[i],
    decreases s.len(),
{
    if i == 0 {
        assert(s.update(0, 0u64).drop_first() =~= s.drop_first());
    } else {
        assert(s.update(i, 0u64).drop_first() =~= s.drop_first().update(i - 1, 0u64));
        lemma_sum_update_zero(s.drop_first(), i - 1);
    }
}

/// Zeroing a positive weight lowers the positive count by one.
proof fn lemma_count_positive_update_zero(s: Seq<u64>, i: int)
    requires
        0 <= i < s.len(),
        s[i] > 0,
    ensures
        count_positive(s.update(i, 0u64)) == count_positive(s) - 1,
    decreases s.len(),
{
    if i == 0 {
        assert(s.update(0, 0u64).drop_first() =~= s.drop_first());
    } else {
        assert(s.update(i, 0u64).drop_first() =~= s.drop_first().update(i - 1, 0u64));
        lemma_count_positive_update_zero(s.drop_first(), i - 1);
    }
}

/// When every weight is positive the positive count is the length.
proof fn lemma_count_positive_all(s: Seq<u64>)
    requires
        forall|j: int| 0 <= j < s.len() ==> #[trigger] s[j] > 0,
    ensures
        count_positive(s) == s.len(),
    decreases s.len(),
{
    if s.len() > 0 {
        lemma_count_positive_all(s.drop_first());
    }
}

/// The total is at least the number of positive weights.
proof fn lemma_sum_ge_count(s: Seq<u64>)
    ensures
        sum_weights(s) >= count_positive(s),
    decreases s.len(),
{
    if s.len() > 0 {
        lemma_sum_ge_count(s.drop_first());
    }
}

/// Adds up a weight vector.
fn vec_sum(v: &Vec<u64>) -> (r: u64)
    requires
        sum_weights(v@) <= u64::MAX,
    ensures
        r as int == sum_weights(v@),
{
    let mut acc: u64 = 0;
    let mut i: usize = 0;
    proof {
        assert(v@.skip(0) =~= v@);
    }
    while i < v.len()
        invariant
            i <= v@.len(),
            acc as int + sum_weights(v@.skip(i as int)) == sum_weights(v@),
            sum_weights(v@) <= u64::MAX,
        decreases v@.len() - i,
    {
        proof {
            lemma_sum_skip(v@, i as int);
            lemma_sum_nonneg(v@.skip(i as int + 1));
        }
        acc = acc + v[i];
        i += 1;
    }
    proof {
        assert(v@.skip(v@.len() as int) =~= Seq::<u64>::empty());
    }
    acc
}

/// Picks the index whose cumulative weight interval holds the draw; it
/// always has a positive weight.
fn pick_index(weights: &Vec<u64>, t: u64) -> (i: usize)
    requires
        (t as int) < sum_weights(weights@),
        sum_weights(weights@) <= u64::MAX,
    ensures
        i < weights@.len(),
        weights@[i as int] > 0,
{
    let mut acc: u64 = 0;
    let mut i: usize = 0;
    proof {
        assert(weights@.skip(0) =~= weights@);
    }
    while i < weights.len()
        invariant
            i <= weights@.len(),
            acc as int + sum_weights(weights@.skip(i as int)) == sum_weights(weights@),
            acc <= t,
            (t as int) < sum_weights(weights@),
            sum_weights(weights@) <= u64::MAX,
        decreases weights@.len() - i,
    {
        proof {
            lemma_sum_skip(weights@, i as int);
            lemma_sum_nonneg(weights@.skip(i as int + 1));
        }
        let w = weights[i];
        if t < acc + w {
            return i;
        }
        acc = acc + w;
        i += 1;
    }
    proof {
        assert(weights@.skip(weights@.len() as int) =~= Seq::<u64>::empty());
        assert(false);
    }
    vstd::pervasive::unreached()
}

/// Copies a weight vector.
fn copy_weights(v: &Vec<u64>) -> (r: Vec<u64>)
    ensures
        r@ == v@,
{
    let mut r: Vec<u64> = Vec::new();
    let mut i: usize = 0;
    while i < v.len()
        invariant
            i <= v@.len(),
            r@ == v@.take(i as int),
        decreases v@.len() - i,
    {
        r.push(v[i]);
        proof {
            assert(r@ =~= v@.take(i + 1));
        }
        i += 1;
    }
    proof {
        assert(v@.take(v@.len() as int) =~= v@);
    }
    r
}

/// Draws distinct indices without replacement, each draw weighted by
/// the remaining weights.
fn sample_indices(weights: &Vec<u64>, batch_size: usize) -> (r: Vec<usize>)
    requires
        batch_size <= weights@.len(),
        forall|j: int| 0 <= j < weights@.len() ==> #[trigger] weights@[j] > 0,
        sum_weights(weights@) <= u64::MAX,
    ensures
        r@.len() == batch_size,
        forall|c: int| 0 <= c < batch_size ==> #[trigger] r@[c] < weights@.len(),
        forall|c1: int, c2: int| 0 <= c1 < c2 < batch_size ==> r@[c1] != r@[c2],
{
    let n = weights.len();
    let mut avail = copy_weights(weights);
    let mut remaining: u64 = vec_sum(&avail);
    let mut chosen: Vec<usize> = Vec::new();
    let mut c: usize = 0;
    proof {
        lemma_count_positive_all(avail@);
    }
    while c < batch_size
        invariant
            c <= batch_size,
            batch_size <= n,
            n == weights@.len(),
            avail@.len() == n,
            chosen@.len() == c,
            remaining as int == sum_weights(avail@),
            sum_weights(avail@) <= u64::MAX,
            count_positive(avail@) == n - c,
            forall|j: int| 0 <= j < n ==> #[trigger] weights@[j] > 0,
            forall|j: int|
                0 <= j < n ==> #[trigger] avail@[j] == weights@[j] || avail@[j] == 0,
            forall|c1: int| 0 <= c1 < c ==> #[trigger] chosen@[c1] < n,
            forall|c1: int| 0 <= c1 < c ==> avail@[#[trigger] chosen@[c1] as int] == 0,
            forall|c1: int, c2: int| 0 <= c1 < c2 < c ==> chosen@[c1] != chosen@[c2],
        decreases batch_size - c,
    {
        proof {
            lemma_sum_ge_count(avail@);
        }
        let t = crate::rng::random_below(remaining);
        let i = pick_index(&avail, t);
        let w = avail[i];
        proof {
            lemma_sum_update_zero(avail@, i as int);
            lemma_count_positive_update_zero(avail@, i as int);
            lemma_sum_nonneg(avail@.update(i as int, 0u64));
        }
        avail[i] = 0;
        remaining = remaining - w;
        chosen.push(i);
        c += 1;
    }
    chosen
}

/// Every priority an update leaves behind is positive, provided every
/// priority was positive before.
proof fn lemma_updated_positive(
    prios: Seq<u64>,
    maxp: u64,
    indices: Seq<usize>,
    errors: Seq<i64>,
    n: int,
    i: int,
)
    requires
        n <= indices.len(),
        n <= errors.len(),
        forall|k: int| 0 <= k < n ==> #[trigger] indices[k] < prios.len(),
        0 <= i < prios.len(),
        prios[i] > 0,
    ensures
        updated_priorities(prios, maxp, indices, errors, n).0[i] > 0,
    decreases n,
{
    if n > 0 {
        lemma_updated_positive(prios, maxp, indices, errors, n - 1, i);
        lemma_updated_len(prios, maxp, indices, errors, n - 1);
    }
}


/// Every priority a well-formed buffer stores is strictly positive:
/// the epsilon floor keeps sampling weights from starving any slot.
pub proof fn lemma_priorities_positive(b: ReplayBuffer)
    requires
        b.wf(),
    ensures
        forall|i: int| 0 <= i < b.priorities@.len() ==> #[trigger] b.priorities@[i] > 0,
{
}

/// One drawn mini batch: the slots used, their weights and the total
/// weight (the exact selection odds of each draw are its weight over
/// the total), and the transitions themselves, one row per draw.
pub struct SampleBatch {
    pub indices: Vec<usize>,
    pub weights: Vec<u64>,
    pub total_weight: u64,
    pub states: Vec<State>,
    pub next_states: Vec<State>,
    pub actions: Vec<u32>,
    pub rewards: Vec<i64>,
    pub dones: Vec<bool>,
    pub masks: Vec<Vec<bool>>,
}

impl ReplayBuffer {
    /// How many transitions the buffer holds.
    pub open spec fn spec_len(self) -> int {
        self.rewards@.len() as int
    }

    /// All columns hold one entry per transition, the store respects the
    /// capacity and the cursor, and every stored priority is positive.
    pub open spec fn wf(self) -> bool {
        &&& self.capacity > 0
        &&& self.states@.len() == self.spec_len()
        &&& self.next_states@.len() == self.spec_len()
        &&& self.actions@.len() == self.spec_len()
        &&& self.dones@.len() == self.spec_len()
        &&& self.masks@.len() == self.spec_len()
        &&& self.priorities@.len() == self.spec_len()
        &&& self.spec_len() <= self.capacity
        &&& self.next < self.capacity
        &&& (self.filled ==> self.spec_len() == self.capacity)
        &&& (!self.filled ==> self.spec_len() == self.next)
        &&& (forall|i: int| 0 <= i < self.spec_len() ==> #[trigger] self.priorities@[i] > 0)
        &&& self.max_priority > 0
    }

    pub fn new(capacity: usize) -> (r: Self)
        requires
            capacity > 0,
        ensures
            r.wf(),
            r.capacity == capacity,
            r.next == 0,
            r.spec_len() == 0,
            !r.filled,
            r.max_priority == INITIAL_MAX_PRIORITY,
    {
        Self {
            capacity,
            next: 0,
            states: Vec::new(),
            next_states: Vec::new(),
            actions: Vec::new(),
            rewards: Vec::new(),
            dones: Vec::new(),
            masks: Vec::new(),
            priorities: Vec::new(),
            filled: false,
            max_priority: INITIAL_MAX_PRIORITY,
        }
    }

    /// Inserts a batch of transitions. While the buffer is not yet
    /// filled the batch is appended; afterwards it overwrites in place,
    /// the k-th transition landing in slot `(next + k) % capacity`. Each
    /// new slot is seeded with the current maximum priority.
    #[verifier::rlimit(60)]
    pub fn insert_step(
        &mut self,
        states: &Vec<State>,
        next_states: &Vec<State>,
        actions: &Vec<u32>,
        rewards: &Vec<i64>,
        dones: &Vec<bool>,
        masks: &Vec<Vec<bool>>,
    )
        requires
            old(self).wf(),
            states@.len() == dones@.len(),
            next_states@.len() == dones@.len(),
            actions@.len() == dones@.len(),
            rewards@.len() == dones@.len(),
            masks@.len() == dones@.len(),
            dones@.len() > 0,
            old(self).next + dones@.len() <= usize::MAX,
            !old(self).filled ==> old(self).next + dones@.len() <= old(self).capacity,
            old(self).filled ==> dones@.len() <= old(self).capacity,
        ensures
            final(self).wf(),
            final(self).capacity == old(self).capacity,
            final(self).max_priority == old(self).max_priority,
            // while not yet filled the store grows by exactly the batch
            // size; once filled it stays at capacity
            !old(self).filled ==> final(self).spec_len() == old(self).spec_len() + dones@.len(),
            old(self).filled ==> final(self).spec_len() == old(self).capacity,
            // the cursor wraps around the capacity
            final(self).next == (old(self).next + dones@.len()) % (old(self).capacity as int),
            final(self).filled == (old(self).filled || final(self).next == 0),
            !old(self).filled ==> (final(self).filled <==> old(self).next + dones@.len() == old(
                self,
            ).capacity),
            // the k-th transition of the batch lands in its slot, seeded
            // with the current maximum priority
            forall|k: int|
                #![trigger slot_of(old(self).next as int, old(self).capacity as int, k)]
                0 <= k < dones@.len() ==> {
                    let i = slot_of(old(self).next as int, old(self).capacity as int, k);
                    &&& 0 <= i < old(self).capacity
                    &&& final(self).states@[i]@ == states@[k]@
                    &&& final(self).next_states@[i]@ == next_states@[k]@
                    &&& final(self).actions@[i] == actions@[k]
                    &&& final(self).rewards@[i] == rewards@[k]
                    &&& final(self).dones@[i] == dones@[k]
                    &&& final(self).masks@[i]@ == masks@[k]@
                    &&& final(self).priorities@[i] == old(self).max_priority
                },
            // every other slot keeps its transition
            forall|i: int|
                0 <= i < old(self).spec_len() && (forall|k: int|
                    0 <= k < dones@.len() ==> i != #[trigger] slot_of(
                        old(self).next as int,
                        old(self).capacity as int,
                        k,
                    )) ==> {
                    &&& final(self).states@[i] == old(self).states@[i]
                    &&& final(self).next_states@[i] == old(self).next_states@[i]
                    &&& final(self).actions@[i] == old(self).actions@[i]
                    &&& final(self).rewards@[i] == old(self).rewards@[i]
                    &&& final(self).dones@[i] == old(self).dones@[i]
                    &&& final(self).masks@[i] == old(self).masks@[i]
                    &&& final(self).priorities@[i] == old(self).priorities@[i]
                },
    {
        let ghost next0 = old(self).next as int;
        let ghost cap = old(self).capacity as int;
        let batch_size = dones.len();
        let mut val_i: usize = 0;
        while val_i < batch_size
            invariant
                val_i <= batch_size,
                batch_size == dones@.len(),
                states@.len() == dones@.len(),
                next_states@.len() == dones@.len(),
                actions@.len() == dones@.len(),
                rewards@.len() == dones@.len(),
                masks@.len() == dones@.len(),
                next0 == old(self).next,
                cap == old(self).capacity,
                old(self).wf(),
                old(self).next + dones@.len() <= usize::MAX,
                !old(self).filled ==> old(self).next + dones@.len() <= old(self).capacity,
                old(self).filled ==> dones@.len() <= old(self).capacity,
                self.capacity == old(self).capacity,
                self.next == old(self).next,
                self.filled == old(self).filled,
                self.max_priority == old(self).max_priority,
                self.states@.len() == self.spec_len(),
                self.next_states@.len() == self.spec_len(),
                self.actions@.len() == self.spec_len(),
                self.dones@.len() == self.spec_len(),
                self.masks@.len() == self.spec_len(),
                self.priorities@.len() == self.spec_len(),
                old(self).filled ==> self.spec_len() == old(self).spec_len(),
                !old(self).filled ==> self.spec_len() == old(self).spec_len() + val_i,
                forall|i: int| 0 <= i < self.spec_len() ==> #[trigger] self.priorities@[i] > 0,
                forall|k: int|
                    #![trigger slot_of(next0, cap, k)]
                    0 <= k < val_i ==> {
                        let i = slot_of(next0, cap, k);
                        &&& 0 <= i < cap
                        &&& self.states@[i]@ == states@[k]@
                        &&& self.next_states@[i]@ == next_states@[k]@
                        &&& self.actions@[i] == actions@[k]
                        &&& self.rewards@[i] == rewards@[k]
                        &&& self.dones@[i] == dones@[k]
                        &&& self.masks@[i]@ == masks@[k]@
                        &&& self.priorities@[i] == old(self).max_priority
                    },
                forall|i: int|
                    0 <= i < old(self).spec_len() && (forall|k: int|
                        0 <= k < val_i ==> i != #[trigger] slot_of(next0, cap, k)) ==> {
                        &&& self.states@[i] == old(self).states@[i]
                        &&& self.next_states@[i] == old(self).next_states@[i]
                        &&& self.actions@[i] == old(self).actions@[i]
                        &&& self.rewards@[i] == old(self).rewards@[i]
                        &&& self.dones@[i] == old(self).dones@[i]
                        &&& self.masks@[i] == old(self).masks@[i]
                        &&& self.priorities@[i] == old(self).priorities@[i]
                    },
            decreases batch_size - val_i,
        {
            proof {
                assert forall|k: int|
                    0 <= k <= val_i implies {
                        &&& 0 <= #[trigger] slot_of(next0, cap, k) < cap
                        &&& slot_of(next0, cap, k) == if next0 + k < cap {
                            next0 + k
                        } else {
                            next0 + k - cap
                        }
                        &&& (k < val_i ==> slot_of(next0, cap, k) != slot_of(
                            next0,
                            cap,
                            val_i as int,
                        ))
                    } by {
                    lemma_slot_formula(next0, cap, k);
                    lemma_slot_formula(next0, cap, val_i as int);
                }
            }
            if self.filled {
                let i = (self.next + val_i) % self.capacity;
                self.states[i] = copy_bools(&states[val_i]);
                self.next_states[i] = copy_bools(&next_states[val_i]);
                self.actions[i] = actions[val_i];
                self.rewards[i] = rewards[val_i];
                self.dones[i] = dones[val_i];
                self.masks[i] = copy_bools(&masks[val_i]);
                self.priorities[i] = self.max_priority;
            } else {
                self.states.push(copy_bools(&states[val_i]));
                self.next_states.push(copy_bools(&next_states[val_i]));
                self.actions.push(actions[val_i]);
                self.rewards.push(rewards[val_i]);
                self.dones.push(dones[val_i]);
                self.masks.push(copy_bools(&masks[val_i]));
                self.priorities.push(self.max_priority);
                proof {
                    lemma_small_mod((next0 + val_i) as nat, cap as nat);
                }
            }
            val_i += 1;
        }
        self.next = (self.next + batch_size) % self.capacity;
        if self.next == 0 {
            self.filled = true;
        }
        proof {
            lemma_mod_bound(next0 + batch_size as int, cap);
            if !old(self).filled {
                lemma_slot_formula(next0, cap, batch_size as int);
            }
        }
    }

    /// Generates a mini batch of experience: distinct slots drawn with
    /// probability proportional to their stored priority, together with
    /// the weights needed to importance-correct the loss and the exact
    /// slots needed to write updated priorities back. The buffer must
    /// be filled before any sampling.
    pub fn sample(&self, batch_size: usize) -> (r: SampleBatch)
        requires
            self.wf(),
            self.filled,
            batch_size <= self.capacity,
            sum_weights(self.priorities@) <= u64::MAX,
        ensures
            r.indices@.len() == batch_size,
            r.weights@.len() == batch_size,
            r.states@.len() == batch_size,
            r.next_states@.len() == batch_size,
            r.actions@.len() == batch_size,
            r.rewards@.len() == batch_size,
            r.dones@.len() == batch_size,
            r.masks@.len() == batch_size,
            forall|k: int| 0 <= k < batch_size ==> #[trigger] r.indices@[k] < self.capacity,
            forall|k1: int, k2: int|
                0 <= k1 < k2 < batch_size ==> r.indices@[k1] != r.indices@[k2],
            forall|k: int|
                #![trigger r.indices@[k]]
                0 <= k < batch_size ==> {
                    let i = r.indices@[k] as int;
                    &&& r.weights@[k] == self.priorities@[i]
                    &&& r.states@[k]@ == self.states@[i]@
                    &&& r.next_states@[k]@ == self.next_states@[i]@
                    &&& r.actions@[k] == self.actions@[i]
                    &&& r.rewards@[k] == self.rewards@[i]
                    &&& r.dones@[k] == self.dones@[i]
                    &&& r.masks@[k]@ == self.masks@[i]@
                },
            r.total_weight as int == sum_weights(self.priorities@),
    {
        let indices = sample_indices(&self.priorities, batch_size);
        let total_weight = vec_sum(&self.priorities);
        let mut weights: Vec<u64> = Vec::new();
        let mut states: Vec<State> = Vec::new();
        let mut next_states: Vec<State> = Vec::new();
        let mut actions: Vec<u32> = Vec::new();
        let mut rewards: Vec<i64> = Vec::new();
        let mut dones: Vec<bool> = Vec::new();
        let mut masks: Vec<Vec<bool>> = Vec::new();
        let mut k: usize = 0;
        while k < batch_size
            invariant
                k <= batch_size,
                self.wf(),
                self.filled,
                batch_size <= self.capacity,
                indices@.len() == batch_size,
                forall|c: int| 0 <= c < batch_size ==> #[trigger] indices@[c] < self.capacity,
                weights@.len() == k,
                states@.len() == k,
                next_states@.len() == k,
                actions@.len() == k,
                rewards@.len() == k,
                dones@.len() == k,
                masks@.len() == k,
                forall|c: int|
                    #![trigger indices@[c]]
                    0 <= c < k ==> {
                        let i = indices@[c] as int;
                        &&& weights@[c] == self.priorities@[i]
                        &&& states@[c]@ == self.states@[i]@
                        &&& next_states@[c]@ == self.next_states@[i]@
                        &&& actions@[c] == self.actions@[i]
                        &&& rewards@[c] == self.rewards@[i]
                        &&& dones@[c] == self.dones@[i]
                        &&& masks@[c]@ == self.masks@[i]@
                    },
            decreases batch_size - k,
        {
            let i = indices[k];
            weights.push(self.priorities[i]);
            states.push(copy_bools(&self.states[i]));
            next_states.push(copy_bools(&self.next_states[i]));
            actions.push(self.actions[i]);
            rewards.push(self.rewards[i]);
            dones.push(self.dones[i]);
            masks.push(copy_bools(&self.masks[i]));
            k += 1;
        }
        SampleBatch { indices, weights, total_weight, states, next_states, actions, rewards, dones, masks }
    }

    /// Updates transition TD errors: pairs of an index and an error, the
    /// error in hundred-thousandths of a unit, are applied in order, each
    /// setting the stored priority to the error's magnitude plus the
    /// epsilon floor and raising the maximum priority to at least that
    /// value. Extra indices or errors beyond the shorter list are
    /// ignored.
    pub fn update_errors(&mut self, indices: &Vec<usize>, errors: &Vec<i64>)
        requires
            old(self).wf(),
            forall|k: int|
                0 <= k < indices@.len() && k < errors@.len() ==> #[trigger] indices@[k] < old(
                    self,
                ).spec_len(),
            forall|k: int|
                0 <= k < indices@.len() && k < errors@.len() ==> #[trigger] errors@[k]
                    > i64::MIN,
        ensures
            final(self).wf(),
            final(self).capacity == old(self).capacity,
            final(self).next == old(self).next,
            final(self).filled == old(self).filled,
            final(self).states@ == old(self).states@,
            final(self).next_states@ == old(self).next_states@,
            final(self).actions@ == old(self).actions@,
            final(self).rewards@ == old(self).rewards@,
            final(self).dones@ == old(self).dones@,
            final(self).masks@ == old(self).masks@,
            ({
                let n = if indices@.len() <= errors@.len() {
                    indices@.len() as int
                } else {
                    errors@.len() as int
                };
                let u = updated_priorities(
                    old(self).priorities@,
                    old(self).max_priority,
                    indices@,
                    errors@,
                    n,
                );
                final(self).priorities@ == u.0 && final(self).max_priority == u.1
            }),
            final(self).max_priority >= old(self).max_priority,
    {
        let n = if indices.len() <= errors.len() {
            indices.len()
        } else {
            errors.len()
        };
        let mut k: usize = 0;
        while k < n
            invariant
                k <= n,
                n <= indices@.len(),
                n <= errors@.len(),
                n == if indices@.len() <= errors@.len() {
                    indices@.len() as int
                } else {
                    errors@.len() as int
                },
                old(self).wf(),
                forall|j: int|
                    0 <= j < indices@.len() && j < errors@.len() ==> #[trigger] indices@[j] < old(
                        self,
                    ).spec_len(),
                forall|j: int|
                    0 <= j < indices@.len() && j < errors@.len() ==> #[trigger] errors@[j]
                        > i64::MIN,
                self.capacity == old(self).capacity,
                self.next == old(self).next,
                self.filled == old(self).filled,
                self.states@ == old(self).states@,
                self.next_states@ == old(self).next_states@,
                self.actions@ == old(self).actions@,
                self.rewards@ == old(self).rewards@,
                self.dones@ == old(self).dones@,
                self.masks@ == old(self).masks@,
                self.priorities@.len() == old(self).spec_len(),
                (self.priorities@, self.max_priority) == updated_priorities(
                    old(self).priorities@,
                    old(self).max_priority,
                    indices@,
                    errors@,
                    k as int,
                ),
                self.max_priority >= old(self).max_priority,
            decreases n - k,
        {
            let e = errors[k];
            let mag: u64 = if e >= 0 {
                e as u64
            } else {
                (-e) as u64
            };
            let p = mag + PRIORITY_EPSILON;
            let i = indices[k];
            self.priorities[i] = p;
            if p > self.max_priority {
                self.max_priority = p;
            }
            proof {
                assert(p == priority_of(errors@[k as int]));
            }
            k += 1;
        }
        proof {
            assert forall|i: int| 0 <= i < self.spec_len() implies #[trigger] self.priorities@[i]
                > 0 by {
                lemma_updated_positive(
                    old(self).priorities@,
                    old(self).max_priority,
                    indices@,
                    errors@,
                    n as int,
                    i,
                );
            }
        }
    }
}

} // verus!
