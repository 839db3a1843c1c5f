//! A tabular Q-learning agent with epsilon-greedy exploration.
//!
//! States are word-sized identifiers supplied by the environment; the agent
//! never interprets them. Each known state maps to a vector with exactly one
//! action value per discrete action; unknown states stand for all-zero
//! vectors and are materialized on first access. Action values are
//! fixed-point numbers (see [`crate::fixed`]), so the temporal-difference
//! update is exact integer arithmetic.

use vstd::prelude::*;

use crate::fixed::{
    decay_rate, in_value_range, is_rate, spec_blend, spec_decay, td_blend, ONE,
};
use crate::randomness::random_below;
use std::collections::HashMap;

verus! {

broadcast use vstd::std_specs::hash::group_hash_axioms;

/// The exploration floor: once `epsilon` is at or below one tenth, the agent
/// always exploits.
pub const EPSILON_FLOOR: i64 = 100_000;

/// An all-zero action-value row of the given width.
pub open spec fn zero_row(n: int) -> Seq<i64> {
    Seq::new(n as nat, |i: int| 0i64)
}

/// The largest value of a non-empty row (zero for an empty one).
pub open spec fn seq_max(s: Seq<i64>) -> int
    decreases s.len(),
{
    if s.len() == 0 {
        0
    } else if s.len() == 1 {
        s[0] as int
    } else {
        let m = seq_max(s.drop_last());
        if s.last() as int > m {
            s.last() as int
        } else {
            m
        }
    }
}

/// `i` is the first index attaining the maximum of `s`.
pub open spec fn is_first_max(s: Seq<i64>, i: int) -> bool {
    &&& 0 <= i < s.len()
    &&& forall|j: int| 0 <= j < s.len() ==> s[j] <= s[i]
    &&& forall|j: int| 0 <= j < i ==> s[j] < s[i]
}

/// Every stored row has exactly `n` entries: one value per action.
pub open spec fn every_row_sized(t: Map<u64, Seq<i64>>, n: int) -> bool {
    forall|s: u64| #[trigger] t.contains_key(s) ==> t[s].len() == n
}

/// The table after one learning step.
///
/// First the successor state is materialized if unseen (a side effect of the
/// lookup of its best value, which is zero in that case). Then the observed
/// state's row — the freshly materialized row when `state == next_state`, an
/// all-zero row when the state is new, with the reward standing in for the
/// prior value in the latter case — is blended at `action`.
pub open spec fn learned_table(
    t: Map<u64, Seq<i64>>,
    actions: int,
    lr: int,
    gamma: int,
    state: u64,
    next_state: u64,
    action: int,
    reward: i64,
) -> Map<u64, Seq<i64>> {
    let t1 = if t.contains_key(next_state) {
        t
    } else {
        t.insert(next_state, zero_row(actions))
    };
    let next_max = if t.contains_key(next_state) {
        seq_max(t[next_state])
    } else {
        0
    };
    let prior = if t1.contains_key(state) {
        t1[state][action] as int
    } else {
        reward as int
    };
    let base = if t1.contains_key(state) {
        t1[state]
    } else {
        zero_row(actions)
    };
    t1.insert(state, base.update(action, spec_blend(lr, gamma, reward as int, prior, next_max) as i64))
}

/// A row is well formed when it has one in-range value per action.
pub open spec fn row_ok(v: Seq<i64>, n: int) -> bool {
    &&& v.len() == n
    &&& forall|i: int| 0 <= i < v.len() ==> in_value_range(#[trigger] v[i] as int)
}

/// Unfolding `seq_max` over a growing prefix.
proof fn lemma_seq_max_take_step(s: Seq<i64>, i: int)
    requires
        1 <= i < s.len(),
    ensures
        seq_max(s.take(i + 1)) == if s[i] as int > seq_max(s.take(i)) {
            s[i] as int
        } else {
            seq_max(s.take(i))
        },
{
    assert(s.take(i + 1).drop_last() =~= s.take(i));
    assert(s.take(i + 1).last() == s[i]);
}

/// The largest value of a non-empty row.
fn max_of_row(row: &Vec<i64>) -> (m: i64)
    requires
        row@.len() >= 1,
    ensures
        m as int == seq_max(row@),
        exists|k: int| 0 <= k < row@.len() && m == row@[k],
{
    let mut m: i64 = row[0];
    let mut i: usize = 1;
    proof {
        assert(row@.take(1) =~= seq![row@[0]]);
    }
    while i < row.len()
        invariant
            1 <= i <= row@.len(),
            m as int == seq_max(row@.take(i as int)),
            exists|k: int| 0 <= k < i && m == row@[k],
        decreases row@.len() - i,
    {
        proof {
            lemma_seq_max_take_step(row@, i as int);
        }
        if row[i] > m {
            m = row[i];
        }
        i = i + 1;
    }
    proof {
        assert(row@.take(row@.len() as int) =~= row@);
    }
    m
}

/// The first index attaining the maximum of a non-empty row. Ties are broken
/// toward the earliest index.
fn first_max_index(row: &Vec<i64>) -> (best: usize)
    requires
        row@.len() >= 1,
    ensures
        is_first_max(row@, best as int),
{
    let mut best: usize = 0;
    let mut i: usize = 1;
    while i < row.len()
        invariant
            1 <= i <= row@.len(),
            (best as int) < i,
            forall|j: int| 0 <= j < i ==> row@[j] <= row@[best as int],
            forall|j: int| 0 <= j < best ==> row@[j] < row@[best as int],
        decreases row@.len() - i,
    {
        if row[i] > row[best] {
            best = i;
        }
        i = i + 1;
    }
    best
}

/// A freshly materialized all-zero row.
fn zero_row_vec(n: usize) -> (row: Vec<i64>)
    ensures
        row@ == zero_row(n as int),
{
    let mut row: Vec<i64> = Vec::new();
    let mut i: usize = 0;
    while i < n
        invariant
            i <= n,
            row@.len() == i,
            forall|k: int| 0 <= k < i ==> row@[k] == 0i64,
        decreases n - i,
    {
        row.push(0);
        i = i + 1;
    }
    proof {
        assert(row@ =~= zero_row(n as int));
    }
    row
}

/// A plain copy of a row.
fn copy_row(row: &Vec<i64>) -> (out: Vec<i64>)
    ensures
        out@ == row@,
{
    let mut out: Vec<i64> = Vec::new();
    let mut j: usize = 0;
    while j < row.len()
        invariant
            j <= row@.len(),
            out@ == row@.take(j as int),
        decreases row@.len() - j,
    {
        out.push(row[j]);
        proof {
            assert(row@.take(j + 1) =~= row@.take(j as int).push(row@[j as int]));
        }
        j = j + 1;
    }
    proof {
        assert(row@.take(row@.len() as int) =~= row@);
    }
    out
}

/// A copy of `row` with the entry at `idx` replaced by `val`.
fn row_with(row: &Vec<i64>, idx: usize, val: i64) -> (out: Vec<i64>)
    requires
        idx < row@.len(),
    ensures
        out@ == row@.update(idx as int, val),
{
    let mut out: Vec<i64> = Vec::new();
    let mut j: usize = 0;
    while j < row.len()
        invariant
            j <= row@.len(),
            idx < row@.len(),
            out@.len() == j,
            forall|k: int| 0 <= k < j ==> out@[k] == (if k == idx { val } else { row@[k] }),
        decreases row@.len() - j,
    {
        if j == idx {
            out.push(val);
        } else {
            out.push(row[j]);
        }
        j = j + 1;
    }
    proof {
        assert(out@ =~= row@.update(idx as int, val));
    }
    out
}

/// A tabular Q-learning agent.
pub struct QLearner {
    q_table: HashMap<u64, Vec<i64>>,
    actions: usize,
    epsilon: i64,
    epsilon_threshold: i64,
    lr: i64,
    gamma: i64,
}

impl QLearner {
    /// The number of discrete actions.
    pub closed spec fn action_count(self) -> int {
        self.actions as int
    }

    /// The learning rate, a fixed-point rate in `[0, 1]`.
    pub closed spec fn learning_rate(self) -> int {
        self.lr as int
    }

    /// The discount factor, a fixed-point rate in `[0, 1]`.
    pub closed spec fn discount_factor(self) -> int {
        self.gamma as int
    }

    /// The current exploration rate.
    pub closed spec fn exploration_rate(self) -> int {
        self.epsilon as int
    }

    /// The mathematical view of the Q-table: state to action-value row.
    pub closed spec fn table(self) -> Map<u64, Seq<i64>> {
        self.q_table@.map_values(|v: Vec<i64>| v@)
    }

    /// Well-formedness: at least one action, rates in range, the exploration
    /// floor pinned at one tenth, and every stored row holding one in-range
    /// value per action.
    pub closed spec fn wf(self) -> bool {
        &&& self.actions >= 1
        &&& is_rate(self.lr as int)
        &&& is_rate(self.gamma as int)
        &&& is_rate(self.epsilon as int)
        &&& self.epsilon_threshold == EPSILON_FLOOR
        &&& forall|s: u64| #[trigger]
            self.q_table@.contains_key(s) ==> row_ok(self.q_table@[s]@, self.actions as int)
    }

    /// Well-formedness carries the row-size law: every stored row has exactly
    /// one entry per action.
    pub proof fn lemma_wf_rows_sized(self)
        requires
            self.wf(),
        ensures
            every_row_sized(self.table(), self.action_count()),
    {
        assert forall|s: u64| #[trigger] self.table().contains_key(s) implies self.table()[s].len()
            == self.action_count() by {
            assert(self.q_table@.contains_key(s));
        }
    }

    /// A fresh agent: an empty table and an exploration rate of one.
    pub fn new(actions: usize, lr: i64, gamma: i64) -> (agent: QLearner)
        requires
            actions >= 1,
            is_rate(lr as int),
            is_rate(gamma as int),
        ensures
            agent.wf(),
            agent.action_count() == actions,
            agent.learning_rate() == lr,
            agent.discount_factor() == gamma,
            agent.exploration_rate() == ONE,
            agent.table() == Map::<u64, Seq<i64>>::empty(),
    {
        let agent = QLearner {
            q_table: HashMap::new(),
            actions,
            epsilon: ONE,
            epsilon_threshold: EPSILON_FLOOR,
            lr,
            gamma,
        };
        proof {
            assert(agent.table() =~= Map::<u64, Seq<i64>>::empty());
        }
        agent
    }

    /// Selects an action for `state`.
    ///
    /// While the exploration rate is above the floor the choice is uniformly
    /// random over all actions. At or below the floor the agent exploits: it
    /// returns the first index attaining the maximum stored value for
    /// `state` — deterministically, without touching the generator — falling
    /// back to a uniformly random action when the state has never been seen.
    /// The result is always a valid action index.
    pub fn act(&self, state: u64, rng: &mut rand::rngs::StdRng) -> (action: usize)
        requires
            self.wf(),
        ensures
            action < self.action_count(),
            (self.exploration_rate() <= EPSILON_FLOOR && self.table().contains_key(state))
                ==> is_first_max(self.table()[state], action as int) && *final(rng) == *old(rng),
    {
        if self.epsilon <= self.epsilon_threshold {
            match self.q_table.get(&state) {
                Some(row) => {
                    assert(self.q_table@.contains_key(state));
                    assert(self.table()[state] == row@);
                    first_max_index(row)
                },
                None => {
                    assert(!self.table().contains_key(state));
                    random_below(rng, self.actions)
                },
            }
        } else {
            random_below(rng, self.actions)
        }
    }

    /// One temporal-difference learning step.
    ///
    /// Materializes the successor state's row if unseen, blends the observed
    /// state's value at `action` with the learning target — the reward plus
    /// the discounted best successor value — and decays the exploration rate
    /// by one tenth. The table afterwards is exactly [`learned_table`] of the
    /// table before; the exploration rate never increases and, while
    /// positive, strictly decreases.
    pub fn learn(&mut self, state: u64, next_state: u64, action: usize, reward: i64)
        requires
            old(self).wf(),
            action < old(self).action_count(),
            in_value_range(reward as int),
        ensures
            final(self).wf(),
            final(self).action_count() == old(self).action_count(),
            final(self).learning_rate() == old(self).learning_rate(),
            final(self).discount_factor() == old(self).discount_factor(),
            final(self).table() == learned_table(
                old(self).table(),
                old(self).action_count(),
                old(self).learning_rate(),
                old(self).discount_factor(),
                state,
                next_state,
                action as int,
                reward,
            ),
            every_row_sized(final(self).table(), final(self).action_count()),
            final(self).exploration_rate() == spec_decay(old(self).exploration_rate()),
            final(self).exploration_rate() <= old(self).exploration_rate(),
            old(self).exploration_rate() > 0 ==> final(self).exploration_rate() < old(
                self,
            ).exploration_rate(),
    {
        let ghost t0 = old(self).table();

        let next_max: i64 = match self.q_table.get(&next_state) {
            Some(row) => {
                assert(self.q_table@.contains_key(next_state));
                max_of_row(row)
            },
            None => {
                let fresh = zero_row_vec(self.actions);
                proof {
                    lemma_view_insert(self.q_table@, next_state, fresh);
                }
                self.q_table.insert(next_state, fresh);
                0
            },
        };
        proof {
            if t0.contains_key(next_state) {
                assert(self.table() == t0);
            }
        }
        let ghost t1 = self.table();
        proof {
            assert(t1 == if t0.contains_key(next_state) {
                t0
            } else {
                t0.insert(next_state, zero_row(self.actions as int))
            });
            assert(in_value_range(next_max as int)) by {
                if t0.contains_key(next_state) {
                    assert(row_ok(old(self).q_table@[next_state]@, self.actions as int));
                }
            }
        }

        let new_row: Vec<i64> = match self.q_table.get(&state) {
            Some(row) => {
                assert(self.q_table@.contains_key(state));
                assert(row_ok(row@, self.actions as int));
                let prior: i64 = row[action];
                let updated: i64 = td_blend(self.lr, self.gamma, reward, prior, next_max);
                row_with(row, action, updated)
            },
            None => {
                assert(!t1.contains_key(state));
                let updated: i64 = td_blend(self.lr, self.gamma, reward, reward, next_max);
                let fresh = zero_row_vec(self.actions);
                row_with(&fresh, action, updated)
            },
        };
        proof {
            lemma_view_insert(self.q_table@, state, new_row);
        }
        self.q_table.insert(state, new_row);
        self.epsilon = decay_rate(self.epsilon);
        proof {
            assert(self.table() == t1.insert(state, new_row@));
            self.lemma_wf_rows_sized();
        }
    }

    /// The current exploration rate, as a fixed-point value.
    pub fn epsilon_value(&self) -> (e: i64)
        ensures
            e as int == self.exploration_rate(),
    {
        self.epsilon
    }

    /// The number of discrete actions.
    pub fn actions_value(&self) -> (n: usize)
        ensures
            n as int == self.action_count(),
    {
        self.actions
    }

    /// The stored action-value row for `state`, or `None` when the state has
    /// never been seen.
    pub fn action_values(&self, state: u64) -> (row: Option<Vec<i64>>)
        ensures
            match row {
                Some(v) => self.table().contains_key(state) && v@ == self.table()[state],
                None => !self.table().contains_key(state),
            },
    {
        match self.q_table.get(&state) {
            Some(r) => {
                assert(self.q_table@.contains_key(state));
                Some(copy_row(r))
            },
            None => None,
        }
    }
}

/// Viewing a map of rows commutes with insertion.
proof fn lemma_view_insert(m: Map<u64, Vec<i64>>, k: u64, w: Vec<i64>)
    ensures
        m.insert(k, w).map_values(|r: Vec<i64>| r@) == m.map_values(|r: Vec<i64>| r@).insert(
            k,
            w@,
        ),
{
    assert(m.insert(k, w).map_values(|r: Vec<i64>| r@) =~= m.map_values(|r: Vec<i64>| r@).insert(
        k,
        w@,
    ));
}

} // verus!
