//! Population-based neuro-evolution of network-parameterized agents.
//!
//! Each agent exclusively owns one set of network parameters: per layer a
//! weight matrix (rows are output units, columns input units) and a bias
//! vector, all fixed-point scalars (see [`crate::fixed`]). The forward pass
//! belongs to an external network adapter; this module owns how parameters
//! are created, recombined by uniform crossover, perturbed by single-point
//! mutation, and how parents are sampled in proportion to shifted fitness
//! scores. Action selection reads the adapter's raw single-precision output
//! bits and picks the first maximum under the encoded real-number order.

use vstd::prelude::*;

use crate::fixed::ONE;
use crate::randomness::{
    make_weighted_index, random_below, random_in_range, random_ratio, sample_weighted, weight_sum,
    weights_of,
};

verus! {

/// Half-width of the mutation range: a mutated scalar is drawn uniformly
/// from `[-0.01, 0.01)` in fixed-point.
pub const MUTATION_SPAN: i64 = 10_000;

/// The denominator of the mutation rate: parts per million.
pub const PPM: u32 = 1_000_000;

/// Failures of the evolutionary trainer. Configuration errors and invariant
/// violations surface as typed failures at call time.
#[derive(Debug, Clone, Copy, PartialEq, Eq, Structural)]
pub enum EvoError {
    /// The topology has no layer sizes at all.
    EmptyTopology,
    /// A population of zero agents was requested.
    NoAgents,
    /// The score list is not aligned with the population.
    ScoreLengthMismatch,
    /// Fewer than two agents exist, so two distinct parents cannot be picked.
    PopulationTooSmall,
    /// The network produced an empty output vector.
    EmptyOutput,
    /// The network produced an infinity or a NaN.
    NonFiniteOutput,
}

/// One layer's parameters: a weight matrix of `weights.len()` output rows,
/// each `inputs` wide, and one bias per output row.
#[derive(Debug, Clone, PartialEq)]
pub struct LayerParams {
    pub inputs: usize,
    pub weights: Vec<Vec<i64>>,
    pub biases: Vec<i64>,
}

/// An ordered list of layer parameters.
#[derive(Debug, Clone, PartialEq)]
pub struct NetworkParams {
    pub layers: Vec<LayerParams>,
}

/// An evolutionary agent: the exclusive owner of one parameter set.
#[derive(Debug, Clone, PartialEq)]
pub struct Agent {
    pub network: NetworkParams,
}

impl LayerParams {
    /// (input width, output width) of this layer.
    pub open spec fn shape(self) -> (int, int) {
        (self.inputs as int, self.weights@.len() as int)
    }

    /// One bias per output row, every weight row `inputs` wide, and every
    /// scalar inside one whole unit.
    pub open spec fn wf(self) -> bool {
        &&& self.biases@.len() == self.weights@.len()
        &&& forall|r: int|
            0 <= r < self.weights@.len() ==> (#[trigger] self.weights@[r])@.len() == self.inputs
        &&& forall|r: int, c: int|
            0 <= r < self.weights@.len() && 0 <= c < self.weights@[r]@.len() ==> -ONE <= (
            #[trigger] self.weights@[r]@[c]) <= ONE
        &&& forall|i: int| 0 <= i < self.biases@.len() ==> -ONE <= (#[trigger] self.biases@[i]) <= ONE
    }
}

impl NetworkParams {
    /// The topology: input and output width of each layer, in order.
    pub open spec fn shape(self) -> Seq<(int, int)> {
        self.layers@.map_values(|l: LayerParams| l.shape())
    }

    pub open spec fn wf(self) -> bool {
        forall|i: int| 0 <= i < self.layers@.len() ==> (#[trigger] self.layers@[i]).wf()
    }

    /// The topology as (inputs, outputs) pairs, one per layer.
    pub fn shape_pairs(&self) -> (s: Vec<(usize, usize)>)
        ensures
            s@.len() == self.shape().len(),
            forall|l: int|
                0 <= l < s@.len() ==> ((#[trigger] s@[l]).0 as int, s@[l].1 as int)
                    == self.shape()[l],
    {
        let mut s: Vec<(usize, usize)> = Vec::new();
        let mut l: usize = 0;
        while l < self.layers.len()
            invariant
                l <= self.layers@.len(),
                s@.len() == l,
                forall|k: int|
                    0 <= k < l ==> ((#[trigger] s@[k]).0 as int, s@[k].1 as int)
                        == self.layers@[k].shape(),
            decreases self.layers@.len() - l,
        {
            let lp = &self.layers[l];
            s.push((lp.inputs, lp.weights.len()));
            l = l + 1;
        }
        s
    }
}

/// The weight scalar of `n` at layer `l`, output row `r`, input column `c`.
pub open spec fn weight_at(n: NetworkParams, l: int, r: int, c: int) -> i64 {
    n.layers@[l].weights@[r]@[c]
}

/// The bias scalar of `n` at layer `l`, output row `i`.
pub open spec fn bias_at(n: NetworkParams, l: int, i: int) -> i64 {
    n.layers@[l].biases@[i]
}

pub open spec fn valid_weight_index(n: NetworkParams, l: int, r: int, c: int) -> bool {
    &&& 0 <= l < n.layers@.len()
    &&& 0 <= r < n.layers@[l].weights@.len()
    &&& 0 <= c < n.layers@[l].weights@[r]@.len()
}

pub open spec fn valid_bias_index(n: NetworkParams, l: int, i: int) -> bool {
    &&& 0 <= l < n.layers@.len()
    &&& 0 <= i < n.layers@[l].biases@.len()
}

/// Every scalar of `c` comes from the same position of `a` or of `b`.
pub open spec fn params_from_either(a: NetworkParams, b: NetworkParams, c: NetworkParams) -> bool {
    &&& forall|l: int, r: int, ci: int|
        valid_weight_index(c, l, r, ci) ==> #[trigger] weight_at(c, l, r, ci) == weight_at(
            a,
            l,
            r,
            ci,
        ) || weight_at(c, l, r, ci) == weight_at(b, l, r, ci)
    &&& forall|l: int, i: int|
        valid_bias_index(c, l, i) ==> #[trigger] bias_at(c, l, i) == bias_at(a, l, i) || bias_at(
            c,
            l,
            i,
        ) == bias_at(b, l, i)
}

/// A topology a single-point mutation can pick a slot in: at least two
/// layers (the last is never mutated, mirroring inter-layer indexing), and
/// every mutable layer non-degenerate.
pub open spec fn mutation_ready(shape: Seq<(int, int)>) -> bool {
    &&& shape.len() >= 2
    &&& forall|l: int|
        0 <= l < shape.len() - 1 ==> (#[trigger] shape[l]).0 >= 1 && shape[l].1 >= 1
}

/// The shape an agent built from the given layer sizes has: layer `l` maps
/// `dims[l]` inputs to `dims[l + 1]` outputs.
pub open spec fn derived_shape(dims: Seq<usize>) -> Seq<(int, int)> {
    Seq::new((dims.len() - 1) as nat, |l: int| (dims[l] as int, dims[l + 1] as int))
}

/// `b` equals `a` except possibly for the weight at `(l, r, c)`.
pub open spec fn same_but_weight(a: NetworkParams, b: NetworkParams, l: int, r: int, c: int) -> bool {
    &&& b.shape() == a.shape()
    &&& forall|l2: int, i2: int|
        valid_bias_index(a, l2, i2) ==> #[trigger] bias_at(b, l2, i2) == bias_at(a, l2, i2)
    &&& forall|l2: int, r2: int, c2: int|
        valid_weight_index(a, l2, r2, c2) && !(l2 == l && r2 == r && c2 == c)
            ==> #[trigger] weight_at(b, l2, r2, c2) == weight_at(a, l2, r2, c2)
}

/// `b` equals `a` except possibly for the bias at `(l, i)`.
pub open spec fn same_but_bias(a: NetworkParams, b: NetworkParams, l: int, i: int) -> bool {
    &&& b.shape() == a.shape()
    &&& forall|l2: int, r2: int, c2: int|
        valid_weight_index(a, l2, r2, c2) ==> #[trigger] weight_at(b, l2, r2, c2) == weight_at(
            a,
            l2,
            r2,
            c2,
        )
    &&& forall|l2: int, i2: int|
        valid_bias_index(a, l2, i2) && !(l2 == l && i2 == i) ==> #[trigger] bias_at(b, l2, i2)
            == bias_at(a, l2, i2)
}

/// At most one weight of `b`, in a non-final layer, differs from `a` — every
/// bias and every other weight is unchanged — and the new weight lies in the
/// mutation range.
pub open spec fn weight_mutated_once(a: NetworkParams, b: NetworkParams) -> bool {
    exists|l: int, r: int, c: int|
        {
            &&& 0 <= l < a.layers@.len() - 1
            &&& valid_weight_index(a, l, r, c)
            &&& #[trigger] same_but_weight(a, b, l, r, c)
            &&& -MUTATION_SPAN <= weight_at(b, l, r, c) < MUTATION_SPAN
        }
}

/// At most one bias of `b`, in a non-final layer, differs from `a` — every
/// weight and every other bias is unchanged — and the new bias lies in the
/// mutation range.
pub open spec fn bias_mutated_once(a: NetworkParams, b: NetworkParams) -> bool {
    exists|l: int, i: int|
        {
            &&& 0 <= l < a.layers@.len() - 1
            &&& valid_bias_index(a, l, i)
            &&& #[trigger] same_but_bias(a, b, l, i)
            &&& -MUTATION_SPAN <= bias_at(b, l, i) < MUTATION_SPAN
        }
}

/// At most one scalar of `b` — a weight or a bias in a non-final layer —
/// differs from `a`, and the new scalar lies in the mutation range.
pub open spec fn mutated_once(a: NetworkParams, b: NetworkParams) -> bool {
    weight_mutated_once(a, b) || bias_mutated_once(a, b)
}

/// `child` was bred from `parents`: it is the scalar-wise mix of two
/// *distinct* members — no agent is ever crossed with itself — either taken
/// as is or with one point mutation applied.
pub open spec fn bred_from(parents: Seq<Agent>, child: Agent) -> bool {
    exists|i: int, j: int, mix: NetworkParams|
        {
            &&& 0 <= i < parents.len()
            &&& 0 <= j < parents.len()
            &&& i != j
            &&& #[trigger] params_from_either(parents[i].network, parents[j].network, mix)
            &&& (child.network == mix || mutated_once(mix, child.network))
        }
}

/// A raw IEEE-754 single-precision pattern encodes a finite number when its
/// exponent field is not all ones (all ones encodes infinities and NaNs).
pub open spec fn bits_finite(b: u32) -> bool {
    (b >> 23u32) & 0xffu32 != 0xffu32
}

/// Order key of a finite single-precision pattern: the sign bit picks the
/// sign and, for a fixed sign, the magnitude bits are monotone in the encoded
/// value, so integer order of the keys is the real-number order of the
/// encoded values; both zero encodings share key zero.
pub open spec fn bits_order_key(b: u32) -> int {
    if b & 0x8000_0000u32 != 0u32 {
        -((b & 0x7fff_ffffu32) as int)
    } else {
        (b & 0x7fff_ffffu32) as int
    }
}

/// `i` is the first index attaining the maximum of `s` under the encoded
/// real-number order.
pub open spec fn is_first_output_max(s: Seq<u32>, i: int) -> bool {
    &&& 0 <= i < s.len()
    &&& forall|j: int| 0 <= j < s.len() ==> bits_order_key(#[trigger] s[j]) <= bits_order_key(s[i])
    &&& forall|j: int| 0 <= j < i ==> bits_order_key(#[trigger] s[j]) < bits_order_key(s[i])
}

fn finite_bits(b: u32) -> (r: bool)
    ensures
        r == bits_finite(b),
{
    (b >> 23u32) & 0xffu32 != 0xffu32
}

fn order_key(b: u32) -> (k: i64)
    ensures
        k as int == bits_order_key(b),
{
    let mag: i64 = (b & 0x7fff_ffffu32) as i64;
    if b & 0x8000_0000u32 != 0u32 {
        -mag
    } else {
        mag
    }
}

/// A vector of `n` fresh scalars, each uniform over `[-1, 1)` in fixed-point.
fn random_unit_vector(rng: &mut rand::rngs::StdRng, n: usize) -> (v: Vec<i64>)
    ensures
        v@.len() == n,
        forall|i: int| 0 <= i < v@.len() ==> -ONE <= (#[trigger] v@[i]) < ONE,
{
    let mut v: Vec<i64> = Vec::new();
    let mut i: usize = 0;
    while i < n
        invariant
            i <= n,
            v@.len() == i,
            forall|k: int| 0 <= k < i ==> -ONE <= (#[trigger] v@[k]) < ONE,
        decreases n - i,
    {
        v.push(random_in_range(rng, -ONE, ONE));
        i = i + 1;
    }
    v
}

/// A `rows x cols` matrix of fresh scalars, each uniform over `[-1, 1)`.
fn random_matrix(rng: &mut rand::rngs::StdRng, rows: usize, cols: usize) -> (m: Vec<Vec<i64>>)
    ensures
        m@.len() == rows,
        forall|r: int| 0 <= r < m@.len() ==> (#[trigger] m@[r])@.len() == cols,
        forall|r: int, c: int|
            0 <= r < m@.len() && 0 <= c < m@[r]@.len() ==> -ONE <= (#[trigger] m@[r]@[c]) < ONE,
    decreases rows,
{
    let mut m: Vec<Vec<i64>> = Vec::new();
    let mut r: usize = 0;
    while r < rows
        invariant
            r <= rows,
            m@.len() == r,
            forall|k: int| 0 <= k < r ==> (#[trigger] m@[k])@.len() == cols,
            forall|k: int, c: int|
                0 <= k < r && 0 <= c < m@[k]@.len() ==> -ONE <= (#[trigger] m@[k]@[c]) < ONE,
        decreases rows - r,
    {
        m.push(random_unit_vector(rng, cols));
        r = r + 1;
    }
    m
}

/// A mixed bias vector: each entry comes from `a` or from `b`, chosen by an
/// independent fair coin.
fn crossover_biases(a: &Vec<i64>, b: &Vec<i64>, rng: &mut rand::rngs::StdRng) -> (out: Vec<i64>)
    requires
        a@.len() == b@.len(),
    ensures
        out@.len() == a@.len(),
        forall|i: int|
            0 <= i < out@.len() ==> (#[trigger] out@[i]) == a@[i] || out@[i] == b@[i],
{
    let mut out: Vec<i64> = Vec::new();
    let mut i: usize = 0;
    while i < a.len()
        invariant
            i <= a@.len(),
            a@.len() == b@.len(),
            out@.len() == i,
            forall|k: int| 0 <= k < i ==> (#[trigger] out@[k]) == a@[k] || out@[k] == b@[k],
        decreases a@.len() - i,
    {
        if random_ratio(rng, 1, 2) {
            out.push(b[i]);
        } else {
            out.push(a[i]);
        }
        i = i + 1;
    }
    out
}

/// A mixed weight matrix: each scalar comes from `a` or from `b`, chosen by
/// an independent fair coin per scalar.
fn crossover_weights(a: &Vec<Vec<i64>>, b: &Vec<Vec<i64>>, rng: &mut rand::rngs::StdRng) -> (out:
    Vec<Vec<i64>>)
    requires
        a@.len() == b@.len(),
        forall|r: int| 0 <= r < a@.len() ==> (#[trigger] a@[r])@.len() == b@[r]@.len(),
    ensures
        out@.len() == a@.len(),
        forall|r: int| 0 <= r < out@.len() ==> (#[trigger] out@[r])@.len() == a@[r]@.len(),
        forall|r: int, c: int|
            0 <= r < out@.len() && 0 <= c < out@[r]@.len() ==> (#[trigger] out@[r]@[c])
                == a@[r]@[c] || out@[r]@[c] == b@[r]@[c],
{
    let mut out: Vec<Vec<i64>> = Vec::new();
    let mut r: usize = 0;
    while r < a.len()
        invariant
            r <= a@.len(),
            a@.len() == b@.len(),
            forall|k: int| 0 <= k < a@.len() ==> (#[trigger] a@[k])@.len() == b@[k]@.len(),
            out@.len() == r,
            forall|k: int| 0 <= k < r ==> (#[trigger] out@[k])@.len() == a@[k]@.len(),
            forall|k: int, c: int|
                0 <= k < r && 0 <= c < out@[k]@.len() ==> (#[trigger] out@[k]@[c]) == a@[k]@[c]
                    || out@[k]@[c] == b@[k]@[c],
        decreases a@.len() - r,
    {
        let row = crossover_biases(&a[r], &b[r], rng);
        out.push(row);
        r = r + 1;
    }
    out
}

impl Agent {
    /// A fresh agent for the given layer sizes: layer `l` maps `dims[l]`
    /// inputs to `dims[l + 1]` outputs, and every scalar is drawn
    /// independently and uniformly from one whole unit around zero. Fails
    /// fast on an empty topology.
    pub fn new(dims: &Vec<usize>, rng: &mut rand::rngs::StdRng) -> (r: Result<Agent, EvoError>)
        ensures
            dims@.len() == 0 ==> r == Result::<Agent, EvoError>::Err(EvoError::EmptyTopology),
            dims@.len() > 0 ==> (r matches Ok(a) && a.network.wf() && a.network.shape()
                == derived_shape(dims@)),
    {
        if dims.len() == 0 {
            return Err(EvoError::EmptyTopology);
        }
        let mut layers: Vec<LayerParams> = Vec::new();
        let mut l: usize = 0;
        while l < dims.len() - 1
            invariant
                dims@.len() >= 1,
                l <= dims@.len() - 1,
                layers@.len() == l,
                forall|k: int| 0 <= k < l ==> (#[trigger] layers@[k]).wf(),
                forall|k: int|
                    0 <= k < l ==> (#[trigger] layers@[k]).shape() == (dims@[k] as int, dims@[k + 1] as int),
            decreases dims@.len() - 1 - l,
        {
            let inputs = dims[l];
            let outputs = dims[l + 1];
            let weights = random_matrix(rng, outputs, inputs);
            let biases = random_unit_vector(rng, outputs);
            layers.push(LayerParams { inputs, weights, biases });
            l = l + 1;
        }
        let network = NetworkParams { layers };
        proof {
            assert(network.shape() =~= derived_shape(dims@));
        }
        Ok(Agent { network })
    }

    /// A child whose every weight and bias scalar is taken, independently
    /// with probability one half per scalar, from `self` or from `other`.
    /// Both parents must share one topology, which the child inherits.
    pub fn crossover(&self, other: &Agent, rng: &mut rand::rngs::StdRng) -> (child: Agent)
        requires
            self.network.wf(),
            other.network.wf(),
            self.network.shape() == other.network.shape(),
        ensures
            child.network.wf(),
            child.network.shape() == self.network.shape(),
            params_from_either(self.network, other.network, child.network),
    {
        let mut layers: Vec<LayerParams> = Vec::new();
        let mut l: usize = 0;
        proof {
            assert(self.network.shape().len() == self.network.layers@.len());
            assert(other.network.shape().len() == other.network.layers@.len());
            assert(self.network.layers@.len() == other.network.layers@.len());
        }
        while l < self.network.layers.len()
            invariant
                self.network.wf(),
                other.network.wf(),
                self.network.shape() == other.network.shape(),
                self.network.layers@.len() == other.network.layers@.len(),
                l <= self.network.layers@.len(),
                layers@.len() == l,
                forall|k: int| 0 <= k < l ==> (#[trigger] layers@[k]).wf(),
                forall|k: int|
                    0 <= k < l ==> (#[trigger] layers@[k]).shape()
                        == self.network.layers@[k].shape(),
                forall|k: int, r: int, c: int|
                    0 <= k < l && 0 <= r < layers@[k].weights@.len() && 0 <= c
                        < layers@[k].weights@[r]@.len() ==> (#[trigger] layers@[k].weights@[r]@[c])
                        == self.network.layers@[k].weights@[r]@[c] || layers@[k].weights@[r]@[c]
                        == other.network.layers@[k].weights@[r]@[c],
                forall|k: int, i: int|
                    0 <= k < l && 0 <= i < layers@[k].biases@.len() ==> (
                    #[trigger] layers@[k].biases@[i]) == self.network.layers@[k].biases@[i]
                        || layers@[k].biases@[i] == other.network.layers@[k].biases@[i],
            decreases self.network.layers@.len() - l,
        {
            proof {
                assert(self.network.shape()[l as int] == other.network.shape()[l as int]);
                assert(self.network.layers@[l as int].wf());
                assert(other.network.layers@[l as int].wf());
                assert(self.network.layers@[l as int].weights@.len()
                    == other.network.layers@[l as int].weights@.len());
                assert(self.network.layers@[l as int].inputs == other.network.layers@[l
                    as int].inputs);
                assert forall|r: int|
                    0 <= r < self.network.layers@[l as int].weights@.len() implies (
                #[trigger] self.network.layers@[l as int].weights@[r])@.len()
                    == other.network.layers@[l as int].weights@[r]@.len() by {
                    assert(self.network.layers@[l as int].weights@[r]@.len()
                        == self.network.layers@[l as int].inputs);
                    assert(other.network.layers@[l as int].weights@[r]@.len()
                        == other.network.layers@[l as int].inputs);
                }
            }
            let a_l = &self.network.layers[l];
            let b_l = &other.network.layers[l];
            let weights = crossover_weights(&a_l.weights, &b_l.weights, rng);
            let biases = crossover_biases(&a_l.biases, &b_l.biases, rng);
            layers.push(LayerParams { inputs: a_l.inputs, weights, biases });
            l = l + 1;
        }
        let child = Agent { network: NetworkParams { layers } };
        proof {
            assert(child.network.shape() =~= self.network.shape());
        }
        child
    }

    /// Applies exactly one point mutation: a fair coin picks weight or bias,
    /// then a uniformly random slot in a uniformly random non-final layer is
    /// overwritten with a scalar drawn uniformly from the mutation range.
    pub fn mutate(&mut self, rng: &mut rand::rngs::StdRng)
        requires
            old(self).network.wf(),
            mutation_ready(old(self).network.shape()),
        ensures
            final(self).network.wf(),
            final(self).network.shape() == old(self).network.shape(),
            mutated_once(old(self).network, final(self).network),
    {
        if random_ratio(rng, 1, 2) {
            self.mutate_weight(rng);
        } else {
            self.mutate_bias(rng);
        }
    }

    /// Overwrites one uniformly chosen weight of one non-final layer; every
    /// bias and every other weight is left as it was.
    fn mutate_weight(&mut self, rng: &mut rand::rngs::StdRng)
        requires
            old(self).network.wf(),
            mutation_ready(old(self).network.shape()),
        ensures
            final(self).network.wf(),
            final(self).network.shape() == old(self).network.shape(),
            weight_mutated_once(old(self).network, final(self).network),
    {
        let ghost before = self.network;
        let layer = random_below(rng, self.network.layers.len() - 1);
        proof {
            assert(self.network.shape()[layer as int] == self.network.layers@[layer
                as int].shape());
            assert(self.network.layers@[layer as int].wf());
        }
        let node = random_below(rng, self.network.layers[layer].weights.len());
        let prev = random_below(rng, self.network.layers[layer].weights[node].len());
        let value = random_in_range(rng, -MUTATION_SPAN, MUTATION_SPAN);
        let lp: &mut LayerParams = &mut self.network.layers[layer];
        let new_row = row_with(&lp.weights[node], prev, value);
        let new_weights = rows_with(&lp.weights, node, new_row);
        lp.weights = new_weights;
        proof {
            let a = before;
            let b = self.network;
            assert(b.shape() =~= a.shape());
            assert(same_but_weight(a, b, layer as int, node as int, prev as int));
            assert(b.wf());
        }
    }

    /// Overwrites one uniformly chosen bias of one non-final layer; every
    /// weight and every other bias is left as it was.
    fn mutate_bias(&mut self, rng: &mut rand::rngs::StdRng)
        requires
            old(self).network.wf(),
            mutation_ready(old(self).network.shape()),
        ensures
            final(self).network.wf(),
            final(self).network.shape() == old(self).network.shape(),
            bias_mutated_once(old(self).network, final(self).network),
    {
        let ghost before = self.network;
        let layer = random_below(rng, self.network.layers.len() - 1);
        proof {
            assert(self.network.shape()[layer as int] == self.network.layers@[layer
                as int].shape());
            assert(self.network.layers@[layer as int].wf());
        }
        let node = random_below(rng, self.network.layers[layer].biases.len());
        let value = random_in_range(rng, -MUTATION_SPAN, MUTATION_SPAN);
        let lp: &mut LayerParams = &mut self.network.layers[layer];
        let new_biases = row_with(&lp.biases, node, value);
        lp.biases = new_biases;
        proof {
            let a = before;
            let b = self.network;
            assert(b.shape() =~= a.shape());
            assert(same_but_bias(a, b, layer as int, node as int));
            assert(b.wf());
        }
    }
}

/// A copy of `row` with the entry at `idx` replaced by `val`.
fn row_with(row: &Vec<i64>, idx: usize, val: i64) -> (out: Vec<i64>)
    requires
        idx < row@.len(),
    ensures
        out@ == row@.update(idx as int, val),
{
    let mut out: Vec<i64> = Vec::new();
    let mut j: usize = 0;
    while j < row.len()
        invariant
            j <= row@.len(),
            idx < row@.len(),
            out@.len() == j,
            forall|k: int| 0 <= k < j ==> out@[k] == (if k == idx { val } else { row@[k] }),
        decreases row@.len() - j,
    {
        if j == idx {
            out.push(val);
        } else {
            out.push(row[j]);
        }
        j = j + 1;
    }
    proof {
        assert(out@ =~= row@.update(idx as int, val));
    }
    out
}

/// A copy of `rows` with the row at `idx` replaced by `row`.
fn rows_with(rows: &Vec<Vec<i64>>, idx: usize, row: Vec<i64>) -> (out: Vec<Vec<i64>>)
    requires
        idx < rows@.len(),
    ensures
        out@.len() == rows@.len(),
        forall|k: int|
            0 <= k < out@.len() && k != idx ==> (#[trigger] out@[k])@ == rows@[k]@,
        out@[idx as int]@ == row@,
{
    let mut out: Vec<Vec<i64>> = Vec::new();
    let mut j: usize = 0;
    while j < rows.len()
        invariant
            j <= rows@.len(),
            idx < rows@.len(),
            out@.len() == j,
            forall|k: int|
                0 <= k < j && k != idx ==> (#[trigger] out@[k])@ == rows@[k]@,
            idx < j ==> out@[idx as int]@ == row@,
        decreases rows@.len() - j,
    {
        if j == idx {
            out.push(copy_row(&row));
        } else {
            out.push(copy_row(&rows[j]));
        }
        j = j + 1;
    }
    out
}

/// All scores equal the first.
pub open spec fn all_equal(s: Seq<i32>) -> bool {
    forall|i: int| 0 <= i < s.len() ==> (#[trigger] s[i]) == s[0]
}

/// The smallest entry of a non-empty score list (zero for an empty one).
pub open spec fn seq_min(s: Seq<i32>) -> int
    decreases s.len(),
{
    if s.len() == 0 {
        0
    } else if s.len() == 1 {
        s[0] as int
    } else {
        let m = seq_min(s.drop_last());
        if (s.last() as int) < m {
            s.last() as int
        } else {
            m
        }
    }
}

/// The fitness-proportionate sampling weights for a score list: every score
/// shifted down by the smallest one, so the worst scorer gets weight zero —
/// except that a list of all-equal scores gets uniform weight one, avoiding
/// a degenerate all-zero distribution.
pub open spec fn shifted_weights(s: Seq<i32>) -> Seq<u64> {
    if all_equal(s) {
        Seq::new(s.len(), |i: int| 1u64)
    } else {
        Seq::new(s.len(), |i: int| (s[i] - seq_min(s)) as u64)
    }
}

/// Unfolding `seq_min` over a growing prefix.
proof fn lemma_seq_min_take_step(s: Seq<i32>, i: int)
    requires
        1 <= i < s.len(),
    ensures
        seq_min(s.take(i + 1)) == if (s[i] as int) < seq_min(s.take(i)) {
            s[i] as int
        } else {
            seq_min(s.take(i))
        },
{
    assert(s.take(i + 1).drop_last() =~= s.take(i));
    assert(s.take(i + 1).last() == s[i]);
}

/// A sum of bounded weights is bounded by length times the bound.
proof fn lemma_weight_sum_bounded(s: Seq<u64>, bound: int)
    requires
        0 <= bound,
        forall|i: int| 0 <= i < s.len() ==> (#[trigger] s[i]) <= bound,
    ensures
        0 <= weight_sum(s) <= s.len() * bound,
    decreases s.len(),
{
    if s.len() == 0 {
    } else {
        lemma_weight_sum_bounded(s.drop_last(), bound);
        assert((s.len() - 1) * bound + bound == s.len() * bound) by (nonlinear_arith);
    }
}

/// The sampling weights of a score list, exactly [`shifted_weights`]. Every
/// weight fits in 32 bits and at least one weight is positive.
fn score_weights(scores: &Vec<i32>) -> (w: Vec<u64>)
    requires
        scores@.len() >= 1,
    ensures
        w@ == shifted_weights(scores@),
        w@.len() == scores@.len(),
        forall|i: int| 0 <= i < w@.len() ==> (#[trigger] w@[i]) <= 0xffff_ffffu64,
        exists|i: int| 0 <= i < w@.len() && (#[trigger] w@[i]) > 0,
{
    let mut min: i32 = scores[0];
    let mut all_eq: bool = true;
    let mut i: usize = 1;
    proof {
        assert(scores@.take(1) =~= seq![scores@[0]]);
    }
    while i < scores.len()
        invariant
            1 <= i <= scores@.len(),
            min as int == seq_min(scores@.take(i as int)),
            forall|j: int| 0 <= j < i ==> min <= (#[trigger] scores@[j]),
            all_eq <==> (forall|j: int| 0 <= j < i ==> (#[trigger] scores@[j]) == scores@[0]),
        decreases scores@.len() - i,
    {
        proof {
            lemma_seq_min_take_step(scores@, i as int);
        }
        if scores[i] < min {
            min = scores[i];
        }
        if scores[i] != scores[0] {
            all_eq = false;
        }
        i = i + 1;
    }
    proof {
        assert(scores@.take(scores@.len() as int) =~= scores@);
        assert(all_eq <==> all_equal(scores@));
    }
    let mut w: Vec<u64> = Vec::new();
    let mut k: usize = 0;
    if all_eq {
        while k < scores.len()
            invariant
                k <= scores@.len(),
                w@.len() == k,
                forall|j: int| 0 <= j < k ==> (#[trigger] w@[j]) == 1u64,
            decreases scores@.len() - k,
        {
            w.push(1);
            k = k + 1;
        }
        proof {
            assert(w@ =~= shifted_weights(scores@));
            assert(w@[0] > 0);
        }
    } else {
        while k < scores.len()
            invariant
                k <= scores@.len(),
                w@.len() == k,
                min as int == seq_min(scores@),
                forall|j: int| 0 <= j < scores@.len() ==> min <= (#[trigger] scores@[j]),
                forall|j: int|
                    0 <= j < k ==> (#[trigger] w@[j]) == (scores@[j] - seq_min(scores@)) as u64
                        && w@[j] == scores@[j] - seq_min(scores@),
            decreases scores@.len() - k,
        {
            let d: i64 = (scores[k] as i64) - (min as i64);
            w.push(d as u64);
            k = k + 1;
        }
        proof {
            assert(w@ =~= shifted_weights(scores@));
            let j0 = choose|j: int| 0 <= j < scores@.len() && (#[trigger] scores@[j]) != scores@[0];
            if scores@[0] > seq_min(scores@) {
                assert(w@[0] > 0);
            } else {
                assert(scores@[j0] > seq_min(scores@));
                assert(w@[j0] > 0);
            }
        }
    }
    w
}

/// The population manager: an ordered population of fixed size and fixed
/// topology, replaced wholesale each generation.
pub struct NeuroEvolution {
    pub population: Vec<Agent>,
    rng: rand::rngs::StdRng,
    mutation_rate_ppm: u32,
}

impl NeuroEvolution {
    /// The probability that a freshly crossed child receives one point
    /// mutation, in parts per million.
    pub closed spec fn mutation_rate(self) -> int {
        self.mutation_rate_ppm as int
    }

    /// The current population, in order.
    pub closed spec fn population_view(self) -> Seq<Agent> {
        self.population@
    }

    /// Well-formedness: the mutation rate is a probability, all agents are
    /// well formed and share one topology, and, whenever mutation can
    /// trigger, that topology has a slot a point mutation can pick.
    pub closed spec fn wf(self) -> bool {
        &&& self.mutation_rate_ppm <= PPM
        &&& forall|i: int|
            0 <= i < self.population@.len() ==> (#[trigger] self.population@[i]).network.wf()
        &&& forall|i: int|
            0 <= i < self.population@.len() ==> (#[trigger] self.population@[i]).network.shape()
                == self.population@[0].network.shape()
        &&& (self.mutation_rate_ppm > 0 && self.population@.len() > 0) ==> mutation_ready(
            self.population@[0].network.shape(),
        )
    }

    /// A population of `agents` fresh agents with independently drawn
    /// parameters over one topology. Fails fast on a request for zero agents
    /// or an empty topology.
    pub fn new(
        agents: usize,
        network_dimensions: &Vec<usize>,
        mutation_rate_ppm: u32,
        rng: rand::rngs::StdRng,
    ) -> (r: Result<NeuroEvolution, EvoError>)
        requires
            mutation_rate_ppm <= PPM,
            mutation_rate_ppm > 0 && agents > 0 && network_dimensions@.len() > 0 ==> mutation_ready(
                derived_shape(network_dimensions@),
            ),
        ensures
            agents == 0 ==> r == Result::<NeuroEvolution, EvoError>::Err(EvoError::NoAgents),
            agents > 0 && network_dimensions@.len() == 0 ==> r == Result::<
                NeuroEvolution,
                EvoError,
            >::Err(EvoError::EmptyTopology),
            agents > 0 && network_dimensions@.len() > 0 ==> (r matches Ok(ne) && ne.wf()
                && ne.population_view().len() == agents && ne.mutation_rate() == mutation_rate_ppm
                && (forall|k: int|
                0 <= k < ne.population_view().len() ==> (#[trigger] ne.population_view()[k]).network.shape()
                    == derived_shape(network_dimensions@))),
    {
        if agents == 0 {
            return Err(EvoError::NoAgents);
        }
        if network_dimensions.len() == 0 {
            return Err(EvoError::EmptyTopology);
        }
        let mut rng = rng;
        let mut population: Vec<Agent> = Vec::new();
        let mut k: usize = 0;
        while k < agents
            invariant
                k <= agents,
                network_dimensions@.len() > 0,
                population@.len() == k,
                forall|j: int|
                    0 <= j < k ==> (#[trigger] population@[j]).network.wf()
                        && population@[j].network.shape() == derived_shape(network_dimensions@),
            decreases agents - k,
        {
            let agent = match Agent::new(network_dimensions, &mut rng) {
                Ok(agent) => agent,
                Err(e) => {
                    proof {
                        assert(false);
                    }
                    return Err(e);
                },
            };
            population.push(agent);
            k = k + 1;
        }
        Ok(NeuroEvolution { population, rng, mutation_rate_ppm })
    }

    /// Replaces the whole population with one generation of children.
    ///
    /// `scores` is positionally aligned with the population, one fitness per
    /// agent, higher better, negatives allowed. Each child's parents are
    /// sampled in proportion to the min-shifted scores (uniformly when all
    /// scores are equal); the second parent is sampled the same way over the
    /// remaining agents, so no child crosses an agent with itself. The child
    /// is the parents' uniform crossover and, with the configured
    /// probability, receives one point mutation. On success the whole
    /// population is replaced by children bred, each, from two distinct
    /// members of the replaced generation. Fails, leaving the manager
    /// untouched, when the score list is misaligned or fewer than two agents
    /// exist; population size and topology are always preserved.
    pub fn new_generation(&mut self, scores: &Vec<i32>) -> (r: Result<(), EvoError>)
        requires
            old(self).wf(),
            old(self).population_view().len() <= 0xffff_ffffusize,
        ensures
            final(self).wf(),
            final(self).mutation_rate() == old(self).mutation_rate(),
            scores@.len() != old(self).population_view().len() ==> r == Result::<(), EvoError>::Err(
                EvoError::ScoreLengthMismatch,
            ),
            scores@.len() == old(self).population_view().len() && old(self).population_view().len()
                < 2 ==> r == Result::<(), EvoError>::Err(EvoError::PopulationTooSmall),
            scores@.len() == old(self).population_view().len() && old(self).population_view().len()
                >= 2 ==> r == Result::<(), EvoError>::Ok(()),
            r matches Err(_) ==> *final(self) == *old(self),
            r matches Ok(_) ==> final(self).population_view().len() == old(
                self,
            ).population_view().len() && (forall|k: int|
                0 <= k < final(self).population_view().len()
                    ==> (#[trigger] final(self).population_view()[k]).network.wf()
                    && final(self).population_view()[k].network.shape()
                    == old(self).population_view()[k].network.shape()),
            r matches Ok(_) ==> forall|k: int|
                0 <= k < final(self).population_view().len() ==> bred_from(
                    old(self).population_view(),
                    #[trigger] final(self).population_view()[k],
                ),
    {
        let n = self.population.len();
        if scores.len() != n {
            return Err(EvoError::ScoreLengthMismatch);
        }
        if n < 2 {
            return Err(EvoError::PopulationTooSmall);
        }
        let weights = score_weights(scores);
        proof {
            lemma_weight_sum_bounded(weights@, 0xffff_ffff);
            assert(weights@.len() * 0xffff_ffff <= 0xffff_ffff * 0xffff_ffff)
                by (nonlinear_arith)
                requires
                    weights@.len() <= 0xffff_ffff,
            ;
        }
        let picker = make_weighted_index(&weights);
        let mut new_population: Vec<Agent> = Vec::new();
        let mut k: usize = 0;
        while k < n
            invariant
                old(self).wf(),
                self.population == old(self).population,
                self.mutation_rate_ppm == old(self).mutation_rate_ppm,
                n == self.population@.len(),
                2 <= n <= 0xffff_ffffusize,
                scores@.len() == n,
                weights_of(picker) == weights@,
                weights@.len() == n,
                k <= n,
                new_population@.len() == k,
                forall|j: int|
                    0 <= j < k ==> (#[trigger] new_population@[j]).network.wf()
                        && new_population@[j].network.shape()
                        == self.population@[0].network.shape(),
                forall|j: int|
                    0 <= j < k ==> bred_from(
                        old(self).population_view(),
                        #[trigger] new_population@[j],
                    ),
            decreases n - k,
        {
            proof {
                assert(self.wf());
            }
            let a1 = sample_weighted(&mut self.rng, &picker);
            let mut filtered: Vec<i32> = Vec::new();
            let mut j: usize = 0;
            while j < n
                invariant
                    j <= n,
                    a1 < n,
                    n == scores@.len(),
                    filtered@.len() == (if j <= a1 {
                        j as int
                    } else {
                        j - 1
                    }),
                    forall|t: int|
                        0 <= t < filtered@.len() ==> (#[trigger] filtered@[t]) == scores@[
                        if t < a1 {
                            t
                        } else {
                            t + 1
                        }],
                decreases n - j,
            {
                if j != a1 {
                    filtered.push(scores[j]);
                }
                j = j + 1;
            }
            let second_weights = score_weights(&filtered);
            proof {
                lemma_weight_sum_bounded(second_weights@, 0xffff_ffff);
                assert(second_weights@.len() * 0xffff_ffff <= 0xffff_ffff * 0xffff_ffff)
                    by (nonlinear_arith)
                    requires
                        second_weights@.len() <= 0xffff_ffff,
                ;
            }
            let second_picker = make_weighted_index(&second_weights);
            let pick = sample_weighted(&mut self.rng, &second_picker);
            let a2 = if pick < a1 {
                pick
            } else {
                pick + 1
            };
            assert(a2 < n && a2 != a1);
            let parent_a = &self.population[a1];
            let parent_b = &self.population[a2];
            let mut child = parent_a.crossover(parent_b, &mut self.rng);
            let ghost premix = child.network;
            if random_ratio(&mut self.rng, self.mutation_rate_ppm, PPM) {
                child.mutate(&mut self.rng);
            }
            proof {
                assert(params_from_either(
                    old(self).population_view()[a1 as int].network,
                    old(self).population_view()[a2 as int].network,
                    premix,
                ));
                assert(bred_from(old(self).population_view(), child));
            }
            new_population.push(child);
            k = k + 1;
        }
        self.population = new_population;
        Ok(())
    }
}

/// A plain copy of a row of scalars.
fn copy_row(row: &Vec<i64>) -> (out: Vec<i64>)
    ensures
        out@ == row@,
{
    let mut out: Vec<i64> = Vec::new();
    let mut j: usize = 0;
    while j < row.len()
        invariant
            j <= row@.len(),
            out@ == row@.take(j as int),
        decreases row@.len() - j,
    {
        out.push(row[j]);
        proof {
            assert(row@.take(j + 1) =~= row@.take(j as int).push(row@[j as int]));
        }
        j = j + 1;
    }
    proof {
        assert(row@.take(row@.len() as int) =~= row@);
    }
    out
}

impl Agent {
    /// Selects the action for the network response `outputs`: the raw
    /// single-precision bit patterns of the adapter's output vector, in
    /// order. Returns the first index attaining the maximum encoded value,
    /// or fails on an empty response or on any non-finite entry.
    pub fn act(&self, outputs: &Vec<u32>) -> (r: Result<usize, EvoError>)
        ensures
            outputs@.len() == 0 ==> r == Result::<usize, EvoError>::Err(EvoError::EmptyOutput),
            outputs@.len() > 0 && (exists|j: int|
                0 <= j < outputs@.len() && !bits_finite(#[trigger] outputs@[j])) ==> r
                == Result::<usize, EvoError>::Err(EvoError::NonFiniteOutput),
            outputs@.len() > 0 && (forall|j: int|
                0 <= j < outputs@.len() ==> bits_finite(#[trigger] outputs@[j])) ==> (r matches Ok(
                i,
            ) && is_first_output_max(outputs@, i as int)),
    {
        if outputs.len() == 0 {
            return Err(EvoError::EmptyOutput);
        }
        let mut i: usize = 0;
        while i < outputs.len()
            invariant
                i <= outputs@.len(),
                forall|j: int| 0 <= j < i ==> bits_finite(#[trigger] outputs@[j]),
            decreases outputs@.len() - i,
        {
            if !finite_bits(outputs[i]) {
                return Err(EvoError::NonFiniteOutput);
            }
            i = i + 1;
        }
        let mut best: usize = 0;
        let mut best_key: i64 = order_key(outputs[0]);
        let mut j: usize = 1;
        while j < outputs.len()
            invariant
                1 <= j <= outputs@.len(),
                (best as int) < j,
                best_key as int == bits_order_key(outputs@[best as int]),
                forall|m: int|
                    0 <= m < j ==> bits_order_key(#[trigger] outputs@[m]) <= best_key as int,
                forall|m: int|
                    0 <= m < best ==> bits_order_key(#[trigger] outputs@[m]) < best_key as int,
            decreases outputs@.len() - j,
        {
            let k = order_key(outputs[j]);
            if k > best_key {
                best = j;
                best_key = k;
            }
            j = j + 1;
        }
        Ok(best)
    }
}

} // verus!
