//! Streaming principal components: projection of inputs, and the state of the
//! learning rule.
//!
//! Weights and values are scaled by 10^8. New weights are computed by the caller
//! and handed in.

use vstd::prelude::*;
use crate::fixed::{
    div_i128, div_i64, lemma_tdiv_rounds, lemma_tdiv_unique, min, mul_wide, sat_add,
    saturating_add_i64, tdiv,
};

verus! {

broadcast use vstd::array::group_array_axioms;

/// Maximum input dimensions.
pub const MAX_INPUT_DIM: usize = 256;

/// Maximum output components.
pub const MAX_COMPONENTS: usize = 32;

/// One, scaled.
pub const ONE: i64 = 100_000_000;

/// Factor of the weight generator.
pub const LCG_FACTOR: u64 = 6364136223846793005;

/// Streaming principal component analysis.
#[derive(Debug)]
pub struct StreamingPCA {
    /// Weights, a row for each component.
    pub weights: [[i64; 256]; 32],
    /// Eigenvalue estimates.
    pub eigenvalues: [i64; 32],
    /// Input dimension.
    pub input_dim: usize,
    /// Output components.
    pub num_components: usize,
    /// Learning rate.
    pub learning_rate: i64,
    /// Update count.
    pub update_count: u64,
    /// Valid flag.
    pub valid: bool,
}

/// What a learning step leaves.
#[derive(Debug)]
pub struct Learned {
    /// Weights, a row for each component.
    pub weights: [[i64; 256]; 32],
    /// Eigenvalue estimates.
    pub eigenvalues: [i64; 32],
}

/// Generator state after `n` steps.
pub open spec fn lcg(seed: u64, n: nat) -> u64
    decreases n,
{
    if n == 0 {
        seed
    } else {
        lcg(seed, (n - 1) as nat).wrapping_mul(LCG_FACTOR).wrapping_add(1)
    }
}

/// Weight that a generator state stands for: a small value around zero.
pub open spec fn small_weight(state: u64) -> int {
    (state as int / 0x2_0000_0000) % 1000 - 500
}

/// Scalar product of the first `n` numbers, term by term held within range.
pub open spec fn dot(w: Seq<i64>, x: Seq<i64>, n: nat) -> int
    decreases n,
{
    if n == 0 {
        0
    } else {
        sat_add(
            dot(w, x, (n - 1) as nat),
            tdiv(w[n - 1] * x[n - 1], ONE as int) as i64 as int,
        )
    }
}

/// The scalar product stays within range.
proof fn lemma_dot_range(w: Seq<i64>, x: Seq<i64>, n: nat)
    ensures
        i64::MIN <= dot(w, x, n) <= i64::MAX,
    decreases n,
{
    if n > 0 {
        lemma_dot_range(w, x, (n - 1) as nat);
    }
}

impl StreamingPCA {
    /// Dimensions are within bounds.
    pub open spec fn wf(&self) -> bool {
        self.input_dim <= MAX_INPUT_DIM && self.num_components <= MAX_COMPONENTS
    }

    /// Analysis with weights of zero. It is not valid yet.
    pub fn new(input_dim: usize, num_components: usize) -> (r: Self)
        requires
            input_dim <= MAX_INPUT_DIM,
            num_components <= MAX_COMPONENTS,
        ensures
            r.wf(),
            forall|i: int, j: int|
                0 <= i < MAX_COMPONENTS && 0 <= j < MAX_INPUT_DIM ==> (#[trigger] r.weights@[i]@[j])
                    == 0,
            forall|i: int| 0 <= i < MAX_COMPONENTS ==> r.eigenvalues@[i] == 0,
            r.input_dim == input_dim,
            r.num_components == num_components,
            r.learning_rate == 100_000,
            r.update_count == 0,
            !r.valid,
    {
        StreamingPCA {
            weights: [[0i64;256];32],
            eigenvalues: [0i64;32],
            input_dim,
            num_components,
            learning_rate: 100_000,
            update_count: 0,
            valid: false,
        }
    }

    /// Weight in row `i`, column `j` after initialization.
    pub open spec fn initialized(&self, seed: u64, i: int, j: int) -> int {
        if i < self.num_components && j < self.input_dim {
            small_weight(lcg(seed, (i * self.input_dim + j + 1) as nat))
        } else {
            self.weights@[i]@[j] as int
        }
    }

    /// Initialize the weights with small values that the seed determines.
    pub fn initialize(&mut self, seed: u64)
        requires
            old(self).wf(),
        ensures
            final(self).wf(),
            forall|i: int, j: int|
                0 <= i < MAX_COMPONENTS && 0 <= j < MAX_INPUT_DIM ==> #[trigger] final(self).weights@[i]@[j] == old(self).initialized(seed, i, j),
            *final(self) == (StreamingPCA { weights: final(self).weights, ..*old(self) }),
    {
        let mut state: u64 = seed;
        let mut i: usize = 0;
        assert(0 * self.input_dim == 0) by (nonlinear_arith);
        while i < self.num_components
            invariant
                self.wf(),
                i <= self.num_components,
                *self == (StreamingPCA { weights: self.weights, ..*old(self) }),
                state == lcg(seed, (i * self.input_dim) as nat),
                forall|a: int, b: int|
                    0 <= a < MAX_COMPONENTS && 0 <= b < MAX_INPUT_DIM ==> #[trigger] self.weights@[a]@[b]
                        == if a < i {
                        old(self).initialized(seed, a, b)
                    } else {
                        old(self).weights@[a]@[b] as int
                    },
            decreases self.num_components - i,
        {
            let mut row = self.weights[i];
            let mut j: usize = 0;
            while j < self.input_dim
                invariant
                    self.wf(),
                    i < self.num_components,
                    j <= self.input_dim,
                    *self == (StreamingPCA { weights: self.weights, ..*old(self) }),
                    state == lcg(seed, (i * self.input_dim + j) as nat),
                    forall|b: int|
                        0 <= b < MAX_INPUT_DIM ==> #[trigger] row@[b] == if b < j {
                            old(self).initialized(seed, i as int, b)
                        } else {
                            old(self).weights@[i as int]@[b] as int
                        },
                decreases self.input_dim - j,
            {
                assert(0 <= i * self.input_dim) by (nonlinear_arith)
                    requires
                        i >= 0,
                        self.input_dim >= 0,
                ;
                state = state.wrapping_mul(LCG_FACTOR).wrapping_add(1);
                row[j] = ((state / 0x2_0000_0000) % 1000) as i64 - 500;
                j = j + 1;
            }
            self.weights[i] = row;
            assert((i + 1) * self.input_dim == i * self.input_dim + self.input_dim)
                by (nonlinear_arith);
            i = i + 1;
        }
    }

    /// Input dimensions that a projection uses.
    pub open spec fn used(&self, input: Seq<i64>) -> nat {
        min(self.input_dim as int, input.len() as int) as nat
    }

    /// Component `i` of an input.
    pub open spec fn component(&self, input: Seq<i64>, i: int) -> int {
        if i < self.num_components {
            tdiv(dot(self.weights@[i]@, input, self.used(input)), ONE as int)
        } else {
            0
        }
    }

    /// One learning step: project an input, and take over what was learned from
    /// it. Gives the projection; zeros, changing nothing, if the analysis is not
    /// valid.
    pub fn update(&mut self, input: &[i64], learned: &Learned) -> (r: [i64; 32])
        requires
            old(self).wf(),
        ensures
            final(self).wf(),
            forall|i: int|
                0 <= i < MAX_COMPONENTS ==> #[trigger] r@[i] == if old(self).valid {
                    old(self).component(input@, i)
                } else {
                    0
                },
            !old(self).valid ==> *final(self) == *old(self),
            old(self).valid ==> {
                &&& forall|i: int, j: int|
                    0 <= i < MAX_COMPONENTS && 0 <= j < MAX_INPUT_DIM ==> #[trigger] final(self).weights@[i]@[j] == if i < old(self).num_components && j < old(self).used(
                        input@,
                    ) {
                        learned.weights@[i]@[j]
                    } else {
                        old(self).weights@[i]@[j]
                    }
                &&& forall|i: int|
                    0 <= i < MAX_COMPONENTS ==> #[trigger] final(self).eigenvalues@[i] == if i < old(self).num_components {
                        learned.eigenvalues@[i]
                    } else {
                        old(self).eigenvalues@[i]
                    }
                &&& *final(self) == (StreamingPCA {
                    weights: final(self).weights,
                    eigenvalues: final(self).eigenvalues,
                    update_count: old(self).update_count.wrapping_add(1),
                    ..*old(self)
                })
            },
    {
        if !self.valid {
            return [0i64;32];
        }
        let output = self.transform(input);
        let n: usize = if self.input_dim < input.len() {
            self.input_dim
        } else {
            input.len()
        };
        let mut i: usize = 0;
        while i < self.num_components
            invariant
                self.wf(),
                i <= self.num_components,
                n == old(self).used(input@),
                n <= MAX_INPUT_DIM,
                *self == (StreamingPCA {
                    weights: self.weights,
                    eigenvalues: self.eigenvalues,
                    ..*old(self)
                }),
                forall|a: int, b: int|
                    0 <= a < MAX_COMPONENTS && 0 <= b < MAX_INPUT_DIM ==> #[trigger] self.weights@[a]@[b]
                        == if a < i && b < n {
                        learned.weights@[a]@[b]
                    } else {
                        old(self).weights@[a]@[b]
                    },
                forall|a: int|
                    0 <= a < MAX_COMPONENTS ==> #[trigger] self.eigenvalues@[a] == if a < i {
                        learned.eigenvalues@[a]
                    } else {
                        old(self).eigenvalues@[a]
                    },
            decreases self.num_components - i,
        {
            let mut row = self.weights[i];
            let mut j: usize = 0;
            while j < n
                invariant
                    j <= n <= MAX_INPUT_DIM,
                    i < MAX_COMPONENTS,
                    forall|b: int|
                        0 <= b < MAX_INPUT_DIM ==> #[trigger] row@[b] == if b < j {
                            learned.weights@[i as int]@[b]
                        } else {
                            old(self).weights@[i as int]@[b]
                        },
                decreases n - j,
            {
                row[j] = learned.weights[i][j];
                j = j + 1;
            }
            self.weights[i] = row;
            self.eigenvalues[i] = learned.eigenvalues[i];
            i = i + 1;
        }
        self.update_count = self.update_count.wrapping_add(1);
        output
    }

    /// Project an input onto the principal components.
    pub fn transform(&self, input: &[i64]) -> (r: [i64; 32])
        requires
            self.wf(),
        ensures
            forall|i: int|
                0 <= i < MAX_COMPONENTS ==> #[trigger] r@[i] == self.component(input@, i),
    {
        let n: usize = if self.input_dim < input.len() {
            self.input_dim
        } else {
            input.len()
        };
        let mut output = [0i64;32];
        let mut i: usize = 0;
        while i < self.num_components
            invariant
                self.wf(),
                i <= self.num_components,
                n == self.used(input@),
                n <= MAX_INPUT_DIM,
                n <= input@.len(),
                forall|a: int| 0 <= a < i ==> #[trigger] output@[a] == self.component(input@, a),
                forall|a: int| i <= a < MAX_COMPONENTS ==> #[trigger] output@[a] == 0,
            decreases self.num_components - i,
        {
            let ghost w = self.weights@[i as int]@;
            let mut sum: i64 = 0;
            let mut j: usize = 0;
            while j < n
                invariant
                    i < self.num_components <= MAX_COMPONENTS,
                    j <= n <= MAX_INPUT_DIM,
                    n <= input@.len(),
                    w == self.weights@[i as int]@,
                    sum == dot(w, input@, j as nat),
                decreases n - j,
            {
                let term: i64 = div_i128(mul_wide(self.weights[i][j], input[j]), ONE as i128) as i64;
                sum = saturating_add_i64(sum, term);
                j = j + 1;
            }
            output[i] = div_i64(sum, ONE);
            i = i + 1;
        }
        output
    }

    /// Mark the analysis as valid.
    pub fn mark_valid(&mut self)
        ensures
            *final(self) == (StreamingPCA { valid: true, ..*old(self) }),
    {
        self.valid = true;
    }

    /// Invalidate the analysis.
    pub fn invalidate(&mut self)
        ensures
            *final(self) == (StreamingPCA { valid: false, ..*old(self) }),
    {
        self.valid = false;
    }
}

impl Default for StreamingPCA {
    fn default() -> (r: Self)
        ensures
            r.wf(),
            forall|i: int, j: int|
                0 <= i < MAX_COMPONENTS && 0 <= j < MAX_INPUT_DIM ==> (#[trigger] r.weights@[i]@[j])
                    == 0,
            forall|i: int| 0 <= i < MAX_COMPONENTS ==> r.eigenvalues@[i] == 0,
            r.input_dim == 0,
            r.num_components == 0,
            r.learning_rate == 100_000,
            r.update_count == 0,
            !r.valid,
    {
        Self::new(0, 0)
    }
}

/// Initial weights are small.
pub proof fn lemma_initial_weights_small(state: u64)
    ensures
        -500 <= small_weight(state) < 500,
{
}

/// A projection adds up the products of weights and inputs, each scaled down and rounded
/// toward zero, as long as the sums fit.
pub proof fn lemma_dot_adds_products(w: Seq<i64>, x: Seq<i64>, n: nat, product: int)
    requires
        n < w.len(),
        n < x.len(),
        w[n as int] * x[n as int] >= 0,
        product * 100_000_000 <= w[n as int] * x[n as int] < (product + 1) * 100_000_000,
        product <= i64::MAX,
        -0x8000_0000_0000_0000 <= dot(w, x, n) + product <= 0x7fff_ffff_ffff_ffff,
    ensures
        dot(w, x, 0) == 0,
        dot(w, x, n + 1) == dot(w, x, n) + product,
{
    lemma_tdiv_unique(w[n as int] * x[n as int], 100_000_000, product);
}

/// A component is the projection, scaled down; there are only as many as were asked for.
pub proof fn lemma_component_of_projection(p: StreamingPCA, input: Seq<i64>, i: int)
    requires
        0 <= i < 32,
        i < p.num_components ==> dot(p.weights@[i]@, input, p.used(input)) >= 0,
    ensures
        ({
            let c = p.component(input, i);
            let d = dot(p.weights@[i]@, input, p.used(input));
            &&& i < p.num_components ==> c * 100_000_000 <= d < (c + 1) * 100_000_000
            &&& i >= p.num_components ==> c == 0
        }),
        p.input_dim <= input.len() ==> p.used(input) == p.input_dim,
        p.input_dim > input.len() ==> p.used(input) == input.len(),
{
    lemma_tdiv_rounds(dot(p.weights@[i]@, input, p.used(input)), 100_000_000);
}

/// The generator multiplies by 6364136223846793005 and adds one with each step, within 64
/// bits.
pub proof fn lemma_generator_steps(seed: u64, n: nat)
    ensures
        lcg(seed, 0) == seed,
        lcg(seed, n + 1) == (lcg(seed, n) * 6364136223846793005 + 1) % 0x1_0000_0000_0000_0000,
{
    let s = lcg(seed, n);
    let p = s.wrapping_mul(LCG_FACTOR);
    assert(p == (s * 6364136223846793005) % 0x1_0000_0000_0000_0000);
    vstd::arithmetic::div_mod::lemma_add_mod_noop(
        s * 6364136223846793005,
        1,
        0x1_0000_0000_0000_0000,
    );
}

} // verus!
