//! Feature importance: histograms of features against a target, and pruning of
//! features that tell too little about it.
//!
//! Entropies are computed by the caller from the histograms and handed in.

use vstd::prelude::*;

verus! {

broadcast use vstd::array::group_array_axioms;

/// Maximum features tracked.
pub const MAX_FEATURES: usize = 512;

/// Histogram bins.
pub const NUM_BINS: usize = 64;

/// Cells of a joint histogram.
pub const JOINT_CELLS: usize = 4096;

/// Samples between two computations of the entropies.
pub const RECOMPUTE_EVERY: u64 = 1000;

/// Feature importance data.
#[derive(Debug, Clone, Copy)]
pub struct FeatureImportance {
    /// Feature hash.
    pub feature_hash: u64,
    /// Marginal entropy estimate (scaled by 10^8).
    pub marginal_entropy: i64,
    /// Conditional entropy with target (scaled by 10^8).
    pub conditional_entropy: i64,
    /// Mutual information (scaled by 10^8).
    pub mutual_info: i64,
    /// Sample count.
    pub sample_count: u64,
    /// Is active (not pruned).
    pub is_active: bool,
    /// Last update timestamp.
    pub last_update: u64,
    /// Fills the cache line.
    pub padding: [u8; 15],
}

impl FeatureImportance {
    /// Feature without samples.
    pub open spec fn spec_default() -> Self {
        FeatureImportance {
            feature_hash: 0,
            marginal_entropy: 0,
            conditional_entropy: 0,
            mutual_info: 0,
            sample_count: 0,
            is_active: true,
            last_update: 0,
            padding: vstd::array::spec_array_fill_for_copy_type::<u8, 15>(0u8),
        }
    }
}

impl Default for FeatureImportance {
    fn default() -> (r: Self)
        ensures
            r == FeatureImportance::spec_default(),
    {
        FeatureImportance {
            feature_hash: 0,
            marginal_entropy: 0,
            conditional_entropy: 0,
            mutual_info: 0,
            sample_count: 0,
            is_active: true,
            last_update: 0,
            padding: [0u8;15],
        }
    }
}

/// Entropies of a feature (scaled by 10^8).
#[derive(Debug, Clone, Copy)]
pub struct Entropies {
    /// Marginal entropy.
    pub marginal: i64,
    /// Conditional entropy with the target.
    pub conditional: i64,
    /// Mutual information.
    pub mutual: i64,
}

/// Sum of a histogram.
pub open spec fn total(s: Seq<u64>) -> int
    decreases s.len(),
{
    if s.len() == 0 {
        0
    } else {
        total(s.drop_last()) + s.last()
    }
}

/// Histogram with one more sample in a cell.
pub open spec fn counted(s: Seq<u64>, i: int) -> Seq<u64> {
    s.update(i, (s[i] + 1) as u64)
}

/// Counting a sample adds one to the sum.
proof fn lemma_counted(s: Seq<u64>, i: int)
    requires
        0 <= i < s.len(),
        s[i] < u64::MAX,
    ensures
        total(counted(s, i)) == total(s) + 1,
    decreases s.len(),
{
    if i == s.len() - 1 {
        assert(counted(s, i).drop_last() =~= s.drop_last());
    } else {
        lemma_counted(s.drop_last(), i);
        assert(counted(s, i).drop_last() =~= counted(s.drop_last(), i));
    }
}

/// No cell is larger than the sum.
proof fn lemma_cell_bound(s: Seq<u64>, i: int)
    requires
        0 <= i < s.len(),
    ensures
        s[i] <= total(s),
        0 <= total(s),
    decreases s.len(),
{
    if s.len() > 1 {
        if i < s.len() - 1 {
            lemma_cell_bound(s.drop_last(), i);
        } else {
            lemma_cell_bound(s.drop_last(), 0);
        }
    } else {
        assert(total(s.drop_last()) == 0);
    }
}

/// A histogram of zeros sums to zero.
proof fn lemma_zeros(s: Seq<u64>)
    requires
        forall|i: int| 0 <= i < s.len() ==> s[i] == 0,
    ensures
        total(s) == 0,
    decreases s.len(),
{
    if s.len() > 0 {
        lemma_zeros(s.drop_last());
    }
}

/// Bin of a value.
pub open spec fn bin(v: u8) -> int {
    v as int / 4
}

/// Cell of a joint histogram.
pub open spec fn cell(x: u8, y: u8) -> int {
    bin(x) * NUM_BINS + bin(y)
}

/// Histogram of the given number of cells, all zero.
fn zeros(n: usize) -> (r: Vec<u64>)
    ensures
        r@.len() == n,
        forall|i: int| 0 <= i < n ==> r@[i] == 0,
        total(r@) == 0,
{
    let mut v: Vec<u64> = Vec::new();
    while v.len() < n
        invariant
            v@.len() <= n,
            forall|i: int| 0 <= i < v@.len() ==> v@[i] == 0,
        decreases n - v@.len(),
    {
        v.push(0);
    }
    proof {
        lemma_zeros(v@);
    }
    v
}

/// Mutual information tracker.
#[derive(Debug)]
pub struct MutualInfoTracker {
    /// Registered features.
    pub features: Vec<FeatureImportance>,
    /// Joint histogram of each feature with the target, row by row.
    pub joint_histograms: Vec<Vec<u64>>,
    /// Histogram of each feature.
    pub feature_histograms: Vec<Vec<u64>>,
    /// Histogram of the target.
    pub target_histogram: Vec<u64>,
    /// Total samples processed.
    pub total_samples: u64,
    /// Mutual information below which a feature is pruned (scaled by 10^8).
    pub prune_threshold: i64,
    /// Valid flag.
    pub valid: bool,
}

impl MutualInfoTracker {
    /// Every feature has its histograms, and every histogram holds as many
    /// samples as were counted.
    pub open spec fn wf(&self) -> bool {
        &&& self.features@.len() <= MAX_FEATURES
        &&& self.joint_histograms@.len() == self.features@.len()
        &&& self.feature_histograms@.len() == self.features@.len()
        &&& self.target_histogram@.len() == NUM_BINS
        &&& total(self.target_histogram@) == self.total_samples
        &&& forall|i: int|
            0 <= i < self.features@.len() ==> {
                &&& (#[trigger] self.joint_histograms@[i])@.len() == JOINT_CELLS
                &&& total(self.joint_histograms@[i]@) == self.features@[i].sample_count
            }
        &&& forall|i: int|
            0 <= i < self.features@.len() ==> {
                &&& (#[trigger] self.feature_histograms@[i])@.len() == NUM_BINS
                &&& total(self.feature_histograms@[i]@) == self.features@[i].sample_count
            }
    }

    /// Tracker without features. It is not valid yet.
    pub fn new() -> (r: Self)
        ensures
            r.wf(),
            r.features@ == Seq::<FeatureImportance>::empty(),
            r.total_samples == 0,
            r.prune_threshold == 100_000,
            !r.valid,
    {
        MutualInfoTracker {
            features: Vec::new(),
            joint_histograms: Vec::new(),
            feature_histograms: Vec::new(),
            target_histogram: zeros(NUM_BINS),
            total_samples: 0,
            prune_threshold: 100_000,
            valid: false,
        }
    }

    /// Register a feature. Gives its place, or nothing if the tracker is full or
    /// not valid.
    pub fn register_feature(&mut self, feature_hash: u64) -> (r: Option<usize>)
        requires
            old(self).wf(),
        ensures
            final(self).wf(),
            r == if old(self).valid && old(self).features@.len() < MAX_FEATURES {
                Some(old(self).features@.len() as usize)
            } else {
                None
            },
            r is None ==> *final(self) == *old(self),
            r is Some ==> {
                &&& final(self).features@ == old(self).features@.push(
                    FeatureImportance { feature_hash, ..FeatureImportance::spec_default() },
                )
                &&& forall|i: int|
                    0 <= i < old(self).features@.len() ==> #[trigger] final(self).joint_histograms@[i] == old(self).joint_histograms@[i]
                &&& forall|i: int|
                    0 <= i < old(self).features@.len() ==> #[trigger] final(self).feature_histograms@[i] == old(self).feature_histograms@[i]
                &&& *final(self) == (MutualInfoTracker {
                    features: final(self).features,
                    joint_histograms: final(self).joint_histograms,
                    feature_histograms: final(self).feature_histograms,
                    ..*old(self)
                })
            },
    {
        if !self.valid {
            return None;
        }
        let idx: usize = self.features.len();
        if idx >= MAX_FEATURES {
            return None;
        }
        let mut feature = FeatureImportance::default();
        feature.feature_hash = feature_hash;
        self.features.push(feature);
        self.joint_histograms.push(zeros(JOINT_CELLS));
        self.feature_histograms.push(zeros(NUM_BINS));
        Some(idx)
    }

    /// Whether a sample of a feature is counted.
    pub open spec fn counts(&self, feature_idx: int) -> bool {
        self.valid && 0 <= feature_idx < self.features@.len() && self.features@[feature_idx].is_active
    }

    /// Count a sample of a feature and the target at time `now`. Nothing happens
    /// if the tracker is not valid, nor for an unknown or pruned feature. Tells
    /// whether the entropies of the feature are to be computed anew.
    pub fn update(&mut self, feature_idx: usize, feature_val: u8, target_val: u8, now: u64) -> (r: bool)
        requires
            old(self).wf(),
            old(self).counts(feature_idx as int) ==> old(self).total_samples < u64::MAX && old(self).features@[feature_idx as int].sample_count < u64::MAX,
        ensures
            final(self).wf(),
            !old(self).counts(feature_idx as int) ==> !r && *final(self) == *old(self),
            old(self).counts(feature_idx as int) ==> {
                let f = feature_idx as int;
                let feature = old(self).features@[f];
                &&& r == ((feature.sample_count + 1) % 1000 == 0)
                &&& final(self).features@ == old(self).features@.update(
                    f,
                    FeatureImportance {
                        sample_count: (feature.sample_count + 1) as u64,
                        last_update: now,
                        ..feature
                    },
                )
                &&& final(self).joint_histograms@[f]@ == counted(
                    old(self).joint_histograms@[f]@,
                    cell(feature_val, target_val),
                )
                &&& final(self).feature_histograms@[f]@ == counted(
                    old(self).feature_histograms@[f]@,
                    bin(feature_val),
                )
                &&& final(self).target_histogram@ == counted(
                    old(self).target_histogram@,
                    bin(target_val),
                )
                &&& forall|i: int|
                    0 <= i < old(self).features@.len() && i != f ==> #[trigger] final(self).joint_histograms@[i] == old(self).joint_histograms@[i]
                &&& forall|i: int|
                    0 <= i < old(self).features@.len() && i != f ==> #[trigger] final(self).feature_histograms@[i] == old(self).feature_histograms@[i]
                &&& final(self).total_samples == old(self).total_samples + 1
                &&& final(self).prune_threshold == old(self).prune_threshold
                &&& final(self).valid
            },
    {
        if !self.valid {
            return false;
        }
        if feature_idx >= self.features.len() {
            return false;
        }
        let mut feature = self.features[feature_idx];
        if !feature.is_active {
            return false;
        }
        let x: usize = feature_val as usize / 4;
        let y: usize = target_val as usize / 4;
        let at: usize = x * NUM_BINS + y;
        let ghost f = feature_idx as int;
        let ghost joint = self.joint_histograms@[f]@;
        let ghost marginal = self.feature_histograms@[f]@;
        let ghost target = self.target_histogram@;
        proof {
            lemma_cell_bound(joint, at as int);
            lemma_cell_bound(marginal, x as int);
            lemma_cell_bound(target, y as int);
            lemma_counted(joint, at as int);
            lemma_counted(marginal, x as int);
            lemma_counted(target, y as int);
        }
        let joint_count: u64 = self.joint_histograms[feature_idx][at];
        self.joint_histograms[feature_idx].set(at, joint_count + 1);
        let count: u64 = self.feature_histograms[feature_idx][x];
        self.feature_histograms[feature_idx].set(x, count + 1);
        let target_count: u64 = self.target_histogram[y];
        self.target_histogram.set(y, target_count + 1);
        feature.sample_count = feature.sample_count + 1;
        feature.last_update = now;
        self.features.set(feature_idx, feature);
        self.total_samples = self.total_samples + 1;
        feature.sample_count % RECOMPUTE_EVERY == 0
    }

    /// Take over the entropies of a feature, and prune it if it tells too little
    /// about the target. An unknown feature, or one without samples, changes
    /// nothing.
    pub fn compute_mutual_info(&mut self, feature_idx: usize, entropies: Entropies)
        requires
            old(self).wf(),
        ensures
            final(self).wf(),
            feature_idx >= old(self).features@.len() || old(self).features@[feature_idx as int].sample_count == 0 ==> *final(self) == *old(self),
            feature_idx < old(self).features@.len() && old(self).features@[feature_idx as int].sample_count > 0 ==> {
                let f = feature_idx as int;
                let feature = old(self).features@[f];
                &&& final(self).features@ == old(self).features@.update(
                    f,
                    FeatureImportance {
                        marginal_entropy: entropies.marginal,
                        conditional_entropy: entropies.conditional,
                        mutual_info: entropies.mutual,
                        is_active: feature.is_active && entropies.mutual >= old(self).prune_threshold,
                        ..feature
                    },
                )
                &&& *final(self) == (MutualInfoTracker {
                    features: final(self).features,
                    ..*old(self)
                })
            },
    {
        if feature_idx >= self.features.len() {
            return ;
        }
        let mut feature = self.features[feature_idx];
        if feature.sample_count == 0 {
            return ;
        }
        feature.marginal_entropy = entropies.marginal;
        feature.conditional_entropy = entropies.conditional;
        feature.mutual_info = entropies.mutual;
        if entropies.mutual < self.prune_threshold {
            feature.is_active = false;
        }
        self.features.set(feature_idx, feature);
    }

    /// Mutual information of a feature; zero for an unknown feature.
    pub fn get_mi(&self, feature_idx: usize) -> (r: i64)
        ensures
            r == if feature_idx < self.features@.len() {
                self.features@[feature_idx as int].mutual_info
            } else {
                0
            },
    {
        if feature_idx >= self.features.len() {
            return 0;
        }
        self.features[feature_idx].mutual_info
    }

    /// Check if a feature is active.
    pub fn is_active(&self, feature_idx: usize) -> (r: bool)
        ensures
            r == (feature_idx < self.features@.len() && self.features@[feature_idx as int].is_active),
    {
        if feature_idx >= self.features.len() {
            return false;
        }
        self.features[feature_idx].is_active
    }

    /// Mark the tracker as valid.
    pub fn mark_valid(&mut self)
        ensures
            *final(self) == (MutualInfoTracker { valid: true, ..*old(self) }),
    {
        self.valid = true;
    }

    /// Invalidate the tracker.
    pub fn invalidate(&mut self)
        ensures
            *final(self) == (MutualInfoTracker { valid: false, ..*old(self) }),
    {
        self.valid = false;
    }
}

impl Default for MutualInfoTracker {
    fn default() -> (r: Self)
        ensures
            r.wf(),
            r.features@ == Seq::<FeatureImportance>::empty(),
            r.total_samples == 0,
            r.prune_threshold == 100_000,
            !r.valid,
    {
        Self::new()
    }
}

/// A bin holds four neighbouring values; a cell is found by the bin of the feature first
/// and that of the target second, and no two pairs of bins share one.
pub proof fn lemma_bins_of_four(x: u8, y: u8, u: u8, v: u8)
    ensures
        4 * bin(x) <= x < 4 * bin(x) + 4,
        0 <= bin(x) < 64,
        cell(x, y) == 64 * bin(x) + bin(y),
        0 <= cell(x, y) < 4096,
        cell(x, y) == cell(u, v) ==> bin(x) == bin(u) && bin(y) == bin(v),
{
}

/// A count raises one cell by one and no other.
pub proof fn lemma_counted_once(s: Seq<u64>, i: int, j: int)
    requires
        0 <= i < s.len(),
        0 <= j < s.len(),
        s[i] < u64::MAX,
    ensures
        counted(s, i).len() == s.len(),
        counted(s, i)[i] == s[i] + 1,
        j != i ==> counted(s, i)[j] == s[j],
        total(counted(s, i)) == total(s) + 1,
{
    lemma_counted(s, i);
}

/// A sample is counted while the tracker is valid, if its feature is one of those that have
/// been added and has not been pruned.
pub proof fn lemma_sample_is_counted(t: MutualInfoTracker, i: int)
    ensures
        t.counts(i) <==> t.valid && i >= 0 && i + 1 <= t.features@.len()
            && t.features@[i].is_active,
{
}

} // verus!
