//! Feature store: current values, a circular history and metadata.
//!
//! Values are scaled by 10^8. Running means and deviations are computed by the
//! caller and handed in.

use vstd::prelude::*;
use crate::fixed::{max, min};
use crate::ring::{lemma_ring_push, pushed, ring};

verus! {

broadcast use vstd::array::group_array_axioms;

/// Maximum number of features.
pub const MAX_FEATURES: usize = 1024;

/// Length of the history.
pub const MAX_HISTORY: usize = 8192;

/// One, scaled.
pub const ONE: i64 = 100_000_000;

/// Feature metadata.
#[derive(Debug, Clone, Copy)]
pub struct FeatureMeta {
    /// Feature name hash.
    pub name_hash: u64,
    /// Feature type (0=float, 1=int, 2=bool).
    pub dtype: u8,
    /// Is normalized.
    pub is_normalized: bool,
    /// Mean for normalization (scaled).
    pub mean: i64,
    /// Deviation for normalization (scaled).
    pub std: i64,
    /// Min value (scaled): the smallest of where it started and the values so far.
    pub min_val: i64,
    /// Max value (scaled): the largest of where it started and the values so far.
    pub max_val: i64,
    /// Values written so far.
    pub last_update: u64,
    /// Fills the cache line.
    pub padding: [u8; 14],
}

impl FeatureMeta {
    /// Metadata of a feature without values.
    pub open spec fn spec_default() -> Self {
        FeatureMeta {
            name_hash: 0,
            dtype: 0,
            is_normalized: false,
            mean: 0,
            std: ONE,
            min_val: i64::MIN,
            max_val: i64::MAX,
            last_update: 0,
            padding: vstd::array::spec_array_fill_for_copy_type::<u8, 14>(0u8),
        }
    }
}

impl Default for FeatureMeta {
    fn default() -> (r: Self)
        ensures
            r == FeatureMeta::spec_default(),
    {
        FeatureMeta {
            name_hash: 0,
            dtype: 0,
            is_normalized: false,
            mean: 0,
            std: ONE,
            min_val: i64::MIN,
            max_val: i64::MAX,
            last_update: 0,
            padding: [0u8;14],
        }
    }
}

/// Running statistics of a feature (scaled).
#[derive(Debug, Clone, Copy)]
pub struct Moments {
    /// Mean.
    pub mean: i64,
    /// Deviation.
    pub std: i64,
}

/// Feature store.
#[derive(Debug)]
pub struct FeatureStore {
    /// Current feature values.
    pub current_values: [i64; 1024],
    /// History of each feature, in a ring; empty for a feature that was never
    /// registered.
    pub history: Vec<Vec<i64>>,
    /// Feature metadata.
    pub metadata: [FeatureMeta; 1024],
    /// Values written in all.
    pub write_idx: u64,
    /// Number of active features.
    pub num_features: usize,
    /// Features that are registered.
    pub registered: [bool; 1024],
    /// Store version.
    pub version: u64,
    /// Valid flag.
    pub valid: bool,
}

/// How many flags of `flags` are set.
pub open spec fn set_count(flags: Seq<bool>) -> int
    decreases flags.len(),
{
    if flags.len() == 0 {
        0
    } else {
        set_count(flags.drop_last()) + (if flags.last() {
            1int
        } else {
            0
        })
    }
}

/// No more flags are set than there are, and where none is set the count is zero.
pub proof fn lemma_set_count(flags: Seq<bool>)
    ensures
        0 <= set_count(flags) <= flags.len(),
        (forall|i: int| 0 <= i < flags.len() ==> !flags[i]) ==> set_count(flags) == 0,
    decreases flags.len(),
{
    if flags.len() > 0 {
        lemma_set_count(flags.drop_last());
    }
}

/// Setting one more flag adds one to the count.
pub proof fn lemma_set_one_more(flags: Seq<bool>, i: int)
    requires
        0 <= i < flags.len(),
        !flags[i],
    ensures
        set_count(flags.update(i, true)) == set_count(flags) + 1,
    decreases flags.len(),
{
    let after = flags.update(i, true);
    if i == flags.len() - 1 {
        assert(after.drop_last() =~= flags.drop_last());
    } else {
        assert(after.drop_last() =~= flags.drop_last().update(i, true));
        lemma_set_one_more(flags.drop_last(), i);
    }
}

impl FeatureStore {
    /// Values of a feature that are kept, oldest first.
    pub open spec fn recent(&self, f: int) -> Seq<i64> {
        let written = self.metadata@[f].last_update as int;
        ring(self.history@[f]@, written, min(written, MAX_HISTORY as int))
    }

    /// The current value of a feature is the last one kept.
    pub open spec fn current_is_last(&self, f: int) -> bool {
        self.current_values@[f] == if self.registered@[f] && self.recent(f).len() > 0 {
            self.recent(f).last()
        } else {
            0
        }
    }

    /// The number of features is that of the registered ones. Registered features
    /// have a history of full length, others none. Current values are the last ones
    /// kept.
    pub open spec fn wf(&self) -> bool {
        &&& self.num_features == set_count(self.registered@)
        &&& self.history@.len() == MAX_FEATURES
        &&& forall|i: int|
            0 <= i < MAX_FEATURES ==> (#[trigger] self.history@[i])@.len() == if self.registered@[i] {
                MAX_HISTORY as int
            } else {
                0
            }
        &&& forall|i: int|
            0 <= i < MAX_FEATURES ==> #[trigger] self.current_is_last(i)
    }

    /// Nothing is registered.
    pub open spec fn fresh(&self) -> bool {
        &&& self.wf()
        &&& forall|i: int| 0 <= i < MAX_FEATURES ==> self.current_values@[i] == 0
        &&& forall|i: int| 0 <= i < MAX_FEATURES ==> self.metadata@[i] == FeatureMeta::spec_default()
        &&& forall|i: int| 0 <= i < MAX_FEATURES ==> !self.registered@[i]
        &&& self.write_idx == 0
        &&& self.num_features == 0
        &&& self.version == 0
        &&& !self.valid
    }

    /// Create a new feature store. It is not valid yet.
    pub fn new() -> (r: Self)
        ensures
            r.fresh(),
    {
        let mut history: Vec<Vec<i64>> = Vec::new();
        while history.len() < MAX_FEATURES
            invariant
                history@.len() <= MAX_FEATURES,
                forall|i: int| 0 <= i < history@.len() ==> (#[trigger] history@[i])@.len() == 0,
            decreases MAX_FEATURES - history@.len(),
        {
            history.push(Vec::new());
        }
        let registered = [false;1024];
        proof {
            lemma_set_count(registered@);
        }
        FeatureStore {
            current_values: [0i64;1024],
            history,
            metadata: [FeatureMeta::default();1024],
            write_idx: 0,
            num_features: 0,
            registered,
            version: 0,
            valid: false,
        }
    }

    /// `slot` is the first free place, if there is one.
    pub open spec fn first_free(&self, slot: Option<usize>) -> bool {
        match slot {
            Some(i) => i < MAX_FEATURES && !self.registered@[i as int] && forall|j: int|
                0 <= j < i ==> #[trigger] self.registered@[j],
            None => forall|j: int| 0 <= j < MAX_FEATURES ==> #[trigger] self.registered@[j],
        }
    }

    /// Register a new feature in the first free place. Gives the place, or
    /// nothing if the store is full or not valid.
    pub fn register_feature(&mut self, name_hash: u64, dtype: u8) -> (r: Option<usize>)
        requires
            old(self).wf(),
        ensures
            final(self).wf(),
            !old(self).valid ==> r is None,
            old(self).valid ==> old(self).first_free(r),
            r is None ==> *final(self) == *old(self),
            r is Some ==> {
                let i = r->0 as int;
                &&& final(self).registered@ == old(self).registered@.update(i, true)
                &&& final(self).metadata@ == old(self).metadata@.update(
                    i,
                    FeatureMeta { name_hash, dtype, ..FeatureMeta::spec_default() },
                )
                &&& final(self).history@[i]@ == Seq::new(MAX_HISTORY as nat, |k: int| 0i64)
                &&& final(self).recent(i) == Seq::<i64>::empty()
                &&& forall|j: int|
                    0 <= j < MAX_FEATURES && j != i ==> #[trigger] final(self).history@[j] == old(self).history@[j]
                &&& final(self).num_features == old(self).num_features + 1
                &&& *final(self) == (FeatureStore {
                    registered: final(self).registered,
                    metadata: final(self).metadata,
                    history: final(self).history,
                    num_features: final(self).num_features,
                    ..*old(self)
                })
            },
    {
        if !self.valid {
            return None;
        }
        let mut idx: usize = 0;
        while idx < MAX_FEATURES && self.registered[idx]
            invariant
                idx <= MAX_FEATURES,
                *self == *old(self),
                forall|j: int| 0 <= j < idx ==> #[trigger] self.registered@[j],
            decreases MAX_FEATURES - idx,
        {
            idx = idx + 1;
        }
        if idx >= MAX_FEATURES {
            return None;
        }
        let mut zeros: Vec<i64> = Vec::new();
        while zeros.len() < MAX_HISTORY
            invariant
                zeros@.len() <= MAX_HISTORY,
                forall|k: int| 0 <= k < zeros@.len() ==> zeros@[k] == 0,
            decreases MAX_HISTORY - zeros@.len(),
        {
            zeros.push(0);
        }
        assert(zeros@ =~= Seq::new(MAX_HISTORY as nat, |k: int| 0i64));
        proof {
            lemma_set_count(self.registered@);
            lemma_set_one_more(self.registered@, idx as int);
        }
        self.registered[idx] = true;
        let mut meta = FeatureMeta::default();
        meta.name_hash = name_hash;
        meta.dtype = dtype;
        self.metadata[idx] = meta;
        self.history.set(idx, zeros);
        self.num_features = self.num_features + 1;
        assert(self.recent(idx as int) =~= Seq::<i64>::empty());
        proof {
            assert forall|i: int| 0 <= i < MAX_FEATURES implies #[trigger] self.current_is_last(
                i,
            ) by {
                assert(old(self).current_is_last(i));
                if i != idx {
                    assert(self.recent(i) == old(self).recent(i));
                }
            }
        }
        Some(idx)
    }

    /// Whether a feature exists and is registered.
    pub open spec fn has(&self, feature_idx: int) -> bool {
        0 <= feature_idx < MAX_FEATURES && self.registered@[feature_idx]
    }

    /// Set a feature value, with the running statistics that include it. A
    /// feature that is not registered changes nothing.
    pub fn set_value(&mut self, feature_idx: usize, value: i64, moments: Moments)
        requires
            old(self).wf(),
            old(self).has(feature_idx as int) ==> old(self).metadata@[feature_idx as int].last_update < u64::MAX,
        ensures
            final(self).wf(),
            !old(self).has(feature_idx as int) ==> *final(self) == *old(self),
            old(self).has(feature_idx as int) ==> {
                let f = feature_idx as int;
                let at = old(self).metadata@[f].last_update as int % 8192;
                let m = old(self).metadata@[f];
                &&& final(self).current_values@ == old(self).current_values@.update(f, value)
                &&& final(self).history@[f]@ == old(self).history@[f]@.update(at, value)
                &&& final(self).recent(f) == pushed(
                    old(self).recent(f),
                    MAX_HISTORY as int,
                    value,
                )
                &&& forall|j: int|
                    0 <= j < MAX_FEATURES && j != f ==> #[trigger] final(self).history@[j] == old(self).history@[j]
                &&& final(self).metadata@ == old(self).metadata@.update(
                    f,
                    FeatureMeta {
                        mean: moments.mean,
                        std: moments.std,
                        min_val: min(m.min_val as int, value as int) as i64,
                        max_val: max(m.max_val as int, value as int) as i64,
                        last_update: (m.last_update + 1) as u64,
                        ..m
                    },
                )
                &&& *final(self) == (FeatureStore {
                    current_values: final(self).current_values,
                    history: final(self).history,
                    metadata: final(self).metadata,
                    write_idx: old(self).write_idx.wrapping_add(1),
                    ..*old(self)
                })
            },
    {
        if feature_idx >= MAX_FEATURES {
            return ;
        }
        if !self.is_valid_feature(feature_idx) {
            return ;
        }
        self.current_values[feature_idx] = value;
        let written: u64 = self.metadata[feature_idx].last_update;
        let at: usize = (written % 8192) as usize;
        assert(self.history@[feature_idx as int]@.len() == MAX_HISTORY);
        proof {
            lemma_ring_push(
                self.history@[feature_idx as int]@,
                written as int,
                min(written as int, MAX_HISTORY as int),
                value,
            );
        }
        self.history[feature_idx].set(at, value);
        self.update_stats(feature_idx, value, moments);
        self.write_idx = self.write_idx.wrapping_add(1);
        proof {
            assert forall|i: int| 0 <= i < MAX_FEATURES implies #[trigger] self.current_is_last(
                i,
            ) by {
                assert(old(self).current_is_last(i));
                if i != feature_idx {
                    assert(self.recent(i) == old(self).recent(i));
                }
            }
        }
    }

    /// Current feature value; zero for a feature that is not registered.
    pub fn get_value(&self, feature_idx: usize) -> (r: i64)
        ensures
            r == if self.has(feature_idx as int) {
                self.current_values@[feature_idx as int]
            } else {
                0
            },
    {
        if feature_idx >= MAX_FEATURES || !self.is_valid_feature(feature_idx) {
            return 0;
        }
        self.current_values[feature_idx]
    }

    /// Normalized feature value as a fraction: the distance from the mean over the
    /// deviation, or the value over the scale if the feature is not normalized.
    pub fn get_normalized(&self, feature_idx: usize) -> (r: (i128, i64))
        requires
            feature_idx < MAX_FEATURES,
        ensures
            ({
                let m = self.metadata@[feature_idx as int];
                let value = if self.has(feature_idx as int) {
                    self.current_values@[feature_idx as int] as int
                } else {
                    0
                };
                if !m.is_normalized || m.std == 0 {
                    r.0 == value && r.1 == ONE
                } else {
                    r.0 == value - m.mean && r.1 == m.std
                }
            }),
    {
        let value: i64 = self.get_value(feature_idx);
        let meta = self.metadata[feature_idx];
        if !meta.is_normalized || meta.std == 0 {
            return (value as i128, ONE);
        }
        (value as i128 - meta.mean as i128, meta.std)
    }

    /// Value of a feature at an offset (0 = current, 1 = previous, and so on); zero if
    /// there is none.
    pub fn get_history(&self, feature_idx: usize, offset: usize) -> (r: i64)
        requires
            self.wf(),
        ensures
            r == if self.has(feature_idx as int) && offset < self.recent(feature_idx as int).len() {
                self.recent(feature_idx as int)[self.recent(feature_idx as int).len() - 1 - offset]
            } else {
                0
            },
    {
        if feature_idx >= MAX_FEATURES || offset >= MAX_HISTORY {
            return 0;
        }
        let written: u64 = self.metadata[feature_idx].last_update;
        if !self.is_valid_feature(feature_idx) || offset as u64 >= written {
            return 0;
        }
        let at: usize = ((written - 1 - offset as u64) % 8192) as usize;
        assert(self.history@[feature_idx as int]@.len() == MAX_HISTORY);
        self.history[feature_idx][at]
    }

    /// Check if a feature is registered.
    pub fn is_valid_feature(&self, idx: usize) -> (r: bool)
        requires
            idx < MAX_FEATURES,
        ensures
            r == self.registered@[idx as int],
    {
        self.registered[idx]
    }

    /// Take over running statistics that include a value.
    fn update_stats(&mut self, feature_idx: usize, value: i64, moments: Moments)
        requires
            feature_idx < MAX_FEATURES,
            old(self).metadata@[feature_idx as int].last_update < u64::MAX,
        ensures
            ({
                let f = feature_idx as int;
                let m = old(self).metadata@[f];
                final(self).metadata@ == old(self).metadata@.update(
                    f,
                    FeatureMeta {
                        mean: moments.mean,
                        std: moments.std,
                        min_val: min(m.min_val as int, value as int) as i64,
                        max_val: max(m.max_val as int, value as int) as i64,
                        last_update: (m.last_update + 1) as u64,
                        ..m
                    },
                )
            }),
            *final(self) == (FeatureStore { metadata: final(self).metadata, ..*old(self) }),
    {
        let mut meta = self.metadata[feature_idx];
        meta.mean = moments.mean;
        meta.std = moments.std;
        if value < meta.min_val {
            meta.min_val = value;
        }
        if value > meta.max_val {
            meta.max_val = value;
        }
        meta.last_update = meta.last_update + 1;
        self.metadata[feature_idx] = meta;
    }

    /// Mark the store as valid: a new version.
    pub fn mark_valid(&mut self)
        requires
            old(self).wf(),
        ensures
            final(self).wf(),
            *final(self) == (FeatureStore {
                valid: true,
                version: old(self).version.wrapping_add(1),
                ..*old(self)
            }),
    {
        self.valid = true;
        self.version = self.version.wrapping_add(1);
        assert(forall|i: int| 0 <= i < MAX_FEATURES ==> #[trigger] self.current_is_last(i) == old(self).current_is_last(i));
    }

    /// Invalidate the store.
    pub fn invalidate(&mut self)
        requires
            old(self).wf(),
        ensures
            final(self).wf(),
            *final(self) == (FeatureStore { valid: false, ..*old(self) }),
    {
        self.valid = false;
        assert(forall|i: int| 0 <= i < MAX_FEATURES ==> #[trigger] self.current_is_last(i) == old(self).current_is_last(i));
    }

    /// Feature count.
    pub fn feature_count(&self) -> (r: usize)
        ensures
            r == self.num_features,
    {
        self.num_features
    }
}

impl Default for FeatureStore {
    fn default() -> (r: Self)
        ensures
            r.fresh(),
    {
        Self::new()
    }
}

/// The history of a feature starts at its current value.
pub proof fn lemma_history_starts_at_current(store: FeatureStore, f: int)
    requires
        store.wf(),
        store.has(f),
        store.recent(f).len() > 0,
    ensures
        store.recent(f).last() == store.current_values@[f],
{
    assert(store.current_is_last(f));
}

/// The value that was written last is read back at offset zero, and the others move on
/// by one offset, as far as they are kept.
pub proof fn lemma_history_reads_back(recent: Seq<i64>, value: i64, offset: int)
    requires
        recent.len() <= MAX_HISTORY,
        0 <= offset < recent.len(),
        offset < MAX_HISTORY - 1,
    ensures
        ({
            let after = pushed(recent, MAX_HISTORY as int, value);
            &&& after[after.len() - 1] == value
            &&& after[after.len() - 1 - (offset + 1)] == recent[recent.len() - 1 - offset]
        }),
{
}

/// What is known of a feature before it has been given a value.
pub proof fn lemma_unwritten_feature()
    ensures
        FeatureMeta::spec_default().mean == 0,
        FeatureMeta::spec_default().std == 100_000_000,
        FeatureMeta::spec_default().min_val == -0x8000_0000_0000_0000,
        FeatureMeta::spec_default().max_val == 0x7fff_ffff_ffff_ffff,
        FeatureMeta::spec_default().last_update == 0,
        !FeatureMeta::spec_default().is_normalized,
{
}

/// The history of a feature holds what was written to it last, up to eight thousand one
/// hundred and ninety-two values, each in the place of its number.
pub proof fn lemma_history_is_kept(store: FeatureStore, f: int, back: int)
    requires
        store.wf(),
        store.has(f),
        0 <= back < 8192,
        back < store.metadata@[f].last_update,
    ensures
        ({
            let written = store.metadata@[f].last_update as int;
            let recent = store.recent(f);
            &&& written <= 8192 ==> recent.len() == written
            &&& written > 8192 ==> recent.len() == 8192
            &&& recent[recent.len() - 1 - back] == store.history@[f]@[(written - 1 - back) % 8192]
        }),
{
    assert(store.history@[f]@.len() == 8192);
}

/// A slot of a full store is never free; the one given out is the lowest that is.
pub proof fn lemma_lowest_slot(store: FeatureStore, slot: usize, other: int)
    requires
        store.first_free(Some(slot)),
        0 <= other < 1024,
        !store.registered@[other],
    ensures
        slot <= other,
        !store.registered@[slot as int],
        !store.first_free(None),
{
}

} // verus!
