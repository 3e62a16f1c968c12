use trading_core::features::dimensionality_reduction::{Learned, StreamingPCA};
use trading_core::features::feature_store::{FeatureMeta, FeatureStore, Moments, MAX_FEATURES};
use trading_core::features::mutual_info::{Entropies, FeatureImportance, MutualInfoTracker};

fn entropy(histogram: &[u64], total: u64) -> f64 {
    let mut h = 0.0;
    for count in histogram {
        if *count > 0 {
            let p = *count as f64 / total as f64;
            h -= p * p.log2();
        }
    }
    h
}

fn entropies(tracker: &MutualInfoTracker, idx: usize) -> Entropies {
    let total = tracker.features[idx].sample_count;
    let marginal = entropy(&tracker.feature_histograms[idx], total);
    let joint = entropy(&tracker.joint_histograms[idx], total);
    let target = entropy(&tracker.target_histogram, tracker.total_samples);
    let scale = 100_000_000.0;
    Entropies {
        marginal: (marginal * scale) as i64,
        conditional: ((joint - marginal) * scale) as i64,
        mutual: ((marginal + target - joint).max(0.0) * scale) as i64,
    }
}

fn observe(tracker: &mut MutualInfoTracker, idx: usize, feature: u8, target: u8) {
    if tracker.update(idx, feature, target, 1) {
        let e = entropies(tracker, idx);
        tracker.compute_mutual_info(idx, e);
    }
}

#[test]
fn test_pca_transform_deterministic() {
    for seed in [0u64, 1, 42, u64::MAX] {
        let mut pca = StreamingPCA::new(10, 3);
        pca.initialize(seed);
        pca.mark_valid();

        let input: Vec<i64> = (0..10).map(|i| (i * 197) % 2000 - 1000).collect();
        let out1 = pca.transform(&input);
        let out2 = pca.transform(&input);

        assert_eq!(out1, out2);
    }
}

#[test]
fn test_pca_initialization() {
    let mut pca = StreamingPCA::new(16, 4);
    pca.initialize(42);

    let mut non_zero = 0;
    for i in 0..4 {
        for j in 0..16 {
            if pca.weights[i][j] != 0 {
                non_zero += 1;
            }
        }
    }
    assert!(non_zero > 0);
}

#[test]
fn initial_weights_are_small() {
    let mut pca = StreamingPCA::new(16, 4);
    pca.initialize(7);
    let first = 7u64.wrapping_mul(6364136223846793005).wrapping_add(1);
    assert_eq!(pca.weights[0][0], ((first >> 33) % 1000) as i64 - 500);
    for row in pca.weights.iter() {
        for w in row.iter() {
            assert!(*w >= -500 && *w < 500);
        }
    }
}

#[test]
fn projection_is_a_scalar_product() {
    let mut pca = StreamingPCA::new(2, 1);
    pca.weights[0][0] = 300_000_000;
    pca.weights[0][1] = -100_000_000;
    let out = pca.transform(&[500_000_000, 200_000_000]);
    assert_eq!(out[0], (1_500_000_000 - 200_000_000) / 100_000_000);
    assert_eq!(out[1], 0);
}

#[test]
fn learning_needs_a_valid_analysis() {
    let mut pca = StreamingPCA::new(2, 1);
    let mut learned = Learned { weights: [[0; 256]; 32], eigenvalues: [0; 32] };
    learned.weights[0][0] = 11;
    learned.weights[1][0] = 12;
    learned.eigenvalues[0] = 13;
    assert_eq!(pca.update(&[1, 2], &learned), [0; 32]);
    assert_eq!(pca.weights[0][0], 0);
    pca.mark_valid();
    pca.update(&[1, 2], &learned);
    assert_eq!(pca.weights[0][0], 11);
    assert_eq!(pca.weights[1][0], 0);
    assert_eq!(pca.eigenvalues[0], 13);
    assert_eq!(pca.update_count, 1);
}

const FLAT: Moments = Moments { mean: 0, std: 100_000_000 };

#[test]
fn test_feature_registration() {
    for (name_hash, dtype) in [(0u64, 0u8), (u64::MAX, 1), (0xABCDEF, 2)] {
        let mut store = FeatureStore::new();
        store.mark_valid();

        if let Some(idx) = store.register_feature(name_hash, dtype) {
            assert!(idx < MAX_FEATURES);
            assert!(store.is_valid_feature(idx));
            assert_eq!(store.metadata[idx].name_hash, name_hash);
            assert_eq!(store.metadata[idx].dtype, dtype);
        } else {
            panic!("a valid store takes a feature");
        }
    }
}

#[test]
fn test_value_roundtrip() {
    for (feature_idx, value) in [(0usize, -1_000_000_000i64), (7, 0), (99, 999_999_999)] {
        let mut store = FeatureStore::new();
        store.mark_valid();

        for i in 0..feature_idx + 1 {
            store.register_feature(i as u64, 0);
        }

        store.set_value(feature_idx, value, FLAT);
        assert_eq!(store.get_value(feature_idx), value);
    }
}

#[test]
fn test_history_circular_buffer() {
    for (value, offset) in [(0i64, 0usize), (5, 1), (99, 99)] {
        let mut store = FeatureStore::new();
        store.mark_valid();
        store.register_feature(0, 0);

        for i in 0..offset + 1 {
            store.set_value(0, value + i as i64, FLAT);
        }

        let retrieved = store.get_history(0, offset);
        assert_eq!(retrieved, value);
    }
}

#[test]
fn test_feature_meta_size() {
    assert_eq!(core::mem::size_of::<FeatureMeta>(), 64);
}

#[test]
fn test_store_validity() {
    let mut store = FeatureStore::new();
    assert!(!store.valid);
    store.mark_valid();
    assert!(store.valid);
    store.invalidate();
    assert!(!store.valid);
}

#[test]
fn store_that_is_not_valid_takes_no_features() {
    let mut store = FeatureStore::new();
    assert_eq!(store.register_feature(1, 0), None);
    store.set_value(0, 5, FLAT);
    assert_eq!(store.get_value(0), 0);
    assert_eq!(store.feature_count(), 0);
}

#[test]
fn full_store_takes_no_more_features() {
    let mut store = FeatureStore::new();
    store.mark_valid();
    for i in 0..1024usize {
        assert_eq!(store.register_feature(i as u64, 0), Some(i));
    }
    assert_eq!(store.register_feature(9, 0), None);
}

#[test]
fn normalized_value_is_a_fraction() {
    let mut store = FeatureStore::new();
    store.mark_valid();
    store.register_feature(1, 0);
    store.set_value(0, 700, Moments { mean: 100, std: 20 });
    assert_eq!(store.get_normalized(0), (700, 100_000_000));
    store.metadata[0].is_normalized = true;
    assert_eq!(store.get_normalized(0), (600, 20));
}

#[test]
fn test_mi_non_negative() {
    for (feature_val, target_val) in [(0u8, 0u8), (100, 200), (254, 254)] {
        let mut tracker = MutualInfoTracker::new();
        tracker.mark_valid();
        tracker.register_feature(0x12345678);

        for _ in 0..1000 {
            observe(&mut tracker, 0, feature_val, target_val);
        }

        let mi = tracker.get_mi(0);
        assert!(mi >= 0);
    }
}

#[test]
fn test_feature_importance_size() {
    assert_eq!(core::mem::size_of::<FeatureImportance>(), 64);
}

#[test]
fn test_pruning() {
    let mut tracker = MutualInfoTracker::new();
    tracker.prune_threshold = 1_000_000;
    tracker.mark_valid();
    tracker.register_feature(0xABC);

    for _ in 0..5000 {
        observe(&mut tracker, 0, 128, 128);
    }

    assert!(!tracker.is_active(0));
}

#[test]
fn informative_feature_is_kept() {
    let mut tracker = MutualInfoTracker::new();
    tracker.mark_valid();
    assert_eq!(tracker.register_feature(1), Some(0));
    for i in 0..1000u32 {
        let v = if i % 2 == 0 { 0 } else { 255 };
        observe(&mut tracker, 0, v, v);
    }
    assert_eq!(tracker.get_mi(0), 100_000_000);
    assert!(tracker.is_active(0));
    assert_eq!(tracker.joint_histograms[0][0], 500);
    assert_eq!(tracker.joint_histograms[0][63 * 64 + 63], 500);
    assert!(!tracker.is_active(1));
}

#[test]
fn history_of_a_feature_is_its_own() {
    let mut store = FeatureStore::new();
    store.mark_valid();
    let a = store.register_feature(1, 0).unwrap();
    let b = store.register_feature(2, 0).unwrap();
    store.set_value(a, 7, FLAT);
    store.set_value(b, 9, FLAT);
    assert_eq!(store.get_history(a, 0), 7);
    store.set_value(a, -3, FLAT);
    assert_eq!(store.get_history(a, 0), -3);
    assert_eq!(store.get_history(a, 1), 7);
    assert_eq!(store.get_history(a, 2), 0);
    assert_eq!(store.get_history(b, 0), 9);
    assert_eq!((store.metadata[a].min_val, store.metadata[a].max_val), (i64::MIN, i64::MAX));
    store.metadata[b].min_val = 8;
    store.metadata[b].max_val = 8;
    store.set_value(b, 10, FLAT);
    assert_eq!((store.metadata[b].min_val, store.metadata[b].max_val), (8, 10));
}
