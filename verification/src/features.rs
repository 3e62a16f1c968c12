//! Feature engineering: store, importance and dimensionality reduction.

pub mod dimensionality_reduction;
pub mod feature_store;
pub mod mutual_info;
