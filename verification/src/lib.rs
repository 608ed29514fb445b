//! Duplicate-image detection: classification of candidate files, a bounded
//! directory walk, perceptual fingerprints, bucket aggregation and the
//! extraction of duplicate groups.

pub mod buckets;
pub mod classifier;
pub mod extract;
pub mod failure;
pub mod fingerprint;
pub mod gate;
pub mod inflight;
pub mod order;
pub mod permutation;
pub mod pipeline;
pub mod progress;
pub mod report;
pub mod sorting;
pub mod text;
pub mod walker;
