//! Inference runtime limits.
pub mod network;
