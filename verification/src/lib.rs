//! A Merkle Mountain Range (MMR) accumulator.
//!
//! The library keeps an append-only forest of perfect binary hash trees
//! ("mountains"). Appending a leaf merges mountains of equal size, the
//! roots of the remaining mountains are the peaks, and the peaks can be
//! bagged into a single root hash that also binds the tree's size.
//!
//! Hashing is the Starknet Poseidon hash over hex-encoded field elements,
//! reached through a small set of trusted wrappers; everything else is
//! verified.

pub mod decimal;
pub mod errors;
pub mod hashing;
pub mod mmr;
pub mod peaks;
pub mod pipeline;

pub use errors::FormattingError;
pub use errors::MMRError;
pub use hashing::hash;
pub use mmr::AppendResult;
pub use mmr::FormattingOptions;
pub use mmr::GuestInput;
pub use mmr::GuestMMR;
pub use mmr::GuestOutput;
pub use mmr::PeaksFormattingOptions;
pub use mmr::PeaksOptions;
pub use mmr::Proof;
pub use mmr::format_peaks;
pub use peaks::bit_length;
pub use peaks::find_peaks;
pub use peaks::leaf_count_to_append_no_merges;
pub use pipeline::BatchRange;
pub use pipeline::BuildDecision;
pub use pipeline::BuildState;
pub use pipeline::PipelineError;
pub use pipeline::apply_commit;
pub use pipeline::new_build_state;
pub use pipeline::plan_next_batch;
pub use pipeline::process_batch;
pub use pipeline::validate_state_transition;
