//! Verified layout and preprocessing logic for recursive verification of VM proofs.
use vstd::prelude::*;

pub mod circuit;
pub mod claim_hash;
pub mod composition_columns;
pub mod composition_control;
pub mod composition_input;
pub mod composition_lowering;
pub mod composition_profile;
pub mod composition_values;
pub mod domain;
pub mod kernel;
pub mod leaf_order;
pub mod m31;
pub mod pcs_layout;
pub mod public_claim;
pub mod public_logup_input;
pub mod public_logup_lowering;
pub mod randomness_values;
pub mod recursion_input;
pub mod sample_layout;
pub mod trace_leaf;
pub mod trace_leaf_sponge;
pub mod trace_merkle;
pub mod trace_path;
pub mod transcript_binding;
pub mod transcript_kernel;
pub mod transcript_layout;
pub mod transcript_program;
pub mod transcript_trace;
pub mod verifier_randomness;

verus! {
} // verus!
