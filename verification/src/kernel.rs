//! The trusted verifier plan: an ordered list of verifier steps per schema.
//!
//! A plan fixes, for one verifier schema, every step the recursive verifier
//! executes and the widths of the fixed payloads it absorbs. Preprocessing
//! tables read their structure from a plan, never from proof values.
use vstd::prelude::*;

verus! {

/// Verifier id of the segment-leaf lane.
pub const SEGMENT_VERIFIER_ID: u32 = 0;

/// Verifier id of the left child lane of a binary node.
pub const LEFT_RECURSION_VERIFIER_ID: u32 = 1;

/// Verifier id of the right child lane of a binary node.
pub const RIGHT_RECURSION_VERIFIER_ID: u32 = 2;

/// The kind of proof a plan verifies.
#[derive(Clone, Copy, Debug, PartialEq, Eq, Structural)]
pub enum VerifierSchema {
    Vm,
    Recursion,
}

/// The kind of proof a universal recursion row is proving.
#[derive(Clone, Copy, Debug, PartialEq, Eq, Structural)]
pub enum ProofKind {
    SegmentLeaf,
    BinaryNode,
    EmptyLeaf,
}

/// One operation of the verifier program.
#[derive(Clone, Copy, Debug, PartialEq, Eq, Structural)]
pub enum VerifierStep {
    BindProtocol,
    BindStatement,
    BindPcsParameters,
    AbsorbTraceCommitment { tree: u32 },
    AbsorbPublicClaim,
    VerifyAndAbsorbInteractionPow { bits: u32 },
    DrawRelationChallenge { challenge: u32 },
    AccumulatePublicLogupTerm { term: u32 },
    AssertGlobalLogupZero,
    AbsorbClaimedSums { count: u32 },
    DrawCompositionRandomness,
    EvaluateAirInstruction { instruction: u32 },
    AssertComposition { sampled_value_count: u32 },
    DrawOodsPoint,
    AbsorbSampledValues { count: u32 },
    DrawDeepRandomness,
    AbsorbFriCommitment { layer: u32 },
    DrawFriAlpha { layer: u32 },
    AbsorbLastLayerCoefficients { count: u32 },
    VerifyAndAbsorbPcsPow { bits: u32 },
    DrawQueryBlock { block: u32, first_query: u32, query_count: u32 },
    VerifyTraceMerklePath { tree: u32, query: u32, depth: u32 },
    EvaluateDeepQuotient { query: u32 },
    VerifyFriMerklePath { layer: u32, query: u32 },
    FoldFri { layer: u32, query: u32 },
    VerifyLastLayer { query: u32 },
    CloseRelation { relation: u32 },
    Complete,
}

/// Fixed-width encoding of a step: a tag, the number of used arguments,
/// and four zero-filled arguments.
#[derive(Clone, Copy, Debug, PartialEq, Eq, Structural)]
pub struct StepEncoding {
    pub tag: u32,
    pub arity: u8,
    pub arg_0: u32,
    pub arg_1: u32,
    pub arg_2: u32,
    pub arg_3: u32,
}

/// The encoding of every step. Tags are the step's position in the verifier
/// pipeline, starting at one; arguments are the step's fields in order.
pub open spec fn spec_encode(step: VerifierStep) -> StepEncoding {
    match step {
        VerifierStep::BindProtocol => StepEncoding { tag: 1, arity: 0, arg_0: 0, arg_1: 0, arg_2: 0, arg_3: 0 },
        VerifierStep::BindStatement => StepEncoding { tag: 2, arity: 0, arg_0: 0, arg_1: 0, arg_2: 0, arg_3: 0 },
        VerifierStep::BindPcsParameters => StepEncoding { tag: 3, arity: 0, arg_0: 0, arg_1: 0, arg_2: 0, arg_3: 0 },
        VerifierStep::AbsorbTraceCommitment { tree } => StepEncoding {
            tag: 4,
            arity: 1,
            arg_0: tree, arg_1: 0, arg_2: 0, arg_3: 0,
        },
        VerifierStep::AbsorbPublicClaim => StepEncoding { tag: 5, arity: 0, arg_0: 0, arg_1: 0, arg_2: 0, arg_3: 0 },
        VerifierStep::VerifyAndAbsorbInteractionPow { bits } => StepEncoding {
            tag: 6,
            arity: 1,
            arg_0: bits, arg_1: 0, arg_2: 0, arg_3: 0,
        },
        VerifierStep::DrawRelationChallenge { challenge } => StepEncoding {
            tag: 7,
            arity: 1,
            arg_0: challenge, arg_1: 0, arg_2: 0, arg_3: 0,
        },
        VerifierStep::AccumulatePublicLogupTerm { term } => StepEncoding {
            tag: 8,
            arity: 1,
            arg_0: term, arg_1: 0, arg_2: 0, arg_3: 0,
        },
        VerifierStep::AssertGlobalLogupZero => StepEncoding {
            tag: 9,
            arity: 0,
            arg_0: 0, arg_1: 0, arg_2: 0, arg_3: 0,
        },
        VerifierStep::AbsorbClaimedSums { count } => StepEncoding {
            tag: 10,
            arity: 1,
            arg_0: count, arg_1: 0, arg_2: 0, arg_3: 0,
        },
        VerifierStep::DrawCompositionRandomness => StepEncoding {
            tag: 11,
            arity: 0,
            arg_0: 0, arg_1: 0, arg_2: 0, arg_3: 0,
        },
        VerifierStep::EvaluateAirInstruction { instruction } => StepEncoding {
            tag: 12,
            arity: 1,
            arg_0: instruction, arg_1: 0, arg_2: 0, arg_3: 0,
        },
        VerifierStep::AssertComposition { sampled_value_count } => StepEncoding {
            tag: 13,
            arity: 1,
            arg_0: sampled_value_count, arg_1: 0, arg_2: 0, arg_3: 0,
        },
        VerifierStep::DrawOodsPoint => StepEncoding { tag: 14, arity: 0, arg_0: 0, arg_1: 0, arg_2: 0, arg_3: 0 },
        VerifierStep::AbsorbSampledValues { count } => StepEncoding {
            tag: 15,
            arity: 1,
            arg_0: count, arg_1: 0, arg_2: 0, arg_3: 0,
        },
        VerifierStep::DrawDeepRandomness => StepEncoding { tag: 16, arity: 0, arg_0: 0, arg_1: 0, arg_2: 0, arg_3: 0 },
        VerifierStep::AbsorbFriCommitment { layer } => StepEncoding {
            tag: 17,
            arity: 1,
            arg_0: layer, arg_1: 0, arg_2: 0, arg_3: 0,
        },
        VerifierStep::DrawFriAlpha { layer } => StepEncoding {
            tag: 18,
            arity: 1,
            arg_0: layer, arg_1: 0, arg_2: 0, arg_3: 0,
        },
        VerifierStep::AbsorbLastLayerCoefficients { count } => StepEncoding {
            tag: 19,
            arity: 1,
            arg_0: count, arg_1: 0, arg_2: 0, arg_3: 0,
        },
        VerifierStep::VerifyAndAbsorbPcsPow { bits } => StepEncoding {
            tag: 20,
            arity: 1,
            arg_0: bits, arg_1: 0, arg_2: 0, arg_3: 0,
        },
        VerifierStep::DrawQueryBlock { block, first_query, query_count } => StepEncoding {
            tag: 21,
            arity: 3,
            arg_0: block, arg_1: first_query, arg_2: query_count, arg_3: 0,
        },
        VerifierStep::VerifyTraceMerklePath { tree, query, depth } => StepEncoding {
            tag: 22,
            arity: 3,
            arg_0: tree, arg_1: query, arg_2: depth, arg_3: 0,
        },
        VerifierStep::EvaluateDeepQuotient { query } => StepEncoding {
            tag: 23,
            arity: 1,
            arg_0: query, arg_1: 0, arg_2: 0, arg_3: 0,
        },
        VerifierStep::VerifyFriMerklePath { layer, query } => StepEncoding {
            tag: 24,
            arity: 2,
            arg_0: layer, arg_1: query, arg_2: 0, arg_3: 0,
        },
        VerifierStep::FoldFri { layer, query } => StepEncoding {
            tag: 25,
            arity: 2,
            arg_0: layer, arg_1: query, arg_2: 0, arg_3: 0,
        },
        VerifierStep::VerifyLastLayer { query } => StepEncoding {
            tag: 26,
            arity: 1,
            arg_0: query, arg_1: 0, arg_2: 0, arg_3: 0,
        },
        VerifierStep::CloseRelation { relation } => StepEncoding {
            tag: 27,
            arity: 1,
            arg_0: relation, arg_1: 0, arg_2: 0, arg_3: 0,
        },
        VerifierStep::Complete => StepEncoding { tag: 28, arity: 0, arg_0: 0, arg_1: 0, arg_2: 0, arg_3: 0 },
    }
}

impl VerifierStep {
    /// The fixed-width encoding of this step.
    pub fn encode(self) -> (encoded: StepEncoding)
        ensures
            encoded == spec_encode(self),
    {
        let z: u32 = 0;
        match self {
            VerifierStep::BindProtocol => StepEncoding { tag: 1, arity: 0, arg_0: z, arg_1: z, arg_2: z, arg_3: z },
            VerifierStep::BindStatement => StepEncoding { tag: 2, arity: 0, arg_0: z, arg_1: z, arg_2: z, arg_3: z },
            VerifierStep::BindPcsParameters => StepEncoding {
                tag: 3,
                arity: 0,
                arg_0: z, arg_1: z, arg_2: z, arg_3: z,
            },
            VerifierStep::AbsorbTraceCommitment { tree } => StepEncoding {
                tag: 4,
                arity: 1,
                arg_0: tree, arg_1: z, arg_2: z, arg_3: z,
            },
            VerifierStep::AbsorbPublicClaim => StepEncoding {
                tag: 5,
                arity: 0,
                arg_0: z, arg_1: z, arg_2: z, arg_3: z,
            },
            VerifierStep::VerifyAndAbsorbInteractionPow { bits } => StepEncoding {
                tag: 6,
                arity: 1,
                arg_0: bits, arg_1: z, arg_2: z, arg_3: z,
            },
            VerifierStep::DrawRelationChallenge { challenge } => StepEncoding {
                tag: 7,
                arity: 1,
                arg_0: challenge, arg_1: z, arg_2: z, arg_3: z,
            },
            VerifierStep::AccumulatePublicLogupTerm { term } => StepEncoding {
                tag: 8,
                arity: 1,
                arg_0: term, arg_1: z, arg_2: z, arg_3: z,
            },
            VerifierStep::AssertGlobalLogupZero => StepEncoding {
                tag: 9,
                arity: 0,
                arg_0: z, arg_1: z, arg_2: z, arg_3: z,
            },
            VerifierStep::AbsorbClaimedSums { count } => StepEncoding {
                tag: 10,
                arity: 1,
                arg_0: count, arg_1: z, arg_2: z, arg_3: z,
            },
            VerifierStep::DrawCompositionRandomness => StepEncoding {
                tag: 11,
                arity: 0,
                arg_0: z, arg_1: z, arg_2: z, arg_3: z,
            },
            VerifierStep::EvaluateAirInstruction { instruction } => StepEncoding {
                tag: 12,
                arity: 1,
                arg_0: instruction, arg_1: z, arg_2: z, arg_3: z,
            },
            VerifierStep::AssertComposition { sampled_value_count } => StepEncoding {
                tag: 13,
                arity: 1,
                arg_0: sampled_value_count, arg_1: z, arg_2: z, arg_3: z,
            },
            VerifierStep::DrawOodsPoint => StepEncoding { tag: 14, arity: 0, arg_0: z, arg_1: z, arg_2: z, arg_3: z },
            VerifierStep::AbsorbSampledValues { count } => StepEncoding {
                tag: 15,
                arity: 1,
                arg_0: count, arg_1: z, arg_2: z, arg_3: z,
            },
            VerifierStep::DrawDeepRandomness => StepEncoding {
                tag: 16,
                arity: 0,
                arg_0: z, arg_1: z, arg_2: z, arg_3: z,
            },
            VerifierStep::AbsorbFriCommitment { layer } => StepEncoding {
                tag: 17,
                arity: 1,
                arg_0: layer, arg_1: z, arg_2: z, arg_3: z,
            },
            VerifierStep::DrawFriAlpha { layer } => StepEncoding {
                tag: 18,
                arity: 1,
                arg_0: layer, arg_1: z, arg_2: z, arg_3: z,
            },
            VerifierStep::AbsorbLastLayerCoefficients { count } => StepEncoding {
                tag: 19,
                arity: 1,
                arg_0: count, arg_1: z, arg_2: z, arg_3: z,
            },
            VerifierStep::VerifyAndAbsorbPcsPow { bits } => StepEncoding {
                tag: 20,
                arity: 1,
                arg_0: bits, arg_1: z, arg_2: z, arg_3: z,
            },
            VerifierStep::DrawQueryBlock { block, first_query, query_count } => StepEncoding {
                tag: 21,
                arity: 3,
                arg_0: block, arg_1: first_query, arg_2: query_count, arg_3: z,
            },
            VerifierStep::VerifyTraceMerklePath { tree, query, depth } => StepEncoding {
                tag: 22,
                arity: 3,
                arg_0: tree, arg_1: query, arg_2: depth, arg_3: z,
            },
            VerifierStep::EvaluateDeepQuotient { query } => StepEncoding {
                tag: 23,
                arity: 1,
                arg_0: query, arg_1: z, arg_2: z, arg_3: z,
            },
            VerifierStep::VerifyFriMerklePath { layer, query } => StepEncoding {
                tag: 24,
                arity: 2,
                arg_0: layer, arg_1: query, arg_2: z, arg_3: z,
            },
            VerifierStep::FoldFri { layer, query } => StepEncoding {
                tag: 25,
                arity: 2,
                arg_0: layer, arg_1: query, arg_2: z, arg_3: z,
            },
            VerifierStep::VerifyLastLayer { query } => StepEncoding {
                tag: 26,
                arity: 1,
                arg_0: query, arg_1: z, arg_2: z, arg_3: z,
            },
            VerifierStep::CloseRelation { relation } => StepEncoding {
                tag: 27,
                arity: 1,
                arg_0: relation, arg_1: z, arg_2: z, arg_3: z,
            },
            VerifierStep::Complete => StepEncoding { tag: 28, arity: 0, arg_0: z, arg_1: z, arg_2: z, arg_3: z },
        }
    }
}

/// One verifier schema's fixed step list and fixed payload widths.
#[derive(Clone, Debug)]
pub struct VerifierControlPlan {
    pub schema: VerifierSchema,
    pub steps: Vec<VerifierStep>,
    /// Words of the canonical PCS-parameter encoding absorbed by `BindPcsParameters`.
    pub pcs_parameter_word_count: u32,
    /// Words of the canonical statement encoding absorbed by `BindStatement`.
    pub statement_word_count: u32,
}

impl VerifierControlPlan {
    pub fn schema(&self) -> (schema: VerifierSchema)
        ensures
            schema == self.schema,
    {
        self.schema
    }

    pub fn steps(&self) -> (steps: &[VerifierStep])
        ensures
            steps@ == self.steps@,
    {
        self.steps.as_slice()
    }
}

} // verus!
