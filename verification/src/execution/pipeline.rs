//! The five stages of the symbolic integration pipeline.

use vstd::prelude::*;

use crate::text::{decimal, decimal_chars, push_all, push_str, string_of};

verus! {

/// A stage in the symbolic integration pipeline.
#[derive(Debug, Clone, Copy, PartialEq, Eq, Hash, Structural)]
pub enum PipelineStage {
    /// Stage 1: Transpose raw input into structured representations.
    DataPreprocessing,
    /// Stage 2: Extract features with embedded logic constraints.
    NeuralSymbolicEmbedding,
    /// Stage 3: Cross-reference with domain ontologies.
    DomainKnowledge,
    /// Stage 4: Execute Datalog rules over neural outputs.
    LogicalReasoning,
    /// Stage 5: Final constraint checking before output.
    SymbolicPostprocessing,
}

/// The 1-indexed number of a stage.
pub open spec fn stage_number(s: PipelineStage) -> u8 {
    match s {
        PipelineStage::DataPreprocessing => 1,
        PipelineStage::NeuralSymbolicEmbedding => 2,
        PipelineStage::DomainKnowledge => 3,
        PipelineStage::LogicalReasoning => 4,
        PipelineStage::SymbolicPostprocessing => 5,
    }
}

/// All stages in order.
pub open spec fn all_stages() -> Seq<PipelineStage> {
    seq![
        PipelineStage::DataPreprocessing,
        PipelineStage::NeuralSymbolicEmbedding,
        PipelineStage::DomainKnowledge,
        PipelineStage::LogicalReasoning,
        PipelineStage::SymbolicPostprocessing,
    ]
}

impl PipelineStage {
    /// Return the stage number (1-indexed).
    pub fn number(&self) -> (n: u8)
        ensures
            n == stage_number(*self),
    {
        match self {
            PipelineStage::DataPreprocessing => 1,
            PipelineStage::NeuralSymbolicEmbedding => 2,
            PipelineStage::DomainKnowledge => 3,
            PipelineStage::LogicalReasoning => 4,
            PipelineStage::SymbolicPostprocessing => 5,
        }
    }

    /// All stages in order.
    pub fn all() -> (r: Vec<PipelineStage>)
        ensures
            r@ == all_stages(),
    {
        let r = vec![
            PipelineStage::DataPreprocessing,
            PipelineStage::NeuralSymbolicEmbedding,
            PipelineStage::DomainKnowledge,
            PipelineStage::LogicalReasoning,
            PipelineStage::SymbolicPostprocessing,
        ];
        assert(r@ =~= all_stages());
        r
    }

    /// The stage's display name (what `Display` writes).
    pub fn to_string(&self) -> (r: String)
        ensures
            r@ == match self {
                PipelineStage::DataPreprocessing => "Data Preprocessing"@,
                PipelineStage::NeuralSymbolicEmbedding => "Neural-Symbolic Embedding"@,
                PipelineStage::DomainKnowledge => "Domain Knowledge"@,
                PipelineStage::LogicalReasoning => "Logical Reasoning"@,
                PipelineStage::SymbolicPostprocessing => "Symbolic Postprocessing"@,
            },
    {
        let mut v: Vec<char> = Vec::new();
        match self {
            PipelineStage::DataPreprocessing => push_str(&mut v, "Data Preprocessing"),
            PipelineStage::NeuralSymbolicEmbedding => push_str(&mut v, "Neural-Symbolic Embedding"),
            PipelineStage::DomainKnowledge => push_str(&mut v, "Domain Knowledge"),
            PipelineStage::LogicalReasoning => push_str(&mut v, "Logical Reasoning"),
            PipelineStage::SymbolicPostprocessing => push_str(&mut v, "Symbolic Postprocessing"),
        }
        string_of(&v)
    }
}

/// The stages run in order: the `i`-th stage of `all` is numbered `i + 1`,
/// so numbers are distinct and run from 1 to 5.
pub proof fn lemma_stage_order()
    ensures
        all_stages().len() == 5,
        forall|i: int| 0 <= i < 5 ==> stage_number(#[trigger] all_stages()[i]) == i + 1,
        forall|s: PipelineStage| 1 <= #[trigger] stage_number(s) <= 5,
        forall|s: PipelineStage, t: PipelineStage|
            #[trigger] stage_number(s) == #[trigger] stage_number(t) ==> s == t,
{
}

/// The note a stage leaves when it runs over `records` records with
/// `ontologies` registered domain ontologies and `rules` active rules.
pub open spec fn stage_note_spec(stage: PipelineStage, records: nat, ontologies: nat, rules: nat) -> Seq<char> {
    match stage {
        PipelineStage::DataPreprocessing => "Transposed "@ + decimal(records)
            + " raw records into vector-symbolic form"@,
        PipelineStage::NeuralSymbolicEmbedding => "Feature extraction with first-order logic constraints"@,
        PipelineStage::DomainKnowledge => "Cross-referenced with "@ + decimal(ontologies)
            + " domain ontologies"@,
        PipelineStage::LogicalReasoning => "Applied "@ + decimal(rules) + " Datalog rules over neural outputs"@,
        PipelineStage::SymbolicPostprocessing => "Final constraint verification passed"@,
    }
}

/// The note of a stage run (see [`stage_note_spec`]).
pub fn stage_note(stage: PipelineStage, records: u64, ontologies: u64, rules: u64) -> (r: String)
    ensures
        r@ == stage_note_spec(stage, records as nat, ontologies as nat, rules as nat),
{
    let mut v: Vec<char> = Vec::new();
    match stage {
        PipelineStage::DataPreprocessing => {
            push_str(&mut v, "Transposed ");
            push_all(&mut v, &decimal_chars(records));
            push_str(&mut v, " raw records into vector-symbolic form");
        },
        PipelineStage::NeuralSymbolicEmbedding => {
            push_str(&mut v, "Feature extraction with first-order logic constraints");
        },
        PipelineStage::DomainKnowledge => {
            push_str(&mut v, "Cross-referenced with ");
            push_all(&mut v, &decimal_chars(ontologies));
            push_str(&mut v, " domain ontologies");
        },
        PipelineStage::LogicalReasoning => {
            push_str(&mut v, "Applied ");
            push_all(&mut v, &decimal_chars(rules));
            push_str(&mut v, " Datalog rules over neural outputs");
        },
        PipelineStage::SymbolicPostprocessing => {
            push_str(&mut v, "Final constraint verification passed");
        },
    }
    string_of(&v)
}

} // verus!
