//! The stages of the current front end, run one after the other.
use vstd::prelude::*;

pub mod codegen;
pub mod emit;
pub mod fold;
pub mod folding;
pub mod infer;
pub mod ir;
pub mod parse;
pub mod scope;
pub mod tokenize;
pub mod ty;

verus! {

/// The stages, in the order they run.
#[derive(Debug, Default, Clone, Copy, PartialEq, Eq, Hash, Structural)]
pub enum Stage {
    #[default]
    Tokenize,
    Parse,
    Variable,
    Type,
    Ir,
    Codegen,
    Post,
}

/// The position of a stage in the order they run.
pub open spec fn stage_index(stage: Stage) -> nat {
    match stage {
        Stage::Tokenize => 0,
        Stage::Parse => 1,
        Stage::Variable => 2,
        Stage::Type => 3,
        Stage::Ir => 4,
        Stage::Codegen => 5,
        Stage::Post => 6,
    }
}

/// The stage at a position, if there is one.
pub open spec fn stage_at(i: nat) -> Option<Stage> {
    if i == 0 {
        Some(Stage::Tokenize)
    } else if i == 1 {
        Some(Stage::Parse)
    } else if i == 2 {
        Some(Stage::Variable)
    } else if i == 3 {
        Some(Stage::Type)
    } else if i == 4 {
        Some(Stage::Ir)
    } else if i == 5 {
        Some(Stage::Codegen)
    } else if i == 6 {
        Some(Stage::Post)
    } else {
        None
    }
}

/// The stage that follows `stage`, or `None` after the last one, where the
/// compiler exits with success.
pub fn next_stage(stage: Stage) -> (r: Option<Stage>)
    ensures
        r == stage_at(stage_index(stage) + 1),
{
    match stage {
        Stage::Tokenize => Some(Stage::Parse),
        Stage::Parse => Some(Stage::Variable),
        Stage::Variable => Some(Stage::Type),
        Stage::Type => Some(Stage::Ir),
        Stage::Ir => Some(Stage::Codegen),
        Stage::Codegen => Some(Stage::Post),
        Stage::Post => None,
    }
}

/// Every stage but the last is followed by the stage one position later,
/// so the stages run each once, in order, from the first one, and the
/// compiler exits after the last.
pub proof fn law_stages_in_order(stage: Stage)
    ensures
        stage_at(stage_index(stage)) == Some(stage),
        stage != Stage::Post ==> (stage_at(stage_index(stage) + 1) matches Some(n) && stage_index(n)
            == stage_index(stage) + 1),
        stage == Stage::Post ==> stage_at(stage_index(stage) + 1) is None,
        stage_index(Stage::Tokenize) == 0,
{
}

} // verus!
