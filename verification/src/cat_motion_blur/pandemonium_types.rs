use vstd::prelude::*;

use crate::types::{PurrChainStep, PurrStep};

verus! {

/// The stage of an animation: a frame by its index, or the chain that runs
/// a stage's frames by its index.
#[derive(Debug, Clone, Copy, PartialEq, Eq, Hash)]
pub enum PurrFrameStage {
    Frame(usize),
    PurrChain(usize),
}

impl PurrStep for PurrFrameStage {}

impl PurrChainStep for PurrFrameStage {
    open spec fn chain_stage(index: usize) -> Self {
        PurrFrameStage::PurrChain(index)
    }

    proof fn lemma_chain_stage_injective(i: usize, j: usize) {
    }

    fn purr_chain(index: usize) -> (r: Self) {
        PurrFrameStage::PurrChain(index)
    }

    fn chain_index(&self) -> (r: Option<usize>) {
        match self {
            PurrFrameStage::PurrChain(i) => Some(*i),
            PurrFrameStage::Frame(_) => None,
        }
    }
}

} // verus!
