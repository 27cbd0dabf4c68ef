use vstd::prelude::*;

use crate::types::PurrStep;

verus! {

/// Why a train operation was refused.
#[derive(Debug, Clone, Copy, PartialEq, Eq, Hash)]
pub enum TrainError<T: PurrStep> {
    /// A chain couples back into a stage that is still being baked.
    RecursiveStage { carriage: T },
    /// The route holds no schedule for the carriage.
    UnscheduledParam { carriage: T },
    IndexOutOfBounds { index: usize },
}

pub type TrainResult<V, T> = Result<V, TrainError<T>>;

} // verus!
