use vstd::prelude::*;

verus! {

/// A stage of a queue: a small copyable value compared by `==` and hashed.
pub trait PurrStep: core::fmt::Debug + Copy + Clone + PartialEq + Eq + core::hash::Hash {}

/// A stage type with chain stages: a chain stage stands for the nested
/// manager that a stage manager keeps under an index.
pub trait PurrChainStep: PurrStep {
    /// The chain stage for the nested manager under `index`.
    spec fn chain_stage(index: usize) -> Self;

    /// Distinct indices have distinct chain stages.
    proof fn lemma_chain_stage_injective(i: usize, j: usize)
        ensures
            Self::chain_stage(i) == Self::chain_stage(j) ==> i == j,
    ;

    fn purr_chain(index: usize) -> (r: Self)
        ensures
            r == Self::chain_stage(index),
    ;

    /// The index a chain stage stands for; `None` for any other stage.
    fn chain_index(&self) -> (r: Option<usize>)
        ensures
            match r {
                Some(i) => *self == Self::chain_stage(i),
                None => forall|i: usize| *self != #[trigger] Self::chain_stage(i),
            },
    ;
}

/// The index that `stage` stands for, if it is a chain stage.
pub open spec fn chain_of<T: PurrChainStep>(stage: T) -> Option<usize> {
    if exists|i: usize| stage == #[trigger] T::chain_stage(i) {
        Some(choose|i: usize| stage == #[trigger] T::chain_stage(i))
    } else {
        None
    }
}

/// The contract that `Eq` and `Hash` document for a stage type: `==` holds
/// exactly of equal values, and hashing agrees with it. The library's
/// contracts are stated for stage types that keep it.
pub open spec fn lawful_step<T: PartialEq>() -> bool {
    &&& vstd::laws_eq::obeys_concrete_eq::<T>()
    &&& vstd::std_specs::hash::obeys_key_model::<T>()
}

/// Whether a pushed chain keeps a first stage that repeats the queue's last one.
#[derive(Debug, Clone, Copy, PartialEq, Eq)]
pub enum DuplicatePolicy {
    KeepAll,
    RemoveMatch,
}

/// Where `insert` places a chain: at the front, or at a given index.
#[derive(Debug, Clone, Copy, PartialEq, Eq)]
pub enum InsertPosition {
    Forward,
    Index(usize),
}

/// What one update of a stage manager reports.
#[derive(Debug, Clone, Copy, PartialEq, Eq)]
pub enum PurrEvent<T> {
    Idle,
    Running(T),
    Transition { from: T, to: Option<T> },
}

/// The queue operation that a nested chain is added with.
#[derive(Debug, Clone, Copy, PartialEq, Eq)]
pub enum PurrAction {
    Push,
    PushDelete,
    Insert,
}

/// Whether a nested chain may run before it reaches the queue's front.
#[derive(Debug, Clone, Copy, PartialEq, Eq)]
pub enum RumblePolicy {
    StrictOrder,
    Parallel,
}

} // verus!
