//! Limits for an inference run, and the activation functions a layer may
//! apply.
use vstd::prelude::*;

verus! {

/// Activation applied after a layer's linear step.
#[derive(Debug, Clone, Copy, PartialEq, Eq, Structural)]
pub enum Activation {
    NoActivation,
    ReLU,
    Sigmoid,
    Softmax,
}

/// Resource limits for one inference run.
#[derive(Debug, Clone, Copy, PartialEq, Eq, Structural)]
pub struct RuntimeBudget {
    pub max_memory: usize,
    pub max_operations: u64,
    pub max_runtime_ticks: u64,
}

impl RuntimeBudget {
    pub fn new(max_memory: usize, max_operations: u64, max_runtime_ticks: u64) -> (b: Self)
        ensures
            b.max_memory == max_memory,
            b.max_operations == max_operations,
            b.max_runtime_ticks == max_runtime_ticks,
    {
        RuntimeBudget { max_memory, max_operations, max_runtime_ticks }
    }
}

} // verus!
