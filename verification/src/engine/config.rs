//! Evaluation policy and the per-candidate evaluation context.

use vstd::prelude::*;
use crate::dto::{JobDto, WorkerDto};

verus! {

/// The policy for one evaluation call.
#[derive(Debug)]
pub struct EvaluationConfig {
    /// Collect per-rule metrics in the diagnostic trail.
    pub with_diagnosis: bool,
    /// Stop running rules at the first disqualification.
    pub short_circuit_failures: bool,
}

/// One worker/job pair under a policy, borrowed for the duration of a single
/// evaluation.
#[derive(Debug)]
pub struct EvaluationContext<'w, 'j, 'c> {
    pub worker: &'w WorkerDto,
    pub job: &'j JobDto,
    pub config: &'c EvaluationConfig,
}

impl EvaluationContext<'_, '_, '_> {
    pub fn new<'w, 'j, 'c>(
        worker: &'w WorkerDto,
        job: &'j JobDto,
        config: &'c EvaluationConfig,
    ) -> (r: EvaluationContext<'w, 'j, 'c>)
        ensures
            r.worker == worker,
            r.job == job,
            r.config == config,
    {
        EvaluationContext { worker, job, config }
    }
}

} // verus!
