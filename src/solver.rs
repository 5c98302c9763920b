//! The solver kinds a driver can run and the outcomes it records of them.
use vstd::prelude::*;

verus! {

/// The solver implementations that can be configured, by their names.
#[derive(Clone, Copy, Debug, PartialEq, Eq, Structural)]
pub enum SolverType {
    Naive,
    Baseline,
    Mip,
    CowDexAg,
    OneInch,
    Paraswap,
    ZeroEx,
    Quasimodo,
    BalancerSor,
}

pub open spec fn solver_type_name(t: SolverType) -> &'static str {
    match t {
        SolverType::Naive => "Naive",
        SolverType::Baseline => "Baseline",
        SolverType::Mip => "Mip",
        SolverType::CowDexAg => "CowDexAg",
        SolverType::OneInch => "OneInch",
        SolverType::Paraswap => "Paraswap",
        SolverType::ZeroEx => "ZeroEx",
        SolverType::Quasimodo => "Quasimodo",
        SolverType::BalancerSor => "BalancerSor",
    }
}

impl SolverType {
    /// The name under which the solver is configured and reported.
    pub fn name(&self) -> (r: &'static str)
        ensures
            r@ == solver_type_name(*self)@,
    {
        match self {
            SolverType::Naive => "Naive",
            SolverType::Baseline => "Baseline",
            SolverType::Mip => "Mip",
            SolverType::CowDexAg => "CowDexAg",
            SolverType::OneInch => "OneInch",
            SolverType::Paraswap => "Paraswap",
            SolverType::ZeroEx => "ZeroEx",
            SolverType::Quasimodo => "Quasimodo",
            SolverType::BalancerSor => "BalancerSor",
        }
    }
}

/// The outcome of a solver run.
#[derive(Clone, Copy, Debug, PartialEq, Eq, Structural)]
pub enum SolverRunOutcome {
    /// Computed a non-trivial settlement.
    Success,
    /// Ran without error but produced no settlement, or only trivial ones.
    Empty,
    /// The solver timed out.
    Timeout,
    /// The solver returned an error.
    Failure,
}

pub open spec fn run_outcome_label(o: SolverRunOutcome) -> &'static str {
    match o {
        SolverRunOutcome::Success => "success",
        SolverRunOutcome::Empty => "empty",
        SolverRunOutcome::Timeout => "timeout",
        SolverRunOutcome::Failure => "failure",
    }
}

impl SolverRunOutcome {
    /// The label under which the outcome is counted.
    pub fn label(&self) -> (r: &'static str)
        ensures
            r@ == run_outcome_label(*self)@,
    {
        match self {
            SolverRunOutcome::Success => "success",
            SolverRunOutcome::Empty => "empty",
            SolverRunOutcome::Timeout => "timeout",
            SolverRunOutcome::Failure => "failure",
        }
    }
}

/// The outcome of submitting a settlement.
#[derive(Clone, Copy, Debug, PartialEq, Eq, Structural)]
pub enum SettlementSubmissionOutcome {
    /// The transaction was mined and included on chain.
    Success,
    /// The transaction was mined but reverted.
    Revert,
    /// The transaction reverted in simulation.
    SimulationRevert,
    /// Submission timed out waiting for the transaction to be mined.
    Timeout,
    /// The transaction was cancelled after a simulation revert or a timeout.
    Cancel,
    /// Submission is disabled.
    Disabled,
    /// Any other failure, such as an unreachable node.
    Failed,
}

pub open spec fn submission_outcome_label(o: SettlementSubmissionOutcome) -> &'static str {
    match o {
        SettlementSubmissionOutcome::Success => "success",
        SettlementSubmissionOutcome::Revert => "revert",
        SettlementSubmissionOutcome::SimulationRevert => "simulationrevert",
        SettlementSubmissionOutcome::Timeout => "timeout",
        SettlementSubmissionOutcome::Cancel => "cancel",
        SettlementSubmissionOutcome::Disabled => "disabled",
        SettlementSubmissionOutcome::Failed => "failed",
    }
}

impl SettlementSubmissionOutcome {
    /// The label under which the outcome is counted.
    pub fn label(&self) -> (r: &'static str)
        ensures
            r@ == submission_outcome_label(*self)@,
    {
        match self {
            SettlementSubmissionOutcome::Success => "success",
            SettlementSubmissionOutcome::Revert => "revert",
            SettlementSubmissionOutcome::SimulationRevert => "simulationrevert",
            SettlementSubmissionOutcome::Timeout => "timeout",
            SettlementSubmissionOutcome::Cancel => "cancel",
            SettlementSubmissionOutcome::Disabled => "disabled",
            SettlementSubmissionOutcome::Failed => "failed",
        }
    }
}

} // verus!
