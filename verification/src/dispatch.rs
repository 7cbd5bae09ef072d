//! Dispatch of a decoded workload to the execution subsystem, and the
//! single-shot process lifecycle: the outcome of the one dispatched
//! workload decides the process exit status.

use vstd::prelude::*;
use crate::envelope::Workload;

verus! {

/// What the execution subsystem reported for the dispatched payload: a
/// result value to log, or an error detail.
pub enum DispatchOutcome {
    Success(String),
    Failure(String),
}

/// The process exit status an outcome maps to: zero exactly on success.
pub open spec fn spec_exit_code(o: DispatchOutcome) -> i32 {
    if o is Success {
        0
    } else {
        1
    }
}

pub fn exit_code_for(outcome: &DispatchOutcome) -> (r: i32)
    ensures
        r == spec_exit_code(*outcome),
{
    match outcome {
        DispatchOutcome::Success(_) => 0,
        DispatchOutcome::Failure(_) => 1,
    }
}

/// Single-shot termination status: the one dispatched workload's outcome
/// maps to exit code zero exactly on subsystem success and to the non-zero
/// code one exactly on subsystem failure — never an uncontrolled abort.
pub proof fn lemma_exit_status(o: DispatchOutcome)
    ensures
        spec_exit_code(o) == 0 <==> o is Success,
        spec_exit_code(o) == 1 <==> o is Failure,
{
}

/// The invocation the dispatcher hands the execution subsystem: the decoded
/// payload as-is and a single empty-string positional argument placeholder.
/// The process environment is forwarded verbatim by the runner; no
/// filtering is performed.
pub struct DispatchPlan {
    pub payload: Vec<u8>,
    pub args: Vec<String>,
}

pub fn dispatch_plan(w: Workload) -> (p: DispatchPlan)
    ensures
        p.payload@ == w.wasm_binary@,
        p.args@.len() == 1,
        p.args@[0]@ == Seq::<char>::empty(),
{
    let mut args: Vec<String> = Vec::new();
    args.push(String::new());
    DispatchPlan { payload: w.wasm_binary, args }
}

} // verus!
