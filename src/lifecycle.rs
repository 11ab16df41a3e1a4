//! Process lifecycle: which of the three concurrent loops run, and how their
//! results, once all three have joined, decide the process's outcome.
use vstd::prelude::*;

verus! {

/// One of the three loops that run side by side.
#[derive(Clone, Copy, PartialEq, Eq, Structural, Debug)]
pub enum Subsystem {
    Api,
    Worker,
    Sweeper,
}

/// What runs for a configuration. With the API off the listener only waits
/// for the shutdown signal; the sweeper runs with the worker.
#[derive(Clone, Copy, PartialEq, Eq, Structural, Debug)]
pub struct RunPlan {
    pub serve_api: bool,
    pub run_worker: bool,
    pub run_sweeper: bool,
}

pub fn plan(api_enabled: bool, worker_enabled: bool) -> (r: RunPlan)
    ensures
        r == (RunPlan { serve_api: api_enabled, run_worker: worker_enabled, run_sweeper: worker_enabled }),
{
    RunPlan { serve_api: api_enabled, run_worker: worker_enabled, run_sweeper: worker_enabled }
}

/// The process's outcome once all three loops have finished: success if all
/// succeeded, else the first that failed, in the order API, worker, sweeper.
/// No loop is cut short: this is only asked after all have joined.
pub fn join_outcome(api_ok: bool, worker_ok: bool, sweeper_ok: bool) -> (r: Result<(), Subsystem>)
    ensures
        r == (if !api_ok {
            Err(Subsystem::Api)
        } else if !worker_ok {
            Err(Subsystem::Worker)
        } else if !sweeper_ok {
            Err(Subsystem::Sweeper)
        } else {
            Ok(())
        }),
        r is Ok <==> (api_ok && worker_ok && sweeper_ok),
{
    if !api_ok {
        Err(Subsystem::Api)
    } else if !worker_ok {
        Err(Subsystem::Worker)
    } else if !sweeper_ok {
        Err(Subsystem::Sweeper)
    } else {
        Ok(())
    }
}

} // verus!
