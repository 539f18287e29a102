//! A worker's dispatch loop as a state machine, and the protocol by which
//! the workers share the queue's receiving end under one lock.

use vstd::prelude::*;

use crate::queue::Recv;

verus! {

/// Where a worker stands in its loop.
#[derive(Clone, Copy, Debug, PartialEq, Eq, Structural)]
pub enum Phase {
    /// Wants the next job: waiting for the lock on the receiving end, or
    /// for a job to arrive.
    Idle,
    /// Holds the lock and is pulling one message from the queue.
    Receiving,
    /// Runs a job it received, without holding the lock.
    Executing,
    /// Saw the channel closed and left its loop.
    Terminal,
}

/// The phase a worker moves to once a receive has returned `r` and the lock
/// is released: a job is run, an empty open queue sends it back to waiting,
/// a closed and drained queue ends the loop.
pub open spec fn phase_after<T>(r: Recv<T>) -> Phase {
    match r {
        Recv::Job(_) => Phase::Executing,
        Recv::Pending => Phase::Idle,
        Recv::Closed => Phase::Terminal,
    }
}

impl Phase {
    /// The phase after a receive returned `r`.
    pub fn after_receive<T>(r: &Recv<T>) -> (p: Phase)
        ensures
            p == phase_after(*r),
    {
        match r {
            Recv::Job(_) => Phase::Executing,
            Recv::Pending => Phase::Idle,
            Recv::Closed => Phase::Terminal,
        }
    }

    /// The phase after a job has run to completion: back to waiting.
    pub fn after_job(self) -> (p: Phase)
        requires
            self == Phase::Executing,
        ensures
            p == Phase::Idle,
    {
        Phase::Idle
    }

    /// Whether the worker has left its loop.
    pub fn is_terminal(self) -> (r: bool)
        ensures
            r == (self == Phase::Terminal),
    {
        match self {
            Phase::Terminal => true,
            _ => false,
        }
    }
}

/// The workers' phases, by identity, and the identity of the worker holding
/// the lock on the receiving end, if any.
pub struct DispatchModel {
    pub phases: Seq<Phase>,
    pub holder: Option<nat>,
}

/// One move of one worker.
pub enum DispatchStep {
    /// An idle worker takes the free lock and starts to receive.
    Acquire(nat),
    /// The receiving worker gets an outcome and releases the lock.
    Release(nat, Recv<()>),
    /// An executing worker finishes its job.
    Complete(nat),
}

/// The state right after construction: every worker idle, the lock free.
pub open spec fn initial_dispatch(n: nat) -> DispatchModel {
    DispatchModel { phases: Seq::new(n, |i: int| Phase::Idle), holder: None }
}

/// The worker that moves in a step.
pub open spec fn mover(s: DispatchStep) -> nat {
    match s {
        DispatchStep::Acquire(w) => w,
        DispatchStep::Release(w, _) => w,
        DispatchStep::Complete(w) => w,
    }
}

/// Whether a step can happen in a state.
pub open spec fn step_enabled(d: DispatchModel, s: DispatchStep) -> bool {
    match s {
        DispatchStep::Acquire(w) => w < d.phases.len() && d.phases[w as int] == Phase::Idle && d.holder is None,
        DispatchStep::Release(w, _) => w < d.phases.len() && d.holder == Some(w),
        DispatchStep::Complete(w) => w < d.phases.len() && d.phases[w as int] == Phase::Executing,
    }
}

/// The state after a step.
pub open spec fn step_dispatch(d: DispatchModel, s: DispatchStep) -> DispatchModel {
    match s {
        DispatchStep::Acquire(w) => DispatchModel {
            phases: d.phases.update(w as int, Phase::Receiving),
            holder: Some(w),
        },
        DispatchStep::Release(w, r) => DispatchModel {
            phases: d.phases.update(w as int, phase_after(r)),
            holder: None,
        },
        DispatchStep::Complete(w) => DispatchModel {
            phases: d.phases.update(w as int, Phase::Idle),
            holder: d.holder,
        },
    }
}

/// Whether every step of `steps` can happen, in turn, from `d`.
pub open spec fn run_enabled(d: DispatchModel, steps: Seq<DispatchStep>) -> bool
    decreases steps.len(),
{
    steps.len() == 0 || (step_enabled(d, steps[0]) && run_enabled(step_dispatch(d, steps[0]), steps.drop_first()))
}

/// The state after the steps of `steps`, in turn.
pub open spec fn run_dispatch(d: DispatchModel, steps: Seq<DispatchStep>) -> DispatchModel
    decreases steps.len(),
{
    if steps.len() == 0 {
        d
    } else {
        run_dispatch(step_dispatch(d, steps[0]), steps.drop_first())
    }
}

/// A worker is receiving exactly when it holds the lock.
pub open spec fn dispatch_inv(d: DispatchModel) -> bool {
    &&& d.holder matches Some(h) ==> h < d.phases.len()
    &&& forall|i: int| 0 <= i < d.phases.len() ==> ((#[trigger] d.phases[i] == Phase::Receiving) <==> d.holder == Some(i as nat))
}

proof fn lemma_step_keeps_inv(d: DispatchModel, s: DispatchStep)
    requires
        dispatch_inv(d),
        step_enabled(d, s),
    ensures
        dispatch_inv(step_dispatch(d, s)),
{
    let e = step_dispatch(d, s);
    match s {
        DispatchStep::Release(w, r) => {
            assert(phase_after(r) != Phase::Receiving);
        },
        _ => {},
    }
    assert forall|i: int| 0 <= i < e.phases.len() implies ((#[trigger] e.phases[i] == Phase::Receiving) <==> e.holder == Some(i as nat)) by {
        if i != mover(s) {
            assert(e.phases[i] == d.phases[i]);
        }
    }
}

proof fn lemma_run_keeps_inv(d: DispatchModel, steps: Seq<DispatchStep>)
    requires
        dispatch_inv(d),
        run_enabled(d, steps),
    ensures
        dispatch_inv(run_dispatch(d, steps)),
        run_dispatch(d, steps).phases.len() == d.phases.len(),
    decreases steps.len(),
{
    if steps.len() > 0 {
        lemma_step_keeps_inv(d, steps[0]);
        lemma_run_keeps_inv(step_dispatch(d, steps[0]), steps.drop_first());
    }
}

/// However the workers of a pool of `n` interleave their moves, at most one
/// of them is ever in the middle of pulling from the shared queue.
pub proof fn lemma_at_most_one_receiver(n: nat, steps: Seq<DispatchStep>)
    requires
        run_enabled(initial_dispatch(n), steps),
    ensures
        ({
            let d = run_dispatch(initial_dispatch(n), steps);
            forall|i: int, j: int|
                0 <= i < d.phases.len() && 0 <= j < d.phases.len() && #[trigger] d.phases[i] == Phase::Receiving
                    && #[trigger] d.phases[j] == Phase::Receiving ==> i == j
        }),
{
    lemma_run_keeps_inv(initial_dispatch(n), steps);
}

} // verus!
