//! The job channel: an unbounded FIFO queue with a distinct closed state.

use vstd::prelude::*;

verus! {

/// The abstract state of a job queue: the jobs waiting to be taken, oldest
/// first, and whether a sender still exists.
pub struct QueueModel<T> {
    pub pending: Seq<T>,
    pub open: bool,
}

/// What one attempt to receive from the queue yields.
pub enum Recv<T> {
    /// The oldest pending job, now owned by the receiver.
    Job(T),
    /// Nothing is queued yet, but a sender remains: the receiver waits.
    Pending,
    /// Nothing is queued and no sender remains: the receiver stops.
    Closed,
}

/// The model after a send: an open queue appends the job, a closed one is unchanged.
pub open spec fn send_model<T>(m: QueueModel<T>, job: T) -> QueueModel<T> {
    if m.open {
        QueueModel { pending: m.pending.push(job), open: true }
    } else {
        m
    }
}

/// What a receive yields: the oldest job while any is queued, even after
/// closing; `Closed` only once the queue has drained.
pub open spec fn recv_outcome<T>(m: QueueModel<T>) -> Recv<T> {
    if m.pending.len() > 0 {
        Recv::Job(m.pending[0])
    } else if m.open {
        Recv::Pending
    } else {
        Recv::Closed
    }
}

/// The model after a receive: the oldest job, if any, leaves the queue.
pub open spec fn recv_model<T>(m: QueueModel<T>) -> QueueModel<T> {
    if m.pending.len() > 0 {
        QueueModel { pending: m.pending.drop_first(), open: m.open }
    } else {
        m
    }
}

/// The model after the sender is relinquished: the queued jobs stay.
pub open spec fn close_model<T>(m: QueueModel<T>) -> QueueModel<T> {
    QueueModel { pending: m.pending, open: false }
}

/// One step taken on a queue by a submitter or a worker.
pub enum QueueOp<T> {
    Send(T),
    Receive,
}

/// The jobs a step hands to a worker: one for a receive that found a job,
/// none otherwise.
pub open spec fn delivered_by<T>(m: QueueModel<T>, op: QueueOp<T>) -> Seq<T> {
    match op {
        QueueOp::Send(_) => Seq::empty(),
        QueueOp::Receive => match recv_outcome(m) {
            Recv::Job(j) => seq![j],
            _ => Seq::empty(),
        },
    }
}

/// The model after one step.
pub open spec fn step_model<T>(m: QueueModel<T>, op: QueueOp<T>) -> QueueModel<T> {
    match op {
        QueueOp::Send(j) => send_model(m, j),
        QueueOp::Receive => recv_model(m),
    }
}

/// The model after a sequence of steps, in order.
pub open spec fn run_model<T>(m: QueueModel<T>, ops: Seq<QueueOp<T>>) -> QueueModel<T>
    decreases ops.len(),
{
    if ops.len() == 0 {
        m
    } else {
        run_model(step_model(m, ops[0]), ops.drop_first())
    }
}

/// The jobs handed to workers over a sequence of steps, in the order they
/// were handed out.
pub open spec fn run_delivered<T>(m: QueueModel<T>, ops: Seq<QueueOp<T>>) -> Seq<T>
    decreases ops.len(),
{
    if ops.len() == 0 {
        Seq::empty()
    } else {
        delivered_by(m, ops[0]) + run_delivered(step_model(m, ops[0]), ops.drop_first())
    }
}

/// The jobs submitted over a sequence of steps, in submission order.
pub open spec fn submitted<T>(ops: Seq<QueueOp<T>>) -> Seq<T>
    decreases ops.len(),
{
    if ops.len() == 0 {
        Seq::empty()
    } else {
        match ops[0] {
            QueueOp::Send(j) => seq![j] + submitted(ops.drop_first()),
            QueueOp::Receive => submitted(ops.drop_first()),
        }
    }
}

/// A queue that stays open keeps every job: for any interleaving of sends
/// and receives, the jobs handed out followed by those still pending are
/// exactly the jobs that were pending before followed by those submitted, in
/// order. No job is lost, none is handed out twice, and jobs leave in the
/// order they arrived.
pub proof fn lemma_jobs_conserved<T>(m: QueueModel<T>, ops: Seq<QueueOp<T>>)
    requires
        m.open,
    ensures
        run_model(m, ops).open,
        run_delivered(m, ops) + run_model(m, ops).pending == m.pending + submitted(ops),
    decreases ops.len(),
{
    if ops.len() > 0 {
        let m1 = step_model(m, ops[0]);
        let rest = ops.drop_first();
        lemma_jobs_conserved(m1, rest);
        match ops[0] {
            QueueOp::Send(j) => {
                assert(m.pending.push(j) + submitted(rest) =~= m.pending + (seq![j] + submitted(rest)));
                assert(Seq::<T>::empty() + run_delivered(m1, rest) =~= run_delivered(m1, rest));
            },
            QueueOp::Receive => {
                if m.pending.len() > 0 {
                    let d = seq![m.pending[0]];
                    assert(d + run_delivered(m1, rest) + run_model(m1, rest).pending
                        =~= d + (run_delivered(m1, rest) + run_model(m1, rest).pending));
                    assert(d + m.pending.drop_first() =~= m.pending);
                    assert(d + (m.pending.drop_first() + submitted(rest)) =~= m.pending + submitted(rest));
                } else {
                    assert(Seq::<T>::empty() + run_delivered(m1, rest) =~= run_delivered(m1, rest));
                }
            },
        }
    } else {
        assert(Seq::<T>::empty() + m.pending =~= m.pending + Seq::<T>::empty());
    }
}

/// The sequence of steps that submits `jobs` one after another.
pub open spec fn sends<T>(jobs: Seq<T>) -> Seq<QueueOp<T>> {
    jobs.map_values(|j: T| QueueOp::Send(j))
}

/// The sequence of `n` receives.
pub open spec fn receives<T>(n: nat) -> Seq<QueueOp<T>> {
    Seq::new(n, |i: int| QueueOp::Receive)
}

proof fn lemma_submitted_sends<T>(jobs: Seq<T>)
    ensures
        submitted(sends(jobs)) == jobs,
    decreases jobs.len(),
{
    if jobs.len() > 0 {
        assert(sends(jobs).drop_first() =~= sends(jobs.drop_first()));
        lemma_submitted_sends(jobs.drop_first());
        assert(seq![jobs[0]] + jobs.drop_first() =~= jobs);
    } else {
        assert(submitted(sends(jobs)) =~= jobs);
    }
}

proof fn lemma_run_append<T>(m: QueueModel<T>, a: Seq<QueueOp<T>>, b: Seq<QueueOp<T>>)
    ensures
        run_model(m, a + b) == run_model(run_model(m, a), b),
        run_delivered(m, a + b) == run_delivered(m, a) + run_delivered(run_model(m, a), b),
    decreases a.len(),
{
    if a.len() > 0 {
        assert((a + b).drop_first() =~= a.drop_first() + b);
        assert((a + b)[0] == a[0]);
        lemma_run_append(step_model(m, a[0]), a.drop_first(), b);
        let d = delivered_by(m, a[0]);
        let m1 = step_model(m, a[0]);
        assert(d + (run_delivered(m1, a.drop_first()) + run_delivered(run_model(m1, a.drop_first()), b))
            =~= d + run_delivered(m1, a.drop_first()) + run_delivered(run_model(m1, a.drop_first()), b));
    } else {
        assert(a + b =~= b);
        assert(Seq::<T>::empty() + run_delivered(m, b) =~= run_delivered(m, b));
    }
}

proof fn lemma_receives_drain<T>(m: QueueModel<T>)
    ensures
        run_delivered(m, receives(m.pending.len())) == m.pending,
        run_model(m, receives(m.pending.len())) == (QueueModel { pending: Seq::<T>::empty(), open: m.open }),
    decreases m.pending.len(),
{
    let ops = receives::<T>(m.pending.len());
    if m.pending.len() > 0 {
        let m1 = recv_model(m);
        assert(ops.drop_first() =~= receives::<T>(m1.pending.len()));
        lemma_receives_drain(m1);
        assert(seq![m.pending[0]] + m1.pending =~= m.pending);
    } else {
        assert(m.pending =~= Seq::<T>::empty());
    }
}

/// Jobs submitted one after another to an open queue with nothing pending
/// are handed out in the order they were submitted, and the queue is then
/// empty again.
pub proof fn lemma_fifo_delivery<T>(jobs: Seq<T>)
    ensures
        ({
            let m = QueueModel { pending: Seq::<T>::empty(), open: true };
            let ops = sends(jobs) + receives::<T>(jobs.len());
            &&& run_delivered(m, ops) == jobs
            &&& run_model(m, ops) == m
        }),
{
    let m = QueueModel { pending: Seq::<T>::empty(), open: true };
    let s = sends(jobs);
    lemma_run_append(m, s, receives::<T>(jobs.len()));
    lemma_jobs_conserved(m, s);
    lemma_submitted_sends(jobs);
    let m1 = run_model(m, s);
    assert(run_delivered(m, s) =~= Seq::<T>::empty()) by {
        assert(run_delivered(m, s).len() + m1.pending.len() == jobs.len());
        lemma_sends_deliver_nothing(m, jobs);
    }
    assert(m1.pending =~= jobs) by {
        assert(Seq::<T>::empty() + m1.pending =~= m1.pending);
        assert(m.pending + jobs =~= jobs);
    }
    lemma_receives_drain(m1);
    assert(Seq::<T>::empty() + jobs =~= jobs);
}

proof fn lemma_sends_deliver_nothing<T>(m: QueueModel<T>, jobs: Seq<T>)
    ensures
        run_delivered(m, sends(jobs)) == Seq::<T>::empty(),
    decreases jobs.len(),
{
    if jobs.len() > 0 {
        assert(sends(jobs).drop_first() =~= sends(jobs.drop_first()));
        lemma_sends_deliver_nothing(step_model(m, sends(jobs)[0]), jobs.drop_first());
        assert(Seq::<T>::empty() + Seq::<T>::empty() =~= Seq::<T>::empty());
    }
}

/// Closing a queue discards nothing: every job pending at that moment is
/// still handed out, oldest first, and only then does a receive report
/// `Closed`.
pub proof fn lemma_drain_after_close<T>(m: QueueModel<T>)
    ensures
        ({
            let c = close_model(m);
            let ops = receives::<T>(m.pending.len());
            &&& run_delivered(c, ops) == m.pending
            &&& recv_outcome(run_model(c, ops)) == Recv::<T>::Closed
        }),
        forall|k: nat| k < m.pending.len() ==> recv_outcome(#[trigger] run_model(close_model(m), receives::<T>(k))) != Recv::<T>::Closed,
{
    let c = close_model(m);
    lemma_receives_drain(c);
    assert forall|k: nat| k < m.pending.len() implies recv_outcome(#[trigger] run_model(close_model(m), receives::<T>(k))) != Recv::<T>::Closed by {
        lemma_receives_prefix(c, k);
    }
}

proof fn lemma_receives_prefix<T>(m: QueueModel<T>, k: nat)
    requires
        k <= m.pending.len(),
    ensures
        run_model(m, receives::<T>(k)) == (QueueModel { pending: m.pending.subrange(k as int, m.pending.len() as int), open: m.open }),
    decreases k,
{
    if k > 0 {
        let m1 = recv_model(m);
        assert(receives::<T>(k).drop_first() =~= receives::<T>((k - 1) as nat));
        lemma_receives_prefix(m1, (k - 1) as nat);
        assert(m1.pending.subrange((k - 1) as int, m1.pending.len() as int) =~= m.pending.subrange(k as int, m.pending.len() as int));
    } else {
        assert(m.pending.subrange(0, m.pending.len() as int) =~= m.pending);
    }
}

/// An unbounded FIFO queue of jobs that can be closed once by its sender.
pub struct JobQueue<T> {
    items: std::collections::VecDeque<T>,
    open: bool,
}

impl<T> View for JobQueue<T> {
    type V = QueueModel<T>;

    closed spec fn view(&self) -> QueueModel<T> {
        QueueModel { pending: self.items@, open: self.open }
    }
}

impl<T> JobQueue<T> {
    /// An open queue with nothing pending.
    pub fn new() -> (r: JobQueue<T>)
        ensures
            r@.pending == Seq::<T>::empty(),
            r@.open,
    {
        JobQueue { items: std::collections::VecDeque::new(), open: true }
    }

    /// Appends `job` behind every job already queued. A closed queue refuses
    /// it and hands it back.
    pub fn send(&mut self, job: T) -> (r: Result<(), T>)
        ensures
            final(self)@ == send_model(old(self)@, job),
            r is Ok <==> old(self)@.open,
            !old(self)@.open ==> r == Err::<(), T>(job),
    {
        if self.open {
            self.items.push_back(job);
            Ok(())
        } else {
            Err(job)
        }
    }

    /// Takes the oldest pending job; reports `Pending` when the queue is empty
    /// but still open, and `Closed` when it is empty and closed.
    pub fn recv(&mut self) -> (r: Recv<T>)
        ensures
            r == recv_outcome(old(self)@),
            final(self)@ == recv_model(old(self)@),
    {
        match self.items.pop_front() {
            Some(job) => Recv::Job(job),
            None => {
                if self.open {
                    Recv::Pending
                } else {
                    Recv::Closed
                }
            },
        }
    }

    /// Marks the sender as gone. Jobs already queued are still delivered.
    pub fn close(&mut self)
        ensures
            final(self)@ == close_model(old(self)@),
    {
        self.open = false;
    }

    /// The number of pending jobs.
    pub fn len(&self) -> (r: usize)
        ensures
            r == self@.pending.len(),
    {
        self.items.len()
    }

    /// Whether a sender remains.
    pub fn is_open(&self) -> (r: bool)
        ensures
            r == self@.open,
    {
        self.open
    }
}

} // verus!
