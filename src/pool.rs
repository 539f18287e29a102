//! The pool's lifecycle: a fixed roster of workers built at construction, a
//! sending endpoint held until teardown, and a teardown that relinquishes the
//! sender first and then reclaims every worker's thread in identity order.

use vstd::prelude::*;

verus! {

/// Why a pool could not be built.
#[derive(Debug, PartialEq, Eq, Structural)]
pub enum PoolError {
    /// A pool needs at least one worker.
    ZeroSize,
}

/// One worker: its identity within the pool and, until teardown reclaims it,
/// the handle of the thread it runs on.
pub struct Worker<H> {
    id: usize,
    thread: Option<H>,
}

impl<H> Worker<H> {
    pub closed spec fn spec_id(&self) -> usize {
        self.id
    }

    pub closed spec fn spec_thread(&self) -> Option<H> {
        self.thread
    }

    /// A worker with identity `id` running on `thread`.
    pub fn new(id: usize, thread: H) -> (r: Worker<H>)
        ensures
            r.spec_id() == id,
            r.spec_thread() == Some(thread),
    {
        Worker { id, thread: Some(thread) }
    }

    /// The worker's identity.
    pub fn id(&self) -> (r: usize)
        ensures
            r == self.spec_id(),
    {
        self.id
    }

    /// Whether the thread handle is still held.
    pub fn has_thread(&self) -> (r: bool)
        ensures
            r == self.spec_thread() is Some,
    {
        self.thread.is_some()
    }

    /// Hands the thread handle out, once: afterwards the slot is empty.
    pub fn take_thread(&mut self) -> (r: Option<H>)
        ensures
            r == old(self).spec_thread(),
            final(self).spec_thread() is None,
            final(self).spec_id() == old(self).spec_id(),
    {
        self.thread.take()
    }
}

/// The handles that teardown reclaims from the first `n` slots: each one
/// still held, paired with its worker's identity, in identity order.
pub open spec fn reclaimed<H>(threads: Seq<Option<H>>, n: nat) -> Seq<(usize, H)>
    decreases n,
{
    if n == 0 {
        Seq::empty()
    } else {
        let before = reclaimed(threads, (n - 1) as nat);
        match threads[n - 1] {
            Some(h) => before.push(((n - 1) as usize, h)),
            None => before,
        }
    }
}

/// When every worker still holds its thread, as after construction, teardown
/// reclaims one handle per worker: the handle of worker `i` comes `i`-th,
/// so every thread the pool started is waited for, once, in identity order.
pub proof fn lemma_reclaims_every_worker<H>(threads: Seq<Option<H>>)
    requires
        forall|i: int| 0 <= i < threads.len() ==> (#[trigger] threads[i]) is Some,
    ensures
        reclaimed(threads, threads.len()).len() == threads.len(),
        forall|i: int| 0 <= i < threads.len() ==> #[trigger] reclaimed(threads, threads.len())[i] == (
            i as usize,
            threads[i]->0,
        ),
{
    lemma_reclaimed_prefix(threads, threads.len());
}

proof fn lemma_reclaimed_prefix<H>(threads: Seq<Option<H>>, n: nat)
    requires
        n <= threads.len(),
        forall|i: int| 0 <= i < threads.len() ==> (#[trigger] threads[i]) is Some,
    ensures
        reclaimed(threads, n).len() == n,
        forall|i: int| 0 <= i < n ==> #[trigger] reclaimed(threads, n)[i] == (i as usize, threads[i]->0),
    decreases n,
{
    if n > 0 {
        lemma_reclaimed_prefix(threads, (n - 1) as nat);
        assert(threads[n - 1] is Some);
    }
}

/// Once no worker holds a thread, as after a teardown, a further teardown
/// reclaims nothing: no thread is waited for twice.
pub proof fn lemma_second_teardown_reclaims_nothing<H>(threads: Seq<Option<H>>)
    requires
        forall|i: int| 0 <= i < threads.len() ==> (#[trigger] threads[i]) is None,
    ensures
        reclaimed(threads, threads.len()) == Seq::<(usize, H)>::empty(),
{
    lemma_reclaimed_empty(threads, threads.len());
}

proof fn lemma_reclaimed_empty<H>(threads: Seq<Option<H>>, n: nat)
    requires
        n <= threads.len(),
        forall|i: int| 0 <= i < threads.len() ==> (#[trigger] threads[i]) is None,
    ensures
        reclaimed(threads, n) == Seq::<(usize, H)>::empty(),
    decreases n,
{
    if n > 0 {
        lemma_reclaimed_empty(threads, (n - 1) as nat);
        assert(threads[n - 1] is None);
    }
}

/// A pool of workers with identities `0..size` sharing one sending endpoint
/// of type `S`; `H` is the type of a worker's thread handle.
pub struct Pool<S, H> {
    workers: Vec<Worker<H>>,
    sender: Option<S>,
}

impl<S, H> Pool<S, H> {
    /// The number of workers.
    pub closed spec fn size(&self) -> nat {
        self.workers@.len()
    }

    /// The thread slot of each worker, in identity order.
    pub closed spec fn threads(&self) -> Seq<Option<H>> {
        self.workers@.map_values(|w: Worker<H>| w.spec_thread())
    }

    /// The sending endpoint, until teardown relinquishes it.
    pub closed spec fn sender_slot(&self) -> Option<S> {
        self.sender
    }

    /// Each worker's identity is its position in the roster.
    pub closed spec fn wf(&self) -> bool {
        forall|i: int| 0 <= i < self.workers@.len() ==> (#[trigger] self.workers@[i]).spec_id() == i
    }

    /// Builds a pool of `size` workers that share `sender`'s channel. Worker
    /// `id`, for `id` in `0..size` in order, runs on the thread that
    /// `spawn(id)` starts. A pool of no workers is refused before anything is
    /// started.
    pub fn new<F: Fn(usize) -> H>(size: usize, sender: S, spawn: F) -> (r: Result<Pool<S, H>, PoolError>)
        requires
            forall|id: usize| id < size ==> #[trigger] spawn.requires((id,)),
        ensures
            r is Err <==> size == 0,
            r is Err ==> r == Err::<Pool<S, H>, PoolError>(PoolError::ZeroSize),
            r matches Ok(p) ==> {
                &&& p.wf()
                &&& p.size() == size
                &&& p.sender_slot() == Some(sender)
                &&& forall|i: int| 0 <= i < size ==> (#[trigger] p.threads()[i]) is Some && spawn.ensures(
                    (i as usize,),
                    p.threads()[i]->0,
                )
            },
    {
        if size == 0 {
            return Err(PoolError::ZeroSize);
        }
        let mut workers: Vec<Worker<H>> = Vec::with_capacity(size);
        let mut id: usize = 0;
        while id < size
            invariant
                id <= size,
                workers@.len() == id,
                forall|k: usize| k < size ==> #[trigger] spawn.requires((k,)),
                forall|i: int| 0 <= i < id ==> (#[trigger] workers@[i]).spec_id() == i,
                forall|i: int| 0 <= i < id ==> (#[trigger] workers@[i]).spec_thread() is Some && spawn.ensures(
                    (i as usize,),
                    workers@[i].spec_thread()->0,
                ),
            decreases size - id,
        {
            let thread = spawn(id);
            workers.push(Worker::new(id, thread));
            id = id + 1;
        }
        let p = Pool { workers, sender: Some(sender) };
        assert forall|i: int| 0 <= i < size implies (#[trigger] p.threads()[i]) is Some && spawn.ensures(
            (i as usize,),
            p.threads()[i]->0,
        ) by {
            assert(p.threads()[i] == p.workers@[i].spec_thread());
        }
        Ok(p)
    }

    /// The number of workers.
    pub fn len(&self) -> (r: usize)
        ensures
            r == self.size(),
    {
        self.workers.len()
    }

    /// The sending endpoint, while the pool still holds it.
    pub fn sender(&self) -> (r: Option<&S>)
        ensures
            r matches Some(s) ==> self.sender_slot() == Some(*s),
            r is None <==> self.sender_slot() is None,
    {
        self.sender.as_ref()
    }

    /// The first step of teardown: hands the sending endpoint out and leaves
    /// its slot empty, so that the channel closes once the caller drops or
    /// closes it. The workers are untouched.
    pub fn release_sender(&mut self) -> (r: Option<S>)
        ensures
            r == old(self).sender_slot(),
            final(self).sender_slot() is None,
            final(self).size() == old(self).size(),
            final(self).threads() == old(self).threads(),
            old(self).wf() ==> final(self).wf(),
    {
        let r = self.sender.take();
        proof {
            assert(self.workers@ == old(self).workers@);
        }
        r
    }

    /// The second step of teardown: takes every thread handle still held, in
    /// identity order, paired with its worker's identity. Afterwards no
    /// worker holds a handle, so none is handed out twice.
    pub fn reclaim_threads(&mut self) -> (r: Vec<(usize, H)>)
        requires
            old(self).wf(),
        ensures
            r@ == reclaimed(old(self).threads(), old(self).size()),
            final(self).wf(),
            final(self).size() == old(self).size(),
            final(self).sender_slot() == old(self).sender_slot(),
            forall|i: int| 0 <= i < final(self).size() ==> (#[trigger] final(self).threads()[i]) is None,
    {
        let ghost before = self.threads();
        let mut out: Vec<(usize, H)> = Vec::new();
        let n: usize = self.workers.len();
        let mut i: usize = 0;
        while i < n
            invariant
                i <= n,
                n == self.workers@.len(),
                n == old(self).workers@.len(),
                before == old(self).threads(),
                self.sender == old(self).sender,
                forall|k: int| 0 <= k < n ==> (#[trigger] self.workers@[k]).spec_id() == k,
                forall|k: int| i <= k < n ==> (#[trigger] self.workers@[k]).spec_thread() == before[k],
                forall|k: int| 0 <= k < i ==> (#[trigger] self.workers@[k]).spec_thread() is None,
                out@ == reclaimed(before, i as nat),
            decreases n - i,
        {
            let t = self.workers[i].take_thread();
            match t {
                Some(h) => out.push((i, h)),
                None => {},
            }
            i = i + 1;
        }
        proof {
            assert forall|k: int| 0 <= k < n implies (#[trigger] self.threads()[k]) is None by {
                assert(self.threads()[k] == self.workers@[k].spec_thread());
            }
        }
        out
    }

    /// Teardown: relinquishes the sending endpoint, then reclaims every
    /// thread handle still held, in identity order. The caller drops the
    /// endpoint and then waits for each returned thread in turn.
    pub fn teardown(&mut self) -> (r: (Option<S>, Vec<(usize, H)>))
        requires
            old(self).wf(),
        ensures
            r.0 == old(self).sender_slot(),
            r.1@ == reclaimed(old(self).threads(), old(self).size()),
            final(self).wf(),
            final(self).size() == old(self).size(),
            final(self).sender_slot() is None,
            forall|i: int| 0 <= i < final(self).size() ==> (#[trigger] final(self).threads()[i]) is None,
    {
        let sender = self.release_sender();
        let threads = self.reclaim_threads();
        (sender, threads)
    }
}

} // verus!
