use vstd::prelude::*;
use std::collections::VecDeque;

verus! {

/// The bookkeeping of a pool of workers as plain data: the workers that
/// wait for work, longest-waiting first; the jobs that wait for a worker,
/// oldest first; and the number of workers.
pub struct PoolView<J> {
    pub idle: Seq<usize>,
    pub pending: Seq<J>,
    pub workers: nat,
}

impl<J> PoolView<J> {
    /// Every idle worker is one of the pool and is listed once, and jobs
    /// wait only while no worker does.
    pub open spec fn wf(self) -> bool {
        &&& forall|i: int| 0 <= i < self.idle.len() ==> (#[trigger] self.idle[i]) < self.workers
        &&& self.idle.no_duplicates()
        &&& self.pending.len() > 0 ==> self.idle.len() == 0
    }

    /// Whether a worker is at work: it belongs to the pool and is not idle.
    pub open spec fn busy(self, id: usize) -> bool {
        id < self.workers && !self.idle.contains(id)
    }
}

/// The dispatcher of a pool of workers. Jobs go to the worker that has
/// been idle longest; while all workers are busy, jobs wait in order, and
/// a worker that finishes takes the oldest waiting job at once.
pub struct WorkerPool<J> {
    idle: VecDeque<usize>,
    pending: VecDeque<J>,
    workers: usize,
}

impl<J> View for WorkerPool<J> {
    type V = PoolView<J>;

    closed spec fn view(&self) -> PoolView<J> {
        PoolView { idle: self.idle@, pending: self.pending@, workers: self.workers as nat }
    }
}

impl<J> WorkerPool<J> {
    #[verifier::type_invariant]
    spec fn inv(&self) -> bool {
        self@.wf()
    }

    /// A pool of `num_workers` workers, all idle, in the order of their numbers.
    pub fn new(num_workers: usize) -> (pool: Self)
        ensures
            pool@.workers == num_workers,
            pool@.idle == Seq::new(num_workers as nat, |i: int| i as usize),
            pool@.pending.len() == 0,
            pool@.wf(),
    {
        let mut idle: VecDeque<usize> = VecDeque::new();
        let mut id: usize = 0;
        while id < num_workers
            invariant
                id <= num_workers,
                idle@ == Seq::new(id as nat, |i: int| i as usize),
            decreases num_workers - id,
        {
            idle.push_back(id);
            id = id + 1;
            assert(idle@ =~= Seq::new(id as nat, |i: int| i as usize));
        }
        WorkerPool { idle, pending: VecDeque::new(), workers: num_workers }
    }

    /// The number of workers. Every pool in hand is well formed.
    pub fn num_workers(&self) -> (n: usize)
        ensures
            n == self@.workers,
            self@.wf(),
    {
        proof {
            use_type_invariant(self);
        }
        self.workers
    }

    /// The number of idle workers.
    pub fn idle_count(&self) -> (n: usize)
        ensures
            n == self@.idle.len(),
    {
        self.idle.len()
    }

    /// The number of waiting jobs.
    pub fn pending_count(&self) -> (n: usize)
        ensures
            n == self@.pending.len(),
    {
        self.pending.len()
    }

    /// A job arrives. It goes to the worker that has been idle longest,
    /// which is handed back with the job; while no worker is idle the job
    /// waits and nothing is handed back.
    pub fn submit(&mut self, job: J) -> (dispatch: Option<(usize, J)>)
        ensures
            final(self)@.workers == old(self)@.workers,
            final(self)@.wf(),
            old(self)@.idle.len() > 0 ==> dispatch == Some((old(self)@.idle[0], job)) && final(self)@.idle == old(self)@.idle.skip(1) && final(self)@.pending == old(self)@.pending
                && old(self)@.idle[0] < old(self)@.workers,
            old(self)@.idle.len() == 0 ==> dispatch.is_none() && final(self)@.idle == old(self)@.idle && final(self)@.pending == old(self)@.pending.push(job),
    {
        proof {
            use_type_invariant(&*self);
        }
        let mut idle = VecDeque::new();
        std::mem::swap(&mut self.idle, &mut idle);
        let ghost before = idle@;
        match idle.pop_front() {
            Some(id) => {
                proof {
                    assert(idle@ =~= before.skip(1));
                    assert(before[0] == id);
                    assert forall|i: int, j: int|
                        0 <= i < idle@.len() && 0 <= j < idle@.len() && i != j implies idle@[i]
                        != idle@[j] by {
                        assert(before[i + 1] == idle@[i] && before[j + 1] == idle@[j]);
                    }
                }
                self.idle = idle;
                Some((id, job))
            },
            None => {
                self.idle = idle;
                let mut pending = VecDeque::new();
                std::mem::swap(&mut self.pending, &mut pending);
                pending.push_back(job);
                self.pending = pending;
                None
            },
        }
    }

    /// Worker `id` has finished. It takes the oldest waiting job, which is
    /// handed back with the worker; where no job waits the worker joins
    /// the idle workers and nothing is handed back. Nothing happens for a
    /// number that names no busy worker.
    pub fn complete(&mut self, id: usize) -> (dispatch: Option<(usize, J)>)
        ensures
            final(self)@.workers == old(self)@.workers,
            final(self)@.wf(),
            !old(self)@.busy(id) ==> dispatch.is_none() && final(self)@ == old(self)@,
            old(self)@.busy(id) && old(self)@.pending.len() > 0 ==> dispatch == Some(
                (id, old(self)@.pending[0]),
            ) && final(self)@.pending == old(self)@.pending.skip(1) && final(self)@.idle == old(self)@.idle,
            old(self)@.busy(id) && old(self)@.pending.len() == 0 ==> dispatch.is_none() && final(self)@.pending == old(self)@.pending && final(self)@.idle == old(self)@.idle.push(id),
    {
        proof {
            use_type_invariant(&*self);
        }
        if id >= self.workers {
            return None;
        }
        let mut i: usize = 0;
        while i < self.idle.len()
            invariant
                i <= self.idle@.len(),
                self.idle@ == old(self).idle@,
                self.pending@ == old(self).pending@,
                self.workers == old(self).workers,
                self@.wf(),
                forall|j: int| 0 <= j < i ==> self.idle@[j] != id,
            decreases self.idle@.len() - i,
        {
            if self.idle[i] == id {
                assert(self.idle@.contains(id));
                return None;
            }
            i = i + 1;
        }
        assert(!self.idle@.contains(id));
        let mut pending = VecDeque::new();
        std::mem::swap(&mut self.pending, &mut pending);
        let ghost waiting = pending@;
        match pending.pop_front() {
            Some(job) => {
                assert(pending@ =~= waiting.skip(1));
                self.pending = pending;
                Some((id, job))
            },
            None => {
                self.pending = pending;
                let mut idle = VecDeque::new();
                std::mem::swap(&mut self.idle, &mut idle);
                let ghost before = idle@;
                idle.push_back(id);
                proof {
                    assert forall|a: int, b: int|
                        0 <= a < idle@.len() && 0 <= b < idle@.len() && a != b implies idle@[a]
                        != idle@[b] by {
                        if a < before.len() {
                            assert(before[a] == idle@[a]);
                            assert(before.contains(idle@[a]));
                        }
                        if b < before.len() {
                            assert(before[b] == idle@[b]);
                            assert(before.contains(idle@[b]));
                        }
                    }
                }
                self.idle = idle;
                None
            },
        }
    }
}

} // verus!
