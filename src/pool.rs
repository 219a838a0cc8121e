//! The decisions of a fixed-size worker pool. Jobs are known here by number;
//! whoever runs the workers keeps the jobs themselves, asks this state which
//! job a free worker starts, and reports back when a job ends.
use vstd::prelude::*;

verus! {

/// A pool's bookkeeping as plain values.
pub struct PoolView {
    pub size: nat,
    pub running: nat,
    pub pending: Seq<u64>,
    pub closed: bool,
}

/// The bookkeeping of a pool of `size` workers over one unbounded queue.
pub struct PoolState {
    size: usize,
    running: usize,
    pending: Vec<u64>,
    closed: bool,
}

/// A submitted job joins the end of the queue, unless the pool is shut down.
pub open spec fn submit_spec(v: PoolView, job: u64) -> PoolView {
    if v.closed {
        v
    } else {
        PoolView { pending: v.pending.push(job), ..v }
    }
}

/// True when a free worker may start the job at the head of the queue.
pub open spec fn can_start(v: PoolView) -> bool {
    v.running < v.size && v.pending.len() > 0
}

/// A free worker starts the job at the head of the queue, if it may.
pub open spec fn start_spec(v: PoolView) -> PoolView {
    if can_start(v) {
        PoolView { running: v.running + 1, pending: v.pending.drop_first(), ..v }
    } else {
        v
    }
}

/// The state after `k` free workers, one after another, ask for a job.
pub open spec fn start_many(v: PoolView, k: nat) -> PoolView
    decreases k,
{
    if k == 0 {
        v
    } else {
        start_spec(start_many(v, (k - 1) as nat))
    }
}

impl View for PoolState {
    type V = PoolView;

    closed spec fn view(&self) -> PoolView {
        PoolView {
            size: self.size as nat,
            running: self.running as nat,
            pending: self.pending@,
            closed: self.closed,
        }
    }
}

impl PoolState {
    /// At least one worker, and never more jobs running than workers.
    pub open spec fn wf(&self) -> bool {
        &&& self@.size >= 1
        &&& self@.running <= self@.size
    }

    /// A pool of `size` workers with nothing queued; none when `size` is zero.
    pub fn new(size: usize) -> (r: Option<PoolState>)
        ensures
            r is None <==> size == 0,
            r matches Some(p) ==> p.wf() && p@ == (PoolView {
                size: size as nat,
                running: 0,
                pending: Seq::empty(),
                closed: false,
            }),
    {
        if size == 0 {
            None
        } else {
            let p = PoolState { size, running: 0, pending: Vec::new(), closed: false };
            assert(p@.pending =~= Seq::<u64>::empty());
            Some(p)
        }
    }

    /// Queues a job; returns whether it was taken, which it is unless the
    /// pool is shut down.
    pub fn submit(&mut self, job: u64) -> (accepted: bool)
        requires
            old(self).wf(),
        ensures
            final(self).wf(),
            accepted == !old(self)@.closed,
            final(self)@ == submit_spec(old(self)@, job),
    {
        if self.closed {
            false
        } else {
            self.pending.push(job);
            true
        }
    }

    /// A free worker asks for work: it gets the job at the head of the queue
    /// when fewer jobs run than there are workers.
    pub fn start_next(&mut self) -> (job: Option<u64>)
        requires
            old(self).wf(),
        ensures
            final(self).wf(),
            final(self)@ == start_spec(old(self)@),
            job == (if can_start(old(self)@) {
                Some(old(self)@.pending[0])
            } else {
                None
            }),
    {
        if self.running < self.size && self.pending.len() > 0 {
            let job = self.pending.remove(0);
            self.running = self.running + 1;
            assert(self@.pending =~= old(self)@.pending.drop_first());
            Some(job)
        } else {
            None
        }
    }

    /// A worker reports that its job has ended.
    pub fn finish(&mut self)
        requires
            old(self).wf(),
            old(self)@.running > 0,
        ensures
            final(self).wf(),
            final(self)@ == (PoolView { running: (old(self)@.running - 1) as nat, ..old(self)@ }),
    {
        self.running = self.running - 1;
    }

    /// Begins teardown: from now on no job is taken.
    pub fn shutdown(&mut self)
        requires
            old(self).wf(),
        ensures
            final(self).wf(),
            final(self)@ == (PoolView { closed: true, ..old(self)@ }),
    {
        self.closed = true;
    }

    /// True when an idle worker should exit: the pool is shut down and nothing
    /// waits.
    pub fn worker_may_exit(&self) -> (r: bool)
        ensures
            r == (self@.closed && self@.pending.len() == 0),
    {
        self.closed && self.pending.len() == 0
    }

    /// True when teardown may return: shut down, nothing waiting, nothing running.
    pub fn is_drained(&self) -> (r: bool)
        ensures
            r == (self@.closed && self@.pending.len() == 0 && self@.running == 0),
    {
        self.closed && self.pending.len() == 0 && self.running == 0
    }
}

/// With `m` jobs queued on an idle pool of `n` workers and `m > n`, however
/// many free workers (at least `n`) ask for work, exactly `n` jobs run and the
/// other `m - n` wait, in the order they were queued.
pub proof fn lemma_bounded_concurrency(v: PoolView, k: nat)
    requires
        v.size >= 1,
        v.running == 0,
        v.pending.len() > v.size,
        k >= v.size,
    ensures
        start_many(v, k) == (PoolView {
            running: v.size,
            pending: v.pending.skip(v.size as int),
            ..v
        }),
    decreases k,
{
    lemma_start_prefix(v, v.size);
    if k > v.size {
        lemma_bounded_concurrency(v, (k - 1) as nat);
    }
}

proof fn lemma_start_prefix(v: PoolView, j: nat)
    requires
        v.running == 0,
        j <= v.size,
        j <= v.pending.len(),
    ensures
        start_many(v, j) == (PoolView { running: j, pending: v.pending.skip(j as int), ..v }),
    decreases j,
{
    if j == 0 {
        assert(v.pending.skip(0) =~= v.pending);
    } else {
        lemma_start_prefix(v, (j - 1) as nat);
        assert(v.pending.skip(j - 1).drop_first() =~= v.pending.skip(j as int));
    }
}

/// Once teardown has begun, a job submitted afterwards never joins the queue,
/// so no worker ever starts it; starting a queued job keeps the pool shut down
/// and never lengthens the queue.
pub proof fn lemma_no_job_after_shutdown(v: PoolView, job: u64)
    requires
        v.closed,
    ensures
        submit_spec(v, job) == v,
        start_spec(v).closed,
        start_spec(v).pending.len() <= v.pending.len(),
{
}

} // verus!
