//! The shared state of a worker pool: a first-in first-out queue of jobs
//! and termination signals, the fixed number of workers, and how many of
//! them still run. The threads themselves live outside; each worker takes
//! items from this state one at a time.

use vstd::prelude::*;
use std::collections::VecDeque;

verus! {

/// An item of the queue.
pub enum Message<J> {
    NewJob(J),
    Terminate,
}

/// `n` termination signals.
pub open spec fn terminates<J>(n: nat) -> Seq<Message<J>> {
    Seq::new(n, |i: int| Message::Terminate)
}

/// The queue items that submitting `jobs` in order adds.
pub open spec fn job_messages<J>(jobs: Seq<J>) -> Seq<Message<J>> {
    jobs.map_values(|j: J| Message::NewJob(j))
}

/// The jobs that `live` workers run, in the order they take them, when
/// they drain the queue `q` and each stops at the first termination
/// signal it takes.
pub open spec fn delivered<J>(q: Seq<Message<J>>, live: nat) -> Seq<J>
    decreases q.len(),
{
    if q.len() == 0 || live == 0 {
        Seq::empty()
    } else {
        match q[0] {
            Message::NewJob(j) => seq![j] + delivered(q.drop_first(), live),
            Message::Terminate => delivered(q.drop_first(), (live - 1) as nat),
        }
    }
}

/// The pool's state, as values.
pub struct PoolView<J> {
    pub queue: Seq<Message<J>>,
    pub size: nat,
    pub live: nat,
    pub stopping: bool,
}

/// The state shared by the workers of a pool.
pub struct PoolState<J> {
    queue: VecDeque<Message<J>>,
    size: usize,
    live: usize,
    stopping: bool,
}

impl<J> View for PoolState<J> {
    type V = PoolView<J>;

    closed spec fn view(&self) -> PoolView<J> {
        PoolView {
            queue: self.queue@,
            size: self.size as nat,
            live: self.live as nat,
            stopping: self.stopping,
        }
    }
}

impl<J> PoolState<J> {
    /// At most `size` workers run.
    pub open spec fn wf(&self) -> bool {
        self@.live <= self@.size
    }

    /// The state of a pool of `size` workers, all running, with an empty
    /// queue.
    pub fn new(size: usize) -> (r: PoolState<J>)
        requires
            size > 0,
        ensures
            r.wf(),
            r@.queue == Seq::<Message<J>>::empty(),
            r@.size == size,
            r@.live == size,
            !r@.stopping,
    {
        PoolState { queue: VecDeque::new(), size, live: size, stopping: false }
    }

    /// Queues `job` behind everything queued so far. After shutdown has
    /// begun the job is still queued, behind the termination signals, and
    /// no worker takes it.
    pub fn execute(&mut self, job: J)
        ensures
            final(self)@ == (PoolView {
                queue: old(self)@.queue.push(Message::NewJob(job)),
                ..old(self)@
            }),
    {
        self.queue.push_back(Message::NewJob(job));
    }

    /// Begins shutdown: queues one termination signal per worker of the
    /// pool, behind every job queued so far.
    pub fn shutdown(&mut self)
        ensures
            final(self)@ == (PoolView {
                queue: old(self)@.queue + terminates(old(self)@.size),
                stopping: true,
                ..old(self)@
            }),
    {
        let ghost q0 = self.queue@;
        let mut i: usize = 0;
        while i < self.size
            invariant
                i <= self.size,
                self.size == old(self).size,
                self.live == old(self).live,
                self.queue@ == q0 + terminates::<J>(i as nat),
            decreases self.size - i,
        {
            self.queue.push_back(Message::Terminate);
            assert(self.queue@ =~= q0 + terminates::<J>((i + 1) as nat));
            i = i + 1;
        }
        self.stopping = true;
    }

    /// A running worker takes the item at the front of the queue, if there
    /// is one; taking a termination signal stops that worker.
    pub fn take(&mut self) -> (r: Option<Message<J>>)
        requires
            old(self).wf(),
            old(self)@.live > 0,
        ensures
            final(self).wf(),
            final(self)@.size == old(self)@.size,
            final(self)@.stopping == old(self)@.stopping,
            old(self)@.queue.len() == 0 ==> r is None && final(self)@ == old(self)@,
            old(self)@.queue.len() > 0 ==> r == Some(old(self)@.queue[0]) && final(self)@.queue
                == old(self)@.queue.drop_first() && final(self)@.live == if old(
                self,
            )@.queue[0] is Terminate {
                old(self)@.live - 1
            } else {
                old(self)@.live as int
            },
    {
        let r = self.queue.pop_front();
        proof {
            if old(self)@.queue.len() > 0 {
                assert(self.queue@ =~= old(self)@.queue.drop_first());
            }
        }
        if let Some(Message::Terminate) = r {
            self.live = self.live - 1;
        }
        r
    }

    /// A job faulted while it ran: the worker that ran it stops, and the
    /// pool runs one worker fewer from then on.
    pub fn job_failed(&mut self)
        requires
            old(self).wf(),
            old(self)@.live > 0,
        ensures
            final(self).wf(),
            final(self)@ == (PoolView { live: (old(self)@.live - 1) as nat, ..old(self)@ }),
    {
        self.live = self.live - 1;
    }

    /// The number of workers still running.
    pub fn live_workers(&self) -> (r: usize)
        ensures
            r == self@.live,
    {
        self.live
    }

    /// The number of workers the pool was made with.
    pub fn size(&self) -> (r: usize)
        ensures
            r == self@.size,
    {
        self.size
    }

    /// Whether shutdown has begun.
    pub fn is_stopping(&self) -> (r: bool)
        ensures
            r == self@.stopping,
    {
        self.stopping
    }

    /// The number of items queued.
    pub fn pending(&self) -> (r: usize)
        ensures
            r == self@.queue.len(),
    {
        self.queue.len()
    }
}

proof fn lemma_terminates_stop<J>(n: nat, live: nat, rest: Seq<Message<J>>)
    requires
        live <= n,
    ensures
        delivered(terminates::<J>(n) + rest, live) == Seq::<J>::empty(),
    decreases n,
{
    if live > 0 {
        let q = terminates::<J>(n) + rest;
        assert(q[0] is Terminate);
        assert(q.drop_first() =~= terminates::<J>((n - 1) as nat) + rest);
        lemma_terminates_stop::<J>((n - 1) as nat, (live - 1) as nat, rest);
    }
}

/// Shutdown drains the queue: when jobs are queued, then shutdown queues a
/// termination signal for each of the pool's workers, and more jobs are
/// queued after that, the running workers take exactly the jobs queued
/// before shutdown, in order, and none of those queued after.
pub proof fn lemma_shutdown_drains<J>(jobs: Seq<J>, later: Seq<J>, live: nat, size: nat)
    requires
        0 < live <= size,
    ensures
        delivered(job_messages(jobs) + terminates::<J>(size) + job_messages(later), live) == jobs,
    decreases jobs.len(),
{
    let rest = terminates::<J>(size) + job_messages(later);
    assert(job_messages(jobs) + terminates::<J>(size) + job_messages(later) =~= job_messages(jobs)
        + rest);
    if jobs.len() == 0 {
        assert(job_messages(jobs) + rest =~= rest);
        lemma_terminates_stop::<J>(size, live, job_messages(later));
    } else {
        let q = job_messages(jobs) + rest;
        assert(q.drop_first() =~= job_messages(jobs.drop_first()) + rest);
        assert(job_messages(jobs.drop_first()) + terminates::<J>(size) + job_messages(later)
            =~= job_messages(jobs.drop_first()) + rest);
        lemma_shutdown_drains(jobs.drop_first(), later, live, size);
        assert(seq![jobs[0]] + jobs.drop_first() =~= jobs);
    }
}

} // verus!
