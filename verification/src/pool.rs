//! Bookkeeping of a fixed-size worker pool.
//!
//! A pool owns one queue of messages and a fixed number of workers. Jobs are
//! queued in the order of their submission. A worker that is idle takes the
//! oldest message: a job, which it runs to completion before it takes
//! another message, or the order to terminate, after which it takes no more.
//! Shutting the pool down queues one such order per worker and closes the
//! queue to further jobs.
//!
//! The pool here decides and records; running the jobs and waiting on an
//! empty queue are left to its owner.

use std::collections::VecDeque;
use vstd::prelude::*;

verus! {

/// What travels through the queue of a pool.
#[derive(Debug, PartialEq, Eq)]
pub enum Message<J> {
    /// A job to run.
    NewJob(J),
    /// The order to stop taking messages.
    Terminate,
}

/// What a worker is doing.
#[derive(Clone, Copy, Debug, PartialEq, Eq, Structural)]
pub enum Phase {
    /// Ready to take a message.
    Idle,
    /// Running a job.
    Busy,
    /// Terminated.
    Exited,
}

/// What a worker is doing, with the job it runs. A job is known by its
/// ticket: its position among the jobs the pool has accepted.
pub enum Worker {
    Idle,
    Busy(int),
    Exited,
}

impl Worker {
    /// The phase of this worker.
    pub open spec fn phase(self) -> Phase {
        match self {
            Worker::Idle => Phase::Idle,
            Worker::Busy(_) => Phase::Busy,
            Worker::Exited => Phase::Exited,
        }
    }
}

/// How many of `workers` have terminated.
pub open spec fn exited(workers: Seq<Worker>) -> nat
    decreases workers.len(),
{
    if workers.len() == 0 {
        0
    } else if workers.last() is Exited {
        exited(workers.drop_last()) + 1
    } else {
        exited(workers.drop_last())
    }
}

/// The state of a pool and the history of its jobs.
pub struct PoolView<J> {
    /// The messages waiting, oldest first.
    pub queue: Seq<Message<J>>,
    /// One entry per worker.
    pub workers: Seq<Worker>,
    /// Whether the pool was shut down.
    pub closing: bool,
    /// Every job accepted so far, in the order of submission.
    pub accepted: Seq<J>,
    /// How many of the accepted jobs were handed to a worker.
    pub delivered: nat,
    /// The tickets of the jobs that ran to completion, in the order of completion.
    pub finished: Seq<int>,
}

impl<J> PoolView<J> {
    /// A pool of `size` idle workers with nothing queued.
    pub open spec fn init(size: nat) -> Self {
        PoolView {
            queue: Seq::empty(),
            workers: Seq::new(size, |w: int| Worker::Idle),
            closing: false,
            accepted: Seq::empty(),
            delivered: 0,
            finished: Seq::empty(),
        }
    }

    /// How many accepted jobs are still waiting in the queue.
    pub open spec fn pending(self) -> int {
        self.accepted.len() - self.delivered
    }

    /// Whether `w` names a worker of this pool.
    pub open spec fn has_worker(self, w: int) -> bool {
        0 <= w < self.workers.len()
    }

    /// Whether worker `w` currently runs the job with ticket `t`.
    pub open spec fn runs(self, w: int, t: int) -> bool {
        self.has_worker(w) && self.workers[w] == Worker::Busy(t)
    }

    /// The pool after `job` was submitted: queued behind all earlier
    /// messages, unless the pool was shut down, which refuses it.
    pub open spec fn submit(self, job: J) -> Self {
        if self.closing {
            self
        } else {
            PoolView {
                queue: self.queue.push(Message::NewJob(job)),
                accepted: self.accepted.push(job),
                ..self
            }
        }
    }

    /// The pool after it was shut down: one order to terminate per worker is
    /// queued behind all earlier messages. A second shutdown changes nothing.
    pub open spec fn shutdown(self) -> Self {
        if self.closing {
            self
        } else {
            PoolView {
                queue: self.queue + Seq::new(self.workers.len(), |i: int| Message::Terminate),
                closing: true,
                ..self
            }
        }
    }

    /// Whether worker `w` can take a message: it is idle and one is waiting.
    pub open spec fn can_receive(self, w: int) -> bool {
        self.has_worker(w) && self.workers[w] is Idle && self.queue.len() > 0
    }

    /// The pool after worker `w` took the oldest message, if it could.
    pub open spec fn receive(self, w: int) -> Self {
        if !self.can_receive(w) {
            self
        } else {
            match self.queue[0] {
                Message::NewJob(_) => PoolView {
                    queue: self.queue.drop_first(),
                    workers: self.workers.update(w, Worker::Busy(self.delivered as int)),
                    delivered: self.delivered + 1,
                    ..self
                },
                Message::Terminate => PoolView {
                    queue: self.queue.drop_first(),
                    workers: self.workers.update(w, Worker::Exited),
                    ..self
                },
            }
        }
    }

    /// The pool after worker `w` completed the job it was running, if any.
    pub open spec fn finish(self, w: int) -> Self {
        if self.has_worker(w) && self.workers[w] is Busy {
            PoolView {
                workers: self.workers.update(w, Worker::Idle),
                finished: self.finished.push(self.workers[w]->Busy_0),
                ..self
            }
        } else {
            self
        }
    }

    /// Whether every worker has terminated.
    pub open spec fn torn_down(self) -> bool {
        forall|w: int| self.has_worker(w) ==> #[trigger] self.workers[w] is Exited
    }

    /// What holds of a pool however it was used:
    /// - it has a worker;
    /// - the queue holds the accepted jobs not yet delivered, in the order of
    ///   their submission, followed by orders to terminate only, and none of
    ///   those before the shutdown;
    /// - once the pool is shut down, there is one order to terminate, waiting
    ///   or taken, for each worker;
    /// - once a worker has terminated, no job is waiting;
    /// - every delivered job is either being run by exactly one worker or
    ///   has been completed exactly once.
    pub open spec fn wf(self) -> bool {
        &&& self.workers.len() >= 1
        &&& self.delivered <= self.accepted.len()
        &&& self.pending() <= self.queue.len()
        &&& forall|i: int|
            0 <= i < self.pending() ==> #[trigger] self.queue[i] == Message::NewJob(
                self.accepted[self.delivered + i],
            )
        &&& forall|i: int|
            self.pending() <= i < self.queue.len() ==> #[trigger] self.queue[i] is Terminate
        &&& !self.closing ==> self.queue.len() == self.pending()
        &&& self.closing ==> self.queue.len() - self.pending() + exited(self.workers)
            == self.workers.len()
        &&& forall|w: int|
            self.has_worker(w) && #[trigger] self.workers[w] is Exited ==> self.closing
                && self.pending() == 0
        &&& self.finished.no_duplicates()
        &&& forall|i: int|
            0 <= i < self.finished.len() ==> 0 <= #[trigger] self.finished[i] < self.delivered
        &&& forall|w: int, t: int| #[trigger]
            self.runs(w, t) ==> 0 <= t < self.delivered && !self.finished.contains(t)
        &&& forall|v: int, w: int, t: int| #[trigger]
            self.runs(v, t) && #[trigger] self.runs(w, t) ==> v == w
        &&& forall|t: int|
            0 <= t < self.delivered ==> #[trigger] self.finished.contains(t) || exists|w: int| #[trigger]
                self.runs(w, t)
    }
}

/// Where no worker has terminated, none is counted, and where all have,
/// all are.
pub proof fn lemma_exited_bounds(workers: Seq<Worker>)
    ensures
        exited(workers) <= workers.len(),
        (forall|w: int| 0 <= w < workers.len() ==> !(#[trigger] workers[w] is Exited)) ==> exited(
            workers,
        ) == 0,
        (forall|w: int| 0 <= w < workers.len() ==> #[trigger] workers[w] is Exited) ==> exited(
            workers,
        ) == workers.len(),
    decreases workers.len(),
{
    if workers.len() > 0 {
        lemma_exited_bounds(workers.drop_last());
        assert forall|w: int| 0 <= w < workers.len() - 1 implies workers.drop_last()[w]
            == workers[w] by {}
    }
}

/// A change of one worker changes the count of those terminated by that
/// worker alone.
pub proof fn lemma_exited_update(workers: Seq<Worker>, w: int, to: Worker)
    requires
        0 <= w < workers.len(),
    ensures
        exited(workers.update(w, to)) + (if workers[w] is Exited {
            1nat
        } else {
            0nat
        }) == exited(workers) + (if to is Exited {
            1nat
        } else {
            0nat
        }),
    decreases workers.len(),
{
    let changed = workers.update(w, to);
    if w == workers.len() - 1 {
        assert(changed.drop_last() =~= workers.drop_last());
    } else {
        assert(changed.drop_last() =~= workers.drop_last().update(w, to));
        lemma_exited_update(workers.drop_last(), w, to);
    }
}

/// A fresh pool with at least one worker is well formed.
pub proof fn lemma_init_wf<J>(size: nat)
    requires
        size >= 1,
    ensures
        PoolView::<J>::init(size).wf(),
{
}

/// Submitting a job keeps a pool well formed.
pub proof fn lemma_submit_wf<J>(s: PoolView<J>, job: J)
    requires
        s.wf(),
    ensures
        s.submit(job).wf(),
{
    let r = s.submit(job);
    if !s.closing {
        assert forall|w: int, t: int| #[trigger] r.runs(w, t) implies 0 <= t < r.delivered
            && !r.finished.contains(t) by {
            assert(s.runs(w, t));
        }
        assert forall|v: int, w: int, t: int| #[trigger]
            r.runs(v, t) && #[trigger] r.runs(w, t) implies v == w by {
            assert(s.runs(v, t) && s.runs(w, t));
        }
        assert forall|t: int| 0 <= t < r.delivered implies #[trigger] r.finished.contains(t)
            || exists|w: int| #[trigger] r.runs(w, t) by {
            if !s.finished.contains(t) {
                let w = choose|w: int| #[trigger] s.runs(w, t);
                assert(r.runs(w, t));
            }
        }
    }
}

/// Shutting down keeps a pool well formed.
pub proof fn lemma_shutdown_wf<J>(s: PoolView<J>)
    requires
        s.wf(),
    ensures
        s.shutdown().wf(),
{
    let r = s.shutdown();
    if !s.closing {
        lemma_exited_bounds(s.workers);
        assert forall|w: int, t: int| #[trigger] r.runs(w, t) implies 0 <= t < r.delivered
            && !r.finished.contains(t) by {
            assert(s.runs(w, t));
        }
        assert forall|v: int, w: int, t: int| #[trigger]
            r.runs(v, t) && #[trigger] r.runs(w, t) implies v == w by {
            assert(s.runs(v, t) && s.runs(w, t));
        }
        assert forall|t: int| 0 <= t < r.delivered implies #[trigger] r.finished.contains(t)
            || exists|w: int| #[trigger] r.runs(w, t) by {
            if !s.finished.contains(t) {
                let w = choose|w: int| #[trigger] s.runs(w, t);
                assert(r.runs(w, t));
            }
        }
    }
}

/// Taking a message keeps a pool well formed.
pub proof fn lemma_receive_wf<J>(s: PoolView<J>, w: int)
    requires
        s.wf(),
    ensures
        s.receive(w).wf(),
{
    let r = s.receive(w);
    if s.can_receive(w) {
        let first = s.queue[0];
        lemma_exited_update(s.workers, w, r.workers[w]);
        assert(first is NewJob <==> s.pending() > 0);
        assert forall|i: int| 0 <= i < r.queue.len() implies r.queue[i] == s.queue[i + 1] by {}
        if first is NewJob {
            assert forall|x: int| s.has_worker(x) implies !(#[trigger] s.workers[x] is Exited) by {}
            assert forall|i: int| 0 <= i < r.pending() implies #[trigger] r.queue[i]
                == Message::NewJob(r.accepted[r.delivered + i]) by {
                assert(r.queue[i] == s.queue[i + 1]);
            }
            assert forall|i: int| r.pending() <= i < r.queue.len() implies #[trigger] r.queue[i]
                is Terminate by {
                assert(r.queue[i] == s.queue[i + 1]);
            }
            assert forall|x: int, t: int| #[trigger] r.runs(x, t) implies 0 <= t < r.delivered
                && !r.finished.contains(t) by {
                if x != w {
                    assert(s.runs(x, t));
                } else {
                    assert(t == s.delivered);
                    if s.finished.contains(t) {
                        let i = choose|i: int| 0 <= i < s.finished.len() && s.finished[i] == t;
                        assert(s.finished[i] < s.delivered);
                    }
                }
            }
            assert forall|v: int, x: int, t: int| #[trigger]
                r.runs(v, t) && #[trigger] r.runs(x, t) implies v == x by {
                if v != w && x != w {
                    assert(s.runs(v, t) && s.runs(x, t));
                } else if v != w {
                    assert(s.runs(v, t));
                } else if x != w {
                    assert(s.runs(x, t));
                }
            }
            assert forall|t: int| 0 <= t < r.delivered implies #[trigger] r.finished.contains(t)
                || exists|x: int| #[trigger] r.runs(x, t) by {
                if t == s.delivered {
                    assert(r.runs(w, t));
                } else if !s.finished.contains(t) {
                    let x = choose|x: int| #[trigger] s.runs(x, t);
                    assert(r.runs(x, t));
                }
            }
        } else {
            assert(s.closing);
            assert forall|i: int| r.pending() <= i < r.queue.len() implies #[trigger] r.queue[i]
                is Terminate by {
                assert(r.queue[i] == s.queue[i + 1]);
            }
            assert forall|x: int, t: int| #[trigger] r.runs(x, t) implies 0 <= t < r.delivered
                && !r.finished.contains(t) by {
                assert(s.runs(x, t));
            }
            assert forall|v: int, x: int, t: int| #[trigger]
                r.runs(v, t) && #[trigger] r.runs(x, t) implies v == x by {
                assert(s.runs(v, t) && s.runs(x, t));
            }
            assert forall|t: int| 0 <= t < r.delivered implies #[trigger] r.finished.contains(t)
                || exists|x: int| #[trigger] r.runs(x, t) by {
                if !s.finished.contains(t) {
                    let x = choose|x: int| #[trigger] s.runs(x, t);
                    assert(r.runs(x, t));
                }
            }
        }
    }
}

/// Completing a job keeps a pool well formed.
pub proof fn lemma_finish_wf<J>(s: PoolView<J>, w: int)
    requires
        s.wf(),
    ensures
        s.finish(w).wf(),
{
    let r = s.finish(w);
    if s.has_worker(w) && s.workers[w] is Busy {
        let done = s.workers[w]->Busy_0;
        assert(s.runs(w, done));
        lemma_exited_update(s.workers, w, Worker::Idle);
        assert(r.finished.no_duplicates()) by {
            assert forall|i: int, j: int|
                0 <= i < r.finished.len() && 0 <= j < r.finished.len() && i != j implies r.finished[i]
                != r.finished[j] by {
                if i < s.finished.len() && j < s.finished.len() {
                } else if i < s.finished.len() {
                    assert(s.finished.contains(s.finished[i]));
                } else {
                    assert(s.finished.contains(s.finished[j]));
                }
            }
        }
        assert forall|x: int, t: int| #[trigger] r.runs(x, t) implies 0 <= t < r.delivered
            && !r.finished.contains(t) by {
            assert(s.runs(x, t));
            if r.finished.contains(t) {
                let i = choose|i: int| 0 <= i < r.finished.len() && r.finished[i] == t;
                if i < s.finished.len() {
                    assert(s.finished.contains(t));
                }
            }
        }
        assert forall|v: int, x: int, t: int| #[trigger]
            r.runs(v, t) && #[trigger] r.runs(x, t) implies v == x by {
            assert(s.runs(v, t) && s.runs(x, t));
        }
        assert forall|t: int| 0 <= t < r.delivered implies #[trigger] r.finished.contains(t)
            || exists|x: int| #[trigger] r.runs(x, t) by {
            if t == done {
                assert(r.finished[s.finished.len() as int] == t);
            } else if s.finished.contains(t) {
                let i = choose|i: int| 0 <= i < s.finished.len() && s.finished[i] == t;
                assert(r.finished[i] == t);
            } else {
                let x = choose|x: int| #[trigger] s.runs(x, t);
                assert(r.runs(x, t));
            }
        }
    }
}


/// A pool's queue and the phases of its workers.
pub struct Pool<J> {
    queue: VecDeque<Message<J>>,
    phases: Vec<Phase>,
    closing: bool,
    model: Ghost<PoolView<J>>,
}

impl<J> View for Pool<J> {
    type V = PoolView<J>;

    closed spec fn view(&self) -> PoolView<J> {
        self.model@
    }
}

impl<J> Pool<J> {
    /// Whether the queue and the phases held are those of the view, and the
    /// view is well formed. Every pool made by `new` and used through the
    /// functions below satisfies this.
    pub closed spec fn inv(&self) -> bool {
        &&& self.model@.wf()
        &&& self.queue@ == self.model@.queue
        &&& self.closing == self.model@.closing
        &&& self.phases@.len() == self.model@.workers.len()
        &&& forall|w: int|
            0 <= w < self.phases@.len() ==> #[trigger] self.phases@[w] == self.model@.workers[w].phase()
    }

    /// The view of a valid pool is well formed.
    pub proof fn lemma_inv_implies_wf(&self)
        requires
            self.inv(),
        ensures
            self@.wf(),
    {
    }

    /// A pool of `size` idle workers with nothing queued.
    pub fn new(size: usize) -> (pool: Self)
        requires
            size >= 1,
        ensures
            pool.inv(),
            pool@ == PoolView::<J>::init(size as nat),
    {
        let mut phases: Vec<Phase> = Vec::new();
        while phases.len() < size
            invariant
                phases@.len() <= size,
                forall|w: int| 0 <= w < phases@.len() ==> phases@[w] == Phase::Idle,
            decreases size - phases@.len(),
        {
            phases.push(Phase::Idle);
        }
        proof {
            lemma_init_wf::<J>(size as nat);
        }
        Pool {
            queue: VecDeque::new(),
            phases,
            closing: false,
            model: Ghost(PoolView::init(size as nat)),
        }
    }

    /// The number of workers.
    pub fn size(&self) -> (size: usize)
        requires
            self.inv(),
        ensures
            size == self@.workers.len(),
            size >= 1,
    {
        self.phases.len()
    }

    /// The number of messages waiting.
    pub fn queued(&self) -> (count: usize)
        requires
            self.inv(),
        ensures
            count == self@.queue.len(),
    {
        self.queue.len()
    }

    /// Whether the pool was shut down.
    pub fn is_closing(&self) -> (closing: bool)
        requires
            self.inv(),
        ensures
            closing == self@.closing,
    {
        self.closing
    }

    /// The phase of worker `worker`, if the pool has such a worker.
    pub fn phase(&self, worker: usize) -> (phase: Option<Phase>)
        requires
            self.inv(),
        ensures
            phase == if self@.has_worker(worker as int) {
                Some(self@.workers[worker as int].phase())
            } else {
                None
            },
    {
        if worker < self.phases.len() {
            Some(self.phases[worker])
        } else {
            None
        }
    }

    /// Queues `job` behind all earlier messages. A pool that was shut down
    /// refuses the job and hands it back.
    pub fn submit(&mut self, job: J) -> (refused: Result<(), J>)
        requires
            old(self).inv(),
        ensures
            final(self).inv(),
            final(self)@ == old(self)@.submit(job),
            refused == if old(self)@.closing {
                Err::<(), J>(job)
            } else {
                Ok::<(), J>(())
            },
    {
        proof {
            lemma_submit_wf(self@, job);
        }
        if self.closing {
            return Err(job);
        }
        self.model = Ghost(self@.submit(job));
        self.queue.push_back(Message::NewJob(job));
        Ok(())
    }

    /// Shuts the pool down: queues one order to terminate per worker behind
    /// all earlier messages, and closes the pool to further jobs. A second
    /// shutdown changes nothing.
    pub fn shutdown(&mut self)
        requires
            old(self).inv(),
        ensures
            final(self).inv(),
            final(self)@ == old(self)@.shutdown(),
    {
        proof {
            lemma_shutdown_wf(self@);
        }
        if self.closing {
            return ;
        }
        let ghost before = self@;
        self.model = Ghost(before.shutdown());
        self.closing = true;
        let size: usize = self.phases.len();
        let mut sent: usize = 0;
        while sent < size
            invariant
                sent <= size,
                size == before.workers.len(),
                self.queue@ == before.queue + Seq::new(
                    sent as nat,
                    |i: int| Message::<J>::Terminate,
                ),
                self.model@ == before.shutdown(),
                self.closing,
                self.phases == old(self).phases,
            decreases size - sent,
        {
            self.queue.push_back(Message::Terminate);
            sent = sent + 1;
        }
    }

    /// Lets worker `worker` take the oldest message. The worker gets
    /// nothing if it is not idle, if nothing is waiting, or if the pool has
    /// no such worker. With a job the worker becomes busy, with the order to
    /// terminate it has terminated.
    pub fn receive(&mut self, worker: usize) -> (message: Option<Message<J>>)
        requires
            old(self).inv(),
        ensures
            final(self).inv(),
            final(self)@ == old(self)@.receive(worker as int),
            message == if old(self)@.can_receive(worker as int) {
                Some(old(self)@.queue[0])
            } else {
                None
            },
    {
        proof {
            lemma_receive_wf(self@, worker as int);
        }
        if worker >= self.phases.len() || self.phases[worker] != Phase::Idle || self.queue.len()
            == 0 {
            return None;
        }
        self.model = Ghost(self@.receive(worker as int));
        let message = self.queue.pop_front();
        let next = match &message {
            Some(Message::NewJob(_)) => Phase::Busy,
            _ => Phase::Exited,
        };
        self.phases.set(worker, next);
        message
    }

    /// Records that worker `worker` completed the job it was running. Nothing
    /// changes if it was running none.
    pub fn finish(&mut self, worker: usize)
        requires
            old(self).inv(),
        ensures
            final(self).inv(),
            final(self)@ == old(self)@.finish(worker as int),
    {
        proof {
            lemma_finish_wf(self@, worker as int);
        }
        if worker >= self.phases.len() || self.phases[worker] != Phase::Busy {
            return ;
        }
        self.model = Ghost(self@.finish(worker as int));
        self.phases.set(worker, Phase::Idle);
    }

    /// Whether every worker has terminated. Then every accepted job was
    /// delivered and ran to completion exactly once.
    pub fn is_torn_down(&self) -> (done: bool)
        requires
            self.inv(),
        ensures
            done == self@.torn_down(),
            done ==> self@.delivered == self@.accepted.len() && self@.finished.len()
                == self@.accepted.len() && self@.queue.len() == 0,
    {
        let mut w: usize = 0;
        while w < self.phases.len()
            invariant
                self.inv(),
                w <= self.phases@.len(),
                forall|v: int| 0 <= v < w ==> #[trigger] self@.workers[v] is Exited,
            decreases self.phases@.len() - w,
        {
            if self.phases[w] != Phase::Exited {
                assert(self@.has_worker(w as int));
                return false;
            }
            w = w + 1;
        }
        proof {
            lemma_teardown_ran_every_job(self@);
        }
        true
    }
}

/// In a pool whose workers have all terminated, every accepted job was
/// delivered and ran to completion exactly once: the tickets of the
/// completed jobs are those of the accepted jobs, each of them once. Nothing
/// is left in the queue.
pub proof fn lemma_teardown_ran_every_job<J>(s: PoolView<J>)
    requires
        s.wf(),
        s.torn_down(),
    ensures
        s.delivered == s.accepted.len(),
        s.finished.no_duplicates(),
        s.finished.len() == s.accepted.len(),
        forall|t: int| 0 <= t < s.accepted.len() <==> s.finished.contains(t),
        s.queue.len() == 0,
{
    lemma_exited_bounds(s.workers);
    assert(s.has_worker(0));
    assert(s.workers[0] is Exited);
    assert forall|t: int| 0 <= t < s.accepted.len() implies s.finished.contains(t) by {
        if !s.finished.contains(t) {
            let w = choose|w: int| #[trigger] s.runs(w, t);
            assert(s.workers[w] is Exited);
        }
    }
    assert forall|t: int| s.finished.contains(t) implies 0 <= t < s.accepted.len() by {
        let i = choose|i: int| 0 <= i < s.finished.len() && s.finished[i] == t;
        assert(0 <= s.finished[i] < s.delivered);
    }
    s.finished.unique_seq_to_set();
    vstd::set_lib::lemma_int_range(0, s.accepted.len() as int);
    assert(s.finished.to_set() =~= vstd::set_lib::set_int_range(0, s.accepted.len() as int));
}

/// An idle worker is handed the oldest message whatever the other workers
/// are doing: a worker that is busy keeps no other from taking a job.
pub proof fn lemma_idle_worker_is_served<J>(s: PoolView<J>, idle: int)
    requires
        s.has_worker(idle),
        s.workers[idle] is Idle,
        s.queue.len() > 0,
    ensures
        s.can_receive(idle),
        s.receive(idle).queue == s.queue.drop_first(),
        s.receive(idle).workers[idle].phase() == (match s.queue[0] {
            Message::NewJob(_) => Phase::Busy,
            Message::Terminate => Phase::Exited,
        }),
        forall|w: int| s.has_worker(w) && w != idle ==> s.receive(idle).workers[w] == s.workers[w],
{
}

/// One use of a pool.
pub enum Step<J> {
    /// A job is submitted.
    Submit(J),
    /// The pool is shut down.
    Shutdown,
    /// The worker with this number tries to take a message.
    Receive(int),
    /// The worker with this number completes its job.
    Finish(int),
}

impl<J> PoolView<J> {
    /// The pool after one use of it.
    pub open spec fn step(self, step: Step<J>) -> Self {
        match step {
            Step::Submit(job) => self.submit(job),
            Step::Shutdown => self.shutdown(),
            Step::Receive(w) => self.receive(w),
            Step::Finish(w) => self.finish(w),
        }
    }

    /// A fresh pool of `size` workers after `steps`, taken in order.
    pub open spec fn run(size: nat, steps: Seq<Step<J>>) -> Self
        decreases steps.len(),
    {
        if steps.len() == 0 {
            Self::init(size)
        } else {
            Self::run(size, steps.drop_last()).step(steps.last())
        }
    }
}

/// The jobs submitted in `steps`, in order.
pub open spec fn submitted<J>(steps: Seq<Step<J>>) -> Seq<J>
    decreases steps.len(),
{
    if steps.len() == 0 {
        Seq::empty()
    } else {
        match steps.last() {
            Step::Submit(job) => submitted(steps.drop_last()).push(job),
            _ => submitted(steps.drop_last()),
        }
    }
}

/// Whether no job is submitted in `steps` after a shutdown.
pub open spec fn no_submit_after_shutdown<J>(steps: Seq<Step<J>>) -> bool {
    forall|i: int, j: int|
        0 <= i < j < steps.len() && #[trigger] steps[i] is Shutdown ==> !(#[trigger] steps[j]
            is Submit)
}

/// However a pool is used, it stays well formed.
pub proof fn lemma_run_wf<J>(size: nat, steps: Seq<Step<J>>)
    requires
        size >= 1,
    ensures
        PoolView::run(size, steps).wf(),
        PoolView::run(size, steps).workers.len() == size,
    decreases steps.len(),
{
    if steps.len() == 0 {
        lemma_init_wf::<J>(size);
    } else {
        lemma_run_wf(size, steps.drop_last());
        let before = PoolView::run(size, steps.drop_last());
        match steps.last() {
            Step::Submit(job) => lemma_submit_wf(before, job),
            Step::Shutdown => lemma_shutdown_wf(before),
            Step::Receive(w) => lemma_receive_wf(before, w),
            Step::Finish(w) => lemma_finish_wf(before, w),
        }
    }
}

/// A pool is shut down exactly if a shutdown is among the steps taken, and
/// while none is, it has accepted every job submitted.
pub proof fn lemma_run_accepts<J>(size: nat, steps: Seq<Step<J>>)
    ensures
        PoolView::run(size, steps).closing <==> exists|i: int|
            0 <= i < steps.len() && #[trigger] steps[i] is Shutdown,
        no_submit_after_shutdown(steps) ==> PoolView::run(size, steps).accepted == submitted(
            steps,
        ),
    decreases steps.len(),
{
    if steps.len() > 0 {
        let shorter = steps.drop_last();
        let n = shorter.len() as int;
        lemma_run_accepts(size, shorter);
        let before = PoolView::run(size, shorter);
        if before.closing {
            let i = choose|i: int| 0 <= i < shorter.len() && #[trigger] shorter[i] is Shutdown;
            assert(steps[i] is Shutdown);
        }
        if steps.last() is Shutdown {
            assert(steps[n] is Shutdown);
        }
        if exists|i: int| 0 <= i < steps.len() && #[trigger] steps[i] is Shutdown {
            let i = choose|i: int| 0 <= i < steps.len() && #[trigger] steps[i] is Shutdown;
            if i < n {
                assert(shorter[i] is Shutdown);
            }
        }
        if no_submit_after_shutdown(steps) {
            assert forall|i: int, j: int|
                0 <= i < j < shorter.len() && #[trigger] shorter[i] is Shutdown implies !(
            #[trigger] shorter[j] is Submit) by {
                assert(steps[i] is Shutdown);
                assert(steps[j] == shorter[j]);
            }
            if steps.last() is Submit && before.closing {
                let i = choose|i: int| 0 <= i < shorter.len() && #[trigger] shorter[i] is Shutdown;
                assert(steps[i] is Shutdown);
                assert(steps[n] is Submit);
            }
        }
    }
}

/// When jobs are submitted to a pool, none of them after its shutdown, and
/// every worker has terminated, then each of the jobs was run to completion
/// exactly once, and nothing is left in the queue.
pub proof fn lemma_every_job_runs_once<J>(size: nat, steps: Seq<Step<J>>)
    requires
        size >= 1,
        no_submit_after_shutdown(steps),
        PoolView::run(size, steps).torn_down(),
    ensures
        PoolView::run(size, steps).accepted == submitted(steps),
        PoolView::run(size, steps).finished.no_duplicates(),
        PoolView::run(size, steps).finished.len() == submitted(steps).len(),
        forall|t: int|
            0 <= t < submitted(steps).len() <==> PoolView::run(size, steps).finished.contains(t),
        PoolView::run(size, steps).queue.len() == 0,
{
    lemma_run_wf(size, steps);
    lemma_run_accepts(size, steps);
    lemma_teardown_ran_every_job(PoolView::run(size, steps));
}

} // verus!
