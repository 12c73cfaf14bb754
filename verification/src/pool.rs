//! The worker pool: construction, submission, delivery, and the poison-pill
//! shutdown protocol, with its lifecycle invariant.

use crate::message::count_terminates;
use crate::message::jobs_of;
use crate::message::jobs_precede_terminates;
use crate::message::lemma_all_terminates;
use crate::message::lemma_count_terminates_concat;
use crate::message::lemma_count_terminates_zero;
use crate::message::lemma_jobs_of_concat;
use crate::message::lemma_jobs_precede_terminates_drop_first;
use crate::message::lemma_queue_decompose;
use crate::message::lemma_queue_len_split;
use crate::message::lemma_terminate_front_no_jobs;
use crate::message::terminates;
use crate::message::Message;
use crate::worker::lemma_num_stopped_full;
use crate::worker::lemma_num_stopped_partition;
use crate::worker::lemma_num_stopped_update;
use crate::worker::num_stopped;
use crate::worker::on_message;
use crate::worker::Action;
use crate::worker::Worker;
use vstd::prelude::*;

verus! {

/// Where the pool stands in its lifecycle: still accepting submissions, or
/// closing — the poison pills are on the queue and no submission is taken.
#[derive(Clone, Copy, PartialEq, Eq, Structural, Debug)]
pub enum Phase {
    Accepting,
    Closing,
}

/// Why a pool operation was refused.
#[derive(Clone, Copy, PartialEq, Eq, Structural, Debug)]
pub enum PoolError {
    /// A pool must have at least one worker.
    ZeroSize,
    /// Shutdown has begun; the pool accepts no further submissions.
    PoolClosed,
}

/// The worker pool: a fixed set of workers draining a shared first-in-first-
/// out queue of messages. `executed` records the labels of the jobs run so
/// far, in the order they were taken off the queue; `submitted` is the ghost
/// record of every label ever accepted.
pub struct ThreadPool {
    pub workers: Vec<Worker>,
    pub queue: Vec<Message>,
    pub executed: Vec<u64>,
    pub phase: Phase,
    pub submitted: Ghost<Seq<u64>>,
}

impl ThreadPool {
    /// How many workers the pool was built with.
    pub open spec fn size(&self) -> nat {
        self.workers@.len()
    }

    /// Each worker carries the index it was given at construction.
    pub open spec fn workers_indexed(&self) -> bool {
        forall|i: int| 0 <= i < self.workers@.len() ==> self.workers@[i].id == i
    }

    /// Only a stopped worker can have been joined.
    pub open spec fn joined_only_stopped(&self) -> bool {
        forall|i: int|
            0 <= i < self.workers@.len() ==> (self.workers@[i].joined
                ==> !self.workers@[i].running)
    }

    /// Every accepted job is either already executed or still queued:
    /// nothing is lost, duplicated or reordered.
    pub open spec fn accounted(&self) -> bool {
        self.submitted@ == self.executed@ + jobs_of(self.queue@)
    }

    /// Every worker is still running its receive loop, none joined.
    pub open spec fn all_running(&self) -> bool {
        forall|i: int|
            0 <= i < self.workers@.len() ==> (self.workers@[i].running
                && !self.workers@[i].joined)
    }

    /// The lifecycle invariant. While accepting, no poison pill is queued
    /// and every worker runs. While closing, queued poison pills and stopped
    /// workers together account for every worker — so a drained queue means
    /// every worker has stopped — jobs stand ahead of the pills, and once a
    /// pill has been consumed no job remains queued.
    pub open spec fn wf(&self) -> bool {
        &&& self.workers@.len() > 0
        &&& self.workers_indexed()
        &&& self.joined_only_stopped()
        &&& self.accounted()
        &&& match self.phase {
            Phase::Accepting => count_terminates(self.queue@) == 0 && self.all_running(),
            Phase::Closing => {
                &&& count_terminates(self.queue@) + num_stopped(self.workers@)
                    == self.workers@.len()
                &&& jobs_precede_terminates(self.queue@)
                &&& (count_terminates(self.queue@) < self.workers@.len() ==> jobs_of(
                    self.queue@,
                ).len() == 0)
            },
        }
    }

    /// Build a pool of `size` workers, each running and awaiting its first
    /// message over an empty queue. A pool must have at least one worker:
    /// size zero is refused, deterministically.
    pub fn new(size: usize) -> (r: Result<ThreadPool, PoolError>)
        ensures
            size == 0 <==> r is Err,
            r is Err ==> r == Err::<ThreadPool, PoolError>(PoolError::ZeroSize),
            r matches Ok(p) ==> {
                &&& p.wf()
                &&& p.size() == size
                &&& p.workers_indexed()
                &&& p.all_running()
                &&& p.phase is Accepting
                &&& p.queue@ == Seq::<Message>::empty()
                &&& p.executed@ == Seq::<u64>::empty()
                &&& p.submitted@ == Seq::<u64>::empty()
            },
    {
        if size == 0 {
            return Err(PoolError::ZeroSize);
        }
        let mut workers: Vec<Worker> = Vec::new();
        for id in 0..size
            invariant
                workers@.len() == id,
                forall|k: int|
                    0 <= k < id ==> (workers@[k].id == k && workers@[k].running
                        && !workers@[k].joined),
        {
            workers.push(Worker::new(id));
        }
        let pool = ThreadPool {
            workers,
            queue: Vec::new(),
            executed: Vec::new(),
            phase: Phase::Accepting,
            submitted: Ghost(Seq::<u64>::empty()),
        };
        proof {
            assert(pool.queue@ =~= Seq::<Message>::empty());
            assert(jobs_of(pool.queue@) =~= Seq::<u64>::empty());
            assert(pool.submitted@ =~= pool.executed@ + jobs_of(pool.queue@));
        }
        Ok(pool)
    }

    /// Submit a job under the label the caller chose. While the pool is
    /// accepting, the job is appended to the queue — never refused, never
    /// blocked on a busy worker. Once shutdown has begun, the submission is
    /// refused and the pool is left untouched.
    pub fn execute(&mut self, job: u64) -> (r: Result<(), PoolError>)
        requires
            old(self).wf(),
        ensures
            final(self).wf(),
            final(self).phase == old(self).phase,
            final(self).workers@ == old(self).workers@,
            final(self).executed@ == old(self).executed@,
            match old(self).phase {
                Phase::Accepting => {
                    &&& r == Ok::<(), PoolError>(())
                    &&& final(self).queue@ == old(self).queue@.push(Message::NewJob(job))
                    &&& final(self).submitted@ == old(self).submitted@.push(job)
                },
                Phase::Closing => {
                    &&& r == Err::<(), PoolError>(PoolError::PoolClosed)
                    &&& final(self).queue@ == old(self).queue@
                    &&& final(self).submitted@ == old(self).submitted@
                },
            },
    {
        match self.phase {
            Phase::Closing => Err(PoolError::PoolClosed),
            Phase::Accepting => {
                self.queue.push(Message::NewJob(job));
                proof {
                    let q0 = old(self).queue@;
                    let one = seq![Message::NewJob(job)];
                    assert(self.queue@ =~= q0 + one);
                    lemma_jobs_of_concat(q0, one);
                    lemma_count_terminates_concat(q0, one);
                    assert(one.drop_first() =~= Seq::<Message>::empty());
                    assert(jobs_of(Seq::<Message>::empty()) =~= Seq::<u64>::empty());
                    assert(count_terminates(Seq::<Message>::empty()) == 0);
                    assert(jobs_of(one) =~= seq![job]);
                    assert(count_terminates(one) == 0);
                }
                self.submitted = Ghost(self.submitted@.push(job));
                proof {
                    assert(self.submitted@ =~= self.executed@ + jobs_of(self.queue@));
                }
                Ok(())
            },
        }
    }

    /// One running worker takes the front message off the queue and acts on
    /// it: a job is run — its label recorded — and the worker keeps waiting;
    /// a terminate signal stops that worker's receive loop.
    pub fn deliver_next(&mut self, wid: usize) -> (a: Action)
        requires
            old(self).wf(),
            wid < old(self).workers@.len(),
            old(self).workers@[wid as int].running,
            old(self).queue@.len() > 0,
        ensures
            final(self).wf(),
            final(self).phase == old(self).phase,
            final(self).workers@.len() == old(self).workers@.len(),
            final(self).submitted@ == old(self).submitted@,
            final(self).queue@ == old(self).queue@.drop_first(),
            match old(self).queue@[0] {
                Message::NewJob(j) => {
                    &&& a == Action::Run(j)
                    &&& final(self).executed@ == old(self).executed@.push(j)
                    &&& final(self).workers@ == old(self).workers@
                },
                Message::Terminate => {
                    &&& a == Action::Stop
                    &&& final(self).executed@ == old(self).executed@
                    &&& final(self).workers@ == old(self).workers@.update(
                        wid as int,
                        (Worker { running: false, ..old(self).workers@[wid as int] }),
                    )
                },
            },
    {
        let msg = self.queue.remove(0);
        proof {
            assert(self.queue@ =~= old(self).queue@.drop_first());
            lemma_queue_decompose(old(self).queue@);
        }
        let a = on_message(msg);
        match a {
            Action::Run(j) => {
                self.executed.push(j);
                proof {
                    assert(self.executed@ + jobs_of(self.queue@) =~= old(self).executed@ + (
                    seq![j] + jobs_of(self.queue@)));
                    if self.phase is Closing {
                        assert(jobs_of(old(self).queue@).len() > 0);
                    }
                }
            },
            Action::Stop => {
                proof {
                    if self.phase is Accepting {
                        assert(count_terminates(old(self).queue@) > 0);
                    }
                    lemma_jobs_precede_terminates_drop_first(old(self).queue@);
                    lemma_terminate_front_no_jobs(old(self).queue@);
                }
                let mut w = self.workers[wid];
                w.running = false;
                self.workers.set(wid, w);
                proof {
                    lemma_num_stopped_update(old(self).workers@, wid as int, w);
                }
            },
        }
        a
    }

    /// Join one stopped worker, consuming its thread handle. Joining a
    /// worker twice, or one still running, is a caller error and is ruled
    /// out rather than recovered from.
    pub fn join(&mut self, wid: usize)
        requires
            old(self).wf(),
            wid < old(self).workers@.len(),
            !old(self).workers@[wid as int].running,
            !old(self).workers@[wid as int].joined,
        ensures
            final(self).wf(),
            final(self).phase == old(self).phase,
            final(self).queue@ == old(self).queue@,
            final(self).executed@ == old(self).executed@,
            final(self).submitted@ == old(self).submitted@,
            final(self).workers@ == old(self).workers@.update(
                wid as int,
                (Worker { joined: true, ..old(self).workers@[wid as int] }),
            ),
    {
        let mut w = self.workers[wid];
        w.joined = true;
        self.workers.set(wid, w);
        proof {
            lemma_num_stopped_update(old(self).workers@, wid as int, w);
        }
    }

    /// Begin shutdown: enqueue exactly one terminate signal per worker.
    /// Workers pull from a shared queue, so no pill addresses a particular
    /// worker; the count alone guarantees every worker will take exactly
    /// one and stop. Every job already accepted stands ahead of every pill.
    pub fn shutdown_begin(&mut self)
        requires
            old(self).wf(),
            old(self).phase is Accepting,
        ensures
            final(self).wf(),
            final(self).phase is Closing,
            final(self).workers@ == old(self).workers@,
            final(self).executed@ == old(self).executed@,
            final(self).submitted@ == old(self).submitted@,
            final(self).queue@ == old(self).queue@ + terminates(old(self).workers@.len() as nat),
    {
        let ghost q0 = self.queue@;
        let ghost ws0 = self.workers@;
        let ghost ex0 = self.executed@;
        let ghost su0 = self.submitted@;
        let ghost ph0 = self.phase;
        let n = self.workers.len();
        let mut i: usize = 0;
        while i < n
            invariant
                i <= n,
                self.workers@ == ws0,
                self.executed@ == ex0,
                self.submitted@ == su0,
                self.phase == ph0,
                self.queue@ == q0 + terminates(i as nat),
            decreases n - i,
        {
            self.queue.push(Message::Terminate);
            proof {
                assert(self.queue@ =~= q0 + terminates((i + 1) as nat));
            }
            i = i + 1;
        }
        self.phase = Phase::Closing;
        proof {
            let terms = terminates(n as nat);
            lemma_jobs_of_concat(q0, terms);
            lemma_count_terminates_concat(q0, terms);
            lemma_all_terminates(terms);
            assert(jobs_of(self.queue@) =~= jobs_of(q0));
            lemma_num_stopped_partition(ws0, 0);
            lemma_count_terminates_zero(q0);
            assert forall|i: int, j: int|
                0 <= i < j < self.queue@.len() && self.queue@[i] is Terminate implies self.queue@[j] is Terminate by {
                assert(i >= q0.len());
                assert(self.queue@[j] == terms[j - q0.len()]);
            }
        }
    }

    /// Shut the pool down: enqueue one terminate signal per worker, let the
    /// workers drain the queue, and join each worker once. When it returns,
    /// every job accepted before shutdown has been run — exactly once, in
    /// submission order — the queue is empty, and no live worker remains.
    pub fn shutdown(&mut self)
        requires
            old(self).wf(),
            old(self).phase is Accepting,
        ensures
            final(self).wf(),
            final(self).phase is Closing,
            final(self).queue@.len() == 0,
            final(self).workers@.len() == old(self).workers@.len(),
            final(self).submitted@ == old(self).submitted@,
            final(self).executed@ == old(self).executed@ + jobs_of(old(self).queue@),
            final(self).executed@ == old(self).submitted@,
            forall|i: int|
                0 <= i < final(self).workers@.len() ==> (!final(self).workers@[i].running
                    && final(self).workers@[i].joined),
    {
        self.shutdown_begin();
        let ghost su0 = self.submitted@;
        let n = self.workers.len();
        let mut wid: usize = 0;
        while wid < n
            invariant
                wid <= n,
                n == self.workers@.len(),
                self.wf(),
                self.phase is Closing,
                self.submitted@ == su0,
                forall|k: int| 0 <= k < wid ==> (!self.workers@[k].running && self.workers@[k].joined),
                forall|k: int|
                    wid <= k < n ==> (self.workers@[k].running && !self.workers@[k].joined),
            decreases n - wid,
        {
            while self.workers[wid].running
                invariant
                    wid < n,
                    n == self.workers@.len(),
                    self.wf(),
                    self.phase is Closing,
                    self.submitted@ == su0,
                    !self.workers@[wid as int].joined,
                    forall|k: int|
                        0 <= k < wid ==> (!self.workers@[k].running && self.workers@[k].joined),
                    forall|k: int|
                        wid < k < n ==> (self.workers@[k].running && !self.workers@[k].joined),
                decreases self.queue@.len(),
            {
                proof {
                    lemma_num_stopped_partition(self.workers@, wid as int);
                    lemma_queue_len_split(self.queue@);
                }
                self.deliver_next(wid);
            }
            self.join(wid);
            wid = wid + 1;
        }
        proof {
            lemma_num_stopped_partition(self.workers@, n as int);
            lemma_queue_len_split(self.queue@);
            assert(jobs_of(self.queue@).len() == 0);
            assert(self.executed@ =~= self.executed@ + jobs_of(self.queue@));
            assert(self.executed@ =~= su0);
            lemma_jobs_of_concat(old(self).queue@, terminates(old(self).workers@.len() as nat));
            lemma_all_terminates(terminates(old(self).workers@.len() as nat));
            assert(old(self).submitted@ =~= old(self).executed@ + jobs_of(old(self).queue@));
        }
    }
}

/// Every submitted job runs exactly once: in any reachable pool whose queue
/// has been drained, the record of executed jobs is exactly the record of
/// submitted jobs — no job lost, none run twice.
pub proof fn lemma_drained_pool_ran_every_job(p: &ThreadPool)
    requires
        p.wf(),
        p.queue@.len() == 0,
    ensures
        p.executed@ == p.submitted@,
{
    assert(jobs_of(p.queue@) =~= Seq::<u64>::empty());
    assert(p.executed@ =~= p.executed@ + jobs_of(p.queue@));
}

/// Jobs are taken off the queue in first-in-first-out order: in any
/// reachable pool, the jobs executed so far are exactly the earliest
/// submitted ones, in submission order.
pub proof fn lemma_executed_prefix_of_submitted(p: &ThreadPool)
    requires
        p.wf(),
    ensures
        p.executed@ == p.submitted@.take(p.executed@.len() as int),
{
    assert(p.executed@ =~= p.submitted@.take(p.executed@.len() as int));
}

/// The poison-pill protocol stops every worker: once shutdown has begun,
/// queued terminate signals and already stopped workers always account for
/// every worker, so a drained queue leaves no worker running.
pub proof fn lemma_drained_pool_stopped_every_worker(p: &ThreadPool)
    requires
        p.wf(),
        p.phase is Closing,
        p.queue@.len() == 0,
    ensures
        forall|i: int| 0 <= i < p.workers@.len() ==> !p.workers@[i].running,
{
    lemma_queue_len_split(p.queue@);
    lemma_num_stopped_full(p.workers@);
}

} // verus!
