//! One worker of the pool, the decision at the heart of its receive loop,
//! and spec-level accounting over a set of workers.

use crate::message::Message;
use vstd::prelude::*;

verus! {

/// One worker: a stable index assigned at construction, whether its receive
/// loop is still running, and whether its thread handle has been joined.
#[derive(Clone, Copy, PartialEq, Eq, Structural, Debug)]
pub struct Worker {
    pub id: usize,
    pub running: bool,
    pub joined: bool,
}

impl Worker {
    /// A freshly spawned worker: running its receive loop, not yet joined.
    pub fn new(id: usize) -> (w: Worker)
        ensures
            w.id == id,
            w.running,
            !w.joined,
    {
        Worker { id, running: true, joined: false }
    }
}

/// What a worker does with one received message: run the job it names, or
/// stop its receive loop.
#[derive(Clone, Copy, PartialEq, Eq, Structural, Debug)]
pub enum Action {
    Run(u64),
    Stop,
}

/// The decision at the heart of the worker's receive loop: a job message is
/// run, a terminate signal stops the loop.
pub fn on_message(msg: Message) -> (a: Action)
    ensures
        (match msg {
            Message::NewJob(j) => a == Action::Run(j),
            Message::Terminate => a == Action::Stop,
        }),
{
    match msg {
        Message::NewJob(j) => Action::Run(j),
        Message::Terminate => Action::Stop,
    }
}

/// What one worker contributes to the count of stopped workers.
pub open spec fn stopped_one(w: Worker) -> nat {
    if w.running {
        0
    } else {
        1
    }
}

/// How many of the workers have stopped.
pub open spec fn num_stopped(ws: Seq<Worker>) -> nat
    decreases ws.len(),
{
    if ws.len() == 0 {
        0
    } else {
        num_stopped(ws.drop_last()) + stopped_one(ws.last())
    }
}

/// No more workers have stopped than exist.
pub proof fn lemma_num_stopped_bound(ws: Seq<Worker>)
    ensures
        num_stopped(ws) <= ws.len(),
    decreases ws.len(),
{
    if ws.len() > 0 {
        lemma_num_stopped_bound(ws.drop_last());
    }
}

/// Replacing one worker changes the stopped count by exactly that worker's
/// contribution.
pub proof fn lemma_num_stopped_update(ws: Seq<Worker>, i: int, w: Worker)
    requires
        0 <= i < ws.len(),
    ensures
        num_stopped(ws.update(i, w)) + stopped_one(ws[i]) == num_stopped(ws) + stopped_one(w),
    decreases ws.len(),
{
    if i == ws.len() - 1 {
        assert(ws.update(i, w).drop_last() =~= ws.drop_last());
        assert(ws.update(i, w).last() == w);
    } else {
        assert(ws.update(i, w).drop_last() =~= ws.drop_last().update(i, w));
        assert(ws.update(i, w).last() == ws.last());
        lemma_num_stopped_update(ws.drop_last(), i, w);
    }
}

/// If the first `m` workers have stopped and the rest are running, exactly
/// `m` workers have stopped.
pub proof fn lemma_num_stopped_partition(ws: Seq<Worker>, m: int)
    requires
        0 <= m <= ws.len(),
        forall|k: int| 0 <= k < m ==> !ws[k].running,
        forall|k: int| m <= k < ws.len() ==> ws[k].running,
    ensures
        num_stopped(ws) == m,
    decreases ws.len(),
{
    if ws.len() > 0 {
        if m == ws.len() {
            lemma_num_stopped_partition(ws.drop_last(), m - 1);
        } else {
            lemma_num_stopped_partition(ws.drop_last(), m);
        }
    }
}

/// When as many workers have stopped as exist, every worker has stopped.
pub proof fn lemma_num_stopped_full(ws: Seq<Worker>)
    requires
        num_stopped(ws) == ws.len(),
    ensures
        forall|i: int| 0 <= i < ws.len() ==> !ws[i].running,
    decreases ws.len(),
{
    if ws.len() > 0 {
        lemma_num_stopped_bound(ws.drop_last());
        lemma_num_stopped_full(ws.drop_last());
        assert(forall|i: int| 0 <= i < ws.len() - 1 ==> ws[i] == ws.drop_last()[i]);
    }
}

} // verus!
