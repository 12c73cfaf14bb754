//! Messages carried on the job channel, and spec-level accounting over a
//! queue of them.

use vstd::prelude::*;

verus! {

/// What travels on the job channel: a unit of work, identified by the label
/// its submitter chose, or a terminate signal — the poison pill that stops
/// exactly one worker.
#[derive(Clone, Copy, PartialEq, Eq, Structural, Debug)]
pub enum Message {
    NewJob(u64),
    Terminate,
}

/// The labels of the job messages in `q`, in queue order.
pub open spec fn jobs_of(q: Seq<Message>) -> Seq<u64>
    decreases q.len(),
{
    if q.len() == 0 {
        Seq::<u64>::empty()
    } else {
        (match q[0] {
            Message::NewJob(j) => seq![j],
            Message::Terminate => Seq::<u64>::empty(),
        }) + jobs_of(q.drop_first())
    }
}

/// How many terminate signals `q` holds.
pub open spec fn count_terminates(q: Seq<Message>) -> nat
    decreases q.len(),
{
    if q.len() == 0 {
        0
    } else {
        (if q[0] is Terminate {
            1nat
        } else {
            0nat
        }) + count_terminates(q.drop_first())
    }
}

/// A queue of `n` terminate signals.
pub open spec fn terminates(n: nat) -> Seq<Message> {
    Seq::new(n, |i: int| Message::Terminate)
}

/// No job message stands behind a terminate signal: once shutdown has
/// enqueued the poison pills, nothing but poison pills follows them.
pub open spec fn jobs_precede_terminates(q: Seq<Message>) -> bool {
    forall|i: int, j: int| 0 <= i < j < q.len() && q[i] is Terminate ==> q[j] is Terminate
}

/// Job accounting distributes over queue concatenation.
pub proof fn lemma_jobs_of_concat(a: Seq<Message>, b: Seq<Message>)
    ensures
        jobs_of(a + b) == jobs_of(a) + jobs_of(b),
    decreases a.len(),
{
    if a.len() == 0 {
        assert(a + b =~= b);
        assert(jobs_of(a) + jobs_of(b) =~= jobs_of(b));
    } else {
        assert((a + b).drop_first() =~= a.drop_first() + b);
        lemma_jobs_of_concat(a.drop_first(), b);
        assert((a + b)[0] == a[0]);
        match a[0] {
            Message::NewJob(j) => {
                assert(jobs_of(a + b) =~= jobs_of(a) + jobs_of(b));
            },
            Message::Terminate => {
                assert(jobs_of(a + b) =~= jobs_of(a) + jobs_of(b));
            },
        }
    }
}

/// Terminate counting distributes over queue concatenation.
pub proof fn lemma_count_terminates_concat(a: Seq<Message>, b: Seq<Message>)
    ensures
        count_terminates(a + b) == count_terminates(a) + count_terminates(b),
    decreases a.len(),
{
    if a.len() == 0 {
        assert(a + b =~= b);
    } else {
        assert((a + b).drop_first() =~= a.drop_first() + b);
        lemma_count_terminates_concat(a.drop_first(), b);
        assert((a + b)[0] == a[0]);
    }
}

/// Every message is either a job or a terminate signal, so the two counts
/// exhaust the queue.
pub proof fn lemma_queue_len_split(q: Seq<Message>)
    ensures
        q.len() == jobs_of(q).len() + count_terminates(q),
    decreases q.len(),
{
    if q.len() > 0 {
        lemma_queue_len_split(q.drop_first());
    }
}

/// A queue with no terminate signals holds none at any position.
pub proof fn lemma_count_terminates_zero(q: Seq<Message>)
    requires
        count_terminates(q) == 0,
    ensures
        forall|i: int| 0 <= i < q.len() ==> !(q[i] is Terminate),
    decreases q.len(),
{
    if q.len() > 0 {
        lemma_count_terminates_zero(q.drop_first());
        assert(forall|i: int| 1 <= i < q.len() ==> q[i] == q.drop_first()[i - 1]);
    }
}

/// A queue of nothing but terminate signals carries no jobs, and as many
/// terminates as messages.
pub proof fn lemma_all_terminates(q: Seq<Message>)
    requires
        forall|i: int| 0 <= i < q.len() ==> q[i] is Terminate,
    ensures
        jobs_of(q) == Seq::<u64>::empty(),
        count_terminates(q) == q.len(),
    decreases q.len(),
{
    if q.len() > 0 {
        assert(forall|i: int| 0 <= i < q.drop_first().len() ==> q.drop_first()[i] == q[i + 1]);
        lemma_all_terminates(q.drop_first());
        assert(jobs_of(q) =~= Seq::<u64>::empty());
    }
}

/// Splitting off the front message splits the accounting with it.
pub proof fn lemma_queue_decompose(q: Seq<Message>)
    requires
        q.len() > 0,
    ensures
        jobs_of(q) == (match q[0] {
            Message::NewJob(j) => seq![j] + jobs_of(q.drop_first()),
            Message::Terminate => jobs_of(q.drop_first()),
        }),
        count_terminates(q) == (if q[0] is Terminate {
            1nat
        } else {
            0nat
        }) + count_terminates(q.drop_first()),
{
    match q[0] {
        Message::NewJob(j) => {
            assert(jobs_of(q) =~= seq![j] + jobs_of(q.drop_first()));
        },
        Message::Terminate => {
            assert(jobs_of(q) =~= jobs_of(q.drop_first()));
        },
    }
}

/// Dropping the front message keeps jobs ahead of terminate signals.
pub proof fn lemma_jobs_precede_terminates_drop_first(q: Seq<Message>)
    requires
        q.len() > 0,
        jobs_precede_terminates(q),
    ensures
        jobs_precede_terminates(q.drop_first()),
{
    assert forall|i: int, j: int|
        0 <= i < j < q.drop_first().len() && q.drop_first()[i] is Terminate implies q.drop_first()[j] is Terminate by {
        assert(q.drop_first()[i] == q[i + 1]);
        assert(q.drop_first()[j] == q[j + 1]);
    }
}

/// A terminate signal at the front of an ordered queue means the whole
/// queue is terminate signals: the jobs are already gone.
pub proof fn lemma_terminate_front_no_jobs(q: Seq<Message>)
    requires
        q.len() > 0,
        q[0] is Terminate,
        jobs_precede_terminates(q),
    ensures
        forall|i: int| 0 <= i < q.len() ==> q[i] is Terminate,
        jobs_of(q) == Seq::<u64>::empty(),
{
    assert forall|i: int| 0 <= i < q.len() implies q[i] is Terminate by {
        if i > 0 {
            assert(q[0] is Terminate && 0 < i < q.len());
        }
    }
    lemma_all_terminates(q);
}

} // verus!
