//! What the server decides about a connection before any worker sees it,
//! and the two queues that accepted connections wait in.
//!
//! A connection is known here by a ticket, a number that whoever holds the
//! socket has given it.

use crate::limits::ServerLimits;
use crossbeam::queue::SegQueue;
use vstd::prelude::*;

verus! {

/// The queue of `crossbeam`, whose inside is not looked into.
#[verifier::external_type_specification]
#[verifier::external_body]
#[verifier::reject_recursive_types(T)]
pub struct ExSegQueue<T>(SegQueue<T>);

/// The tickets that wait in a queue, the one that has waited longest first.
pub uninterp spec fn waiting(queue: SegQueue<u64>) -> Seq<u64>;

/// Calls `SegQueue::new`, which creates a queue that holds nothing.
#[verifier::external_body]
fn queue_new() -> (r: SegQueue<u64>)
    ensures
        waiting(r).len() == 0,
{
    SegQueue::new()
}

/// Calls `SegQueue::push`, which puts an element behind all that the queue
/// holds.
#[verifier::external_body]
fn queue_push(queue: &mut SegQueue<u64>, ticket: u64)
    ensures
        waiting(*final(queue)) == waiting(*old(queue)).push(ticket),
{
    queue.push(ticket);
}

/// Calls `SegQueue::pop`, which takes the element at the head of the queue,
/// or returns `None` where the queue holds nothing.
#[verifier::external_body]
fn queue_pop(queue: &mut SegQueue<u64>) -> (r: Option<u64>)
    ensures
        match r {
            Some(ticket) => waiting(*old(queue)).len() > 0 && ticket == waiting(*old(queue))[0]
                && waiting(*final(queue)) == waiting(*old(queue)).drop_first(),
            None => waiting(*old(queue)).len() == 0 && waiting(*final(queue)) == waiting(*old(queue)),
        },
{
    queue.pop()
}

/// Calls `SegQueue::len`, which returns the number of elements in the
/// queue.
#[verifier::external_body]
fn queue_len(queue: &SegQueue<u64>) -> (n: usize)
    ensures
        n == waiting(*queue).len(),
{
    queue.len()
}

/// Where an accepted connection goes.
#[derive(Debug, Clone, Copy, PartialEq, Eq, Structural)]
pub enum Route {
    /// Into the queue of connections that wait for a worker.
    Pending,
    /// Into the queue of connections that are refused.
    Refused,
}

/// What becomes of the refused connections.
#[derive(Debug, Clone, Copy, PartialEq, Eq, Structural)]
pub enum Refusal {
    /// That many tasks answer them with `503 Service Unavailable`.
    Respond(usize),
    /// One task drops them unanswered.
    Drop,
}

/// Routes a connection that was accepted while `pending` connections wait
/// for a worker: it joins them unless they are as many as may wait.
pub fn route(pending: usize, limits: &ServerLimits) -> (r: Route)
    ensures
        r is Pending <==> pending < limits.max_pending_connections,
{
    if pending < limits.max_pending_connections {
        Route::Pending
    } else {
        Route::Refused
    }
}

/// Says what becomes of the refused connections under `limits`.
pub fn refusal(limits: &ServerLimits) -> (r: Refusal)
    ensures
        r == if limits.count_503_handlers != 0 {
            Refusal::Respond(limits.count_503_handlers)
        } else {
            Refusal::Drop
        },
{
    if limits.count_503_handlers != 0 {
        Refusal::Respond(limits.count_503_handlers)
    } else {
        Refusal::Drop
    }
}

/// The accepted connections that no worker has taken yet: those that wait
/// for a worker, and those that are refused because too many waited when
/// they came.
pub struct Admission {
    /// The connections that wait for a worker.
    pub pending: SegQueue<u64>,
    /// The connections that are refused.
    pub refused: SegQueue<u64>,
    /// The limits of the server.
    pub limits: ServerLimits,
}

impl Admission {
    /// The connections that wait for a worker, the one that has waited
    /// longest first.
    pub open spec fn spec_pending(&self) -> Seq<u64> {
        waiting(self.pending)
    }

    /// The connections that are refused, the one that came first first.
    pub open spec fn spec_refused(&self) -> Seq<u64> {
        waiting(self.refused)
    }

    /// No more connections wait for a worker than may wait.
    pub open spec fn wf(&self) -> bool {
        self.spec_pending().len() <= self.limits.max_pending_connections
    }

    /// Two empty queues under the given limits.
    pub fn new(limits: ServerLimits) -> (r: Self)
        ensures
            r.wf(),
            r.limits == limits,
            r.spec_pending() == Seq::<u64>::empty(),
            r.spec_refused() == Seq::<u64>::empty(),
    {
        let r = Admission { pending: queue_new(), refused: queue_new(), limits };
        assert(r.spec_pending() =~= Seq::<u64>::empty());
        assert(r.spec_refused() =~= Seq::<u64>::empty());
        r
    }

    /// Takes in a connection that was just accepted: it joins the
    /// connections that wait for a worker, or the refused ones where as many
    /// wait as may wait. Returns where it went.
    pub fn offer(&mut self, ticket: u64) -> (r: Route)
        ensures
            final(self).limits == old(self).limits,
            old(self).wf() ==> final(self).wf(),
            r is Pending <==> old(self).spec_pending().len() < old(self).limits.max_pending_connections,
            r is Pending ==> final(self).spec_pending() == old(self).spec_pending().push(ticket)
                && final(self).spec_refused() == old(self).spec_refused(),
            r is Refused ==> final(self).spec_refused() == old(self).spec_refused().push(ticket)
                && final(self).spec_pending() == old(self).spec_pending(),
    {
        let to = route(queue_len(&self.pending), &self.limits);
        match to {
            Route::Pending => queue_push(&mut self.pending, ticket),
            Route::Refused => queue_push(&mut self.refused, ticket),
        }
        to
    }

    /// Hands out the connection that has waited longest for a worker, if any
    /// waits.
    pub fn next_pending(&mut self) -> (r: Option<u64>)
        ensures
            final(self).limits == old(self).limits,
            final(self).spec_refused() == old(self).spec_refused(),
            old(self).wf() ==> final(self).wf(),
            match r {
                Some(ticket) => old(self).spec_pending().len() > 0 && ticket == old(self).spec_pending()[0] && final(self).spec_pending() == old(self).spec_pending().drop_first(),
                None => old(self).spec_pending().len() == 0 && final(self).spec_pending() == old(self).spec_pending(),
            },
    {
        queue_pop(&mut self.pending)
    }

    /// Hands out the refused connection that came first, if there is one.
    pub fn next_refused(&mut self) -> (r: Option<u64>)
        ensures
            final(self).limits == old(self).limits,
            final(self).spec_pending() == old(self).spec_pending(),
            match r {
                Some(ticket) => old(self).spec_refused().len() > 0 && ticket == old(self).spec_refused()[0] && final(self).spec_refused() == old(self).spec_refused().drop_first(),
                None => old(self).spec_refused().len() == 0 && final(self).spec_refused() == old(self).spec_refused(),
            },
    {
        queue_pop(&mut self.refused)
    }
}

} // verus!
