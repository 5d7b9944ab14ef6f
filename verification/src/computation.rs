//! The suspendable computation: what a task owns and the run loop polls.

use vstd::prelude::*;
use crate::handle::Step;
use crate::waker::{Context, ContextView};

verus! {

/// A computation that, given a resumption context, either ends or reports
/// that it is not ready yet.
///
/// A poll is a function of the computation's state and of the context: the
/// three specification functions name what it returns, what it leaves behind
/// and which waiters it arms.  Their defaults say nothing; an implementation
/// states its own, and what is proved of an executor holds of its tasks as
/// far as those statements are true of their `poll`.  The only suspension
/// points are the returns of `poll`.
///
/// An implementation that reports `Pending` must have arranged, before it
/// returns, that the wake capability of the context will be invoked: by arming
/// a waiter through the context, or by handing a clone of the capability to
/// an event source of its own.  One that does neither is never polled again.
/// A poll must not block.
pub trait Computation: Sized {
    /// The result of a finished computation.
    type Output;

    /// What a poll in the context `cx` reports.
    open spec fn outcome(&self, cx: ContextView) -> Step<Self::Output> {
        arbitrary()
    }

    /// The computation as a poll in the context `cx` leaves it.
    open spec fn successor(&self, cx: ContextView) -> Self {
        arbitrary()
    }

    /// The deadlines for which a poll in the context `cx` arms a waiter.
    open spec fn wakeups(&self, cx: ContextView) -> Seq<u64> {
        arbitrary()
    }

    /// Advances the computation as far as it can go without blocking.
    fn poll(&mut self, cx: &mut Context) -> (step: Step<Self::Output>)
        ensures
            step == old(self).outcome(old(cx)@),
            *final(self) == old(self).successor(old(cx)@),
            final(cx)@ == old(cx)@.armed_with(old(self).wakeups(old(cx)@)),
    ;
}

} // verus!
