//! A timer: the computation that becomes ready at a deadline.

use vstd::prelude::*;
use crate::computation::Computation;
use crate::handle::Step;
use crate::waker::{Context, ContextView};

verus! {

/// A computation that completes on the first poll that takes place at or
/// after its deadline.  A poll before the deadline arms exactly one waiter for
/// the deadline and yields.
#[derive(Clone, Copy, Debug, PartialEq, Eq, Structural)]
pub struct Delay {
    pub when: u64,
}

impl Delay {
    /// A timer that is due at `when`.
    pub fn new(when: u64) -> (delay: Delay)
        ensures
            delay.when == when,
    {
        Delay { when }
    }

    /// Whether the deadline has been reached at `now`.
    pub open spec fn is_due(self, now: u64) -> bool {
        now >= self.when
    }
}

impl Computation for Delay {
    type Output = ();

    open spec fn outcome(&self, cx: ContextView) -> Step<()> {
        if self.is_due(cx.now) {
            Step::Complete(())
        } else {
            Step::Pending
        }
    }

    open spec fn successor(&self, cx: ContextView) -> Delay {
        *self
    }

    open spec fn wakeups(&self, cx: ContextView) -> Seq<u64> {
        if self.is_due(cx.now) {
            Seq::empty()
        } else {
            seq![self.when]
        }
    }

    fn poll(&mut self, cx: &mut Context) -> (step: Step<()>)
        ensures
            (step is Complete) == (old(cx)@.now >= old(self).when),
    {
        if cx.now() >= self.when {
            assert(cx@.armed_with(Seq::empty()).armed =~= cx@.armed);
            Step::Complete(())
        } else {
            cx.sleep_until(self.when);
            Step::Pending
        }
    }
}

} // verus!
