//! A one-shot readiness gate: a value that is set at most once, with a list
//! of waiters that are all released when it is set.

use vstd::prelude::*;
use futures::unsync::oneshot::{Receiver, Sender};

verus! {

/// Lazily initialised value shared by concurrent callers: while `value` is
/// empty, `waiters` holds one sender per caller waiting for it.
pub struct AsyncInitWrapper<T> {
    value: Option<T>,
    waiters: Vec<Sender<()>>,
}

impl<T> AsyncInitWrapper<T> {
    /// The value has been published.
    pub closed spec fn ready(&self) -> bool {
        self.value is Some
    }

    /// The published value.
    pub closed spec fn value(&self) -> T
        recommends
            self.ready(),
    {
        self.value->Some_0
    }

    /// Number of callers waiting for the value.
    pub closed spec fn waiters(&self) -> nat {
        self.waiters@.len()
    }

    /// `set_value` may still be called: nothing has been published.
    pub open spec fn may_set(&self) -> bool {
        !self.ready()
    }

    /// A ready gate has nobody waiting.
    pub closed spec fn wf(&self) -> bool {
        self.ready() ==> self.waiters@.len() == 0
    }

    pub fn new() -> (r: Self)
        ensures
            r.wf(),
            !r.ready(),
            r.waiters() == 0,
    {
        AsyncInitWrapper { value: None, waiters: Vec::new() }
    }

    pub fn is_ready(&self) -> (r: bool)
        ensures
            r == self.ready(),
    {
        self.value.is_some()
    }

    /// Reading the value before it is published is a logic error.
    pub fn get(&self) -> (r: &T)
        requires
            self.ready(),
        ensures
            *r == self.value(),
    {
        self.value.as_ref().unwrap()
    }

    /// Publishes the value and signals every waiter once, handing `()` to
    /// each waiter's sender. Returns how many waiters were signalled.
    /// Publishing twice is a logic error, so it is excluded by the
    /// precondition.
    pub fn set_value(&mut self, value: T) -> (released: usize)
        requires
            old(self).may_set(),
        ensures
            value_set(*old(self), *final(self), value, released),
    {
        let n: usize = self.waiters.len();
        self.value = Some(value);
        let mut released: usize = 0;
        while self.waiters.len() > 0
            invariant
                self.value == Some(value),
                released + self.waiters@.len() == n,
                n == old(self).waiters@.len(),
            decreases self.waiters.len(),
        {
            let sender = self.waiters.pop().unwrap();
            let _ = sender.send(());
            released = released + 1;
        }
        released
    }

    /// Registers a waiter. Returns `None` when the value is already there,
    /// otherwise the receiving end that `set_value` signals.
    pub fn wait(&mut self) -> (r: Option<Receiver<()>>)
        requires
            old(self).wf(),
        ensures
            final(self).wf(),
            old(self).ready() ==> r is None && *final(self) == *old(self),
            !old(self).ready() ==> r is Some && !final(self).ready() && final(self).waiters()
                == old(self).waiters() + 1,
    {
        if self.value.is_some() {
            None
        } else {
            let (sender, receiver) = futures::unsync::oneshot::channel();
            self.waiters.push(sender);
            Some(receiver)
        }
    }
}

/// `after` is `before` after `set_value(v)` signalled `released` waiters:
/// every waiter there was, each once.
pub open spec fn value_set<T>(before: AsyncInitWrapper<T>, after: AsyncInitWrapper<T>, v: T, released: usize) -> bool {
    &&& after.wf()
    &&& after.ready()
    &&& after.value() == v
    &&& after.waiters() == 0
    &&& released == before.waiters()
}

/// A value is published at most once. Once `set_value` has run, its
/// precondition `may_set` is false, so Verus refuses a second call instead
/// of letting it overwrite the value; and no waiter remains to signal.
pub proof fn lemma_set_value_once<T>(before: AsyncInitWrapper<T>, after: AsyncInitWrapper<T>, v: T, released: usize)
    requires
        value_set(before, after, v, released),
    ensures
        !after.may_set(),
        after.value() == v,
        after.waiters() == 0,
{
}

} // verus!
