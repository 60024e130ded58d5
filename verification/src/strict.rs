//! Signals that refuse to be read while they notify their subscribers.
//!
//! They track reads as `signal` does: the effect a context created last
//! subscribes to every signal of that context it reads, so each signal an
//! effect lists re-runs it. A read of a signal that is notifying its
//! subscribers, in a context that has created an effect, is not allowed:
//! the subscriber list is in use then.
use crate::signal::{self, finish_step, read_step, set_step, EffectId, SignalState};
use vstd::prelude::*;

verus! {

/// The effects of a context, in the order of their creation.
pub struct Context {
    inner: signal::Context,
}

/// A value that runs the effects that read it whenever it is set.
pub struct Signal<T> {
    inner: signal::Signal<T>,
}

/// A read may subscribe an effect only while the signal is not notifying.
pub open spec fn read_allowed<T>(s: SignalState<T>, effects: nat) -> bool {
    effects > 0 ==> s.notifying == 0
}

impl View for Context {
    /// The number of effects created.
    type V = nat;

    closed spec fn view(&self) -> nat {
        self.inner@
    }
}

impl<T> View for Signal<T> {
    type V = SignalState<T>;

    closed spec fn view(&self) -> SignalState<T> {
        self.inner@
    }
}

impl Context {
    /// The identity of the context; nothing is promised of the identity a
    /// new context gets.
    pub closed spec fn id(&self) -> int {
        self.inner.id()
    }

    /// A context that has created no effect.
    pub fn new() -> (c: Context)
        ensures
            c@ == 0,
    {
        Context { inner: signal::Context::new() }
    }

    /// A signal holding `value`, with no subscriber, that belongs to this
    /// context.
    pub fn create_signal<T>(&self, value: T) -> (s: Signal<T>)
        ensures
            s@ == (SignalState { value, subscribers: Seq::empty(), notifying: 0 }),
            s.context() == self.id(),
    {
        Signal { inner: self.inner.create_signal(value) }
    }

    /// Creates an effect, which observes every read from now on until the
    /// next effect is created. The caller runs the effect once right after.
    pub fn create_effect(&mut self) -> (id: EffectId)
        requires
            old(self)@ < usize::MAX,
        ensures
            id == old(self)@,
            final(self)@ == old(self)@ + 1,
            final(self).id() == old(self).id(),
    {
        self.inner.create_effect()
    }
}

impl<T> Signal<T> {
    /// The identity of the context the signal belongs to.
    pub closed spec fn context(&self) -> int {
        self.inner.context()
    }

    /// Reads the value; the effect created last in `context`, the context
    /// that created the signal, subscribes to the signal.
    pub fn get(&mut self, context: &Context) -> (r: &T)
        requires
            context.id() == old(self).context(),
            read_allowed(old(self)@, context@),
        ensures
            final(self)@ == read_step(old(self)@, context@),
            final(self).context() == old(self).context(),
            *r == old(self)@.value,
    {
        self.inner.get(&context.inner)
    }

    /// Sets the value, and gives the subscribers to run, in order. The caller
    /// runs each of them, then calls `finish_set`.
    pub fn set(&mut self, value: T) -> (r: Vec<EffectId>)
        requires
            old(self)@.notifying < usize::MAX,
        ensures
            final(self)@ == set_step(old(self)@, value),
            final(self).context() == old(self).context(),
            r@ == old(self)@.subscribers,
    {
        self.inner.set(value)
    }

    /// Ends a set once its subscribers have run.
    pub fn finish_set(&mut self)
        requires
            old(self)@.notifying > 0,
        ensures
            final(self)@ == finish_step(old(self)@),
            final(self).context() == old(self).context(),
    {
        self.inner.finish_set()
    }
}

/// A read is refused exactly when the root crate's read would panic: a set
/// of the signal is running its subscribers and the context has an effect
/// to subscribe. Any read in a context without effects, and any read of a
/// signal that is not notifying, is allowed.
pub proof fn law_reads_refused_only_during_notification<T>(s: SignalState<T>, effects: nat)
    ensures
        effects == 0 ==> read_allowed(s, effects),
        s.notifying == 0 ==> read_allowed(s, effects),
        effects > 0 && s.notifying > 0 ==> !read_allowed(s, effects),
{
}

/// Every read that is allowed while an effect exists subscribes that effect:
/// an effect that reads several signals is re-run by each of them.
pub proof fn law_allowed_reads_subscribe<T>(s: SignalState<T>, effects: nat)
    requires
        read_allowed(s, effects),
        0 < effects <= usize::MAX,
    ensures
        read_step(s, effects).subscribers == s.subscribers.push((effects - 1) as usize),
{
}

} // verus!
