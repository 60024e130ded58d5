//! Signals and effects: a signal holds a value and the effects that read
//! it; setting the value names those effects, which the caller then runs.
//!
//! Effects are closures that the caller keeps; here an effect is known by
//! its number, the order of its creation in its context. A context keeps
//! every effect it created as an observer and never lets one go, so a read
//! subscribes the effect that was created last. While a signal is notifying
//! its subscribers, reads of it subscribe no one.
//!
//! A signal belongs to the context that created it: it carries that
//! context's identity, and it is read only with that context.
use vstd::prelude::*;

verus! {

/// The number of an effect: effects are numbered from 0 in the order of
/// their creation in a context.
pub type EffectId = usize;

/// The effects of a context, in the order of their creation.
pub struct Context {
    observers: Vec<EffectId>,
    id: Ghost<int>,
}

/// The state of a signal.
pub struct SignalState<T> {
    /// The current value.
    pub value: T,
    /// The effects to run when the value is set, in order; an effect occurs
    /// once for each read that subscribed it.
    pub subscribers: Seq<EffectId>,
    /// How many sets of this signal are running their subscribers.
    pub notifying: nat,
}

/// A value that runs the effects that read it whenever it is set.
pub struct Signal<T> {
    value: T,
    subscribers: Vec<EffectId>,
    notifying: usize,
    context: Ghost<int>,
}

/// The state of a signal after a read in a context that has created
/// `effects` effects: the last one created subscribes, unless the signal is
/// notifying or there is no effect.
pub open spec fn read_step<T>(s: SignalState<T>, effects: nat) -> SignalState<T> {
    if effects > 0 && s.notifying == 0 {
        SignalState {
            value: s.value,
            subscribers: s.subscribers.push((effects - 1) as usize),
            notifying: s.notifying,
        }
    } else {
        s
    }
}

/// The state of a signal after its value is set to `value`: its
/// subscribers are being notified.
pub open spec fn set_step<T>(s: SignalState<T>, value: T) -> SignalState<T> {
    SignalState { value, subscribers: s.subscribers, notifying: s.notifying + 1 }
}

/// The state of a signal once a set has run all its subscribers.
pub open spec fn finish_step<T>(s: SignalState<T>) -> SignalState<T> {
    SignalState { value: s.value, subscribers: s.subscribers, notifying: (s.notifying - 1) as nat }
}

impl View for Context {
    /// The number of effects created.
    type V = nat;

    closed spec fn view(&self) -> nat {
        self.observers@.len()
    }
}

impl<T> View for Signal<T> {
    type V = SignalState<T>;

    closed spec fn view(&self) -> SignalState<T> {
        SignalState {
            value: self.value,
            subscribers: self.subscribers@,
            notifying: self.notifying as nat,
        }
    }
}

impl Context {
    /// The identity of the context. Nothing is promised of the identity a
    /// new context gets, so a proof can tie a signal only to the context
    /// that created it.
    pub closed spec fn id(&self) -> int {
        self.id@
    }

    /// The observers are the effects created, in order.
    #[verifier::type_invariant]
    spec fn observers_in_order(self) -> bool {
        forall|i: int| 0 <= i < self.observers@.len() ==> self.observers@[i] == i
    }

    /// A context that has created no effect.
    pub fn new() -> (c: Context)
        ensures
            c@ == 0,
    {
        Context { observers: Vec::new(), id: Ghost(arbitrary()) }
    }

    /// The number of effects created.
    pub fn effect_count(&self) -> (n: usize)
        ensures
            n == self@,
    {
        self.observers.len()
    }

    /// A signal holding `value`, with no subscriber, that belongs to this
    /// context.
    pub fn create_signal<T>(&self, value: T) -> (s: Signal<T>)
        ensures
            s@ == (SignalState { value, subscribers: Seq::empty(), notifying: 0 }),
            s.context() == self.id(),
    {
        Signal { value, subscribers: Vec::new(), notifying: 0, context: Ghost(self.id@) }
    }

    /// Creates an effect and makes it the current observer. The caller runs
    /// the effect once right after, with this context.
    pub fn create_effect(&mut self) -> (id: EffectId)
        requires
            old(self)@ < usize::MAX,
        ensures
            id == old(self)@,
            final(self)@ == old(self)@ + 1,
            final(self).id() == old(self).id(),
    {
        proof {
            use_type_invariant(&*self);
        }
        let id = self.observers.len();
        let mut observers = Vec::new();
        std::mem::swap(&mut observers, &mut self.observers);
        observers.push(id);
        self.observers = observers;
        id
    }
}

impl<T> Signal<T> {
    /// The identity of the context the signal belongs to.
    pub closed spec fn context(&self) -> int {
        self.context@
    }

    /// Reads the value. The effect created last in `context`, the context
    /// that created the signal, subscribes to the signal, unless the signal
    /// is notifying its subscribers.
    pub fn get(&mut self, context: &Context) -> (r: &T)
        requires
            context.id() == old(self).context(),
        ensures
            final(self)@ == read_step(old(self)@, context@),
            final(self).context() == old(self).context(),
            *r == old(self)@.value,
    {
        proof {
            use_type_invariant(context);
        }
        let n = context.observers.len();
        if n > 0 && self.notifying == 0 {
            let current = context.observers[n - 1];
            self.subscribers.push(current);
        }
        &self.value
    }

    /// Sets the value, and gives the subscribers to run, in order. The caller
    /// runs each of them, then calls `finish_set`.
    pub fn set(&mut self, value: T) -> (r: Vec<EffectId>)
        requires
            old(self)@.notifying < usize::MAX,
        ensures
            final(self)@ == set_step(old(self)@, value),
            final(self).context() == old(self).context(),
            r@ == old(self)@.subscribers,
    {
        self.value = value;
        self.notifying = self.notifying + 1;
        self.subscribers.clone()
    }

    /// The value, read without subscribing anyone.
    pub fn value(&self) -> (r: &T)
        ensures
            *r == self@.value,
    {
        &self.value
    }

    /// How many sets of this signal are running their subscribers.
    pub fn notifying(&self) -> (n: usize)
        ensures
            n == self@.notifying,
    {
        self.notifying
    }

    /// Ends a set once its subscribers have run.
    pub fn finish_set(&mut self)
        requires
            old(self)@.notifying > 0,
        ensures
            final(self)@ == finish_step(old(self)@),
            final(self).context() == old(self).context(),
    {
        self.notifying = self.notifying - 1;
    }
}

/// A read of a signal that is not notifying, in a context that has created
/// an effect, subscribes the effect created last; the next set of the
/// signal runs it, after the subscribers it had before.
pub proof fn law_read_subscribes_latest_effect<T>(s: SignalState<T>, effects: nat, value: T)
    requires
        s.notifying == 0,
        0 < effects <= usize::MAX,
    ensures
        read_step(s, effects).subscribers == s.subscribers.push((effects - 1) as usize),
        set_step(read_step(s, effects), value).subscribers.last() == effects - 1,
{
}

/// An effect follows every signal it reads: reads of two signals that are
/// not notifying, in a context whose latest effect is `effects - 1`, both
/// subscribe that effect, so setting either signal runs it.
pub proof fn law_effect_follows_every_signal_it_reads<T, U>(
    first: SignalState<T>,
    second: SignalState<U>,
    effects: nat,
    first_value: T,
    second_value: U,
)
    requires
        first.notifying == 0,
        second.notifying == 0,
        0 < effects <= usize::MAX,
    ensures
        set_step(read_step(first, effects), first_value).subscribers.last() == effects - 1,
        set_step(read_step(second, effects), second_value).subscribers.last() == effects - 1,
{
}

/// Every subscriber of the signal is one of the first `effects` effects of
/// its context.
pub open spec fn subscribers_created<T>(s: SignalState<T>, effects: nat) -> bool {
    forall|k: int| 0 <= k < s.subscribers.len() ==> (#[trigger] s.subscribers[k]) < effects
}

/// The subscribers of a signal are always effects that its own context
/// created before: a new signal has none; a read in its context, with the
/// effects created so far, adds only such an effect; creating an effect,
/// setting the value and ending a set keep them so. Reads in another
/// context are refused by `Signal::get`.
pub proof fn law_subscribers_are_earlier_effects<T>(s: SignalState<T>, effects: nat, value: T)
    requires
        subscribers_created(s, effects),
        effects <= usize::MAX,
    ensures
        subscribers_created(SignalState { value, subscribers: Seq::empty(), notifying: 0 }, effects),
        subscribers_created(read_step(s, effects), effects),
        subscribers_created(s, effects + 1),
        subscribers_created(set_step(s, value), effects),
        subscribers_created(finish_step(s), effects),
{
    let r = read_step(s, effects);
    assert forall|k: int| 0 <= k < r.subscribers.len() implies (#[trigger] r.subscribers[k]) < effects by {
        if k < s.subscribers.len() {
            assert(r.subscribers[k] == s.subscribers[k]);
        }
    }
}

/// A read changes neither the value nor whether the signal is notifying,
/// and a read in a context with no effect changes nothing at all; so an
/// effect created after such a read still subscribes at its own read, and a
/// set then names it.
pub proof fn law_read_without_effect_changes_nothing<T>(s: SignalState<T>, effects: nat, value: T)
    ensures
        read_step(s, 0) == s,
        read_step(s, effects).value == s.value,
        read_step(s, effects).notifying == s.notifying,
        s.notifying == 0 ==> read_step(read_step(s, 0), 1).subscribers == s.subscribers.push(0),
        s.notifying == 0 ==> set_step(read_step(read_step(s, 0), 1), value).subscribers.last() == 0,
{
}

/// Reads of a signal while it notifies its subscribers change nothing.
pub proof fn law_reads_while_notifying_do_not_subscribe<T>(s: SignalState<T>, effects: nat)
    requires
        s.notifying > 0,
    ensures
        read_step(s, effects) == s,
{
}

/// Subscriptions are never dropped: a read keeps the subscribers before it
/// as a prefix, and setting a value keeps them all.
pub proof fn law_subscriptions_persist<T>(s: SignalState<T>, effects: nat, value: T)
    ensures
        s.subscribers.is_prefix_of(read_step(s, effects).subscribers),
        set_step(s, value).subscribers == s.subscribers,
        finish_step(set_step(s, value)).subscribers == s.subscribers,
{
    assert(s.subscribers.is_prefix_of(read_step(s, effects).subscribers));
}

/// A set followed by the end of its notification leaves the new value and
/// the signal as it was otherwise.
pub proof fn law_finished_set_keeps_state<T>(s: SignalState<T>, value: T)
    ensures
        finish_step(set_step(s, value)) == (SignalState {
            value,
            subscribers: s.subscribers,
            notifying: s.notifying,
        }),
{
}

} // verus!
