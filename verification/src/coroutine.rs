//! The bridge between the background task runtime and the host's
//! cooperative polling loop: a single-use task handle that owns the
//! receiving end of a one-shot completion channel, started eagerly or on the
//! first awaiting entry, polled without blocking until it yields its value
//! or failure exactly once.

use vstd::prelude::*;
use crate::host::HostException;

verus! {

/// Relies on tokio::sync::oneshot::Receiver as the receiving end of the
/// one-shot completion channel; opaque here, read only through the poll
/// wrapper below.
#[verifier::external_type_specification]
#[verifier::external_body]
#[verifier::reject_recursive_types(T)]
pub struct ExReceiver<T>(tokio::sync::oneshot::Receiver<T>);

/// Relies on tokio::sync::oneshot::error::RecvError, the error of the
/// receiver's own future; declared only so the receiver's impls are
/// admissible, never read.
#[verifier::external_type_specification]
#[verifier::external_body]
pub struct ExRecvError(tokio::sync::oneshot::error::RecvError);

/// What one non-blocking poll of the completion channel yielded.
pub enum RecvOutcome<V> {
    /// No result has arrived yet.
    Pending,
    /// The task finished with a value.
    Value(V),
    /// The task finished with a failure, captured as a value on the
    /// background thread, to be raised on the host's thread.
    Failure(HostException),
    /// The sending side is gone without a result: the background runtime
    /// was torn down mid-task.
    Closed,
}

/// Relies on tokio::sync::oneshot::Receiver::try_recv: non-blocking; yields
/// the value once the sender has sent one, Empty while the sender is alive
/// and has not sent, and Closed when the sender was dropped without sending
/// or the value was already taken.
#[verifier::external_body]
fn poll_receiver<V>(rx: &mut tokio::sync::oneshot::Receiver<Result<V, HostException>>) -> (r:
    RecvOutcome<V>) {
    match rx.try_recv() {
        Ok(Ok(v)) => RecvOutcome::Value(v),
        Ok(Err(e)) => RecvOutcome::Failure(e),
        Err(tokio::sync::oneshot::error::TryRecvError::Empty) => RecvOutcome::Pending,
        Err(tokio::sync::oneshot::error::TryRecvError::Closed) => RecvOutcome::Closed,
    }
}

/// A caller broke the handle's single-use protocol; distinct from every
/// domain failure, which travels as a `HostException`.
#[derive(Clone, Copy, Debug, PartialEq, Eq, Structural)]
pub enum BridgeMisuse {
    /// The awaiting entry point ran twice on one handle.
    AwaitedTwice,
}

impl BridgeMisuse {
    /// The misuse's display text.
    pub fn message(&self) -> (s: &'static str)
        ensures
            s@ =~= self.message_spec(),
    {
        match self {
            BridgeMisuse::AwaitedTwice => "Awaited twice on PyCoroutine.",
        }
    }

    /// The display text owed for each misuse.
    pub open spec fn message_spec(&self) -> Seq<char> {
        match self {
            BridgeMisuse::AwaitedTwice => "Awaited twice on PyCoroutine."@,
        }
    }
}

/// A fatal condition at the polling boundary, signaling misuse of the
/// bridge or a torn-down runtime, not a recoverable domain failure.
#[derive(Clone, Copy, Debug, PartialEq, Eq, Structural)]
pub enum BridgeFault {
    /// The completion channel closed without ever carrying a result.
    ChannelClosed,
    /// The handle was polled again after yielding its terminal result.
    PolledAfterConsumed,
}

impl BridgeFault {
    /// The fault's display text.
    pub fn message(&self) -> (s: &'static str)
        ensures
            s@ =~= self.message_spec(),
    {
        match self {
            BridgeFault::ChannelClosed => "oneshot channel closed",
            BridgeFault::PolledAfterConsumed => "PyCoroutine polled after completion.",
        }
    }

    /// The display text owed for each fault.
    pub open spec fn message_spec(&self) -> Seq<char> {
        match self {
            BridgeFault::ChannelClosed => "oneshot channel closed"@,
            BridgeFault::PolledAfterConsumed => "PyCoroutine polled after completion."@,
        }
    }
}

/// One step of the host's iteration protocol.
pub enum IterStep<V> {
    /// Not ready: the host loop must re-schedule and poll again later; the
    /// sole suspension point the host sees.
    Pending,
    /// The final value: the host treats this as coroutine completion.
    Return(V),
    /// The final failure, to be raised in the host's own exception
    /// mechanism, on the polling thread.
    Raise(HostException),
    /// A fatal protocol condition; never a domain failure.
    Fault(BridgeFault),
}

/// A host-visible handle to one in-flight or completed asynchronous
/// operation. Deferred handles carry their not-yet-started unit of work and
/// hand it out on the first awaiting entry; eager handles are in flight from
/// construction. The terminal result is yielded exactly once.
#[verifier::reject_recursive_types(V)]
pub struct PyCoroutine<W, V> {
    work: Option<W>,
    awaited: bool,
    consumed: bool,
    rx: tokio::sync::oneshot::Receiver<Result<V, HostException>>,
}

impl<W, V> PyCoroutine<W, V> {
    /// The not-yet-started unit of work, for a deferred handle that was
    /// never awaited.
    pub closed spec fn spec_work(&self) -> Option<W> {
        self.work
    }

    /// Whether a deferred unit of work still rides in the handle.
    pub closed spec fn has_work(&self) -> bool {
        self.work is Some
    }

    /// Whether the awaiting entry point has run.
    pub closed spec fn was_awaited(&self) -> bool {
        self.awaited
    }

    /// Whether the terminal result was already yielded.
    pub closed spec fn is_consumed(&self) -> bool {
        self.consumed
    }

    /// A deferred handle: the unit of work rides inside, unstarted, until
    /// the first awaiting entry hands it to the background runtime.
    pub fn new(work: W, rx: tokio::sync::oneshot::Receiver<Result<V, HostException>>) -> (c: Self)
        ensures
            c.spec_work() == Some(work),
            !c.was_awaited(),
            !c.is_consumed(),
    {
        PyCoroutine { work: Some(work), awaited: false, consumed: false, rx }
    }

    /// An eager handle: the task was already submitted to the background
    /// runtime; the handle is in flight from the start.
    pub fn eager(rx: tokio::sync::oneshot::Receiver<Result<V, HostException>>) -> (c: Self)
        ensures
            c.spec_work() is None,
            !c.was_awaited(),
            !c.is_consumed(),
    {
        PyCoroutine { work: None, awaited: false, consumed: false, rx }
    }

    /// The awaiting entry point: the first call yields the deferred unit of
    /// work, to be submitted to the background runtime (or nothing, for an
    /// eager handle); any second call fails with the distinct "awaited
    /// twice" error and changes nothing.
    pub fn __await__(&mut self) -> (r: Result<Option<W>, BridgeMisuse>)
        ensures
            old(self).was_awaited() ==> r == Err::<Option<W>, BridgeMisuse>(
                BridgeMisuse::AwaitedTwice,
            ) && *final(self) == *old(self),
            !old(self).was_awaited() ==> {
                &&& r == Ok::<Option<W>, BridgeMisuse>(old(self).spec_work())
                &&& final(self).was_awaited()
                &&& final(self).spec_work() is None
                &&& final(self).is_consumed() == old(self).is_consumed()
            },
    {
        if self.awaited {
            return Err(BridgeMisuse::AwaitedTwice);
        }
        self.awaited = true;
        Ok(self.work.take())
    }

    /// The iteration entry point: identity, so the host's scheduler drives
    /// polling through `__next__`.
    pub fn __iter__(&self) -> (r: &Self)
        ensures
            r == self,
    {
        self
    }

    /// One non-blocking poll. Before the background task completes this
    /// yields `Pending` and the handle stays consumable; the first terminal
    /// result — value, failure, or a closed channel — consumes the handle;
    /// any later poll is the detectable `PolledAfterConsumed` fault and
    /// changes nothing.
    pub fn __next__(&mut self) -> (r: IterStep<V>)
        ensures
            old(self).is_consumed() ==> (r matches IterStep::Fault(f) && f
                == BridgeFault::PolledAfterConsumed) && *final(self) == *old(self),
            !old(self).is_consumed() && old(self).has_work() ==> (r is Pending) && *final(self)
                == *old(self),
            !old(self).is_consumed() && !old(self).has_work() ==> {
                &&& (r is Pending ==> !final(self).is_consumed())
                &&& (r is Return || r is Raise || r is Fault) ==> final(self).is_consumed()
                &&& (r matches IterStep::Fault(f) ==> f == BridgeFault::ChannelClosed)
                &&& final(self).spec_work() == old(self).spec_work()
                &&& final(self).was_awaited() == old(self).was_awaited()
            },
    {
        if self.consumed {
            return IterStep::Fault(BridgeFault::PolledAfterConsumed);
        }
        if self.work.is_some() {
            return IterStep::Pending;
        }
        match poll_receiver(&mut self.rx) {
            RecvOutcome::Pending => IterStep::Pending,
            RecvOutcome::Value(v) => {
                self.consumed = true;
                IterStep::Return(v)
            },
            RecvOutcome::Failure(e) => {
                self.consumed = true;
                IterStep::Raise(e)
            },
            RecvOutcome::Closed => {
                self.consumed = true;
                IterStep::Fault(BridgeFault::ChannelClosed)
            },
        }
    }
}

} // verus!
