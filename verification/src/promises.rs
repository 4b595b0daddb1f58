//! Simple promise types that allow easily interacting with an asynchronous operation.
use vstd::prelude::*;

verus! {

/// The receiving half of a one-shot channel from tokio.
#[verifier::external_type_specification]
#[verifier::external_body]
#[verifier::reject_recursive_types(T)]
pub struct ExOneshotReceiver<T>(tokio::sync::oneshot::Receiver<T>);

/// The sending half of a one-shot channel from tokio.
#[verifier::external_type_specification]
#[verifier::external_body]
#[verifier::reject_recursive_types(T)]
pub struct ExOneshotSender<T>(tokio::sync::oneshot::Sender<T>);

/// The error carried by a failed asynchronous operation.
#[verifier::external_type_specification]
#[verifier::external_body]
pub struct ExAnyhowError(anyhow::Error);

/// The error of a blocking receive on a channel whose sender went away.
#[verifier::external_type_specification]
#[verifier::external_body]
pub struct ExOneshotRecvError(tokio::sync::oneshot::error::RecvError);

/// The two ways a non-blocking receive can come back empty-handed.
pub enum TryRecvFailure {
    /// The sender has not sent a value yet.
    Empty,
    /// The sender was dropped without sending, or the value was already taken.
    Closed,
}

/// Calls `tokio::sync::oneshot::channel`: a fresh channel. Nothing is claimed of the two halves,
/// which are opaque here.
#[verifier::external_body]
fn oneshot_channel<T>() -> (tokio::sync::oneshot::Sender<T>, tokio::sync::oneshot::Receiver<T>) {
    tokio::sync::oneshot::channel()
}

/// Calls `tokio::sync::oneshot::Receiver::try_recv`, telling its two error variants apart.
/// Whether a value has arrived depends on the other thread and on timing, so nothing is claimed
/// of which of the three outcomes comes back, nor of the received value. When the channel is
/// empty the receiver is left as it was: tokio returns before touching it.
#[verifier::external_body]
fn receiver_try_recv<T>(rx: &mut tokio::sync::oneshot::Receiver<T>) -> (r: Result<T, TryRecvFailure>)
    ensures
        r matches Err(TryRecvFailure::Empty) ==> *final(rx) == *old(rx),
{
    match rx.try_recv() {
        Ok(v) => Ok(v),
        Err(tokio::sync::oneshot::error::TryRecvError::Empty) => Err(TryRecvFailure::Empty),
        Err(tokio::sync::oneshot::error::TryRecvError::Closed) => Err(TryRecvFailure::Closed),
    }
}

/// Calls `tokio::sync::oneshot::Receiver::blocking_recv`, which waits for the sender. The value
/// comes from another thread, so nothing is claimed of it. tokio documents that the call panics
/// inside an asynchronous execution context; that condition is about the calling thread, not an
/// argument, and is left unsaid here.
#[verifier::external_body]
fn receiver_blocking_recv<T>(rx: tokio::sync::oneshot::Receiver<T>) -> Result<T, tokio::sync::oneshot::error::RecvError> {
    rx.blocking_recv()
}

/// Calls `anyhow::Error::from` on tokio's `RecvError`, wrapping it in the generic error type.
#[verifier::external_body]
fn anyhow_from_recv_error(e: tokio::sync::oneshot::error::RecvError) -> anyhow::Error {
    anyhow::Error::from(e)
}

/// Calls `anyhow::Error::msg` on a fixed message. Nothing is claimed of the opaque error.
#[verifier::external_body]
pub(crate) fn anyhow_message(msg: &'static str) -> anyhow::Error {
    anyhow::Error::msg(msg)
}

/// Calls `anyhow::Error::from` on tokio's `TryRecvError::Closed`, the error recorded when the
/// sending half went away.
#[verifier::external_body]
fn anyhow_from_closed_error() -> anyhow::Error {
    anyhow::Error::from(tokio::sync::oneshot::error::TryRecvError::Closed)
}

/// A result holder that can await on an asynchronous operation happening in another thread or time.
#[verifier::reject_recursive_types(OkT)]
pub enum AsyncResult<OkT> {
    /// Not yet queried, or queried and not completed yet.
    Unresolved(tokio::sync::oneshot::Receiver<Result<OkT, anyhow::Error>>),
    /// Queried and completed.
    Resolved(Result<OkT, anyhow::Error>),
    /// Queried and the other end was missing.
    Aborted(anyhow::Error),
}

/// The value a ready holder yields, or `None` while it is unresolved.
pub open spec fn ready_value<OkT>(a: AsyncResult<OkT>) -> Option<Result<OkT, anyhow::Error>> {
    match a {
        AsyncResult::Unresolved(_) => None,
        AsyncResult::Resolved(v) => Some(v),
        AsyncResult::Aborted(e) => Some(Err(e)),
    }
}

/// The owned value a borrowed result refers to.
pub open spec fn deref_result<OkT>(r: Option<Result<&OkT, &anyhow::Error>>) -> Option<Result<OkT, anyhow::Error>> {
    match r {
        None => None,
        Some(Ok(a)) => Some(Ok(*a)),
        Some(Err(e)) => Some(Err(*e)),
    }
}

/// The effect of one poll of a holder, with `out` the value that the poll yields: a ready holder
/// is left as it is and yields its value; an unresolved one either stays exactly as it is, still
/// waiting on the same channel, and yields nothing, or becomes aborted or resolved and yields its
/// abort error or received value at once.
pub open spec fn poll_step<OkT>(
    before: AsyncResult<OkT>,
    after: AsyncResult<OkT>,
    out: Option<Result<OkT, anyhow::Error>>,
) -> bool {
    match before {
        AsyncResult::Unresolved(_) => {
            ||| (after == before && out is None)
            ||| (!(after is Unresolved) && out == ready_value(after))
        },
        _ => after == before && out == ready_value(before),
    }
}

/// A holder that yielded a value on one poll is ready, and every later poll leaves it unchanged
/// and yields that same value again.
pub proof fn lemma_poll_is_stable_once_ready<OkT>(
    s0: AsyncResult<OkT>,
    s1: AsyncResult<OkT>,
    out1: Option<Result<OkT, anyhow::Error>>,
    s2: AsyncResult<OkT>,
    out2: Option<Result<OkT, anyhow::Error>>,
)
    requires
        poll_step(s0, s1, out1),
        out1 is Some,
        poll_step(s1, s2, out2),
    ensures
        ready_value(s1) == out1,
        s2 == s1,
        out2 == out1,
{
}

/// Polling a holder that is already ready changes nothing and yields its value.
pub proof fn lemma_poll_of_ready_holder<OkT>(
    s0: AsyncResult<OkT>,
    s1: AsyncResult<OkT>,
    out: Option<Result<OkT, anyhow::Error>>,
)
    requires
        ready_value(s0) is Some,
        poll_step(s0, s1, out),
    ensures
        s1 == s0,
        out == ready_value(s0),
{
}

impl<OkT> AsyncResult<OkT> {
    /// Constructs a new unresolved variant along with the channel to resolve it.
    pub fn new_pair() -> (r: (Self, tokio::sync::oneshot::Sender<Result<OkT, anyhow::Error>>))
        ensures
            r.0 is Unresolved,
    {
        let (tx, rx) = oneshot_channel();
        (AsyncResult::Unresolved(rx), tx)
    }

    /// Constructs a new pre-resolved variant.
    pub fn new_ok(val: OkT) -> (r: Self)
        ensures
            r == AsyncResult::<OkT>::Resolved(Ok(val)),
    {
        AsyncResult::Resolved(Ok(val))
    }

    /// Constructs a new pre-resolved variant.
    pub fn new_err(err: anyhow::Error) -> (r: Self)
        ensures
            r == AsyncResult::<OkT>::Resolved(Err(err)),
    {
        AsyncResult::Resolved(Err(err))
    }

    /// Checks if the result is available right now, returns a reference if it is.
    pub fn poll(&mut self) -> (r: Option<Result<&OkT, &anyhow::Error>>)
        ensures
            poll_step(*old(self), *final(self), deref_result(r)),
            *old(self) is Unresolved && r is None ==> *final(self) == *old(self),
    {
        let outcome = match self {
            AsyncResult::Unresolved(recv) => receiver_try_recv(recv),
            _ => {
                return self.ready_ref();
            },
        };
        self.settle_receive(outcome)
    }

    /// Takes in the outcome of a non-blocking receive on the channel of this holder, and yields
    /// what is available afterwards. An unresolved holder is resolved with a received result, or
    /// aborted, with the abort error yielded at once, when the channel is closed, or left as it is
    /// when the channel is empty; a ready holder ignores the outcome and yields its value.
    pub fn settle_receive(&mut self, outcome: Result<Result<OkT, anyhow::Error>, TryRecvFailure>) -> (r: Option<
        Result<&OkT, &anyhow::Error>,
    >)
        ensures
            *old(self) is Unresolved ==> match outcome {
                Ok(v) => *final(self) == AsyncResult::<OkT>::Resolved(v),
                Err(TryRecvFailure::Empty) => *final(self) == *old(self),
                Err(TryRecvFailure::Closed) => *final(self) is Aborted,
            },
            !(*old(self) is Unresolved) ==> *final(self) == *old(self),
            deref_result(r) == ready_value(*final(self)),
    {
        if let AsyncResult::Unresolved(_) = self {
            match outcome {
                Ok(v) => {
                    *self = AsyncResult::Resolved(v);
                },
                Err(TryRecvFailure::Empty) => {
                    return None;
                },
                Err(TryRecvFailure::Closed) => {
                    *self = AsyncResult::Aborted(anyhow_from_closed_error());
                },
            }
        }
        self.ready_ref()
    }

    /// The value of a ready holder, by reference, or `None` while it is unresolved.
    fn ready_ref(&self) -> (r: Option<Result<&OkT, &anyhow::Error>>)
        ensures
            deref_result(r) == ready_value(*self),
    {
        match self {
            AsyncResult::Resolved(Ok(v)) => Some(Ok(v)),
            AsyncResult::Resolved(Err(e)) => Some(Err(e)),
            AsyncResult::Aborted(e) => Some(Err(e)),
            AsyncResult::Unresolved(_) => None,
        }
    }

    /// Waits for the result by blocking the current thread until it is available. Do not use in async contexts.
    pub fn blocking_wait(self) -> (r: Result<OkT, anyhow::Error>)
        ensures
            !(self is Unresolved) ==> r == ready_value(self).unwrap(),
    {
        match self {
            AsyncResult::Unresolved(chan) => Self::settle_blocking_receive(receiver_blocking_recv(chan)),
            AsyncResult::Resolved(val) => val,
            AsyncResult::Aborted(err) => Err(err),
        }
    }

    /// Takes in the outcome of a blocking receive on the channel of an unresolved holder: the
    /// result the sender sent is passed on unchanged, and a receive that failed because the sender
    /// went away without sending gives an error.
    pub fn settle_blocking_receive(outcome: Result<Result<OkT, anyhow::Error>, tokio::sync::oneshot::error::RecvError>) -> (r:
        Result<OkT, anyhow::Error>)
        ensures
            match outcome {
                Ok(v) => r == v,
                Err(_) => r is Err,
            },
    {
        match outcome {
            Ok(v) => v,
            Err(e) => Err(anyhow_from_recv_error(e)),
        }
    }
}

/// Encompasses the operations of [`AsyncResult`] that do not depend on the held result type.
pub trait GenericAsyncResult {
    /// Checks if the result is ready.
    fn is_ready(&mut self) -> bool;

    /// Returns if the inner result is Ok, or None if not ready yet.
    fn is_ok(&mut self) -> Option<bool>;

    /// Returns if the inner result is Err, or None if not ready yet.
    fn is_err(&mut self) -> Option<bool>;

    /// Checks if the result is available right now, returns a type-erased reference if it is.
    fn generic_poll(&mut self) -> Option<Result<(), &anyhow::Error>>;

    /// Waits for the result by blocking the current thread, wraps the error in a generic anyhow type.
    fn blocking_generic_wait(self: Box<Self>) -> Result<(), anyhow::Error>;
}

/// The type-erased view of a poll's outcome.
pub open spec fn erase_outcome<OkT>(out: Option<Result<OkT, anyhow::Error>>) -> Option<Result<(), anyhow::Error>> {
    match out {
        None => None,
        Some(Ok(_)) => Some(Ok(())),
        Some(Err(e)) => Some(Err(e)),
    }
}

/// [`poll_step`] with the yielded value erased to its shape: nothing, success, or a given error.
pub open spec fn erased_poll_step<OkT>(
    before: AsyncResult<OkT>,
    after: AsyncResult<OkT>,
    out: Option<Result<(), anyhow::Error>>,
) -> bool {
    match before {
        AsyncResult::Unresolved(_) => {
            ||| (after == before && out is None)
            ||| (!(after is Unresolved) && out == erase_outcome(ready_value(after)))
        },
        _ => after == before && out == erase_outcome(ready_value(before)),
    }
}

impl<OkT> GenericAsyncResult for AsyncResult<OkT> {
    fn is_ready(&mut self) -> (r: bool)
        ensures
            exists|out: Option<Result<(), anyhow::Error>>|
                #[trigger] erased_poll_step(*old(self), *final(self), out) && r == (out is Some),
    {
        let p = self.poll();
        let ghost out = erase_outcome(deref_result(p));
        let r = p.is_some();
        proof {
            assert(erased_poll_step(*old(self), *self, out));
        }
        r
    }

    fn is_ok(&mut self) -> (r: Option<bool>)
        ensures
            exists|out: Option<Result<(), anyhow::Error>>|
                #[trigger] erased_poll_step(*old(self), *final(self), out) && r == (match out {
                    None => None::<bool>,
                    Some(v) => Some(v is Ok),
                }),
    {
        let p = self.poll();
        let ghost out = erase_outcome(deref_result(p));
        let r = match p {
            None => None,
            Some(Ok(_)) => Some(true),
            Some(Err(_)) => Some(false),
        };
        proof {
            assert(erased_poll_step(*old(self), *self, out));
        }
        r
    }

    fn is_err(&mut self) -> (r: Option<bool>)
        ensures
            exists|out: Option<Result<(), anyhow::Error>>|
                #[trigger] erased_poll_step(*old(self), *final(self), out) && r == (match out {
                    None => None::<bool>,
                    Some(v) => Some(v is Err),
                }),
    {
        let p = self.poll();
        let ghost out = erase_outcome(deref_result(p));
        let r = match p {
            None => None,
            Some(Ok(_)) => Some(false),
            Some(Err(_)) => Some(true),
        };
        proof {
            assert(erased_poll_step(*old(self), *self, out));
        }
        r
    }

    fn generic_poll(&mut self) -> (r: Option<Result<(), &anyhow::Error>>)
        ensures
            erased_poll_step(*old(self), *final(self), match r {
                None => None::<Result<(), anyhow::Error>>,
                Some(Ok(_)) => Some(Ok(())),
                Some(Err(e)) => Some(Err(*e)),
            }),
    {
        let p = self.poll();
        match p {
            None => None,
            Some(Ok(_)) => Some(Ok(())),
            Some(Err(e)) => Some(Err(e)),
        }
    }

    fn blocking_generic_wait(self: Box<Self>) -> (r: Result<(), anyhow::Error>)
        ensures
            !(*self is Unresolved) ==> Some(r) == erase_outcome(ready_value(*self)),
    {
        match (*self).blocking_wait() {
            Ok(_) => Ok(()),
            Err(e) => Err(e),
        }
    }
}

} // verus!
