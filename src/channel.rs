//! The channels that carry items out of the engines: tokio's unbounded
//! multi-producer, single-consumer queues, with each end labelled by the
//! channel it belongs to and each producer end keeping the log of the
//! messages its channel accepted from it.

use vstd::prelude::*;
use tokio::sync::mpsc::{UnboundedReceiver, UnboundedSender};

verus! {

/// A send that the channel refused because its consumer end was gone: the
/// position of the route that refused it, and the item that was not delivered.
#[derive(Debug)]
pub struct SendFailure<T> {
    pub route: usize,
    pub payload: T,
}

/// The producer end of a tokio unbounded channel; it may be cloned, and the
/// channel ends once every clone is gone.
#[verifier::external_type_specification]
#[verifier::external_body]
#[verifier::reject_recursive_types(T)]
pub struct ExUnboundedSender<T>(UnboundedSender<T>);

/// The consumer end of a tokio unbounded channel.
#[verifier::external_type_specification]
#[verifier::external_body]
#[verifier::reject_recursive_types(T)]
pub struct ExUnboundedReceiver<T>(UnboundedReceiver<T>);

/// A producer end, with the label of its channel and the messages that the
/// channel has accepted through this handle, in order.
#[verifier::reject_recursive_types(T)]
pub struct Sender<T> {
    inner: UnboundedSender<T>,
    chan: Ghost<int>,
    accepted: Ghost<Seq<T>>,
}

/// A consumer end, with the label of its channel. It reads, in order, what
/// the channel accepted from the producer ends that bear the same label.
#[verifier::reject_recursive_types(T)]
pub struct Receiver<T> {
    pub inner: UnboundedReceiver<T>,
    chan: Ghost<int>,
}

impl<T> Sender<T> {
    /// The label of the channel this handle feeds.
    pub closed spec fn chan(&self) -> int {
        self.chan@
    }

    /// The messages accepted through this handle, in order.
    pub closed spec fn accepted(&self) -> Seq<T> {
        self.accepted@
    }
}

impl<T> Receiver<T> {
    /// The label of the channel this handle reads.
    pub closed spec fn chan(&self) -> int {
        self.chan@
    }
}

/// Relies on tokio's `unbounded_channel`: a fresh channel, as a producer end
/// and the consumer end that reads what it sends. Both bear the channel's
/// label, and nothing has been accepted yet.
#[verifier::external_body]
pub(crate) fn channel<T>() -> (r: (Sender<T>, Receiver<T>))
    ensures
        r.0.chan() == r.1.chan(),
        r.0.accepted() == Seq::<T>::empty(),
{
    let (tx, rx) = tokio::sync::mpsc::unbounded_channel();
    let chan: Ghost<int> = Ghost(arbitrary());
    (Sender { inner: tx, chan, accepted: Ghost(Seq::empty()) }, Receiver { inner: rx, chan })
}

/// Relies on tokio's `Clone` for `UnboundedSender`: one more producer end of
/// the same channel, through which nothing has been accepted yet.
#[verifier::external_body]
pub(crate) fn clone_sender<T>(sender: &Sender<T>) -> (r: Sender<T>)
    ensures
        r.chan() == sender.chan(),
        r.accepted() == Seq::<T>::empty(),
{
    Sender { inner: sender.inner.clone(), chan: Ghost(sender.chan@), accepted: Ghost(Seq::empty()) }
}

/// Relies on tokio's `UnboundedSender::send`: it never waits; the channel
/// either accepts the message, or, when the consumer end is gone, refuses it
/// and hands it back inside the `SendError`, which is unwrapped here. (It
/// aborts the process only when the count of queued messages would overflow
/// a `usize`.)
#[verifier::external_body]
pub(crate) fn send<T>(sender: &mut Sender<T>, message: T) -> (r: Result<(), T>)
    ensures
        final(sender).chan() == old(sender).chan(),
        r is Ok ==> final(sender).accepted() == old(sender).accepted().push(message),
        r matches Err(back) ==> back == message && final(sender).accepted() == old(sender).accepted(),
{
    let ghost m = message;
    match sender.inner.send(message) {
        Ok(()) => {
            sender.accepted = Ghost(sender.accepted@.push(m));
            Ok(())
        },
        Err(e) => Err(e.0),
    }
}

} // verus!
