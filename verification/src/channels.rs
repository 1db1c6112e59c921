//! The channels by which streams hand data to the application.

use vstd::prelude::*;

verus! {

/// `tokio::sync::mpsc::Sender`, the sending half of a bounded channel.
#[verifier::external_type_specification]
#[verifier::external_body]
#[verifier::reject_recursive_types(T)]
pub struct ExSender<T>(tokio::sync::mpsc::Sender<T>);

/// `tokio::sync::mpsc::Receiver`, the receiving half of a bounded channel.
#[verifier::external_type_specification]
#[verifier::external_body]
#[verifier::reject_recursive_types(T)]
pub struct ExReceiver<T>(tokio::sync::mpsc::Receiver<T>);

/// `tokio::sync::oneshot::Sender`, the sending half of a channel for one value.
#[verifier::external_type_specification]
#[verifier::external_body]
#[verifier::reject_recursive_types(T)]
pub struct ExOneshotSender<T>(tokio::sync::oneshot::Sender<T>);

/// `tokio::sync::oneshot::error::RecvError`, which a waiting receiver gets when the
/// sender is gone.
#[verifier::external_type_specification]
#[verifier::external_body]
pub struct ExRecvError(tokio::sync::oneshot::error::RecvError);

/// `tokio::sync::oneshot::Receiver`, the receiving half of a channel for one
/// value.
#[verifier::external_type_specification]
#[verifier::external_body]
#[verifier::reject_recursive_types(T)]
pub struct ExOneshotReceiver<T>(tokio::sync::oneshot::Receiver<T>);

/// The messages that were put into a channel through its sender, in order.
pub uninterp spec fn sent(tx: tokio::sync::mpsc::Sender<Vec<u8>>) -> Seq<Seq<u8>>;

/// The sender puts messages into the channel from which the receiver takes them.
pub uninterp spec fn joined(
    tx: tokio::sync::mpsc::Sender<Vec<u8>>,
    rx: tokio::sync::mpsc::Receiver<Vec<u8>>,
) -> bool;

/// The receiver waits for the signal that the sender gives.
pub uninterp spec fn awaits(
    rx: tokio::sync::oneshot::Receiver<()>,
    tx: tokio::sync::oneshot::Sender<()>,
) -> bool;

/// `tokio::sync::mpsc::channel` for byte strings: the two halves of one channel, into
/// which nothing was put yet.
#[verifier::external_body]
pub(crate) fn byte_channel(capacity: usize) -> (r: (
    tokio::sync::mpsc::Sender<Vec<u8>>,
    tokio::sync::mpsc::Receiver<Vec<u8>>,
))
    requires
        0 < capacity <= 0x1000,
    ensures
        sent(r.0) == Seq::<Seq<u8>>::empty(),
        joined(r.0, r.1),
{
    tokio::sync::mpsc::channel(capacity)
}

/// The two halves are a channel with room for `capacity` messages: what a call of
/// [`byte_channel`] gives.
pub closed spec fn holds_up_to(
    capacity: usize,
    tx: tokio::sync::mpsc::Sender<Vec<u8>>,
    rx: tokio::sync::mpsc::Receiver<Vec<u8>>,
) -> bool {
    call_ensures(byte_channel, (capacity,), (tx, rx))
}

/// A channel with room for `capacity` messages, into which nothing was put yet.
pub(crate) fn new_channel(capacity: usize) -> (r: (
    tokio::sync::mpsc::Sender<Vec<u8>>,
    tokio::sync::mpsc::Receiver<Vec<u8>>,
))
    requires
        0 < capacity <= 0x1000,
    ensures
        sent(r.0) == Seq::<Seq<u8>>::empty(),
        joined(r.0, r.1),
        holds_up_to(capacity, r.0, r.1),
{
    byte_channel(capacity)
}

/// `tokio::sync::oneshot::channel` for a signal: the two halves of one channel.
#[verifier::external_body]
pub(crate) fn signal_channel() -> (r: (
    tokio::sync::oneshot::Sender<()>,
    tokio::sync::oneshot::Receiver<()>,
))
    ensures
        awaits(r.1, r.0),
{
    tokio::sync::oneshot::channel()
}

/// `tokio::sync::mpsc::Sender::try_send`: whether the channel took the message. That
/// depends on what the receiver has read, so nothing is known of it. A message that was
/// taken is in the channel behind those put there before; one that was not leaves the
/// sender as it was.
#[verifier::external_body]
pub(crate) fn offer(tx: &mut tokio::sync::mpsc::Sender<Vec<u8>>, message: Vec<u8>) -> (r: bool)
    ensures
        r ==> sent(*final(tx)) == sent(*old(tx)).push(message@),
        !r ==> *final(tx) == *old(tx),
        forall|rx: tokio::sync::mpsc::Receiver<Vec<u8>>|
            #![trigger joined(*final(tx), rx)]
            joined(*final(tx), rx) == joined(*old(tx), rx),
{
    tx.try_send(message).is_ok()
}

/// The channel behind the sender answers the offer of the message with `r`: what a call of
/// [`offer`] returns.
pub closed spec fn answers(tx: tokio::sync::mpsc::Sender<Vec<u8>>, message: Seq<u8>, r: bool) -> bool {
    exists|t: &mut tokio::sync::mpsc::Sender<Vec<u8>>, m: Vec<u8>|
        *t == tx && m@ == message && #[trigger] call_ensures(offer, (t, m), r)
}

/// Offers a message to a channel. True when the channel took it.
pub(crate) fn hand_over(tx: &mut tokio::sync::mpsc::Sender<Vec<u8>>, message: Vec<u8>) -> (r: bool)
    ensures
        answers(*old(tx), message@, r),
        r ==> sent(*final(tx)) == sent(*old(tx)).push(message@),
        !r ==> *final(tx) == *old(tx),
        forall|rx: tokio::sync::mpsc::Receiver<Vec<u8>>|
            #![trigger joined(*final(tx), rx)]
            joined(*final(tx), rx) == joined(*old(tx), rx),
{
    offer(tx, message)
}

/// A signal that was given.
pub struct Signalled {
    by: Ghost<tokio::sync::oneshot::Sender<()>>,
}

impl Signalled {
    /// The sender that gave the signal.
    pub closed spec fn sender(self) -> tokio::sync::oneshot::Sender<()> {
        self.by@
    }
}

/// `tokio::sync::oneshot::Sender::send`: gives the signal. Whether anyone still waits
/// for it is of no account.
#[verifier::external_body]
pub(crate) fn signal(tx: tokio::sync::oneshot::Sender<()>) -> (r: Signalled)
    ensures
        r.sender() == tx,
{
    let _ = tx.send(());
    Signalled { by: Ghost(tx) }
}

} // verus!
