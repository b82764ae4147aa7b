//! Offers of messages to channels.
use crossbeam_channel::Sender;
use crossbeam_channel::TrySendError;
use vstd::prelude::*;

verus! {

/// `crossbeam_channel::Sender`, the sending end of a channel.
#[verifier::external_type_specification]
#[verifier::external_body]
#[verifier::reject_recursive_types(T)]
pub struct ExSender<T>(crossbeam_channel::Sender<T>);

/// What became of a message that was offered to a channel.
#[derive(Clone, Copy, Debug, PartialEq, Eq, Structural)]
pub enum SendStatus {
    /// The message is in the channel.
    Sent,
    /// The channel was full; the message came back.
    Full,
    /// Nobody receives from the channel any more; the message came back.
    Disconnected,
}

/// An offer that was made: which message, to which channel, and what became of it. Outside of this
/// module one is had only by making the offer.
#[verifier::reject_recursive_types(T)]
pub struct Offer<T> {
    status: SendStatus,
    sender: Ghost<Sender<T>>,
    message: Ghost<T>,
}

impl<T> Offer<T> {
    /// What became of the message.
    pub closed spec fn spec_status(self) -> SendStatus {
        self.status
    }

    /// The sending end of the channel that the message was offered to.
    pub closed spec fn sender(self) -> Sender<T> {
        self.sender@
    }

    /// The message that was offered.
    pub closed spec fn message(self) -> T {
        self.message@
    }

    /// What became of the message.
    pub fn status(&self) -> (status: SendStatus)
        ensures
            status == self.spec_status(),
    {
        self.status
    }
}

/// A hold on the sending end of a channel, with an account of every message that was offered
/// through it. There is no way to the channel but by an offer, which goes into the account.
#[verifier::reject_recursive_types(T)]
pub struct Outlet<'a, T> {
    tx: &'a Sender<T>,
    offered: Ghost<Seq<T>>,
}

impl<'a, T> Outlet<'a, T> {
    /// The sending end of the channel.
    pub closed spec fn sender(self) -> Sender<T> {
        *self.tx
    }

    /// The messages that were offered, in order, whatever became of them.
    pub closed spec fn offered(self) -> Seq<T> {
        self.offered@
    }

    /// Takes hold of a channel.
    pub fn new(tx: &'a Sender<T>) -> (outlet: Self)
        ensures
            outlet.sender() == *tx,
            outlet.offered() == Seq::<T>::empty(),
    {
        Outlet { tx, offered: Ghost(Seq::empty()) }
    }

    /// Calls `Sender::try_send`, once. It does not block; whether there is room in the channel
    /// depends on the other threads. It is this message that is put into this channel, or that
    /// comes back; either way it goes into the account of offers.
    #[verifier::external_body]
    pub(crate) fn offer(&mut self, msg: T) -> (result: (Offer<T>, Option<T>))
        ensures
            final(self).sender() == old(self).sender(),
            final(self).offered() == old(self).offered().push(msg),
            result.0.sender() == old(self).sender(),
            result.0.message() == msg,
            result.1 == (if result.0.spec_status() == SendStatus::Sent {
                None
            } else {
                Some(msg)
            }),
    {
        let (sender, message) = (Ghost(*self.tx), Ghost(msg));
        self.offered = Ghost(self.offered@.push(message@));
        let (status, back) = match self.tx.try_send(msg) {
            Ok(()) => (SendStatus::Sent, None),
            Err(TrySendError::Full(back)) => (SendStatus::Full, Some(back)),
            Err(TrySendError::Disconnected(back)) => (SendStatus::Disconnected, Some(back)),
        };
        (Offer { status, sender, message }, back)
    }
}

/// The channels that outlets hold.
pub open spec fn senders_of<T>(outlets: Seq<Outlet<'_, T>>) -> Seq<Sender<T>> {
    outlets.map_values(|outlet: Outlet<'_, T>| outlet.sender())
}

/// Takes hold of all of these channels.
pub fn outlets<'a, T>(senders: &'a Vec<Sender<T>>) -> (outlets: Vec<Outlet<'a, T>>)
    ensures
        senders_of(outlets@) == senders@,
        outlets.len() == senders.len(),
        forall|i: int|
            0 <= i < outlets.len() ==> (#[trigger] outlets[i]).sender() == senders[i],
        forall|i: int|
            0 <= i < outlets.len() ==> (#[trigger] outlets[i]).offered() == Seq::<T>::empty(),
{
    let mut outlets: Vec<Outlet<'a, T>> = Vec::new();
    let mut i: usize = 0;
    while i < senders.len()
        invariant
            i <= senders.len(),
            outlets.len() == i,
            forall|k: int|
                0 <= k < i ==> (#[trigger] outlets[k]).sender() == senders[k] && outlets[k].offered()
                    == Seq::<T>::empty(),
        decreases senders.len() - i,
    {
        outlets.push(Outlet::new(&senders[i]));
        i = i + 1;
    }
    assert(senders_of(outlets@) =~= senders@);
    outlets
}

} // verus!
