//! What the transport tells its owner, and the ordered channel it goes through.

use std::collections::VecDeque;

use vstd::prelude::*;

use crate::contact_info::{Endpoint, OurContactInfo};
use crate::peer_id::PeerId;

verus! {

/// Why an operation of the transport failed.
#[derive(Clone, Copy, Debug, PartialEq, Eq, Structural)]
pub enum IoErrorKind {
    NotFound,
    ConnectionRefused,
    ConnectionReset,
    ConnectionAborted,
    AddrInUse,
    AddrNotAvailable,
    TimedOut,
    Other,
}

/// The outcome of a request to prepare contact info, under the caller's token.
/// `S` is the socket kept in the contact info.
#[derive(Debug)]
pub struct ContactInfoResult<S> {
    /// The token passed with the request.
    pub result_token: u32,
    /// The new contact info, if it could be prepared.
    pub result: Result<OurContactInfo<S>, IoErrorKind>,
}

/// What the transport tells its owner. `C` is a connection, `S` the socket of
/// prepared contact info.
#[derive(Debug)]
#[allow(inconsistent_fields)]
pub enum Event<C, S> {
    /// A message from a peer.
    NewMessage(PeerId, Vec<u8>),
    /// A connection accepted while bootstrapping.
    NewBootstrapConnection { connection: C, their_pub_key: PeerId },
    /// The result of a rendezvous connection attempt.
    NewConnection { connection: Result<C, IoErrorKind>, their_pub_key: PeerId },
    /// The connection to a peer was lost.
    LostConnection(PeerId),
    /// Bootstrapping is over.
    BootstrapFinished,
    /// The endpoints at which others see us have changed.
    ExternalEndpoints(Vec<Endpoint>),
    /// A request to prepare contact info finished.
    ContactInfoPrepared(ContactInfoResult<S>),
}

/// An ordered, unbounded channel of events: they come out in the order they went in.
pub struct EventChannel<T> {
    queue: VecDeque<T>,
}

impl<T> View for EventChannel<T> {
    type V = Seq<T>;

    closed spec fn view(&self) -> Seq<T> {
        self.queue@
    }
}

impl<T> EventChannel<T> {
    pub fn new() -> (r: EventChannel<T>)
        ensures
            r@ == Seq::<T>::empty(),
    {
        EventChannel { queue: VecDeque::new() }
    }

    /// Queues an event behind all earlier ones. It never blocks and drops nothing.
    pub fn emit(&mut self, event: T)
        ensures
            final(self)@ == old(self)@.push(event),
    {
        self.queue.push_back(event);
    }

    /// The oldest event not yet taken, if any.
    pub fn next(&mut self) -> (r: Option<T>)
        ensures
            old(self)@.len() == 0 ==> r.is_none() && final(self)@ == old(self)@,
            old(self)@.len() > 0 ==> r == Some(old(self)@[0]) && final(self)@ == old(self)@.drop_first(),
    {
        self.queue.pop_front()
    }

    /// How many events wait.
    pub fn len(&self) -> (r: usize)
        ensures
            r == self@.len(),
    {
        self.queue.len()
    }
}

} // verus!
