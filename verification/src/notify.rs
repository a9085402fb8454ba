//! Dispatching the chain client's notifications.
//!
//! A subscription yields notifications until its stream closes. A
//! notification of a new incoming bundle starts inbox processing on its
//! chain; every other notification goes to the registered handler as it is.
//! A handler that fails is logged, and the subscription goes on.

use vstd::prelude::*;
use crate::ident::ChainId;

verus! {

/// Why the chain client notifies.
#[derive(Clone, Copy, Debug, PartialEq, Eq)]
pub enum Reason {
    /// A block was added to the chain.
    NewBlock { height: u64, hash: [u8; 32] },
    /// A bundle of messages arrived in the chain's inbox.
    NewIncomingBundle { origin: ChainId, height: u64 },
    /// A new round began on the chain.
    NewRound { height: u64, round: u32 },
}

/// A notification of the chain client.
#[derive(Clone, Copy, Debug, PartialEq, Eq)]
pub struct Notification {
    pub chain_id: ChainId,
    pub reason: Reason,
}

/// What a subscription yields.
#[derive(Clone, Copy, Debug, PartialEq, Eq)]
pub enum StreamEvent {
    /// A notification arrived.
    Received(Notification),
    /// The handler failed on the notification it was last given.
    HandlerFailed,
    /// The stream closed.
    Closed,
}

/// What the caller is to do.
#[derive(Clone, Copy, Debug, PartialEq, Eq)]
pub enum Dispatch {
    /// Process the inbox of this chain, in the background.
    ProcessInbox(ChainId),
    /// Hand this notification to the registered handler, unchanged.
    Forward(Notification),
    /// Log the handler's failure and go on listening.
    LogAndContinue,
    /// Stop listening.
    Stop,
}

/// Where a notification goes.
pub open spec fn route_spec(notification: Notification) -> Dispatch {
    match notification.reason {
        Reason::NewIncomingBundle { .. } => Dispatch::ProcessInbox(notification.chain_id),
        _ => Dispatch::Forward(notification),
    }
}

/// Where a notification goes: a new incoming bundle starts inbox processing
/// on its chain, everything else is forwarded as it is.
pub fn route(notification: Notification) -> (dispatch: Dispatch)
    ensures
        dispatch == route_spec(notification),
{
    match notification.reason {
        Reason::NewIncomingBundle { .. } => Dispatch::ProcessInbox(notification.chain_id),
        _ => Dispatch::Forward(notification),
    }
}

/// A subscription to the notifications of one chain.
#[derive(Clone, Copy, Debug, PartialEq, Eq)]
pub struct NotificationDispatcher {
    chain: ChainId,
    listening: bool,
}

impl NotificationDispatcher {
    /// The chain subscribed to.
    pub closed spec fn chain_spec(&self) -> ChainId {
        self.chain
    }

    /// Whether the subscription is still listening.
    pub closed spec fn is_listening(&self) -> bool {
        self.listening
    }

    /// What the caller is to do on `event` while listening.
    pub open spec fn dispatch_spec(event: StreamEvent) -> Dispatch {
        match event {
            StreamEvent::Received(notification) => route_spec(notification),
            StreamEvent::HandlerFailed => Dispatch::LogAndContinue,
            StreamEvent::Closed => Dispatch::Stop,
        }
    }

    /// Subscribes to the notifications of `chain`.
    pub fn subscribe(chain: ChainId) -> (dispatcher: NotificationDispatcher)
        ensures
            dispatcher.chain_spec() == chain,
            dispatcher.is_listening(),
    {
        NotificationDispatcher { chain, listening: true }
    }

    /// The chain subscribed to.
    pub fn chain(&self) -> (chain: ChainId)
        ensures
            chain == self.chain_spec(),
    {
        self.chain
    }

    /// Whether the subscription is still listening.
    pub fn listening(&self) -> (listening: bool)
        ensures
            listening == self.is_listening(),
    {
        self.listening
    }

    /// Takes in what the subscription yields and says what to do. Only the
    /// closing of the stream ends the subscription: a handler's failure does
    /// not. Once the subscription has ended, every event is answered with
    /// `Stop`.
    pub fn on_event(&mut self, event: StreamEvent) -> (dispatch: Dispatch)
        ensures
            final(self).chain_spec() == old(self).chain_spec(),
            final(self).is_listening() == (old(self).is_listening() && !(event is Closed)),
            dispatch == if old(self).is_listening() {
                NotificationDispatcher::dispatch_spec(event)
            } else {
                Dispatch::Stop
            },
    {
        if !self.listening {
            return Dispatch::Stop;
        }
        match event {
            StreamEvent::Received(notification) => route(notification),
            StreamEvent::HandlerFailed => Dispatch::LogAndContinue,
            StreamEvent::Closed => {
                self.listening = false;
                Dispatch::Stop
            },
        }
    }
}

} // verus!
