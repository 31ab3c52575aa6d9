//! Channels: the logical streams that share one connection.

use crate::method::Method;
use std::collections::VecDeque;
use vstd::prelude::*;

verus! {

/// Where a channel stands.
#[derive(Clone, Copy, Debug, PartialEq, Eq, Structural)]
pub enum ChannelState {
    Initial,
    Connected,
    Closed,
    Error,
}

/// The state of one channel, and the methods that arrived for it and wait
/// to be handled.
#[derive(Clone, Debug, PartialEq)]
pub struct Channel {
    pub id: u16,
    pub state: ChannelState,
    pub received: VecDeque<Method>,
}

impl Channel {
    /// A channel with the given identifier, in its initial state.
    pub fn new(id: u16) -> (channel: Channel)
        ensures
            channel.id == id,
            channel.state == ChannelState::Initial,
            channel.received@ == Seq::<Method>::empty(),
    {
        Channel { id, state: ChannelState::Initial, received: VecDeque::new() }
    }

    /// The channel of identifier 0, which carries the connection's own
    /// methods.
    pub fn global() -> (channel: Channel)
        ensures
            channel.id == 0,
            channel.state == ChannelState::Initial,
            channel.received@ == Seq::<Method>::empty(),
    {
        Channel::new(0)
    }

    /// Takes a method that arrived for this channel. It is queued behind
    /// those that arrived before.
    pub fn received_method(&mut self, method: Method)
        ensures
            final(self).id == old(self).id,
            final(self).state == old(self).state,
            final(self).received@ == old(self).received@.push(method),
    {
        self.received.push_back(method);
    }

    /// Hands out the method that has waited longest, if any waits.
    pub fn next_method(&mut self) -> (method: Option<Method>)
        ensures
            final(self).id == old(self).id,
            final(self).state == old(self).state,
            old(self).received@.len() == 0 ==> method is None,
            old(self).received@.len() == 0 ==> final(self).received@ == old(self).received@,
            old(self).received@.len() > 0 ==> method == Some(old(self).received@[0]),
            old(self).received@.len() > 0 ==> final(self).received@ == old(self).received@.subrange(
                1,
                old(self).received@.len() as int,
            ),
    {
        self.received.pop_front()
    }
}

} // verus!
