//! Returned messages: assembling them, and matching them with publisher
//! confirms.
//!
//! Returns and confirms are two streams that tell of the same publishes
//! and arrive in either order. A return without a confirm waits in one
//! queue, a confirm without a return in another; whichever comes second
//! claims the oldest of the other kind. Promises that nobody awaits any
//! more are polled when the finished messages are drained.

use crate::message::{BasicProperties, BasicReturnMessage, Confirmation};
use crate::pinky_swear::{PinkyBroadcaster, PinkySwear};
use std::collections::VecDeque;
use vstd::prelude::*;

verus! {

/// A returned message and the confirm that it resolves.
#[derive(Debug)]
pub struct Claim {
    pub broadcaster: PinkyBroadcaster,
    pub message: BasicReturnMessage,
}

/// The bookkeeping of returned messages for one channel.
#[derive(Debug)]
pub struct Inner {
    current_message: Option<BasicReturnMessage>,
    waiting_messages: VecDeque<BasicReturnMessage>,
    messages: Vec<BasicReturnMessage>,
    dropped_confirms: VecDeque<PinkySwear>,
    pinkies: VecDeque<PinkyBroadcaster>,
}

/// What an `Inner` holds.
pub struct InnerView {
    /// The message that is being assembled.
    pub current_message: Option<BasicReturnMessage>,
    /// Finished returns that no confirm has claimed, oldest first.
    pub waiting_messages: Seq<BasicReturnMessage>,
    /// Messages ready to be drained, oldest first.
    pub messages: Seq<BasicReturnMessage>,
    /// Promises that nobody awaits and that were unresolved when last
    /// polled, oldest first.
    pub dropped_confirms: Seq<PinkySwear>,
    /// Confirms that wait for a return, oldest first.
    pub pinkies: Seq<PinkyBroadcaster>,
}

/// The messages of the confirmations that are a `Nack`, in order.
pub open spec fn nacked(polled: Seq<Option<Confirmation>>) -> Seq<BasicReturnMessage>
    decreases polled.len(),
{
    if polled.len() == 0 {
        Seq::empty()
    } else {
        match polled.last() {
            Some(Confirmation::Nack(message)) => nacked(polled.drop_last()).push(message),
            _ => nacked(polled.drop_last()),
        }
    }
}

/// The promises whose poll found nothing, in order.
pub open spec fn unresolved(promises: Seq<PinkySwear>, polled: Seq<Option<Confirmation>>) -> Seq<
    PinkySwear,
>
    decreases promises.len(),
{
    if promises.len() == 0 || polled.len() == 0 {
        Seq::empty()
    } else if polled.last() is None {
        unresolved(promises.drop_last(), polled.drop_last()).push(promises.last())
    } else {
        unresolved(promises.drop_last(), polled.drop_last())
    }
}

impl InnerView {
    /// Returns wait only while no confirm waits, and confirms only while
    /// no return waits.
    pub open spec fn wf(self) -> bool {
        self.waiting_messages.len() == 0 || self.pinkies.len() == 0
    }

    /// Nothing assembled, nothing waiting.
    pub open spec fn empty() -> InnerView {
        InnerView {
            current_message: None,
            waiting_messages: Seq::empty(),
            messages: Seq::empty(),
            dropped_confirms: Seq::empty(),
            pinkies: Seq::empty(),
        }
    }

    /// A new message starts; one that was unfinished is given up.
    pub open spec fn start(self, message: BasicReturnMessage) -> InnerView {
        InnerView {
            current_message: Some(message),
            waiting_messages: self.waiting_messages,
            messages: self.messages,
            dropped_confirms: self.dropped_confirms,
            pinkies: self.pinkies,
        }
    }

    /// The message in assembly is finished. It resolves the confirm that
    /// has waited longest, or waits itself.
    pub open spec fn complete(self) -> (InnerView, Option<Claim>) {
        match self.current_message {
            None => (self, None),
            Some(message) => if self.pinkies.len() > 0 {
                (
                    InnerView {
                        current_message: None,
                        waiting_messages: self.waiting_messages,
                        messages: self.messages,
                        dropped_confirms: self.dropped_confirms,
                        pinkies: self.pinkies.subrange(1, self.pinkies.len() as int),
                    },
                    Some(Claim { broadcaster: self.pinkies[0], message }),
                )
            } else {
                (
                    InnerView {
                        current_message: None,
                        waiting_messages: self.waiting_messages.push(message),
                        messages: self.messages,
                        dropped_confirms: self.dropped_confirms,
                        pinkies: self.pinkies,
                    },
                    None,
                )
            },
        }
    }

    /// A confirm is registered. It is resolved by the return that has
    /// waited longest, or waits itself.
    pub open spec fn register(self, pinky: PinkyBroadcaster) -> (InnerView, Option<Claim>) {
        if self.waiting_messages.len() > 0 {
            (
                InnerView {
                    current_message: self.current_message,
                    waiting_messages: self.waiting_messages.subrange(
                        1,
                        self.waiting_messages.len() as int,
                    ),
                    messages: self.messages,
                    dropped_confirms: self.dropped_confirms,
                    pinkies: self.pinkies,
                },
                Some(Claim { broadcaster: pinky, message: self.waiting_messages[0] }),
            )
        } else {
            (
                InnerView {
                    current_message: self.current_message,
                    waiting_messages: self.waiting_messages,
                    messages: self.messages,
                    dropped_confirms: self.dropped_confirms,
                    pinkies: self.pinkies.push(pinky),
                },
                None,
            )
        }
    }

    /// A promise that nobody awaits any more is handed in, with what a
    /// poll of it found: a returned message is kept for the next drain, an
    /// acknowledgement is forgotten, an unresolved promise is kept.
    pub open spec fn dropped(self, promise: PinkySwear, polled: Option<Confirmation>) -> InnerView {
        match polled {
            Some(Confirmation::Nack(message)) => InnerView {
                current_message: self.current_message,
                waiting_messages: self.waiting_messages,
                messages: self.messages.push(message),
                dropped_confirms: self.dropped_confirms,
                pinkies: self.pinkies,
            },
            Some(Confirmation::Ack) => self,
            None => InnerView {
                current_message: self.current_message,
                waiting_messages: self.waiting_messages,
                messages: self.messages,
                dropped_confirms: self.dropped_confirms.push(promise),
                pinkies: self.pinkies,
            },
        }
    }

    /// The messages are handed out, after those that the kept promises
    /// have meanwhile been resolved with; `polled` is what the poll of
    /// each kept promise found. Promises still unresolved stay.
    pub open spec fn drain(self, polled: Seq<Option<Confirmation>>) -> (
        InnerView,
        Seq<BasicReturnMessage>,
    ) {
        (
            InnerView {
                current_message: self.current_message,
                waiting_messages: self.waiting_messages,
                messages: Seq::empty(),
                dropped_confirms: unresolved(self.dropped_confirms, polled),
                pinkies: self.pinkies,
            },
            self.messages + nacked(polled),
        )
    }
}

impl View for Inner {
    type V = InnerView;

    closed spec fn view(&self) -> InnerView {
        InnerView {
            current_message: self.current_message,
            waiting_messages: self.waiting_messages@,
            messages: self.messages@,
            dropped_confirms: self.dropped_confirms@,
            pinkies: self.pinkies@,
        }
    }
}

impl Default for Inner {
    fn default() -> (inner: Inner)
        ensures
            inner@ == InnerView::empty(),
    {
        Inner::new()
    }
}

impl Claim {
    /// Resolves the confirm with the returned message.
    pub fn settle(self) {
        self.broadcaster.swear(Confirmation::Nack(self.message));
    }
}

impl Inner {
    /// The bookkeeping with nothing in it.
    pub fn new() -> (inner: Inner)
        ensures
            inner@ == InnerView::empty(),
            inner@.wf(),
    {
        Inner {
            current_message: None,
            waiting_messages: VecDeque::new(),
            messages: Vec::new(),
            dropped_confirms: VecDeque::new(),
            pinkies: VecDeque::new(),
        }
    }

    /// Starts the assembly of a returned message. A message that was still
    /// in assembly is given up.
    pub fn start_new_delivery(&mut self, message: BasicReturnMessage)
        ensures
            final(self)@ == old(self)@.start(message),
    {
        self.current_message = Some(message);
    }

    /// Sets the properties of the message in assembly. Without one,
    /// nothing happens.
    pub fn set_delivery_properties(&mut self, properties: BasicProperties)
        ensures
            final(self)@.waiting_messages == old(self)@.waiting_messages,
            final(self)@.messages == old(self)@.messages,
            final(self)@.dropped_confirms == old(self)@.dropped_confirms,
            final(self)@.pinkies == old(self)@.pinkies,
            final(self)@.current_message == match old(self)@.current_message {
                Some(message) => Some(message.with_properties(properties)),
                None => None,
            },
    {
        match self.current_message.take() {
            Some(message) => {
                let mut message = message;
                message.delivery.properties = properties;
                self.current_message = Some(message);
            },
            None => {},
        }
    }

    /// Adds content behind the payload of the message in assembly.
    /// Without one, nothing happens.
    pub fn receive_delivery_content(&mut self, data: Vec<u8>)
        ensures
            final(self)@.waiting_messages == old(self)@.waiting_messages,
            final(self)@.messages == old(self)@.messages,
            final(self)@.dropped_confirms == old(self)@.dropped_confirms,
            final(self)@.pinkies == old(self)@.pinkies,
            match old(self)@.current_message {
                Some(message) => final(self)@.current_message is Some && message.extended_by(
                    data@,
                    final(self)@.current_message.unwrap(),
                ),
                None => final(self)@.current_message is None,
            },
    {
        match self.current_message.take() {
            Some(message) => {
                let mut message = message;
                let mut data = data;
                message.delivery.data.append(&mut data);
                self.current_message = Some(message);
            },
            None => {},
        }
    }

    /// Finishes the message in assembly and decides what becomes of it:
    /// the claim of the confirm that has waited longest, or a place in the
    /// queue of waiting returns.
    pub fn complete_delivery(&mut self) -> (claim: Option<Claim>)
        ensures
            (final(self)@, claim) == old(self)@.complete(),
            old(self)@.wf() ==> final(self)@.wf(),
    {
        match self.current_message.take() {
            Some(message) => {
                match self.pinkies.pop_front() {
                    Some(pinky) => Some(Claim { broadcaster: pinky, message }),
                    None => {
                        self.waiting_messages.push_back(message);
                        None
                    },
                }
            },
            None => None,
        }
    }

    /// Finishes the message in assembly. If a confirm waits, the one that
    /// has waited longest is resolved with the message; else the message
    /// waits for a confirm.
    pub fn new_delivery_complete(&mut self)
        ensures
            final(self)@ == old(self)@.complete().0,
            old(self)@.wf() ==> final(self)@.wf(),
    {
        match self.complete_delivery() {
            Some(claim) => {
                claim.settle();
            },
            None => {},
        }
    }

    /// Takes a confirm and decides what becomes of it: the claim of the
    /// return that has waited longest, or a place in the queue of waiting
    /// confirms.
    pub fn claim_return(&mut self, pinky: PinkyBroadcaster) -> (claim: Option<Claim>)
        ensures
            (final(self)@, claim) == old(self)@.register(pinky),
            old(self)@.wf() ==> final(self)@.wf(),
    {
        match self.waiting_messages.pop_front() {
            Some(message) => Some(Claim { broadcaster: pinky, message }),
            None => {
                self.pinkies.push_back(pinky);
                None
            },
        }
    }

    /// Registers a confirm. If a return waits, the confirm is resolved at
    /// once with the one that has waited longest; else the confirm waits
    /// for a return.
    pub fn register_pinky(&mut self, pinky: PinkyBroadcaster)
        ensures
            final(self)@ == old(self)@.register(pinky).0,
            old(self)@.wf() ==> final(self)@.wf(),
    {
        match self.claim_return(pinky) {
            Some(claim) => {
                claim.settle();
            },
            None => {},
        }
    }

    /// Takes a promise that nobody awaits any more, with what a poll of
    /// it found.
    pub fn record_dropped_confirm(&mut self, promise: PinkySwear, polled: Option<Confirmation>)
        ensures
            final(self)@ == old(self)@.dropped(promise, polled),
    {
        match polled {
            Some(Confirmation::Nack(message)) => {
                self.messages.push(message);
            },
            Some(Confirmation::Ack) => {},
            None => {
                self.dropped_confirms.push_back(promise);
            },
        }
    }

    /// Takes a promise that nobody awaits any more and polls it once.
    pub fn register_dropped_confirm(&mut self, promise: PinkySwear)
        ensures
            exists|polled: Option<Confirmation>|
                final(self)@ == #[trigger] old(self)@.dropped(promise, polled),
    {
        let polled = promise.try_wait();
        self.record_dropped_confirm(promise, polled);
    }

    /// Hands out the messages that are ready, after polling each kept
    /// promise once: the messages of those resolved meanwhile come last,
    /// and those still unresolved are kept for the next drain. A promise
    /// that never resolves is kept for ever.
    pub fn drain(&mut self) -> (messages: Vec<BasicReturnMessage>)
        ensures
            exists|polled: Seq<Option<Confirmation>>|
                polled.len() == old(self)@.dropped_confirms.len() && (final(self)@, messages@)
                    == #[trigger] old(self)@.drain(polled),
    {
        let mut messages: Vec<BasicReturnMessage> = Vec::new();
        core::mem::swap(&mut messages, &mut self.messages);
        let ghost promises = self.dropped_confirms@;
        let ghost mut polled: Seq<Option<Confirmation>> = Seq::empty();
        let count: usize = self.dropped_confirms.len();
        let mut i: usize = 0;
        while i < count
            invariant
                i <= count == promises.len(),
                polled.len() == i,
                self.current_message == old(self).current_message,
                self.waiting_messages == old(self).waiting_messages,
                self.pinkies == old(self).pinkies,
                self.messages@ == Seq::<BasicReturnMessage>::empty(),
                promises == old(self).dropped_confirms@,
                self.dropped_confirms@ == promises.subrange(i as int, count as int) + unresolved(
                    promises.subrange(0, i as int),
                    polled,
                ),
                messages@ == old(self).messages@ + nacked(polled),
            decreases count - i,
        {
            let promise = self.dropped_confirms.pop_front().unwrap();
            assert(promise == promises[i as int]);
            let answer = promise.try_wait();
            proof {
                let step = polled.push(answer);
                assert(step.drop_last() =~= polled);
                assert(promises.subrange(0, i + 1).drop_last() =~= promises.subrange(0, i as int));
                polled = step;
            }
            match answer {
                Some(Confirmation::Nack(message)) => {
                    messages.push(message);
                },
                Some(Confirmation::Ack) => {},
                None => {
                    self.dropped_confirms.push_back(promise);
                },
            }
            i = i + 1;
            assert(self.dropped_confirms@ =~= promises.subrange(i as int, count as int)
                + unresolved(promises.subrange(0, i as int), polled));
            assert(messages@ =~= old(self).messages@ + nacked(polled));
        }
        proof {
            assert(promises.subrange(0, count as int) =~= promises);
            assert(self.dropped_confirms@ =~= unresolved(promises, polled));
            assert((self@, messages@) == old(self)@.drain(polled));
        }
        messages
    }
}

/// One thing that the broker's two streams bring.
pub enum Event {
    /// A returned message arrived whole.
    Returned(BasicReturnMessage),
    /// A confirm was registered.
    Registered(PinkyBroadcaster),
}

/// The bookkeeping after a run of events, and the claims that the run
/// made, oldest first.
pub struct Ledger {
    pub state: InnerView,
    pub claims: Seq<Claim>,
}

/// What one event does: a return is started and completed, a confirm is
/// registered.
pub open spec fn step(state: InnerView, event: Event) -> (InnerView, Option<Claim>) {
    match event {
        Event::Returned(message) => state.start(message).complete(),
        Event::Registered(pinky) => state.register(pinky),
    }
}

/// What a run of events does, one after the other.
pub open spec fn run(start: InnerView, events: Seq<Event>) -> Ledger
    decreases events.len(),
{
    if events.len() == 0 {
        Ledger { state: start, claims: Seq::empty() }
    } else {
        let before = run(start, events.drop_last());
        let (state, claim) = step(before.state, events.last());
        Ledger {
            state,
            claims: match claim {
                Some(made) => before.claims.push(made),
                None => before.claims,
            },
        }
    }
}

/// The returned messages among the events, in order.
pub open spec fn returns_of(events: Seq<Event>) -> Seq<BasicReturnMessage>
    decreases events.len(),
{
    if events.len() == 0 {
        Seq::empty()
    } else {
        match events.last() {
            Event::Returned(message) => returns_of(events.drop_last()).push(message),
            Event::Registered(pinky) => returns_of(events.drop_last()),
        }
    }
}

/// The registered confirms among the events, in order.
pub open spec fn confirms_of(events: Seq<Event>) -> Seq<PinkyBroadcaster>
    decreases events.len(),
{
    if events.len() == 0 {
        Seq::empty()
    } else {
        match events.last() {
            Event::Returned(message) => confirms_of(events.drop_last()),
            Event::Registered(pinky) => confirms_of(events.drop_last()).push(pinky),
        }
    }
}

/// The messages of the claims, in order.
pub open spec fn messages_of(claims: Seq<Claim>) -> Seq<BasicReturnMessage> {
    Seq::new(claims.len(), |i: int| claims[i].message)
}

/// The confirms of the claims, in order.
pub open spec fn broadcasters_of(claims: Seq<Claim>) -> Seq<PinkyBroadcaster> {
    Seq::new(claims.len(), |i: int| claims[i].broadcaster)
}

/// The events of returns arriving one after the other.
pub open spec fn arrivals(messages: Seq<BasicReturnMessage>) -> Seq<Event> {
    Seq::new(messages.len(), |i: int| Event::Returned(messages[i]))
}

/// The events of confirms being registered one after the other.
pub open spec fn registrations(pinkies: Seq<PinkyBroadcaster>) -> Seq<Event> {
    Seq::new(pinkies.len(), |i: int| Event::Registered(pinkies[i]))
}

/// What each claim resolves its confirm with.
pub open spec fn resolutions(claims: Seq<Claim>) -> Seq<Option<Confirmation>> {
    Seq::new(claims.len(), |i: int| Some(Confirmation::Nack(claims[i].message)))
}

/// The bookkeeping after promises that nobody awaits were handed in one
/// by one, with what the poll of each found.
pub open spec fn handed_in(
    state: InnerView,
    promises: Seq<PinkySwear>,
    polled: Seq<Option<Confirmation>>,
) -> InnerView
    decreases promises.len(),
{
    if promises.len() == 0 || polled.len() == 0 {
        state
    } else {
        handed_in(state, promises.drop_last(), polled.drop_last()).dropped(
            promises.last(),
            polled.last(),
        )
    }
}

/// For any interleaving of returns and confirms, none is lost and none is
/// used twice: the returns that waited and those that arrived are, in
/// order, the claimed ones followed by those that wait now, and so are
/// the confirms. So the first claim pairs the oldest return with the
/// oldest confirm, the second the next two, and so on; and never do a
/// return and a confirm wait at once.
pub proof fn lemma_returns_and_confirms_pair_up(start: InnerView, events: Seq<Event>)
    requires
        start.wf(),
    ensures
        run(start, events).state.wf(),
        start.waiting_messages + returns_of(events) == messages_of(run(start, events).claims)
            + run(start, events).state.waiting_messages,
        start.pinkies + confirms_of(events) == broadcasters_of(run(start, events).claims) + run(
            start,
            events,
        ).state.pinkies,
        run(start, events).state.messages == start.messages,
        run(start, events).state.dropped_confirms == start.dropped_confirms,
    decreases events.len(),
{
    let after = run(start, events);
    if events.len() == 0 {
        assert(start.waiting_messages + returns_of(events) =~= messages_of(after.claims)
            + after.state.waiting_messages);
        assert(start.pinkies + confirms_of(events) =~= broadcasters_of(after.claims)
            + after.state.pinkies);
    } else {
        let before = run(start, events.drop_last());
        lemma_returns_and_confirms_pair_up(start, events.drop_last());
        let waiting = before.state.waiting_messages;
        let pending = before.state.pinkies;
        let earlier_returns = start.waiting_messages + returns_of(events.drop_last());
        let earlier_confirms = start.pinkies + confirms_of(events.drop_last());
        assert(earlier_returns == messages_of(before.claims) + waiting);
        assert(earlier_confirms == broadcasters_of(before.claims) + pending);
        match events.last() {
            Event::Returned(message) => {
                assert(start.waiting_messages + returns_of(events) =~= earlier_returns.push(
                    message,
                ));
                assert(start.pinkies + confirms_of(events) =~= earlier_confirms);
                if pending.len() > 0 {
                    let made = Claim { broadcaster: pending[0], message };
                    assert(after.claims == before.claims.push(made));
                    assert(messages_of(after.claims) =~= messages_of(before.claims).push(message));
                    assert(broadcasters_of(after.claims) =~= broadcasters_of(before.claims).push(
                        pending[0],
                    ));
                    assert(after.state.pinkies == pending.subrange(1, pending.len() as int));
                    assert(after.state.waiting_messages == waiting);
                } else {
                    assert(after.claims == before.claims);
                    assert(after.state.waiting_messages == waiting.push(message));
                    assert(after.state.pinkies == pending);
                }
            },
            Event::Registered(pinky) => {
                assert(start.waiting_messages + returns_of(events) =~= earlier_returns);
                assert(start.pinkies + confirms_of(events) =~= earlier_confirms.push(pinky));
                if waiting.len() > 0 {
                    let made = Claim { broadcaster: pinky, message: waiting[0] };
                    assert(after.claims == before.claims.push(made));
                    assert(messages_of(after.claims) =~= messages_of(before.claims).push(
                        waiting[0],
                    ));
                    assert(broadcasters_of(after.claims) =~= broadcasters_of(before.claims).push(
                        pinky,
                    ));
                    assert(after.state.waiting_messages == waiting.subrange(
                        1,
                        waiting.len() as int,
                    ));
                    assert(after.state.pinkies == pending);
                } else {
                    assert(after.claims == before.claims);
                    assert(after.state.pinkies == pending.push(pinky));
                    assert(after.state.waiting_messages == waiting);
                }
            },
        }
        assert(start.waiting_messages + returns_of(events) =~= messages_of(after.claims)
            + after.state.waiting_messages);
        assert(start.pinkies + confirms_of(events) =~= broadcasters_of(after.claims)
            + after.state.pinkies);
    }
}

/// A run of returns holds just these returns, and one of confirms just
/// these confirms.
pub proof fn lemma_one_kind_of_event(
    messages: Seq<BasicReturnMessage>,
    pinkies: Seq<PinkyBroadcaster>,
)
    ensures
        returns_of(arrivals(messages)) == messages,
        confirms_of(arrivals(messages)) == Seq::<PinkyBroadcaster>::empty(),
        returns_of(registrations(pinkies)) == Seq::<BasicReturnMessage>::empty(),
        confirms_of(registrations(pinkies)) == pinkies,
    decreases messages.len() + pinkies.len(),
{
    let none = Seq::<PinkyBroadcaster>::empty();
    let nothing = Seq::<BasicReturnMessage>::empty();
    if messages.len() > 0 {
        lemma_one_kind_of_event(messages.drop_last(), none);
        assert(arrivals(messages).drop_last() =~= arrivals(messages.drop_last()));
        assert(returns_of(arrivals(messages)) =~= messages);
    } else {
        assert(returns_of(arrivals(messages)) =~= messages);
    }
    if pinkies.len() > 0 {
        lemma_one_kind_of_event(nothing, pinkies.drop_last());
        assert(registrations(pinkies).drop_last() =~= registrations(pinkies.drop_last()));
        assert(confirms_of(registrations(pinkies)) =~= pinkies);
    } else {
        assert(confirms_of(registrations(pinkies)) =~= pinkies);
    }
}

/// Returns that no confirm claims wait, in the order they were
/// completed, and no drain hands them out.
pub proof fn lemma_unclaimed_returns_wait(
    messages: Seq<BasicReturnMessage>,
    polled: Seq<Option<Confirmation>>,
)
    ensures
        run(InnerView::empty(), arrivals(messages)).claims == Seq::<Claim>::empty(),
        run(InnerView::empty(), arrivals(messages)).state.waiting_messages == messages,
        run(InnerView::empty(), arrivals(messages)).state.pinkies == Seq::<
            PinkyBroadcaster,
        >::empty(),
        run(InnerView::empty(), arrivals(messages)).state.drain(polled).1 == nacked(polled),
{
    let after = run(InnerView::empty(), arrivals(messages));
    lemma_returns_and_confirms_pair_up(InnerView::empty(), arrivals(messages));
    lemma_one_kind_of_event(messages, Seq::<PinkyBroadcaster>::empty());
    assert(broadcasters_of(after.claims).len() == 0);
    assert(after.claims =~= Seq::<Claim>::empty());
    assert(after.state.waiting_messages =~= messages);
    assert(after.state.pinkies =~= Seq::<PinkyBroadcaster>::empty());
    assert(after.state.drain(polled).1 =~= nacked(polled));
}

/// Handing in promises one by one does what the sweep of a drain does:
/// the returned messages are kept in order, the unresolved promises too.
pub proof fn lemma_handed_in(
    state: InnerView,
    promises: Seq<PinkySwear>,
    polled: Seq<Option<Confirmation>>,
)
    requires
        promises.len() == polled.len(),
    ensures
        handed_in(state, promises, polled).messages == state.messages + nacked(polled),
        handed_in(state, promises, polled).dropped_confirms == state.dropped_confirms
            + unresolved(promises, polled),
        handed_in(state, promises, polled).current_message == state.current_message,
        handed_in(state, promises, polled).waiting_messages == state.waiting_messages,
        handed_in(state, promises, polled).pinkies == state.pinkies,
    decreases promises.len(),
{
    let after = handed_in(state, promises, polled);
    if promises.len() == 0 {
        assert(after.messages =~= state.messages + nacked(polled));
        assert(after.dropped_confirms =~= state.dropped_confirms + unresolved(promises, polled));
    } else {
        lemma_handed_in(state, promises.drop_last(), polled.drop_last());
        assert(after.messages =~= state.messages + nacked(polled));
        assert(after.dropped_confirms =~= state.dropped_confirms + unresolved(promises, polled));
    }
}

/// The messages that claims resolve their confirms with are the claimed
/// messages.
pub proof fn lemma_resolutions(claims: Seq<Claim>)
    ensures
        nacked(resolutions(claims)) == messages_of(claims),
    decreases claims.len(),
{
    if claims.len() > 0 {
        lemma_resolutions(claims.drop_last());
        assert(resolutions(claims).drop_last() =~= resolutions(claims.drop_last()));
        assert(nacked(resolutions(claims)) =~= messages_of(claims));
    } else {
        assert(nacked(resolutions(claims)) =~= messages_of(claims));
    }
}

/// Returned messages reach a drain through the confirms that claim them:
/// when as many confirms are registered as returns have waited, each
/// return resolves one confirm; and when those resolutions are found by
/// the polls of promises handed in as dropped, the next drain yields
/// exactly the returns, in the order they were completed.
pub proof fn lemma_claimed_returns_are_drained(
    messages: Seq<BasicReturnMessage>,
    pinkies: Seq<PinkyBroadcaster>,
    promises: Seq<PinkySwear>,
)
    requires
        messages.len() == pinkies.len() == promises.len(),
    ensures
        ({
            let waiting = run(InnerView::empty(), arrivals(messages)).state;
            let claimed = run(waiting, registrations(pinkies));
            let reported = handed_in(claimed.state, promises, resolutions(claimed.claims));
            &&& messages_of(claimed.claims) == messages
            &&& broadcasters_of(claimed.claims) == pinkies
            &&& claimed.state == InnerView::empty()
            &&& reported.drain(Seq::empty()) == (InnerView::empty(), messages)
        }),
{
    let nothing = Seq::<Option<Confirmation>>::empty();
    let waiting = run(InnerView::empty(), arrivals(messages)).state;
    let claimed = run(waiting, registrations(pinkies));
    let reported = handed_in(claimed.state, promises, resolutions(claimed.claims));
    lemma_unclaimed_returns_wait(messages, nothing);
    lemma_returns_and_confirms_pair_up(InnerView::empty(), arrivals(messages));
    lemma_returns_and_confirms_pair_up(waiting, registrations(pinkies));
    lemma_one_kind_of_event(messages, pinkies);
    assert(waiting.waiting_messages + returns_of(registrations(pinkies)) =~= messages);
    assert(waiting.pinkies + confirms_of(registrations(pinkies)) =~= pinkies);
    let parked = claimed.state.waiting_messages;
    let pending = claimed.state.pinkies;
    assert(messages.len() == messages_of(claimed.claims).len() + parked.len());
    assert(pinkies.len() == broadcasters_of(claimed.claims).len() + pending.len());
    assert(parked.len() == 0 && pending.len() == 0);
    assert(messages_of(claimed.claims) =~= messages);
    assert(broadcasters_of(claimed.claims) =~= pinkies);
    assert(claimed.state.waiting_messages =~= Seq::<BasicReturnMessage>::empty());
    assert(claimed.state.pinkies =~= Seq::<PinkyBroadcaster>::empty());
    lemma_run_keeps_assembly(InnerView::empty(), arrivals(messages));
    lemma_run_keeps_assembly(waiting, registrations(pinkies));
    lemma_one_kind_of_event(messages, pinkies);
    assert(claimed.state == InnerView::empty());
    lemma_handed_in(claimed.state, promises, resolutions(claimed.claims));
    lemma_resolutions(claimed.claims);
    assert(unresolved(promises, resolutions(claimed.claims)) =~= Seq::<PinkySwear>::empty()) by {
        lemma_all_resolved(promises, claimed.claims);
    }
    assert(reported.messages =~= messages);
    assert(reported.dropped_confirms =~= Seq::<PinkySwear>::empty());
    assert(unresolved(reported.dropped_confirms, nothing) =~= Seq::<PinkySwear>::empty());
    assert(reported.messages + nacked(nothing) =~= messages);
}

/// A run leaves no message in assembly if none was in assembly before.
proof fn lemma_run_keeps_assembly(start: InnerView, events: Seq<Event>)
    requires
        start.current_message is None,
    ensures
        run(start, events).state.current_message is None,
    decreases events.len(),
{
    if events.len() > 0 {
        lemma_run_keeps_assembly(start, events.drop_last());
    }
}

/// No promise is unresolved when each poll found a resolution.
proof fn lemma_all_resolved(promises: Seq<PinkySwear>, claims: Seq<Claim>)
    requires
        promises.len() == claims.len(),
    ensures
        unresolved(promises, resolutions(claims)) == Seq::<PinkySwear>::empty(),
    decreases promises.len(),
{
    if promises.len() > 0 {
        lemma_all_resolved(promises.drop_last(), claims.drop_last());
        assert(resolutions(claims).drop_last() =~= resolutions(claims.drop_last()));
    }
}

/// A promise that was resolved with an acknowledgement before it was
/// handed in leaves no trace, so no later drain can tell that it was
/// handed in at all.
pub proof fn lemma_acknowledged_confirm_leaves_no_trace(state: InnerView, promise: PinkySwear)
    ensures
        state.dropped(promise, Some(Confirmation::Ack)) == state,
{
}

/// A promise that was resolved with a returned message before it was
/// handed in gives that message to the next drain, behind the messages
/// that were ready before and ahead of those that the sweep finds.
pub proof fn lemma_returned_confirm_is_drained_next(
    state: InnerView,
    promise: PinkySwear,
    message: BasicReturnMessage,
    polled: Seq<Option<Confirmation>>,
)
    ensures
        state.dropped(promise, Some(Confirmation::Nack(message))).drain(polled).1
            == state.messages.push(message) + nacked(polled),
        state.dropped(promise, Some(Confirmation::Nack(message))).drain(polled).0 == state.drain(
            polled,
        ).0,
{
}

} // verus!
