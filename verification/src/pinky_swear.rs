//! A promise that is kept once: the awaiting half and the resolving half.
//!
//! The two halves are the ends of a channel of the standard library, so
//! that they can be owned and moved apart. What a poll finds depends on
//! what the holder of the other half has done by then, and nothing is
//! claimed of it.

use crate::message::Confirmation;
use std::sync::mpsc::{Receiver, Sender};
use vstd::prelude::*;

verus! {

/// The sending end of a standard channel. Nothing is known of a value of
/// it.
#[verifier::external_type_specification]
#[verifier::external_body]
#[verifier::reject_recursive_types(T)]
pub struct ExSender<T>(Sender<T>);

/// The receiving end of a standard channel. Nothing is known of a value of
/// it.
#[verifier::external_type_specification]
#[verifier::external_body]
#[verifier::reject_recursive_types(T)]
pub struct ExReceiver<T>(Receiver<T>);

/// The awaiting half of a promise of a confirmation.
#[derive(Debug)]
pub struct PinkySwear {
    receiver: Receiver<Confirmation>,
}

/// The resolving half of a promise of a confirmation. Resolving uses the
/// half up, so a promise is resolved at most once.
#[derive(Debug)]
pub struct PinkyBroadcaster {
    sender: Sender<Confirmation>,
}

/// Calls `std::sync::mpsc::channel`. Nothing is claimed of the two ends.
#[verifier::external_body]
fn channel() -> (ends: (Sender<Confirmation>, Receiver<Confirmation>)) {
    std::sync::mpsc::channel()
}

/// Calls `Sender::send`. A send to a receiver that is gone is lost;
/// nothing is claimed.
#[verifier::external_body]
fn send(sender: &Sender<Confirmation>, confirmation: Confirmation) {
    let _ = sender.send(confirmation);
}

/// Calls `Receiver::try_recv`, which does not block. Nothing is claimed of
/// what it finds.
#[verifier::external_body]
fn try_recv(receiver: &Receiver<Confirmation>) -> (found: Option<Confirmation>) {
    match receiver.try_recv() {
        Ok(confirmation) => Some(confirmation),
        Err(_) => None,
    }
}

impl PinkySwear {
    /// A promise that is not resolved yet, and the half that resolves it.
    pub fn new() -> (halves: (PinkySwear, PinkyBroadcaster)) {
        let (sender, receiver) = channel();
        (PinkySwear { receiver }, PinkyBroadcaster { sender })
    }

    /// The confirmation, if the promise has been resolved and the
    /// confirmation has not been taken yet. Never blocks.
    pub fn try_wait(&self) -> (confirmation: Option<Confirmation>) {
        try_recv(&self.receiver)
    }
}

impl PinkyBroadcaster {
    /// Resolves the promise.
    pub fn swear(self, confirmation: Confirmation) {
        send(&self.sender, confirmation);
    }
}

} // verus!
