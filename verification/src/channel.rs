//! The byte channels that connect a running program to its session.
//!
//! The channels are those of the standard library. Nothing is known here of
//! what the other end does, so the contracts below promise nothing of what a
//! call returns.

use std::sync::mpsc::{Receiver, Sender};
use vstd::prelude::*;

verus! {

/// `std::sync::mpsc::Receiver`, the receiving end of a channel. Nothing
/// inside it is visible here.
#[verifier::external_type_specification]
#[verifier::external_body]
#[verifier::reject_recursive_types(T)]
pub struct ExReceiver<T>(Receiver<T>);

/// `std::sync::mpsc::Sender`, the sending end of a channel. Nothing inside
/// it is visible here.
#[verifier::external_type_specification]
#[verifier::external_body]
#[verifier::reject_recursive_types(T)]
pub struct ExSender<T>(Sender<T>);

/// What a receive that does not wait found.
#[derive(Clone, Copy, Debug, PartialEq, Eq, Structural)]
pub enum Polled {
    /// A byte was waiting.
    Byte(u8),
    /// Nothing is waiting now; the sending end is still there.
    Empty,
    /// Nothing is waiting and the sending end is gone for good.
    Closed,
}

/// `Sender::send`: hands `byte` to the channel. The result is `true` where
/// the channel took it and `false` where the receiving end is gone; which of
/// the two happens is not stated.
#[verifier::external_body]
pub(crate) fn send_byte(channel: &Sender<u8>, byte: u8) -> (accepted: bool) {
    channel.send(byte).is_ok()
}

/// `Receiver::recv`: waits for the next byte. The result is `None` where the
/// channel is empty and the sending end is gone; nothing is stated of which
/// byte arrives. The call returns only once a byte has arrived or the
/// sending end is gone: with a sender that stays and stays silent it waits
/// for ever.
#[verifier::external_body]
pub(crate) fn recv_byte(channel: &Receiver<u8>) -> (byte: Option<u8>) {
    channel.recv().ok()
}

/// `Receiver::try_recv`: takes the next byte if one is waiting, without
/// waiting for one. Nothing is stated of which of the three outcomes
/// happens.
#[verifier::external_body]
pub(crate) fn poll_byte(channel: &Receiver<u8>) -> (polled: Polled) {
    match channel.try_recv() {
        Ok(byte) => Polled::Byte(byte),
        Err(std::sync::mpsc::TryRecvError::Empty) => Polled::Empty,
        Err(std::sync::mpsc::TryRecvError::Disconnected) => Polled::Closed,
    }
}

/// `std::sync::mpsc::channel`: a new unbounded channel of bytes, as its
/// sending and its receiving end.
#[verifier::external_body]
pub(crate) fn byte_channel() -> (ends: (Sender<u8>, Receiver<u8>)) {
    std::sync::mpsc::channel()
}

} // verus!
