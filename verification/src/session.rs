//! One open program as its caller sees it: the end of the channel that
//! feeds the program and the end of the channel that it writes to.
//!
//! What the other ends do is not known here. The contracts of
//! [`BrainfuckEntry::push_input`] and [`BrainfuckEntry::drain_output`] state
//! what holds whatever the channels answer; [`after_poll`],
//! [`store_polled`], [`after_push`] and [`after_refusal`] say what each
//! answer leads to.

use crate::channel::{poll_byte, send_byte, Polled};
use crate::error::SchemeError;
use std::sync::mpsc::{Receiver, Sender};
use vstd::prelude::*;

verus! {

/// What a read does after one poll of the output channel.
#[derive(Clone, Copy, Debug, PartialEq, Eq, Structural)]
pub enum DrainStep {
    /// Store this byte and go on.
    Store(u8),
    /// Return this many bytes.
    Finish(usize),
    /// Nothing was read and the program may still write: try again later.
    WouldBlock,
}

/// What a poll leads to once `filled` bytes were read: a byte is stored; an
/// empty channel ends the read, as "would block" where nothing was read so
/// far; a closed channel ends it with what was read, be it nothing.
pub open spec fn drain_step(filled: usize, polled: Polled) -> DrainStep {
    match polled {
        Polled::Byte(byte) => DrainStep::Store(byte),
        Polled::Empty => if filled == 0 {
            DrainStep::WouldBlock
        } else {
            DrainStep::Finish(filled)
        },
        Polled::Closed => DrainStep::Finish(filled),
    }
}

/// Decides how a read goes on after the poll `polled`, with `filled` bytes
/// read so far.
pub fn after_poll(filled: usize, polled: Polled) -> (step: DrainStep)
    ensures
        step == drain_step(filled, polled),
{
    match polled {
        Polled::Byte(byte) => DrainStep::Store(byte),
        Polled::Empty => {
            if filled == 0 {
                DrainStep::WouldBlock
            } else {
                DrainStep::Finish(filled)
            }
        },
        Polled::Closed => DrainStep::Finish(filled),
    }
}

/// The buffer after one poll with `filled` bytes read so far: a polled byte
/// stands at index `filled`, and nothing else has changed.
pub open spec fn stored(buf: Seq<u8>, filled: usize, polled: Polled) -> Seq<u8> {
    match polled {
        Polled::Byte(byte) => buf.update(filled as int, byte),
        _ => buf,
    }
}

/// How a read goes on after one poll.
#[derive(Clone, Copy, Debug, PartialEq, Eq)]
pub enum ReadStep {
    /// This many bytes are read and there is room for more.
    Continue(usize),
    /// The read is over and returns this.
    Finish(Result<usize, SchemeError>),
}

/// What a poll leads to in a read into a buffer of `len` bytes of which
/// `filled` were read before: a byte that fills the buffer ends the read
/// with `len`, another byte lets it go on behind that byte; an empty
/// channel ends it with the count so far, as "would block" where that is
/// zero; a closed channel ends it with the count so far, be it zero.
pub open spec fn read_step(len: usize, filled: usize, polled: Polled) -> ReadStep {
    match drain_step(filled, polled) {
        DrainStep::Store(_) => if filled + 1 == len {
            ReadStep::Finish(Ok(len))
        } else {
            ReadStep::Continue((filled + 1) as usize)
        },
        DrainStep::Finish(count) => ReadStep::Finish(Ok(count)),
        DrainStep::WouldBlock => ReadStep::Finish(Err(SchemeError::WouldBlock)),
    }
}

/// Carries out what the poll `polled` leads to, with `filled` bytes read so
/// far: stores a polled byte behind them, and says how the read goes on.
pub fn store_polled(buf: &mut [u8], filled: usize, polled: Polled) -> (step: ReadStep)
    requires
        filled < old(buf)@.len(),
    ensures
        step == read_step(old(buf)@.len() as usize, filled, polled),
        final(buf)@ == stored(old(buf)@, filled, polled),
{
    match after_poll(filled, polled) {
        DrainStep::Store(byte) => {
            buf[filled] = byte;
            if filled + 1 == buf.len() {
                ReadStep::Finish(Ok(buf.len()))
            } else {
                ReadStep::Continue(filled + 1)
            }
        },
        DrainStep::Finish(count) => ReadStep::Finish(Ok(count)),
        DrainStep::WouldBlock => ReadStep::Finish(Err(SchemeError::WouldBlock)),
    }
}

/// What a write returns once the channel refused a byte after taking
/// `accepted` of them: their number, or an error where it took none.
pub open spec fn refusal_result(accepted: usize) -> Result<usize, SchemeError> {
    if accepted == 0 {
        Err(SchemeError::NoSuchHandle)
    } else {
        Ok(accepted)
    }
}

/// Decides what a write returns once the channel refused a byte after
/// taking `accepted` of them.
pub fn after_refusal(accepted: usize) -> (result: Result<usize, SchemeError>)
    ensures
        result == refusal_result(accepted),
{
    if accepted == 0 {
        Err(SchemeError::NoSuchHandle)
    } else {
        Ok(accepted)
    }
}

/// How a write goes on after one send.
#[derive(Clone, Copy, Debug, PartialEq, Eq)]
pub enum PushStep {
    /// This many bytes are sent and more are to be sent.
    Continue(usize),
    /// The write is over and returns this.
    Finish(Result<usize, SchemeError>),
}

/// What the answer to a send leads to, in a write of `len` bytes of which
/// `sent` were taken before: a refusal ends the write with the count so
/// far, as an error where that is zero; a byte that was taken ends it with
/// `len` where it was the last one, and otherwise the write goes on behind
/// it.
pub open spec fn push_step(len: usize, sent: usize, accepted: bool) -> PushStep {
    if !accepted {
        PushStep::Finish(refusal_result(sent))
    } else if sent + 1 == len {
        PushStep::Finish(Ok(len))
    } else {
        PushStep::Continue((sent + 1) as usize)
    }
}

/// Decides how a write of `len` bytes goes on after the send of the byte at
/// index `sent` was `accepted` or not.
pub fn after_push(len: usize, sent: usize, accepted: bool) -> (step: PushStep)
    requires
        sent < len,
    ensures
        step == push_step(len, sent, accepted),
{
    if !accepted {
        PushStep::Finish(after_refusal(sent))
    } else if sent + 1 == len {
        PushStep::Finish(Ok(len))
    } else {
        PushStep::Continue(sent + 1)
    }
}

/// What holds of a write of `buf` that returned `result`, whatever the
/// channel answered: the count is at most the length of `buf` and is zero
/// only for an empty `buf`; the one error is `NoSuchHandle`, and an empty
/// `buf` never gives it.
pub open spec fn push_outcome(buf: Seq<u8>, result: Result<usize, SchemeError>) -> bool {
    match result {
        Ok(count) => count <= buf.len() && (count == 0 ==> buf.len() == 0),
        Err(error) => error == SchemeError::NoSuchHandle && buf.len() > 0,
    }
}

/// What holds of a read into a buffer that held `before` and holds `after`
/// and that returned `result`, whatever the channel answered: the buffer
/// keeps its length, and its contents from the count on; the one error is
/// `WouldBlock`, which leaves the buffer as it was; an empty buffer gives
/// `Ok(0)`.
pub open spec fn drain_outcome(
    before: Seq<u8>,
    after: Seq<u8>,
    result: Result<usize, SchemeError>,
) -> bool {
    &&& after.len() == before.len()
    &&& match result {
        Ok(count) => count <= before.len() && forall|k: int|
            count <= k < before.len() ==> after[k] == before[k],
        Err(error) => error == SchemeError::WouldBlock && before.len() > 0 && after == before,
    }
    &&& before.len() == 0 ==> result == Ok::<usize, SchemeError>(0)
}

/// The caller's ends of the two channels of one running program.
pub struct BrainfuckEntry {
    /// Where the program's input is sent.
    pub input_channel: Sender<u8>,
    /// Where the program's output arrives.
    pub output_channel: Receiver<u8>,
}

impl BrainfuckEntry {
    /// Sends the bytes of `buf` to the program, in order, until all are
    /// sent or the channel refuses one, which it does for good once the
    /// program has stopped.
    ///
    /// Returns how many bytes were sent: the length of `buf` where every
    /// byte was taken, as [`after_push`] decides after each send. Where the
    /// channel refused the first byte the result is `NoSuchHandle`. An
    /// empty `buf` gives `Ok(0)`.
    pub fn push_input(&self, buf: &[u8]) -> (result: Result<usize, SchemeError>)
        ensures
            push_outcome(buf@, result),
    {
        let len = buf.len();
        if len == 0 {
            return Ok(0);
        }
        let mut i: usize = 0;
        loop
            invariant
                len == buf@.len(),
                i < len,
            decreases len - i,
        {
            match after_push(len, i, send_byte(&self.input_channel, buf[i])) {
                PushStep::Continue(sent) => {
                    i = sent;
                },
                PushStep::Finish(result) => {
                    return result;
                },
            }
        }
    }

    /// Gives up both channel ends. The program finds its input closed at
    /// its next `,`, also at one at which it is waiting, and its output
    /// closed at its next `.`.
    pub fn close(self) {
    }

    /// Moves the bytes that the program has written so far into `buf`, in
    /// the order in which it wrote them, until `buf` is full or nothing
    /// more is waiting. Never waits.
    ///
    /// Returns how many bytes were stored, as [`store_polled`] decides
    /// after each poll; they stand at the front of `buf`, and the rest of
    /// `buf` is as before. Where nothing was waiting
    /// and the program may still write, the result is `WouldBlock` and
    /// `buf` is as before. `Ok(0)` comes only for an empty `buf` or once
    /// the program's end of the channel is closed.
    pub fn drain_output(&self, buf: &mut [u8]) -> (result: Result<usize, SchemeError>)
        ensures
            drain_outcome(old(buf)@, final(buf)@, result),
    {
        let len = buf.len();
        if len == 0 {
            return Ok(0);
        }
        let mut i: usize = 0;
        loop
            invariant
                len == buf@.len(),
                buf@.len() == old(buf)@.len(),
                i < len,
                i == 0 ==> buf@ == old(buf)@,
                forall|k: int| i <= k < buf@.len() ==> buf@[k] == old(buf)@[k],
            decreases len - i,
        {
            match store_polled(buf, i, poll_byte(&self.output_channel)) {
                ReadStep::Continue(filled) => {
                    i = filled;
                },
                ReadStep::Finish(result) => {
                    return result;
                },
            }
        }
    }
}

} // verus!
