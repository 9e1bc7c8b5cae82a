//! The events that flow through the scheduler.

use vstd::prelude::*;

verus! {

/// Status byte of a note-on message on the first channel. Only this exact
/// value marks an event as the start of a note; note-ons on the other
/// channels are treated like any other message.
pub const NOTE_ON: u8 = 144;

/// One message observed in a processing block: a status byte, its two
/// payload bytes, and the sample position inside the block at which it
/// occurred. The remaining fields are carried through untouched.
#[derive(Clone, Copy, Debug, PartialEq, Eq, Structural)]
pub struct IncomingEvent {
    pub status: u8,
    pub data1: u8,
    pub data2: u8,
    pub offset: i32,
    pub live: bool,
    pub note_length: Option<i32>,
    pub note_offset: Option<i32>,
    pub detune: i8,
    pub note_off_velocity: u8,
}

/// An event that is being held back, with the time that is left until it
/// is due, in nanoseconds.
#[derive(Clone, Copy, Debug, PartialEq, Eq, Structural)]
pub struct PendingEvent {
    pub event: IncomingEvent,
    pub remaining: u64,
}

/// A system-exclusive message: any number of payload bytes, and the sample
/// position inside the block at which it occurred.
#[derive(Clone, Debug, PartialEq, Eq)]
pub struct SysExEvent {
    pub payload: Vec<u8>,
    pub offset: i32,
}

/// One item that the host delivers in a block.
#[derive(Clone, Debug, PartialEq, Eq)]
pub enum HostEvent {
    /// A channel message.
    Midi(IncomingEvent),
    /// A system-exclusive message. It never waits.
    SysEx(SysExEvent),
}

impl IncomingEvent {
    /// Whether this event is held back: exactly when its status byte is
    /// `NOTE_ON`.
    pub open spec fn starts_note(self) -> bool {
        self.status == NOTE_ON
    }

    /// A channel message with the given status and payload, at the start
    /// of the block.
    pub fn new(status: u8, data1: u8, data2: u8) -> (event: IncomingEvent)
        ensures
            event == (IncomingEvent {
                status,
                data1,
                data2,
                offset: 0,
                live: false,
                note_length: None,
                note_offset: None,
                detune: 0,
                note_off_velocity: 0,
            }),
    {
        IncomingEvent {
            status,
            data1,
            data2,
            offset: 0,
            live: false,
            note_length: None,
            note_offset: None,
            detune: 0,
            note_off_velocity: 0,
        }
    }

    /// Decides whether the event is held back or passed through.
    pub fn is_note_start(&self) -> (eligible: bool)
        ensures
            eligible == self.starts_note(),
    {
        self.status == NOTE_ON
    }
}

/// The absolute value of a signed draw in nanoseconds, as a delay.
pub open spec fn magnitude(draw: i64) -> nat {
    if draw < 0 {
        (-draw) as nat
    } else {
        draw as nat
    }
}

/// Folds a draw from a zero-mean distribution onto the non-negative half:
/// the delay is the draw's absolute value.
pub fn delay_from_draw(draw: i64) -> (delay: u64)
    ensures
        delay == magnitude(draw),
{
    if draw >= 0 {
        draw as u64
    } else if draw == i64::MIN {
        9223372036854775808u64
    } else {
        (-draw) as u64
    }
}

} // verus!
