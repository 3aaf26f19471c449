//! Note-event decoding.
//!
//! The engine cares about exactly two channel-voice messages: note-on and
//! note-off, each carrying the pitch in its first data byte. Everything
//! else in the event stream is ignored.
use vstd::prelude::*;

verus! {

/// Status byte of a note-on channel-voice message.
pub const NOTE_ON_STATUS: u8 = 0x90;

/// Status byte of a note-off channel-voice message.
pub const NOTE_OFF_STATUS: u8 = 0x80;

/// A decoded note message: the event kind and the pitch it carries.
#[derive(Clone, Copy, PartialEq, Eq, Structural, Debug)]
pub enum NoteEvent {
    On(u8),
    Off(u8),
}

/// Decodes the status byte and first data byte of a MIDI event into the
/// note message the engine reacts to; any other status byte yields `None`.
pub fn decode_note_event(status: u8, pitch: u8) -> (ev: Option<NoteEvent>)
    ensures
        ev == (if status == NOTE_ON_STATUS {
            Some(NoteEvent::On(pitch))
        } else if status == NOTE_OFF_STATUS {
            Some(NoteEvent::Off(pitch))
        } else {
            None::<NoteEvent>
        }),
{
    if status == NOTE_ON_STATUS {
        Some(NoteEvent::On(pitch))
    } else if status == NOTE_OFF_STATUS {
        Some(NoteEvent::Off(pitch))
    } else {
        None
    }
}

} // verus!
