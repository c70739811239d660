use vstd::prelude::*;

verus! {

/// A key press: the character produced and a bit set of modifiers.
#[derive(Clone, Copy, Debug, PartialEq, Eq, Structural)]
pub struct KeyEvent {
    pub code: char,
    pub modifiers: u8,
}

/// A terminal event that is meant for the consumers of the stream.
#[derive(Clone, Copy, Debug, PartialEq, Eq, Structural)]
pub enum Event {
    /// A key press.
    Key(KeyEvent),
    /// The terminal was resized to `(columns, rows)`.
    Resize(u16, u16),
    /// The terminal gained the focus.
    FocusGained,
    /// The terminal lost the focus.
    FocusLost,
}

/// What the decoder can produce: a public event, or a response that only
/// internal synchronous queries care about.
#[derive(Clone, Copy, Debug, PartialEq, Eq, Structural)]
pub enum InternalEvent {
    /// An event for the consumers of the stream.
    Event(Event),
    /// A reported cursor position `(column, row)`; never handed to consumers.
    CursorPosition(u16, u16),
}

/// A byte sequence could not be decoded; its bytes were discarded.
#[derive(Clone, Copy, Debug, PartialEq, Eq, Structural)]
pub struct DecodeError {
    /// How many bytes were discarded.
    pub discarded: usize,
}

/// One entry of the shared queue: a decoded event or a decode error.
pub type RawEvent = Result<InternalEvent, DecodeError>;

/// Whether an entry of the queue is for the consumers of the stream.
pub open spec fn is_public(r: RawEvent) -> bool {
    !(r matches Ok(InternalEvent::CursorPosition(_, _)))
}

/// The consumer-facing form of a public entry.
pub open spec fn public_form(r: RawEvent) -> Result<Event, DecodeError> {
    match r {
        Ok(InternalEvent::Event(e)) => Ok(e),
        Ok(InternalEvent::CursorPosition(_, _)) => Err(DecodeError { discarded: 0 }),
        Err(e) => Err(e),
    }
}

} // verus!
