//! Bridges a push-style terminal event source (callbacks on incoming bytes and
//! on resize) into a pull-style queue of decoded terminal events.
//!
//! The verified core is split in three parts:
//! - [`event`]: the events and errors that travel through the queue;
//! - [`inbox`]: the shared FIFO of decoded results, the single suspended-task
//!   slot and the release flag of the bridge;
//! - [`decode`]: the incremental byte path that feeds the inbox through an
//!   external decoder.

pub mod decode;
pub mod event;
pub mod inbox;

pub use decode::{DataPath, Decoded};
pub use event::{DecodeError, Event, InternalEvent, KeyEvent, RawEvent};
pub use inbox::{Inbox, Pulled};
