//! Transport core of a distributed-object framework.
//!
//! A value is moved across a boundary by *deconstructing* it into a sequence
//! of elementary wire items, multiplexing nested values onto forked
//! sub-channels addressed by compact handles, encoding the items to a byte
//! representation, and reversing the process on the far side.  The crate
//! models each layer as an explicitly stepped state machine with a proved
//! contract; the asynchronous plumbing that drives the machines lives outside
//! the library.

pub mod calls;
pub mod channel;
pub mod context;
pub mod format;
pub mod kind;
pub mod registry;
pub mod render;
pub mod wire;
