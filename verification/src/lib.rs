//! A double-mapped circular byte/item buffer with a single-producer,
//! multiple-consumer coordination layer.
//!
//! The crate is organised in three layers:
//!
//! * [`double_mapped_buffer`] holds the storage: a region of `capacity` items
//!   that can be viewed through a window starting at any offset up to
//!   `capacity`, so that a window crossing the wrap-around boundary is still
//!   one contiguous run of items.
//! * [`generic`] holds the coordination engine: one writer cursor and any
//!   number of independently paced reader cursors, each a pair of an offset
//!   and a generation bit, together with the arm/notify protocol that lets
//!   blocking, async and polling front ends share the same core.
//! * [`nonblocking`] is the polling front end, built directly on the engine
//!   with a notifier that does nothing.
//!
//! [`pipeline`] contains small processing blocks (a vector source, a copy
//! stage, a sink) whose chunk logic is verified here and whose thread loops
//! live with the caller.

pub mod double_mapped_buffer;
pub mod generic;
pub mod nonblocking;
pub mod pipeline;
