//! A single-threaded, completion-queue based I/O reactor core.
//!
//! The reactor tracks socket operations (accept, receive, send) that have
//! been handed to a kernel submission/completion ring. Each operation is
//! tagged with a fresh correlation id, recorded in a submissions table
//! while it is in flight, and moved to a ready queue once the kernel
//! reports its result. Ready operations are handed back to the driver in
//! harvest order, exactly once each.
//!
//! The kernel ring itself, and the sockets behind the descriptors, live
//! outside this crate: the reactor produces plain submission descriptors
//! (`Sqe`) for a driver to push into the ring, and consumes plain
//! completion events (`CqEvent`) the driver read back from it.

pub mod completion;
pub mod handles;
pub mod reactor;
