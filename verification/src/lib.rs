//! A non-blocking logging back-end, modelled and verified.
//!
//! Producer threads hand formatted log records to a bounded FIFO dispatch
//! channel; a single writer drains the channel and delivers each record's
//! bytes to its destination stream, retrying on partial writes and
//! would-block conditions, waiting for writability instead of spinning, and
//! abandoning a record only on a hard error.
//!
//! The modules here hold the verified core of that pipeline.

pub mod channel;
pub mod install;
pub mod logger;
pub mod record;
pub mod retry;
