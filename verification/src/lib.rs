//! Supervision core for a sidecar process that announces its listening port
//! on standard output.
//!
//! The host starts the child process, reads its output, waits, writes to it
//! and kills it. What to make of the output and what to do next is decided
//! here:
//!
//! - [`framing`] cuts the output stream into lines, wherever its chunks end;
//! - [`parser`] tells a port announcement, a shutdown acknowledgement and
//!   diagnostic text apart;
//! - [`port`] holds the port, which the first announcement sets for good,
//!   and decides how a reader's wait with a timeout goes on;
//! - [`shutdown`] decides the steps of a shutdown: request, bounded wait,
//!   kill;
//! - [`supervisor`] ties these together into the state of one child;
//! - [`config`] holds the host's settings;
//! - [`text`] has the searching, trimming and number reading that the parser
//!   rests on.

pub mod config;
pub mod framing;
pub mod parser;
pub mod port;
pub mod shutdown;
pub mod supervisor;
pub mod text;
