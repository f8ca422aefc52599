//! Wire protocol and fetch-job logic for a build-pipeline source module.
//!
//! A host process dispatches one job to a module process over a single local
//! channel.  This library holds everything about that exchange that can be
//! stated and proved: the envelope framing and its JSON text, the schema of
//! the fetch job request, the checksum keys that address downloaded content,
//! the cache bookkeeping, and the state machine that turns per-item events
//! into exactly one terminal reply or exception.  The channel itself, the
//! downloads and the cache directory I/O live outside the library and hand
//! plain values in.

pub mod ascii;
pub mod bytes;
pub mod cache;
pub mod checksum;
pub mod codec;
pub mod envelope;
pub mod errors;
pub mod fetch;
pub mod jstring;
pub mod method;
pub mod reply;
pub mod service;
