//! Seneca: a host-side, tamper-evident evidence log for AI agents, plus the
//! bookkeeping of microVM swarms.
//!
//! Each log record is hash-chained (SHA-256) to the one before it, and the head
//! of the chain is signed (Ed25519) by a key that only the host holds.  The
//! functions here compute records and heads, and check a log line by line,
//! reporting the first point of divergence.  Reading and writing files, the
//! clock, JSON and process control stay with the caller.

pub mod text;
pub mod hex;
pub mod crypto;
pub mod evidence;
pub mod laws;
pub mod swarm;
