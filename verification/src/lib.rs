//! A string-metric broadcast library.
//!
//! The metrics engine computes three classical string distances — Hamming,
//! Levenshtein and Jaro — over character sequences, each as an exact value
//! (a rational score or its integer components) rather than a rounded float.
//! The server module keeps the connection registry and the broadcast router:
//! registration with fresh monotonically increasing identifiers, per-connection
//! FIFO outbound queues, and fan-out of every computed response to every
//! registered connection.

pub mod metrics;
pub mod server;
