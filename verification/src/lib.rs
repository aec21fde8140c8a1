//! Fixed-cadence sensor snapshot aggregation.
//!
//! Once per clock tick a node asks every sensor of a suite for its latest
//! sample and gathers what comes back into one flat measurement vector. This
//! crate holds the decisions of that node: the static layout of the vector,
//! the outcome of one query, the decoders that write a sample's fields, the
//! walk over a group of sensors, the scheduler that strings them into a
//! cycle, and the line that reports the vector. Talking to the transport and
//! checking a payload against its wire schema is left to the caller.
//!
//! Measurements are single-precision floating-point numbers. They are carried
//! here as their IEEE 754 bit patterns (`u32`), so that "the same vector"
//! means the same bits.

pub mod fetch;
pub mod laws;
pub mod layout;
pub mod payload;
pub mod query;
pub mod report;
pub mod scheduler;
