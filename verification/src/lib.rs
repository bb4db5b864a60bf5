//! Shared-record transport for live per-user network activity.
//!
//! A region of bytes is divided into fixed-size slots, each holding one
//! record in a fixed binary layout. Producers write whole records into
//! slots; a consumer scans the region and receives the records of all the
//! slots that are not empty.

pub mod consumer;
pub mod ipc;
pub mod key;
pub mod region;
pub mod user_record;
