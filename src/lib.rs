//! Worker pools of long-lived child processes, with the line protocol they
//! speak, and the small in-memory stores and helpers of the service around
//! them.
pub mod affinity;
pub mod config;
pub mod error;
pub mod pool;
pub mod post;
pub mod protocol;
pub mod resp;
pub mod text;
pub mod todo;
pub mod worker;
