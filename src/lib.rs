//! Execution core of a pre-commit style hook runner: file selection,
//! argument batching, batch outcome combination, hook sequencing and
//! working-tree restoration.
pub mod batch;
pub mod filter;
pub mod hook;
pub mod keeper;
pub mod node;
pub mod partition;
pub mod report;
pub mod sequencer;
pub mod store;
