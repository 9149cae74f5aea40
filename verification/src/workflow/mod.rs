//! The production workflow: statuses of archive entries, the move of their
//! tables to UUID ids, and the sidecar file that keeps an archive's id beside it.
pub mod migration;
pub mod sidecar;
pub mod types;
