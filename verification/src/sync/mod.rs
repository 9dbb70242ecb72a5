//! What can be touched from another context than the one that polls: wake flags in an
//! atomic word, and a mailbox behind a critical section.

pub mod mailbox;
pub mod signal;
