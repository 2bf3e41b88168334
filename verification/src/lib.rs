//! Scheduling core for keeping local directories in step with remote
//! locations through an external two-way synchronization tool.
//!
//! The crate owns the set of configured accounts, the rules of their
//! lifecycle, the order of work inside a synchronization cycle and the
//! status signal shown to the user. It performs no input or output itself:
//! every operation that touches the disk, the clock or the external tool is
//! handed to the caller as a directive, and the caller reports back what
//! happened.

pub mod account;
pub mod clock;
pub mod directory;
pub mod executor;
pub mod lifecycle;
pub mod scheduler;
pub mod sequences;
pub mod shell;
pub mod store;
pub mod text;
