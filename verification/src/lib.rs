//! Personal knowledge-management core: Notes, Tasks and Threads with shared
//! identity and timestamp metadata, a canonical JSON document codec for the
//! on-disk store, and the journal query engine that filters entities by their
//! modification time.
//!
//! File and network handling lives outside this crate; every function here is
//! a pure computation over plain values and carries a verified contract.

pub mod text;
pub mod time;
pub mod ident;
pub mod meta;
pub mod note;
pub mod task;
pub mod thread;
pub mod journal;
pub mod codec;
pub mod store;
pub mod requests;
