//! The statement-execution core of a small relational engine: parsed
//! statements become operations on a single-column, integer-keyed storage.

pub mod bigint;
pub mod ast;
pub mod types;
pub mod record;
pub mod predicate;
pub mod storage;
pub mod engine;
pub mod laws;
