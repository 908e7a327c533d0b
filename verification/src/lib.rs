//! A disposable staging store for sparse per-entity key/value facts, together
//! with the pipeline that pivots those facts into dense wide rows.
//!
//! The store keeps entities (a surrogate id and a unique textual value) and
//! attribute rows (key/value pairs tied to an entity). The pipeline discovers
//! a deterministic column order, partitions the entity ids into chunks, pivots
//! each chunk's attribute rows into wide rows, and prepares the statements a
//! relational sink needs. File and database I/O, and the concurrent scheduling
//! of chunk workers, live outside this crate; everything here is pure logic
//! over the store's contents.

pub mod chunks;
pub mod columns;
pub mod digits;
pub mod driver;
pub mod errors;
pub mod extmap;
pub mod pivot;
pub mod sqltext;
pub mod store;
