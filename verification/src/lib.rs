//! A small CRUD backend over durable storage: a monotonically increasing
//! identifier allocator, a byte-level record codec with a proved round-trip
//! law, and key-ordered persistent maps, composed into handlers for a
//! farmer / product / wholesaler / supply-order domain.

pub mod codec;
pub mod decimal;
pub mod records;
pub mod storage;
pub mod store;
pub mod laws;
