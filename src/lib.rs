//! Transactional storage core: clocks, transactions over a selected backend,
//! and the executor that drives parsed statements against them.

pub mod clock;
pub mod dbs;
pub mod exe;
pub mod keys;
pub mod kvs;
pub mod query;
pub mod text;
pub mod yuse;
