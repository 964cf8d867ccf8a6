//! The rules of a transaction pool: which transactions it takes in, how it
//! answers a batch, and what it puts into a new block.
//!
//! The pool stands beside a deferred pool, which keeps the transactions and
//! knows when they are ready. The functions here decide; what they need to be
//! told by the deferred pool, the block data or the state they take as
//! arguments, and what is to be done there they return.

pub mod block;
pub mod config;
pub mod hash;
pub mod insertion;
pub mod laws;
pub mod model;
pub mod notification;
pub mod operation_laws;
pub mod packing;
pub mod pool;
pub mod signal;
pub mod text;
pub mod transaction;
pub mod txmap;
pub mod u256;
pub mod verification;
