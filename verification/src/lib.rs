//! Boundary layer for asynchronous database access: a compact binary wire
//! codec for query parameters and result sets, a chunked batch-write planner,
//! and an opaque-handle registry for pools, connections and prepared
//! statements.

pub mod batch;
pub mod envelope;
pub mod pool;
pub mod registry;
pub mod resultset;
pub mod value;
pub mod wire;
