//! Verified core of a workspace custom-emoji tool: the paginated-metadata
//! fetch protocol, the polymorphic output sink, the persisted record codec,
//! and the rate-limited bulk-download planner. All I/O is performed by an
//! unverified shell that feeds plain values in and carries actions out.

pub mod record;
pub mod util;
pub mod codec;
pub mod parse;
pub mod reload;
pub mod sink;
pub mod sort;
pub mod fetch;
pub mod download;
