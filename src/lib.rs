//! A content-addressed store of redirect records kept in shard files.

pub mod text;
pub mod shard;
pub mod digest;
pub mod codec;
pub mod merge;
pub mod record;
pub mod validate;
pub mod store;
pub mod tweet;
pub mod extract;
