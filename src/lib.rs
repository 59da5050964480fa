//! Excerpt-based multi-buffers, the follow protocol that keeps a follower's view of
//! one in step with its leader, and the search engine that runs over them.
mod outside;
mod utf8_offsets;

pub mod follow;
pub mod multi_buffer;
pub mod release_channel;
pub mod search;
pub mod syntax;
pub mod task;
pub mod terminal;
