//! Partition tokens: the hash in [`murmur3`], and in [`hasher`] the streaming
//! hasher that is proved to compute it.

pub mod hasher;
pub mod murmur3;
