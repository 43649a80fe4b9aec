//! Reproducing packages: which packages there are to rebuild, how a rebuild
//! goes, and when its result is the same as the original.
//!
//! The library decides and computes. Downloads, builds and files are left to
//! its callers, who are told what to do next and hand back what came of it.

pub mod artifact_order;
pub mod attest;
pub mod backend;
pub mod compare;
pub mod heartbeat;
pub mod listing_laws;
pub mod opensuse;
pub mod order;
pub mod origin_laws;
pub mod rebuild;
pub mod rebuild_laws;
pub mod repomd;
pub mod report;
pub mod rpm;
pub mod sorted_map;
pub mod sync;
pub mod sync_laws;
pub mod text;
pub mod url;
