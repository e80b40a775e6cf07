//! Durability for an in-memory scheduling store: consistent snapshots of the
//! shared collections, a self-describing binary encoding of them,
//! compression, retention of remote snapshot objects by age, restore on
//! start, and the decisions of the periodic backup loop.

pub mod backup;
pub mod codec;
pub mod codec_laws;
pub mod compress;
pub mod config;
pub mod model;
pub mod restore;
pub mod retention;
pub mod scheduler;
pub mod store;
