//! A verified core for a memory-mapped file library.
//!
//! A mapping is modelled as a byte region backed by a file image: the
//! `region` bytes are what the process sees through the map, the persisted
//! bytes are what the backing file holds after the last successful flush.
//! The library verifies the mapping's lifecycle and state model: page-aligned
//! range arithmetic for partial synchronization and page touching, the flush
//! policies and their counters, resize semantics, the three access modes, and
//! the builder that composes them. The process-level shell (file handles, the
//! background flush thread, the clock) lives outside this crate and drives
//! these verified operations.

pub mod flush;
pub mod laws;
pub mod mapping;
pub mod ranges;

pub use mapping::MemoryMappedFile;
pub use mapping::MmapAdvice;
pub use mapping::MmapBuilder;
pub use mapping::MmapError;
pub use mapping::MmapMode;
pub use mapping::TouchHint;
