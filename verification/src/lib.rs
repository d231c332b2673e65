//! On-disk metadata management for pool block devices.
//!
//! A claimed block device carries a fixed-size signature record ("sigblock")
//! in its static header and a pair of alternating metadata-area (MDA) slots
//! holding the most recently saved pool metadata.  This crate owns the byte
//! layout of those regions, the ownership classification of candidate
//! devices, the batch initializer that claims devices for a pool, and the
//! discovery scan that rebuilds the pool map from device headers.
//!
//! All device reads and writes are expressed over plain byte buffers and
//! byte offsets, so the logic is verified end to end; the thin unverified
//! edge that opens device nodes merely replays planned writes.

pub mod types;
pub mod checksum;
pub mod dec;
pub mod sigblock;
pub mod blockdev;
pub mod setup;
