//! Core of a disk-usage scanner: size aggregation over directory snapshots,
//! entry records with formatted sizes, deterministic result ordering, and the
//! progress-reporting scan engine.

pub mod bytes;
pub mod item;
pub mod order;
pub mod ops;
pub mod scan;
pub mod volume;
pub mod walker;
pub mod tree;
pub mod text;
