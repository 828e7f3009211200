//! A soft-delete history: the on-disk log of removed files, its parsing into
//! a newest-first store, and the selector algebra that picks entries from it.

pub mod codec;
pub mod command;
pub mod config;
pub mod exec;
pub mod laws;
pub mod log;
pub mod select;
