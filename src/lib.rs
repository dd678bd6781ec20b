//! A recycle bin for the local filesystem: files are moved into a staging
//! directory, their original locations are kept in a ledger, and they can be
//! restored, purged, or the whole facility torn down.
//!
//! The library holds the decisions and the bookkeeping; the program around it
//! performs the filesystem and terminal work and hands the outcomes back.

pub mod paths;
pub mod profile;
pub mod transfer;
pub mod restore;
pub mod clear;
pub mod registry;
pub mod lifecycle;
pub mod cli;
