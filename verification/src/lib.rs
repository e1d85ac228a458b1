//! Reconciliation core of a photo library: a scratch catalog of files found on
//! disk, a canonical library holding one file per content digest, and the
//! decisions that move files between them.
pub mod command;
pub mod database;
pub mod error;
pub mod laws;
pub mod path;
pub mod text;
