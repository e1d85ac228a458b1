//! What each command of the tool decides, with the work on files left to the
//! caller.
pub mod catalog;
pub mod check;
pub mod import;
pub mod init;
pub mod prune;
