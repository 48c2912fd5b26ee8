//! Discovery of mounted removable storage: which entries of the mount table
//! are shown to the user, under which label, and how the commands that open
//! or unmount them are put together.
//!
//! The library never touches the operating system. Its caller reads the mount
//! table and the per-device metadata, hands them over as plain values, and
//! carries out the command lines that the library composes.

pub mod text;
pub mod device;
pub mod mount;
pub mod label;
pub mod classify;
pub mod dispatch;
pub mod laws;
