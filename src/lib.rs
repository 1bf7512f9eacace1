//! Positioned file I/O, hole-preserving copies and exclusive file creation,
//! written as state machines: a driver performs each system call that a
//! machine asks for and hands the outcome back.

pub mod exclusive;
pub mod file_model;
pub mod hex;
pub mod hole_copy;
pub mod seek_io;
