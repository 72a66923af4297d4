//! Keeps the left and right volume of one pinned audio output device at fixed
//! levels.
//!
//! The modules hold the rules of the program: what counts as drift, what a
//! reconcile pass reads and writes, how the event loop moves on, how the
//! target device is picked, stored and recognised again, and what the program
//! says and returns. Talking to the operating system is left to the caller.

pub mod audio;
pub mod cli;
pub mod config;
pub mod document;
pub mod enforcer;
pub mod failure;
pub mod install;
pub mod laws;
pub mod level;
pub mod logging;
pub mod text;
pub mod utf16;
pub mod watched;
pub mod windows_impl;
