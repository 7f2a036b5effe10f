//! Core logic of a build-and-propagate manager for local JavaScript library
//! projects: registered projects carry an ordered selection of build commands;
//! a build run composes those commands into one shell script, supervises the
//! script as a cancellable child process, guarantees the whole process tree is
//! reaped, and then propagates the build output to each active target
//! directory while bumping the target's patch version.
//!
//! Everything here is pure logic over plain values; the thin binary around it
//! performs the file, process and dialog work and feeds the results back in.

pub mod handles;
pub mod names;
pub mod numbers;
pub mod project;
pub mod propagate;
pub mod reaper;
pub mod registry;
pub mod script;
pub mod supervisor;
pub mod text;
pub mod version;
