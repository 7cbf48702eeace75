//! Core of a process-scheduling daemon for Linux desktops.
//!
//! The library keeps a live map of processes, classifies each one against a
//! compiled rule set (exact name/path matches, wildcard conditions on cgroup,
//! name, parent and ancestry), overlays foreground and audio-session state on
//! the verdicts, and computes the kernel CFS tunable values for the current
//! CPU count.  All state transitions are pure: the surrounding binary feeds
//! in observations from `/proc` and carries out the returned priority
//! actions, so everything here is verified.

#![verifier::loop_isolation(false)]

use vstd::prelude::*;

pub mod assignment;
pub mod cfs;
pub mod config;
pub mod control;
pub mod laws;
pub mod pipewire;
pub mod process;
pub mod procfs;
pub mod profile;
pub mod rules;
pub mod service;
pub mod text;
pub mod wildcard;
