//! The session core of an interactive terminal front-end for a
//! file-synchronization tool: the option set and the argument-list
//! builder, the panel/mode state machine that routes key presses, the
//! progress-line parser and the per-line bookkeeping of a supervised
//! run, and the path-completion logic. Everything here is specified and
//! verified; terminal I/O, rendering and process plumbing live outside.

pub mod app;
pub mod command;
pub mod display;
pub mod input;
pub mod options;
pub mod path;
pub mod progress;
pub mod run;
pub mod text;
