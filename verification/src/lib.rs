//! System information for desktop platforms: the parsing and the decisions,
//! verified; the reading of files, system calls and plugin plumbing live
//! outside this library.
pub mod json;
pub mod laws;
pub mod linux;
pub mod macos;
pub mod models;
pub mod network;
pub mod numbers;
pub mod text;
pub mod windows;
