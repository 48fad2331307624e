//! A TCP port scanner's decision logic: which ports a scan probes, what a
//! probe reports, how the reports are gathered, and how the open ports are
//! printed. Connecting, spawning tasks and writing to the terminal are left
//! to the program that drives this library.
pub mod config;
pub mod report;
pub mod scan;
