//! A verified core for an eBPF DNS-redirect loader and boot wrapper.
//!
//! Everything that decides or computes is here, with its contract: object
//! parsing, `bpf(2)` requests, redirect rules, arguments, and the steps of
//! loading, preparing and booting. What talks to the kernel performs the
//! actions that this library names and reports what came of them.
pub mod bpf;
pub mod bpffs;
pub mod bytes;
pub mod cli;
pub mod cmdline;
pub mod elf;
pub mod hits;
pub mod init;
pub mod loader;
pub mod net;
pub mod path;
pub mod rule;
pub mod sys;
pub mod text;
