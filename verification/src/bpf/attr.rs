//! Byte offsets of the fields of `union bpf_attr`.
use vstd::prelude::*;

verus! {

pub const MAP_TYPE: usize = 0;

pub const MAP_KEY_SIZE: usize = 4;

pub const MAP_VALUE_SIZE: usize = 8;

pub const MAP_MAX_ENTRIES: usize = 12;

pub const MAP_FLAGS: usize = 16;

pub const PROG_TYPE: usize = 0;

pub const INSN_CNT: usize = 4;

pub const INSNS: usize = 8;

pub const LICENSE: usize = 16;

pub const LOG_LEVEL: usize = 24;

pub const LOG_SIZE: usize = 28;

pub const LOG_BUF: usize = 32;

pub const EXPECTED_ATTACH_TYPE: usize = 68;

pub const TARGET_FD: usize = 0;

pub const ATTACH_BPF_FD: usize = 4;

pub const ATTACH_TYPE: usize = 8;

pub const MAP_FD: usize = 0;

pub const KEY: usize = 8;

pub const VALUE: usize = 16;

} // verus!
