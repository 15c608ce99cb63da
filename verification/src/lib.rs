//! nemclass: the verified core of a memory-inspection toolkit — field kinds and
//! their compact string forms, class layouts, address expressions, value
//! scanning predicates, cheat tables, pattern signatures, and the small binary
//! decoders (debug registers, processor-trace packets, `/proc` maps lines).

pub mod error;
pub mod text;
pub mod types;
pub mod offset;
pub mod schema;
pub mod debug;
pub mod access;
pub mod table;
pub mod project;
pub mod scan;
pub mod pattern;
pub mod disasm;
pub mod ptrace;
pub mod compare;
pub mod format;
pub mod wine;
pub mod process;
pub mod dto;
pub mod dirs;
pub mod inspect;
pub mod writeback;
pub mod classes;
pub mod history;
pub mod spider;
