//! Post-mortem process snapshots ("minidumps") of a Linux target.
//!
//! - `process_reader`: copies bytes out of the target, settling on one
//!   kernel mechanism at the first read.
//! - `module_memory`: a module's bytes, local or in the target.
//! - `elf_id`, `macho`, `pe`: module identities and section lookups parsed
//!   from those bytes.
//! - `auxv`, `maps`, `mapping`: the auxiliary vector, `/proc/<pid>/maps`
//!   and the lookups over the resulting mappings.
//! - `linux_ptrace_dumper`: the enumerator that suspends the target's
//!   threads and holds its mappings.
//! - `sanitize`: redaction of likely code pointers in captured stacks.
//! - `dump_writer`, `minidump_writer`: the container, written so that a dump
//!   cut short is still parseable.
//!
//! Stack words and debugger peeks are taken as 8-byte little-endian words:
//! the library targets 64-bit little-endian hosts, and reads the stack
//! pointer register of x86-64.
use vstd::prelude::*;

pub mod auxv;
pub mod bytes;
pub mod dump_writer;
pub mod elf_id;
pub mod linux_ptrace_dumper;
pub mod macho;
pub mod mapping;
pub mod maps;
pub mod minidump_writer;
pub mod module_lookup;
pub mod module_memory;
pub mod pe;
pub mod process_reader;
pub mod sanitize;
