//! A view of a module's bytes: a local buffer, or a range of the target's
//! address space read through a process reader.
use vstd::prelude::*;

use crate::bytes::copy_range;
use crate::process_reader::{CopyFromProcessError, ProcessReader};

verus! {

/// Where a module's bytes come from.
pub enum ModuleMemory<'a> {
    /// A local buffer; relative and absolute addresses coincide.
    Slice(&'a [u8]),
    /// The target's memory from `start_address` on.
    Process { reader: &'a mut ProcessReader, start_address: u64 },
}

/// Why a read of module memory failed.
#[derive(Clone, Copy, Debug, PartialEq, Eq, Structural)]
pub enum ReadError {
    /// A read of zero bytes from process memory, which the backends
    /// disagree on.
    ZeroLengthProcessRead,
    /// The end of the read overflowed the address space.
    Overflow,
    /// The read went past the end of the buffer.
    OutOfBounds,
    /// The process reader failed.
    CopyError(CopyFromProcessError),
}

/// A failed read of module memory, with what was asked for.
#[derive(Clone, Copy, Debug, PartialEq, Eq, Structural)]
pub struct ModuleMemoryReadError {
    pub offset: u64,
    pub length: u64,
    pub start_address: Option<u64>,
    pub error: ReadError,
}

impl<'a> ModuleMemory<'a> {
    /// A view of a local buffer.
    pub fn from_slice(value: &'a [u8]) -> (r: Self)
        ensures
            r == ModuleMemory::Slice(value),
    {
        ModuleMemory::Slice(value)
    }

    /// A view of the target's memory from `start_address` on.
    pub fn from_process(reader: &'a mut ProcessReader, start_address: usize) -> (r: Self)
        ensures
            r matches ModuleMemory::Process { start_address: s, .. } && s == start_address,
    {
        ModuleMemory::Process { reader, start_address: start_address as u64 }
    }

    /// Reads `length` bytes at `offset` of the module.
    ///
    /// From a buffer: the bytes `[offset, offset + length)`, or `Overflow`
    /// when the end overflows, or `OutOfBounds` past the buffer. From the
    /// target: zero bytes is an error; otherwise one read of at most
    /// `length` bytes at `start_address + offset`.
    pub fn read(&mut self, offset: u64, length: u64) -> (r: Result<Vec<u8>, ModuleMemoryReadError>)
        ensures
            r matches Err(e) ==> e.offset == offset && e.length == length,
            match *old(self) {
                ModuleMemory::Slice(s) => {
                    &&& *final(self) == *old(self)
                    &&& match r {
                        Ok(v) => offset + length <= s@.len() && v@ == s@.subrange(
                            offset as int,
                            offset + length,
                        ),
                        Err(e) => e.start_address.is_none() && if offset + length > u64::MAX {
                            e.error == ReadError::Overflow
                        } else {
                            offset + length > s@.len() && e.error == ReadError::OutOfBounds
                        },
                    }
                },
                ModuleMemory::Process { start_address, .. } => {
                    &&& (*final(self) matches ModuleMemory::Process { start_address: s2, .. } && s2
                        == start_address)
                    &&& (length == 0 || start_address + offset > u64::MAX) ==> *final(self) == *old(
                        self)
                    &&& match r {
                        Ok(v) => length > 0 && start_address + offset <= u64::MAX && v@.len()
                            <= length,
                        Err(e) => e.start_address == Some(start_address) && if length == 0 {
                            e.error == ReadError::ZeroLengthProcessRead
                        } else if start_address + offset > u64::MAX {
                            e.error == ReadError::Overflow
                        } else {
                            e.error is CopyError
                        },
                    }
                },
            },
    {
        match self {
            ModuleMemory::Process { reader, start_address } => {
                let start = *start_address;
                if length == 0 {
                    return Err(
                        ModuleMemoryReadError {
                            offset,
                            length,
                            start_address: Some(start),
                            error: ReadError::ZeroLengthProcessRead,
                        },
                    );
                }
                if offset > u64::MAX - start {
                    return Err(
                        ModuleMemoryReadError {
                            offset,
                            length,
                            start_address: Some(start),
                            error: ReadError::Overflow,
                        },
                    );
                }
                let at = start + offset;
                match reader.read_to_vec(at as usize, length as usize) {
                    Ok(v) => Ok(v),
                    Err(e) => Err(
                        ModuleMemoryReadError {
                            offset,
                            length,
                            start_address: Some(start),
                            error: ReadError::CopyError(e),
                        },
                    ),
                }
            },
            ModuleMemory::Slice(s) => {
                if offset > u64::MAX - length {
                    return Err(
                        ModuleMemoryReadError {
                            offset,
                            length,
                            start_address: None,
                            error: ReadError::Overflow,
                        },
                    );
                }
                let end = offset + length;
                if end > s.len() as u64 {
                    return Err(
                        ModuleMemoryReadError {
                            offset,
                            length,
                            start_address: None,
                            error: ReadError::OutOfBounds,
                        },
                    );
                }
                Ok(copy_range(s, offset as usize, end as usize))
            },
        }
    }

    /// The address relative to the module of the absolute address `addr`:
    /// `addr` itself for a buffer, `addr - start_address` for the target
    /// (`None` below the start).
    pub fn absolute_to_relative(&self, addr: u64) -> (r: Option<u64>)
        ensures
            match *self {
                ModuleMemory::Slice(_) => r == Some(addr),
                ModuleMemory::Process { start_address, .. } => if addr >= start_address {
                    r == Some((addr - start_address) as u64)
                } else {
                    r is None
                },
            },
    {
        match self {
            ModuleMemory::Slice(_) => Some(addr),
            ModuleMemory::Process { start_address, .. } => addr.checked_sub(*start_address),
        }
    }

    /// The absolute address of the module-relative address `addr`: `addr`
    /// itself for a buffer, `start_address + addr` for the target (`None`
    /// on overflow).
    pub fn relative_to_absolute(&self, addr: u64) -> (r: Option<u64>)
        ensures
            match *self {
                ModuleMemory::Slice(_) => r == Some(addr),
                ModuleMemory::Process { start_address, .. } => if start_address + addr
                    <= u64::MAX {
                    r == Some((start_address + addr) as u64)
                } else {
                    r is None
                },
            },
    {
        match self {
            ModuleMemory::Slice(_) => Some(addr),
            ModuleMemory::Process { start_address, .. } => start_address.checked_add(addr),
        }
    }

    /// Whether the bytes come from the target.
    pub fn is_process_memory(&self) -> (r: bool)
        ensures
            r == (*self is Process),
    {
        match self {
            ModuleMemory::Slice(_) => false,
            ModuleMemory::Process { .. } => true,
        }
    }
}

} // verus!
