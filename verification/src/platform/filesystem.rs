//! File modes.

use vstd::prelude::*;

verus! {

/// File open mode.
#[derive(Debug, Clone, Copy, PartialEq, Eq, Structural)]
pub enum FileMode {
    /// Read only.
    Read,
    /// Write only (creates or truncates).
    Write,
    /// Read and write.
    ReadWrite,
    /// Append to existing file.
    Append,
}

impl FileMode {
    /// Whether a file opened in this mode can be read.
    pub open spec fn spec_reads(self) -> bool {
        self == FileMode::Read || self == FileMode::ReadWrite
    }

    /// Whether a file opened in this mode can be written.
    pub open spec fn spec_writes(self) -> bool {
        self != FileMode::Read
    }

    /// Check if a file opened in this mode can be read.
    pub fn reads(&self) -> (b: bool)
        ensures
            b == self.spec_reads(),
    {
        match self {
            FileMode::Read | FileMode::ReadWrite => true,
            _ => false,
        }
    }

    /// Check if a file opened in this mode can be written.
    pub fn writes(&self) -> (b: bool)
        ensures
            b == self.spec_writes(),
    {
        match self {
            FileMode::Read => false,
            _ => true,
        }
    }
}

} // verus!
