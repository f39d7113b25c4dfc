//! Disk-related types and helper functions.

use vstd::prelude::*;

verus! {

/// Default size of a logical sector (bytes).
pub const DEFAULT_SECTOR_SIZE: LogicalBlockSize = LogicalBlockSize::Lb512;

/// Logical block/sector size of a GPT disk.
#[derive(Clone, Copy, Debug, PartialEq, Eq, Structural)]
pub enum LogicalBlockSize {
    /// 512 bytes.
    Lb512,
    /// 4096 bytes.
    Lb4096,
}

impl LogicalBlockSize {
    /// The number of bytes in one block.
    pub open spec fn bytes(self) -> int {
        match self {
            LogicalBlockSize::Lb512 => 512,
            LogicalBlockSize::Lb4096 => 4096,
        }
    }

    /// Returns the logical block size as a `usize`.
    pub fn as_usize(&self) -> (r: usize)
        ensures
            r == self.bytes(),
    {
        match self {
            LogicalBlockSize::Lb512 => 512,
            LogicalBlockSize::Lb4096 => 4096,
        }
    }

    /// The byte offset of the block `lba`, or nothing where it does not fit
    /// in 64 bits: it fits exactly for the LBAs up to `u64::MAX` divided by
    /// the block size.
    pub fn byte_offset(&self, lba: u64) -> (r: Option<u64>)
        ensures
            lba <= u64::MAX as int / self.bytes() <==> r is Some,
            lba * self.bytes() <= u64::MAX <==> r is Some,
            r matches Some(offset) ==> offset == lba * self.bytes(),
    {
        lba.checked_mul(self.as_u64())
    }

    /// Returns the logical block size as a `u64`.
    pub fn as_u64(&self) -> (r: u64)
        ensures
            r == self.bytes(),
    {
        match self {
            LogicalBlockSize::Lb512 => 512,
            LogicalBlockSize::Lb4096 => 4096,
        }
    }
}

impl From<LogicalBlockSize> for u64 {
    fn from(lb: LogicalBlockSize) -> (r: u64) {
        lb.as_u64()
    }
}

impl vstd::std_specs::convert::FromSpecImpl<LogicalBlockSize> for u64 {
    open spec fn obeys_from_spec() -> bool {
        true
    }

    open spec fn from_spec(lb: LogicalBlockSize) -> u64 {
        lb.bytes() as u64
    }
}

impl From<LogicalBlockSize> for usize {
    fn from(lb: LogicalBlockSize) -> (r: usize) {
        lb.as_usize()
    }
}

impl vstd::std_specs::convert::FromSpecImpl<LogicalBlockSize> for usize {
    open spec fn obeys_from_spec() -> bool {
        true
    }

    open spec fn from_spec(lb: LogicalBlockSize) -> usize {
        lb.bytes() as usize
    }
}

/// The block size of `v` bytes, where 512 or 4096 are the only ones there
/// are.
pub open spec fn block_size_of(v: u64) -> Result<LogicalBlockSize, &'static str> {
    if v == 512 {
        Ok(LogicalBlockSize::Lb512)
    } else if v == 4096 {
        Ok(LogicalBlockSize::Lb4096)
    } else {
        Err("unsupported logical block size (must be 512 or 4096)")
    }
}

impl TryFrom<u64> for LogicalBlockSize {
    type Error = &'static str;

    fn try_from(v: u64) -> (r: Result<Self, Self::Error>) {
        if v == 512 {
            Ok(LogicalBlockSize::Lb512)
        } else if v == 4096 {
            Ok(LogicalBlockSize::Lb4096)
        } else {
            Err("unsupported logical block size (must be 512 or 4096)")
        }
    }
}

impl vstd::std_specs::convert::TryFromSpecImpl<u64> for LogicalBlockSize {
    open spec fn obeys_try_from_spec() -> bool {
        true
    }

    open spec fn try_from_spec(v: u64) -> Result<Self, Self::Error> {
        block_size_of(v)
    }
}

impl LogicalBlockSize {
    /// The number of bytes in one block, in decimal digits.
    pub fn to_text(&self) -> (r: &'static str)
        ensures
            r@ == match self {
                LogicalBlockSize::Lb512 => "512"@,
                LogicalBlockSize::Lb4096 => "4096"@,
            },
    {
        match self {
            LogicalBlockSize::Lb512 => "512",
            LogicalBlockSize::Lb4096 => "4096",
        }
    }
}

} // verus!
