//! Deriving a header's fields from a few inputs.

use super::{Header, HeaderError, HeaderView, MIN_NUM_PARTS};
use crate::disk::LogicalBlockSize;
use crate::guid::Guid;
use vstd::prelude::*;

verus! {

/// A builder struct to build a Header
#[derive(Clone, Copy, Debug)]
pub struct HeaderBuilder {
    primary: bool,
    disk_guid: Guid,
    primary_lba: u64,
    backup_lba: u64,
    /// First usable LBA for partitions (primary table last LBA + 1)
    first_usable: u64,
    /// Last usable LBA (secondary partition table first LBA - 1)
    last_usable: u64,
    /// Number of partition entries
    num_parts: u32,
    /// Size of a partition entry, usually 128
    part_size: u32,
}

/// What a builder has been told, as plain values.
pub struct BuilderView {
    pub primary: bool,
    pub disk_guid: Guid,
    pub primary_lba: u64,
    pub backup_lba: u64,
    pub first_usable: u64,
    pub last_usable: u64,
    pub num_parts: u32,
    pub part_size: u32,
}

impl View for HeaderBuilder {
    type V = BuilderView;

    closed spec fn view(&self) -> BuilderView {
        BuilderView {
            primary: self.primary,
            disk_guid: self.disk_guid,
            primary_lba: self.primary_lba,
            backup_lba: self.backup_lba,
            first_usable: self.first_usable,
            last_usable: self.last_usable,
            num_parts: self.num_parts,
            part_size: self.part_size,
        }
    }
}

/// `lhs / rhs`, rounded up.
pub open spec fn div_ceil(lhs: int, rhs: int) -> int
    recommends
        rhs > 0,
{
    (lhs + (rhs - 1)) / rhs
}

/// The number of blocks that an array of `num_parts` entries of `part_size`
/// bytes takes.
pub open spec fn part_array_blocks(num_parts: u32, part_size: u32, lb_size: LogicalBlockSize) -> int {
    div_ceil(num_parts * part_size, lb_size.bytes())
}

/// The larger of two numbers.
pub open spec fn larger(a: int, b: int) -> int {
    if a >= b {
        a
    } else {
        b
    }
}

/// The settings a builder takes from an existing header: those of the
/// primary of the pair the header belongs to.
pub open spec fn builder_from(h: HeaderView) -> BuilderView {
    let primary = h.current_lba < h.backup_lba;
    BuilderView {
        primary,
        disk_guid: h.disk_guid,
        primary_lba: if primary {
            h.current_lba
        } else {
            h.backup_lba
        },
        backup_lba: if primary {
            h.backup_lba
        } else {
            h.current_lba
        },
        first_usable: h.first_usable,
        last_usable: h.last_usable,
        num_parts: h.num_parts,
        part_size: h.part_size,
    }
}

/// The first usable LBA of the header built from `b`: what was asked for, or
/// the block after the protective MBR, the primary header and the primary
/// array where that is later.
pub open spec fn built_first_usable(b: BuilderView, lb_size: LogicalBlockSize) -> int {
    larger(b.first_usable as int, 2 + part_array_blocks(b.num_parts, b.part_size, lb_size))
}

/// The last usable LBA of the header built from `b`: what was asked for, or
/// the block before the backup array where that is later.
pub open spec fn built_last_usable(b: BuilderView, lb_size: LogicalBlockSize) -> int {
    larger(
        b.last_usable as int,
        b.backup_lba - part_array_blocks(b.num_parts, b.part_size, lb_size) - 1,
    )
}

/// The LBA at which the array of the header built from `b` starts: behind
/// the primary header, or behind the last usable block for a backup.
pub open spec fn built_part_start(b: BuilderView, lb_size: LogicalBlockSize) -> int {
    if b.primary {
        b.primary_lba + 1
    } else {
        built_last_usable(b, lb_size) + 1
    }
}

/// The header built from `b`, or why there is none.
pub open spec fn build_spec(b: BuilderView, lb_size: LogicalBlockSize) -> Result<
    HeaderView,
    HeaderError,
> {
    let blocks = part_array_blocks(b.num_parts, b.part_size, lb_size);
    if b.backup_lba < b.primary_lba {
        Err(HeaderError::MissingBackupLba)
    } else if b.backup_lba < blocks + 1 {
        Err(HeaderError::BackupLbaTooEarly)
    } else if built_first_usable(b, lb_size) > built_last_usable(b, lb_size) {
        Err(HeaderError::BackupLbaTooEarly)
    } else if built_part_start(b, lb_size) > u64::MAX {
        Err(HeaderError::Overflow("header overflow - partition array start"))
    } else {
        Ok(
            HeaderView {
                signature: "EFI PART"@,
                revision: (1, 0),
                header_size_le: 92,
                crc32: 0,
                reserved: 0,
                current_lba: if b.primary {
                    b.primary_lba
                } else {
                    b.backup_lba
                },
                backup_lba: if b.primary {
                    b.backup_lba
                } else {
                    b.primary_lba
                },
                first_usable: built_first_usable(b, lb_size) as u64,
                last_usable: built_last_usable(b, lb_size) as u64,
                disk_guid: b.disk_guid,
                part_start: built_part_start(b, lb_size) as u64,
                num_parts: b.num_parts,
                part_size: b.part_size,
                crc32_parts: 0,
            },
        )
    }
}

/// A primary and a backup built from the same settings agree in everything
/// but their place: each names the other's LBA as its backup, and each has
/// its own array start. Both leave the two checksums at zero.
pub proof fn lemma_primary_backup_symmetry(b: BuilderView, lb_size: LogicalBlockSize)
    requires
        build_spec(BuilderView { primary: true, ..b }, lb_size) is Ok,
        build_spec(BuilderView { primary: false, ..b }, lb_size) is Ok,
    ensures
        ({
            let p = build_spec(BuilderView { primary: true, ..b }, lb_size)->Ok_0;
            let q = build_spec(BuilderView { primary: false, ..b }, lb_size)->Ok_0;
            &&& q == (HeaderView {
                current_lba: p.backup_lba,
                backup_lba: p.current_lba,
                part_start: q.part_start,
                ..p
            })
            &&& p.current_lba == b.primary_lba
            &&& p.backup_lba == b.backup_lba
            &&& p.part_start == b.primary_lba + 1
            &&& q.part_start == p.last_usable + 1
            &&& p.crc32 == 0 && p.crc32_parts == 0
        }),
{
}

/// A primary and a backup are built or refused alike: where one is refused
/// for its backup LBA, the other is refused with the same error, and where
/// neither array would start behind the last block of all, one is built if
/// and only if the other is.
pub proof fn lemma_primary_backup_built_alike(b: BuilderView, lb_size: LogicalBlockSize)
    ensures
        ({
            let p = build_spec(BuilderView { primary: true, ..b }, lb_size);
            let q = build_spec(BuilderView { primary: false, ..b }, lb_size);
            &&& p is Err && !(p->Err_0 is Overflow) ==> q == p
            &&& q is Err && !(q->Err_0 is Overflow) ==> p == q
            &&& p is Err && p->Err_0 is Overflow ==> b.primary_lba == u64::MAX
            &&& q is Err && q->Err_0 is Overflow ==> built_last_usable(b, lb_size) >= u64::MAX
            &&& b.primary_lba < u64::MAX && built_last_usable(b, lb_size) < u64::MAX ==> (p is Ok
                <==> q is Ok)
        }),
{
}

/// The geometry of a header that was built: the usable range is not empty,
/// it starts behind the primary array, and it reaches at least to the block
/// before the backup array.
pub proof fn lemma_built_geometry(b: BuilderView, lb_size: LogicalBlockSize)
    requires
        build_spec(b, lb_size) is Ok,
    ensures
        ({
            let h = build_spec(b, lb_size)->Ok_0;
            let blocks = part_array_blocks(h.num_parts, h.part_size, lb_size);
            &&& h.first_usable <= h.last_usable
            &&& h.first_usable >= 2 + blocks
            &&& h.last_usable >= b.backup_lba - 1 - blocks
            &&& h.first_usable >= b.first_usable
            &&& h.last_usable >= b.last_usable
        }),
{
}

impl HeaderBuilder {
    /// Creates a new `HeaderBuilder`, with a random disk GUID.
    pub fn new() -> (r: Self)
        ensures
            r@ == (BuilderView {
                primary: true,
                disk_guid: r@.disk_guid,
                primary_lba: 1,
                backup_lba: 0,
                first_usable: 0,
                last_usable: 0,
                num_parts: 128,
                part_size: 128,
            }),
            r@.disk_guid.is_random_kind(),
    {
        Self {
            primary: true,
            disk_guid: Guid::random(),
            primary_lba: 1,
            backup_lba: 0,
            first_usable: 0,
            last_usable: 0,
            num_parts: MIN_NUM_PARTS,
            part_size: 128,
        }
    }

    /// Creates a new `HeaderBuilder` using the values from an existing Header
    pub fn from_header(header: &Header) -> (r: Self)
        ensures
            r@ == builder_from(header@),
    {
        let primary = header.current_lba < header.backup_lba;
        let (primary_lba, backup_lba) = if primary {
            (header.current_lba, header.backup_lba)
        } else {
            (header.backup_lba, header.current_lba)
        };
        Self {
            primary,
            disk_guid: header.disk_guid,
            primary_lba,
            backup_lba,
            first_usable: header.first_usable,
            last_usable: header.last_usable,
            num_parts: header.num_parts,
            part_size: header.part_size,
        }
    }

    /// The builder for an existing header, or a new one where there is none.
    pub fn from_maybe_header(header: Option<&Header>) -> (r: Self)
        ensures
            header matches Some(h) ==> r@ == builder_from(h@),
            header is None ==> r@ == (BuilderView {
                primary: true,
                disk_guid: r@.disk_guid,
                primary_lba: 1,
                backup_lba: 0,
                first_usable: 0,
                last_usable: 0,
                num_parts: 128,
                part_size: 128,
            }),
    {
        match header {
            Some(h) => Self::from_header(h),
            None => Self::new(),
        }
    }

    /// Set wether this header is the primary or the backup.
    pub fn primary(&mut self, primary: bool) -> (r: &mut Self)
        ensures
            r@ == (BuilderView { primary, ..old(self)@ }),
            *final(self) == *final(r),
    {
        self.primary = primary;
        self
    }

    /// Change the disk guid, by default is generates a new one.
    pub fn disk_guid(&mut self, disk_guid: Guid) -> (r: &mut Self)
        ensures
            r@ == (BuilderView { disk_guid, ..old(self)@ }),
            *final(self) == *final(r),
    {
        self.disk_guid = disk_guid;
        self
    }

    /// Set the backup_lba position
    pub fn backup_lba(&mut self, backup_lba: u64) -> (r: &mut Self)
        ensures
            r@ == (BuilderView { backup_lba, ..old(self)@ }),
            *final(self) == *final(r),
    {
        self.backup_lba = backup_lba;
        self
    }

    /// If you don't set this it will get calculated automatically
    ///
    /// It might still be calculated if the value is not sufficient
    pub fn first_usable(&mut self, first_usable: u64) -> (r: &mut Self)
        ensures
            r@ == (BuilderView { first_usable, ..old(self)@ }),
            *final(self) == *final(r),
    {
        self.first_usable = first_usable;
        self
    }

    /// If you don't set this it will get calculated automatically
    ///
    /// It might still be calculated if the value is not sufficient
    pub fn last_usable(&mut self, last_usable: u64) -> (r: &mut Self)
        ensures
            r@ == (BuilderView { last_usable, ..old(self)@ }),
            *final(self) == *final(r),
    {
        self.last_usable = last_usable;
        self
    }

    /// this will always set 128 >=
    ///
    /// If you already have partitions make sure num parts is bigger or equal
    ///
    /// ## Warning
    /// This might change the first usable and last usable part
    pub fn num_parts(&mut self, num_parts: u32) -> (r: &mut Self)
        ensures
            r@ == (BuilderView {
                num_parts: if num_parts >= 128 {
                    num_parts
                } else {
                    128
                },
                ..old(self)@
            }),
            *final(self) == *final(r),
    {
        self.num_parts = if num_parts >= MIN_NUM_PARTS {
            num_parts
        } else {
            MIN_NUM_PARTS
        };
        self
    }

    /// This should probably be 128 but can be set lower
    ///
    /// ## Warning
    /// This might change the first usable and last usable part
    pub fn part_size(&mut self, part_size: u32) -> (r: &mut Self)
        ensures
            r@ == (BuilderView { part_size, ..old(self)@ }),
            *final(self) == *final(r),
    {
        self.part_size = part_size;
        self
    }

    /// At least the following functions need to be called if the header
    /// doesn't get copied
    /// - backup_lba
    pub fn build(&mut self, lb_size: LogicalBlockSize) -> (r: Result<Header, HeaderError>)
        ensures
            final(self)@ == old(self)@,
            super::header_result_view(r) == build_spec(old(self)@, lb_size),
    {
        // validate data
        if self.backup_lba < self.primary_lba {
            return Err(HeaderError::MissingBackupLba);
        }
        let (current_lba, backup_lba) = if self.primary {
            (self.primary_lba, self.backup_lba)
        } else {
            (self.backup_lba, self.primary_lba)
        };

        assert(self.num_parts * self.part_size <= 0xffff_ffff * 0xffff_ffff) by (nonlinear_arith)
            requires
                self.num_parts <= 0xffff_ffff,
                self.part_size <= 0xffff_ffff,
        ;
        let part_array_size: u64 = (self.num_parts as u64) * (self.part_size as u64);
        let part_array_lbs = u64_div_ceil(part_array_size, lb_size.as_u64());

        // mbr, header, part_array
        let min_first = 1 + 1 + part_array_lbs;
        let first_usable = if self.first_usable >= min_first {
            self.first_usable
        } else {
            min_first
        };

        // last is inclusive: end of disk is (partition array) (backup header)
        let max_last = match self.backup_lba.checked_sub(part_array_lbs + 1) {
            Some(x) => x,
            None => { return Err(HeaderError::BackupLbaTooEarly); },
        };
        let last_usable = if self.last_usable >= max_last {
            self.last_usable
        } else {
            max_last
        };

        if first_usable > last_usable {
            return Err(HeaderError::BackupLbaTooEarly);
        }
        let part_start = match (if self.primary {
            self.primary_lba
        } else {
            last_usable
        }).checked_add(1) {
            Some(x) => x,
            None => {
                return Err(HeaderError::Overflow("header overflow - partition array start"));
            },
        };

        Ok(
            Header {
                signature: "EFI PART".to_owned(),
                revision: (1, 0),
                header_size_le: 92,
                crc32: 0,
                reserved: 0,
                current_lba,
                backup_lba,
                first_usable,
                last_usable,
                disk_guid: self.disk_guid,
                part_start,
                num_parts: self.num_parts,
                part_size: self.part_size,
                crc32_parts: 0,
            },
        )
    }
}

impl Default for HeaderBuilder {
    fn default() -> (r: Self)
        ensures
            r@.primary && r@.primary_lba == 1 && r@.backup_lba == 0 && r@.first_usable == 0
                && r@.last_usable == 0 && r@.num_parts == 128 && r@.part_size == 128,
    {
        Self::new()
    }
}

/// `lhs / rhs`, rounded up.
pub fn u64_div_ceil(lhs: u64, rhs: u64) -> (r: u64)
    requires
        rhs > 0,
        lhs + (rhs - 1) <= u64::MAX,
    ensures
        r == div_ceil(lhs as int, rhs as int),
{
    (lhs + (rhs - 1)) / rhs
}

} // verus!
