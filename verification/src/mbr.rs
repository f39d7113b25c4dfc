//! MBR-related types and helper functions.
//!
//! This module provides access to low-level primitives
//! to work with Master Boot Record (MBR), also known as LBA0.

use crate::codec::{le_u16, le_u32, put_bytes, put_le_u16, put_le_u32, put_u8, u16_le, u32_le, Reader};
use crate::device::{overwritten, DiskDevice, IoError};
use crate::disk::LogicalBlockSize;
use vstd::prelude::*;

verus! {

/// Errors returned when interacting with a Gpt Disk.
#[non_exhaustive]
#[derive(Clone, Copy, Debug)]
pub enum MBRError {
    /// The device failed.
    Io(IoError),
    /// The provided buffer does not match the expected mbr length
    InvalidMBRLength,
    /// invalid MBR signature
    InvalidMBRSignature,
    /// Invalid Partition Length != 16
    InvalidPartitionLength,
    /// Somthing Overflowed or Underflowed
    /// This will never occur when dealing with sane values
    Overflow(&'static str),
}

impl From<IoError> for MBRError {
    fn from(e: IoError) -> (r: Self) {
        Self::Io(e)
    }
}

impl vstd::std_specs::convert::FromSpecImpl<IoError> for MBRError {
    open spec fn obeys_from_spec() -> bool {
        true
    }

    open spec fn from_spec(e: IoError) -> Self {
        Self::Io(e)
    }
}

impl MBRError {
    /// What went wrong, in words.
    pub open spec fn text(self) -> Seq<char> {
        match self {
            MBRError::Io(e) => "MBR IO Error: "@ + e.text(),
            MBRError::InvalidMBRLength => "The provided buffer does not match the expected mbr length"@,
            MBRError::InvalidMBRSignature => "Invalid MBR signature"@,
            MBRError::InvalidPartitionLength => "Invalid Partition length expected 16"@,
            MBRError::Overflow(m) => "MBR error Overflow: "@ + m@,
        }
    }

    /// What went wrong, in words.
    pub fn to_text(&self) -> (r: String)
        ensures
            r@ == self.text(),
    {
        match self {
            MBRError::Io(e) => crate::text::joined("MBR IO Error: ", e.to_text()),
            MBRError::InvalidMBRLength => "The provided buffer does not match the expected mbr length".to_owned(),
            MBRError::InvalidMBRSignature => "Invalid MBR signature".to_owned(),
            MBRError::InvalidPartitionLength => "Invalid Partition length expected 16".to_owned(),
            MBRError::Overflow(m) => crate::text::joined("MBR error Overflow: ", m),
        }
    }
}

/// The number of bytes an MBR takes.
pub const MBR_SIZE: usize = 512;

/// The byte offset of the first partition record.
pub const RECORDS_OFFSET: u64 = 446;

/// A partition record, MBR-style.
#[derive(Copy, Clone, Debug, Eq, PartialEq, Structural)]
pub struct PartRecord {
    /// Bit 7 set if partition is active (bootable)
    pub boot_indicator: u8,
    /// CHS address of partition start: 8-bit value of head in CHS address
    pub start_head: u8,
    /// CHS address of partition start: Upper 2 bits are 8th-9th bits of cylinder, lower 6 bits are sector
    pub start_sector: u8,
    /// CHS address of partition start: Lower 8 bits of cylinder
    pub start_track: u8,
    /// Partition type. See <https://www.win.tue.nl/~aeb/partitions/partition_types-1.html>
    pub os_type: u8,
    /// CHS address of partition end: 8-bit value of head in CHS address
    pub end_head: u8,
    /// CHS address of partition end: Upper 2 bits are 8th-9th bits of cylinder, lower 6 bits are sector
    pub end_sector: u8,
    /// CHS address of partition end: Lower 8 bits of cylinder
    pub end_track: u8,
    /// LBA of start of partition
    pub lb_start: u32,
    /// Number of sectors in partition
    pub lb_size: u32,
}

/// Protective MBR, as defined by GPT.
pub struct ProtectiveMBR {
    bootcode: [u8; 440],
    disk_signature: [u8; 4],
    unknown: u16,
    partitions: [PartRecord; 4],
    signature: [u8; 2],
}

/// What a protective MBR holds, as plain values.
pub struct MbrView {
    pub bootcode: Seq<u8>,
    pub disk_signature: Seq<u8>,
    pub unknown: u16,
    pub partitions: Seq<PartRecord>,
    pub signature: Seq<u8>,
}

impl View for ProtectiveMBR {
    type V = MbrView;

    closed spec fn view(&self) -> MbrView {
        MbrView {
            bootcode: self.bootcode@,
            disk_signature: self.disk_signature@,
            unknown: self.unknown,
            partitions: self.partitions@,
            signature: self.signature@,
        }
    }
}

/// The record that protects a disk: type 0xEE, from LBA 1, over `size`
/// blocks.
pub open spec fn protective_record(size: u32) -> PartRecord {
    PartRecord {
        boot_indicator: 0x00,
        start_head: 0x00,
        start_sector: 0x02,
        start_track: 0x00,
        os_type: 0xEE,
        end_head: 0xFF,
        end_sector: 0xFF,
        end_track: 0xFF,
        lb_start: 1,
        lb_size: size,
    }
}

/// The record of all zeros.
pub open spec fn zero_record() -> PartRecord {
    PartRecord {
        boot_indicator: 0x00,
        start_head: 0x00,
        start_sector: 0x00,
        start_track: 0x00,
        os_type: 0x00,
        end_head: 0x00,
        end_sector: 0x00,
        end_track: 0x00,
        lb_start: 0,
        lb_size: 0,
    }
}

/// The two bytes that end an MBR.
pub open spec fn mbr_signature() -> Seq<u8> {
    seq![0x55u8, 0xAAu8]
}

/// The protective MBR of a disk whose protective partition has `size`
/// blocks: no boot code, no disk signature, the protective record and three
/// records of zeros.
pub open spec fn protective_mbr(size: u32) -> MbrView {
    MbrView {
        bootcode: Seq::new(440, |i: int| 0u8),
        disk_signature: Seq::new(4, |i: int| 0u8),
        unknown: 0,
        partitions: seq![protective_record(size), zero_record(), zero_record(), zero_record()],
        signature: mbr_signature(),
    }
}

/// The sixteen bytes of a partition record.
pub open spec fn record_bytes(r: PartRecord) -> Seq<u8> {
    seq![
        r.boot_indicator,
        r.start_head,
        r.start_sector,
        r.start_track,
        r.os_type,
        r.end_head,
        r.end_sector,
        r.end_track,
    ] + u32_le(r.lb_start) + u32_le(r.lb_size)
}

/// The record that the first sixteen bytes of `s` store.
pub open spec fn decode_record(s: Seq<u8>) -> PartRecord
    recommends
        s.len() >= 16,
{
    PartRecord {
        boot_indicator: s[0],
        start_head: s[1],
        start_sector: s[2],
        start_track: s[3],
        os_type: s[4],
        end_head: s[5],
        end_sector: s[6],
        end_track: s[7],
        lb_start: le_u32(s.subrange(8, 12)),
        lb_size: le_u32(s.subrange(12, 16)),
    }
}

/// What reading a record from `s` gives: the record, or a length error where
/// `s` is not sixteen bytes.
pub open spec fn decode_record_checked(s: Seq<u8>) -> Result<PartRecord, MBRError> {
    if s.len() != 16 {
        Err(MBRError::InvalidPartitionLength)
    } else {
        Ok(decode_record(s))
    }
}

/// The 66 bytes behind the disk signature: the four records and the
/// signature.
pub open spec fn records_bytes(m: MbrView) -> Seq<u8> {
    record_bytes(m.partitions[0]) + record_bytes(m.partitions[1]) + record_bytes(m.partitions[2])
        + record_bytes(m.partitions[3]) + m.signature
}

/// The 512 bytes of an MBR.
pub open spec fn mbr_bytes(m: MbrView) -> Seq<u8> {
    m.bootcode + m.disk_signature + u16_le(m.unknown) + records_bytes(m)
}

/// The fields that the first 512 bytes of `s` store.
pub open spec fn mbr_fields(s: Seq<u8>) -> MbrView
    recommends
        s.len() >= 512,
{
    MbrView {
        bootcode: s.subrange(0, 440),
        disk_signature: s.subrange(440, 444),
        unknown: le_u16(s.subrange(444, 446)),
        partitions: seq![
            decode_record(s.subrange(446, 462)),
            decode_record(s.subrange(462, 478)),
            decode_record(s.subrange(478, 494)),
            decode_record(s.subrange(494, 510)),
        ],
        signature: s.subrange(510, 512),
    }
}

/// What reading an MBR from a block gives: a length error where the block
/// is not of the block size, a signature error where bytes 510 and 511 are
/// not 0x55 0xAA, and else the fields.
pub open spec fn decode_mbr(s: Seq<u8>, sector_size: LogicalBlockSize) -> Result<MbrView, MBRError> {
    if s.len() != sector_size.bytes() {
        Err(MBRError::InvalidMBRLength)
    } else if s.subrange(510, 512) != mbr_signature() {
        Err(MBRError::InvalidMBRSignature)
    } else {
        Ok(mbr_fields(s))
    }
}

/// Whether an MBR has its parts at their sizes and ends in 0x55 0xAA: such is
/// every MBR that this library hands out or reads.
pub open spec fn well_formed(m: MbrView) -> bool {
    &&& m.bootcode.len() == 440
    &&& m.disk_signature.len() == 4
    &&& m.partitions.len() == 4
    &&& m.signature == mbr_signature()
}

/// A record that was written reads back.
pub proof fn lemma_record_round_trip(r: PartRecord)
    ensures
        record_bytes(r).len() == 16,
        decode_record(record_bytes(r)) == r,
{
    let s = record_bytes(r);
    crate::codec::lemma_u32_le_decodes(r.lb_start);
    crate::codec::lemma_u32_le_decodes(r.lb_size);
    assert(s.subrange(8, 12) =~= u32_le(r.lb_start));
    assert(s.subrange(12, 16) =~= u32_le(r.lb_size));
}

/// Where the parts of an MBR lie in a block: the boot code, the disk
/// signature, two bytes, four records and the signature, one behind the
/// other, whatever follows them.
proof fn lemma_mbr_layout(
    boot: Seq<u8>,
    disk: Seq<u8>,
    two: Seq<u8>,
    r0: Seq<u8>,
    r1: Seq<u8>,
    r2: Seq<u8>,
    r3: Seq<u8>,
    sig: Seq<u8>,
    tail: Seq<u8>,
)
    requires
        boot.len() == 440,
        disk.len() == 4,
        two.len() == 2,
        r0.len() == 16,
        r1.len() == 16,
        r2.len() == 16,
        r3.len() == 16,
        sig.len() == 2,
    ensures
        ({
            let block = boot + disk + two + (r0 + r1 + r2 + r3 + sig) + tail;
            &&& block.len() == 512 + tail.len()
            &&& block.subrange(0, 440) == boot
            &&& block.subrange(440, 444) == disk
            &&& block.subrange(444, 446) == two
            &&& block.subrange(446, 462) == r0
            &&& block.subrange(462, 478) == r1
            &&& block.subrange(478, 494) == r2
            &&& block.subrange(494, 510) == r3
            &&& block.subrange(510, 512) == sig
        }),
{
    let block = boot + disk + two + (r0 + r1 + r2 + r3 + sig) + tail;
    assert(block.subrange(0, 440) =~= boot);
    assert(block.subrange(440, 444) =~= disk);
    assert(block.subrange(444, 446) =~= two);
    assert(block.subrange(446, 462) =~= r0);
    assert(block.subrange(462, 478) =~= r1);
    assert(block.subrange(478, 494) =~= r2);
    assert(block.subrange(494, 510) =~= r3);
    assert(block.subrange(510, 512) =~= sig);
}

/// An MBR that was written reads back, from a block of either size: the
/// 512 bytes written for a well-formed MBR, with zeros behind them to the
/// end of the block, decode to the MBR.
pub proof fn lemma_mbr_round_trip(m: MbrView, sector_size: LogicalBlockSize)
    requires
        well_formed(m),
    ensures
        mbr_bytes(m).len() == 512,
        decode_mbr(
            mbr_bytes(m) + crate::codec::zeros((sector_size.bytes() - 512) as nat),
            sector_size,
        ) == Ok::<MbrView, MBRError>(m),
{
    let tail = crate::codec::zeros((sector_size.bytes() - 512) as nat);
    let block = mbr_bytes(m) + tail;
    let first = m.partitions[0];
    let second = m.partitions[1];
    let third = m.partitions[2];
    let fourth = m.partitions[3];
    let b0 = record_bytes(first);
    let b1 = record_bytes(second);
    let b2 = record_bytes(third);
    let b3 = record_bytes(fourth);
    let two = u16_le(m.unknown);
    assert(b0.len() == 16 && decode_record(b0) == first) by {
        lemma_record_round_trip(first);
    }
    assert(b1.len() == 16 && decode_record(b1) == second) by {
        lemma_record_round_trip(second);
    }
    assert(b2.len() == 16 && decode_record(b2) == third) by {
        lemma_record_round_trip(third);
    }
    assert(b3.len() == 16 && decode_record(b3) == fourth) by {
        lemma_record_round_trip(fourth);
    }
    assert(two.len() == 2 && le_u16(two) == m.unknown) by {
        crate::codec::lemma_u16_le_decodes(m.unknown);
    }
    assert(m.signature.len() == 2);
    assert(block == m.bootcode + m.disk_signature + two + (b0 + b1 + b2 + b3 + m.signature)
        + tail);
    lemma_mbr_layout(m.bootcode, m.disk_signature, two, b0, b1, b2, b3, m.signature, tail);
    let f = mbr_fields(block);
    assert(f.partitions =~= m.partitions);
    assert(f == m);
}

/// The plain values of an MBR, or the error in its place.
pub open spec fn mbr_result_view(r: Result<ProtectiveMBR, MBRError>) -> Result<MbrView, MBRError> {
    match r {
        Ok(m) => Ok(m@),
        Err(e) => Err(e),
    }
}

impl Default for ProtectiveMBR {
    fn default() -> (r: Self)
        ensures
            r@ == protective_mbr(0xFFFF_FFFF),
    {
        let r = Self {
            bootcode: [0x00;440],
            disk_signature: [0x00;4],
            unknown: 0,
            partitions: [
                PartRecord::new_protective(None),
                PartRecord::zero(),
                PartRecord::zero(),
                PartRecord::zero(),
            ],
            signature: [0x55, 0xAA],
        };
        assert(r@.bootcode =~= protective_mbr(0xFFFF_FFFF).bootcode);
        assert(r@.disk_signature =~= protective_mbr(0xFFFF_FFFF).disk_signature);
        assert(r@.partitions =~= protective_mbr(0xFFFF_FFFF).partitions);
        assert(r@.signature =~= mbr_signature());
        r
    }
}

impl ProtectiveMBR {
    /// Create a default protective-MBR object.
    pub fn new() -> (r: Self)
        ensures
            r@ == protective_mbr(0xFFFF_FFFF),
    {
        Self::default()
    }

    /// Create a protective-MBR object with a specific protective partition size (in LB).
    /// The protective partition size should be the size of the disk - 1 (because the protective
    /// partition always begins at LBA 1 (the second sector)).
    pub fn with_lb_size(lb_size: u32) -> (r: Self)
        ensures
            r@ == protective_mbr(lb_size),
    {
        let r = Self {
            bootcode: [0x00;440],
            disk_signature: [0x00;4],
            unknown: 0,
            partitions: [
                PartRecord::new_protective(Some(lb_size)),
                PartRecord::zero(),
                PartRecord::zero(),
                PartRecord::zero(),
            ],
            signature: [0x55, 0xAA],
        };
        assert(r@.bootcode =~= protective_mbr(lb_size).bootcode);
        assert(r@.disk_signature =~= protective_mbr(lb_size).disk_signature);
        assert(r@.partitions =~= protective_mbr(lb_size).partitions);
        assert(r@.signature =~= mbr_signature());
        r
    }

    /// Parse input bytes into a protective-MBR object.
    pub fn from_bytes(buf: &[u8], sector_size: LogicalBlockSize) -> (r: Result<Self, MBRError>)
        ensures
            mbr_result_view(r) == decode_mbr(buf@, sector_size),
    {
        if buf.len() != sector_size.as_usize() {
            return Err(MBRError::InvalidMBRLength);
        }
        let mut bootcode = [0x00u8;440];
        let mut i: usize = 0;
        while i < 440
            invariant
                i <= 440,
                buf@.len() >= 512,
                forall|j: int| 0 <= j < i ==> bootcode@[j] == buf@[j],
            decreases 440 - i,
        {
            bootcode[i] = buf[i];
            i += 1;
        }
        let disk_signature = [buf[440], buf[441], buf[442], buf[443]];
        let unknown = buf[444] as u16 + 0x100 * (buf[445] as u16);
        let first = PartRecord::decode(vstd::slice::slice_subrange(buf, 446, 462));
        let second = PartRecord::decode(vstd::slice::slice_subrange(buf, 462, 478));
        let third = PartRecord::decode(vstd::slice::slice_subrange(buf, 478, 494));
        let fourth = PartRecord::decode(vstd::slice::slice_subrange(buf, 494, 510));
        let signature = [buf[510], buf[511]];
        if !(signature[0] == 0x55 && signature[1] == 0xAA) {
            assert(buf@.subrange(510, 512)[0] != mbr_signature()[0] || buf@.subrange(510, 512)[1]
                != mbr_signature()[1]);
            return Err(MBRError::InvalidMBRSignature);
        }
        assert(buf@.subrange(510, 512) =~= mbr_signature());
        let pmbr = Self {
            bootcode,
            disk_signature,
            unknown,
            partitions: [first, second, third, fourth],
            signature,
        };
        proof {
            let f = mbr_fields(buf@);
            assert(pmbr@.bootcode =~= f.bootcode);
            assert(pmbr@.disk_signature =~= f.disk_signature);
            assert(pmbr@.partitions =~= f.partitions);
            assert(pmbr@.signature =~= f.signature);
        }
        Ok(pmbr)
    }

    /// Read the LBA0 of a disk device and parse it into a protective-MBR object.
    pub fn from_disk<D: DiskDevice>(device: &mut D, sector_size: LogicalBlockSize) -> (r: Result<
        Self,
        MBRError,
    >)
        ensures
            D::obeys_device_spec() ==> {
                &&& final(device).contents() == old(device).contents()
                &&& if sector_size.bytes() <= old(device).contents().len() {
                    &&& mbr_result_view(r) == decode_mbr(
                        old(device).contents().subrange(0, sector_size.bytes()),
                        sector_size,
                    )
                    &&& final(device).cursor() == old(device).cursor()
                } else {
                    r matches Err(MBRError::Io(IoError::UnexpectedEof))
                }
            },
    {
        let cur = match device.stream_position() {
            Ok(p) => p,
            Err(e) => { return Err(MBRError::Io(e)); },
        };
        match device.seek_to(0) {
            Ok(_) => {},
            Err(e) => { return Err(MBRError::Io(e)); },
        };
        let buf = match device.read_exact(sector_size.as_usize()) {
            Ok(b) => b,
            Err(e) => { return Err(MBRError::Io(e)); },
        };
        let pmbr = Self::from_bytes(buf.as_slice(), sector_size);
        match device.seek_to(cur) {
            Ok(_) => {},
            Err(e) => { return Err(MBRError::Io(e)); },
        };
        pmbr
    }

    /// Appends the four partition records and the signature.
    fn put_records(&self, out: &mut Vec<u8>)
        ensures
            final(out)@ == old(out)@ + records_bytes(self@),
    {
        let r0 = self.partitions[0].to_bytes();
        let r1 = self.partitions[1].to_bytes();
        let r2 = self.partitions[2].to_bytes();
        let r3 = self.partitions[3].to_bytes();
        put_bytes(out, r0.as_slice());
        put_bytes(out, r1.as_slice());
        put_bytes(out, r2.as_slice());
        put_bytes(out, r3.as_slice());
        put_bytes(out, self.signature.as_slice());
        assert(out@ =~= old(out)@ + records_bytes(self@));
    }

    /// The 512 bytes of the MBR, in a vector.
    fn to_vec(&self) -> (r: Vec<u8>)
        ensures
            r@ == mbr_bytes(self@),
            r@.len() == 512,
    {
        let mut out: Vec<u8> = Vec::new();
        put_bytes(&mut out, self.bootcode.as_slice());
        put_bytes(&mut out, self.disk_signature.as_slice());
        put_le_u16(&mut out, self.unknown);
        self.put_records(&mut out);
        out
    }

    /// Return the memory representation of this MBR as a byte vector.
    ///
    /// This will always be 512
    pub fn to_bytes(&self) -> (r: [u8; 512])
        ensures
            r@ == mbr_bytes(self@),
    {
        let v = self.to_vec();
        let mut bytes = [0u8;512];
        let mut i: usize = 0;
        while i < 512
            invariant
                i <= 512,
                v@.len() == 512,
                forall|j: int| 0 <= j < i ==> bytes@[j] == v@[j],
            decreases 512 - i,
        {
            bytes[i] = v[i];
            i += 1;
        }
        assert(bytes@ =~= v@);
        bytes
    }

    /// Return the 440 bytes of BIOS bootcode.
    pub fn bootcode(&self) -> (r: &[u8; 440])
        ensures
            r@ == self@.bootcode,
    {
        &self.bootcode
    }

    /// Set the 440 bytes of BIOS bootcode.
    ///
    /// This only changes the in-memory state, without overwriting
    /// any on-disk data.
    pub fn set_bootcode(&mut self, bootcode: [u8; 440]) -> (r: &Self)
        ensures
            final(self)@ == (MbrView { bootcode: bootcode@, ..old(self)@ }),
            r@ == final(self)@,
    {
        self.bootcode = bootcode;
        self
    }

    /// Return the 4 bytes of MBR disk signature.
    pub fn disk_signature(&self) -> (r: &[u8; 4])
        ensures
            r@ == self@.disk_signature,
    {
        &self.disk_signature
    }

    /// Set the 4 bytes of MBR disk signature.
    ///
    /// This only changes the in-memory state, without overwriting
    /// any on-disk data.
    pub fn set_disk_signature(&mut self, sig: [u8; 4]) -> (r: &Self)
        ensures
            final(self)@ == (MbrView { disk_signature: sig@, ..old(self)@ }),
            r@ == final(self)@,
    {
        self.disk_signature = sig;
        self
    }

    /// Every MBR has its parts at their sizes: 440 bytes of boot code, a
    /// disk signature of four bytes, four records and a signature of two
    /// bytes.
    pub proof fn lemma_sizes(&self)
        ensures
            self@.bootcode.len() == 440,
            self@.disk_signature.len() == 4,
            self@.partitions.len() == 4,
            self@.signature.len() == 2,
    {
    }

    /// Returns the given partition (0..=3) or None if the partition index is invalid.
    pub fn partition(&self, partition_index: usize) -> (r: Option<PartRecord>)
        ensures
            self@.partitions.len() == 4,
            r == if partition_index < 4 {
                Some(self@.partitions[partition_index as int])
            } else {
                None
            },
    {
        if partition_index >= 4 {
            None
        } else {
            Some(self.partitions[partition_index])
        }
    }

    /// Set the data for the given partition.
    /// Returns the previous partition record or None if the partition index is invalid.
    ///
    /// This only changes the in-memory state, without overwriting
    /// any on-disk data.
    pub fn set_partition(&mut self, partition_index: usize, partition: PartRecord) -> (r: Option<
        PartRecord,
    >)
        ensures
            old(self)@.partitions.len() == 4,
            final(self)@.partitions.len() == 4,
            partition_index < 4 ==> r == Some(old(self)@.partitions[partition_index as int])
                && final(self)@ == (MbrView {
                partitions: old(self)@.partitions.update(partition_index as int, partition),
                ..old(self)@
            }),
            partition_index >= 4 ==> r is None && final(self)@ == old(self)@,
    {
        if partition_index >= 4 {
            None
        } else {
            let previous = self.partitions[partition_index];
            self.partitions[partition_index] = partition;
            Some(previous)
        }
    }

    /// Write a protective MBR to LBA0, overwriting any existing data.
    ///
    /// This will not write the entire lba0 if the sector size is 4096
    pub fn overwrite_lba0<D: DiskDevice>(&self, device: &mut D) -> (r: Result<usize, MBRError>)
        ensures
            D::obeys_device_spec() ==> if 512 <= old(device).contents().len() {
                &&& r == Ok::<usize, MBRError>(512)
                &&& final(device).contents() == overwritten(
                    old(device).contents(),
                    0,
                    mbr_bytes(self@),
                )
                &&& final(device).cursor() == old(device).cursor()
            } else {
                &&& r matches Err(MBRError::Io(IoError::WriteZero))
                &&& final(device).contents() == old(device).contents()
            },
    {
        let cur = match device.stream_position() {
            Ok(p) => p,
            Err(e) => { return Err(MBRError::Io(e)); },
        };
        match device.seek_to(0) {
            Ok(_) => {},
            Err(e) => { return Err(MBRError::Io(e)); },
        };
        let data = self.to_vec();
        match device.write_all(data.as_slice()) {
            Ok(_) => {},
            Err(e) => { return Err(MBRError::Io(e)); },
        };
        match device.flush() {
            Ok(_) => {},
            Err(e) => { return Err(MBRError::Io(e)); },
        };
        match device.seek_to(cur) {
            Ok(_) => {},
            Err(e) => { return Err(MBRError::Io(e)); },
        };
        Ok(data.len())
    }

    /// Update LBA0, preserving most bytes of any existing MBR.
    ///
    /// This overwrites the four MBR partition records and the
    /// well-known signature, leaving all other MBR bits as-is.
    pub fn update_conservative<D: DiskDevice>(&self, device: &mut D) -> (r: Result<
        usize,
        MBRError,
    >)
        ensures
            D::obeys_device_spec() ==> if 512 <= old(device).contents().len() {
                &&& r == Ok::<usize, MBRError>(66)
                &&& final(device).contents() == overwritten(
                    old(device).contents(),
                    446,
                    records_bytes(self@),
                )
                &&& final(device).cursor() == old(device).cursor()
            } else {
                &&& r matches Err(MBRError::Io(IoError::WriteZero))
                &&& final(device).contents() == old(device).contents()
            },
    {
        let cur = match device.stream_position() {
            Ok(p) => p,
            Err(e) => { return Err(MBRError::Io(e)); },
        };
        // Seek to first partition record.
        // (GPT spec 2.7 - sec. 5.2.3 - table 15)
        match device.seek_to(RECORDS_OFFSET) {
            Ok(_) => {},
            Err(e) => { return Err(MBRError::Io(e)); },
        };
        let mut data: Vec<u8> = Vec::new();
        self.put_records(&mut data);
        assert(data@ =~= records_bytes(self@));
        match device.write_all(data.as_slice()) {
            Ok(_) => {},
            Err(e) => { return Err(MBRError::Io(e)); },
        };
        match device.flush() {
            Ok(_) => {},
            Err(e) => { return Err(MBRError::Io(e)); },
        };
        match device.seek_to(cur) {
            Ok(_) => {},
            Err(e) => { return Err(MBRError::Io(e)); },
        };
        let bytes_updated: usize = (16 * 4) + 2;
        Ok(bytes_updated)
    }
}

impl PartRecord {
    /// Create a protective Partition Record object with a specific disk size (in LB).
    pub fn new_protective(lb_size: Option<u32>) -> (r: Self)
        ensures
            r == protective_record(
                match lb_size {
                    Some(n) => n,
                    None => 0xFFFF_FFFF,
                },
            ),
    {
        let size = match lb_size {
            Some(n) => n,
            None => 0xFF_FF_FF_FF,
        };
        Self {
            boot_indicator: 0x00,
            start_head: 0x00,
            start_sector: 0x02,
            start_track: 0x00,
            os_type: 0xEE,
            end_head: 0xFF,
            end_sector: 0xFF,
            end_track: 0xFF,
            lb_start: 1,
            lb_size: size,
        }
    }

    /// Create an all-zero Partition Record.
    pub fn zero() -> (r: Self)
        ensures
            r == zero_record(),
    {
        Self {
            boot_indicator: 0x00,
            start_head: 0x00,
            start_sector: 0x00,
            start_track: 0x00,
            os_type: 0x00,
            end_head: 0x00,
            end_sector: 0x00,
            end_track: 0x00,
            lb_start: 0,
            lb_size: 0,
        }
    }

    /// Reads a record from exactly sixteen bytes.
    fn decode(buf: &[u8]) -> (r: Self)
        requires
            buf@.len() == 16,
        ensures
            r == decode_record(buf@),
    {
        let mut rdr = Reader::new(buf);
        let ghost at = rdr.remaining();
        assert(at =~= buf@);
        let lb_start = buf[8] as u32 + 0x100 * (buf[9] as u32) + 0x1_0000 * (buf[10] as u32)
            + 0x100_0000 * (buf[11] as u32);
        let lb_size = buf[12] as u32 + 0x100 * (buf[13] as u32) + 0x1_0000 * (buf[14] as u32)
            + 0x100_0000 * (buf[15] as u32);
        Self {
            boot_indicator: buf[0],
            start_head: buf[1],
            start_sector: buf[2],
            start_track: buf[3],
            os_type: buf[4],
            end_head: buf[5],
            end_sector: buf[6],
            end_track: buf[7],
            lb_start,
            lb_size,
        }
    }

    /// Parse input bytes into a Partition Record.
    pub fn from_bytes(buf: &[u8]) -> (r: Result<Self, MBRError>)
        ensures
            r == decode_record_checked(buf@),
    {
        if buf.len() != 16 {
            return Err(MBRError::InvalidPartitionLength);
        }
        Ok(Self::decode(buf))
    }

    /// Return the memory representation of this Partition Record as a byte vector.
    pub fn to_bytes(&self) -> (r: [u8; 16])
        ensures
            r@ == record_bytes(*self),
    {
        let mut v: Vec<u8> = Vec::new();
        put_u8(&mut v, self.boot_indicator);
        put_u8(&mut v, self.start_head);
        put_u8(&mut v, self.start_sector);
        put_u8(&mut v, self.start_track);
        put_u8(&mut v, self.os_type);
        put_u8(&mut v, self.end_head);
        put_u8(&mut v, self.end_sector);
        put_u8(&mut v, self.end_track);
        put_le_u32(&mut v, self.lb_start);
        put_le_u32(&mut v, self.lb_size);
        assert(v@ =~= record_bytes(*self));
        let mut bytes = [0u8;16];
        let mut i: usize = 0;
        while i < 16
            invariant
                i <= 16,
                v@.len() == 16,
                forall|j: int| 0 <= j < i ==> bytes@[j] == v@[j],
            decreases 16 - i,
        {
            bytes[i] = v[i];
            i += 1;
        }
        assert(bytes@ =~= v@);
        bytes
    }
}

/// Whether `after` and `r` are what reading `n` bytes at `offset` makes of
/// the device `before`: the bytes, with the cursor put back, or an
/// end-of-input error where the device ends before them.
pub open spec fn read_at<D: DiskDevice>(
    before: D,
    after: D,
    offset: int,
    n: int,
    r: Result<Seq<u8>, IoError>,
) -> bool {
    &&& after.contents() == before.contents()
    &&& if offset + n <= before.contents().len() {
        &&& r == Ok::<Seq<u8>, IoError>(before.contents().subrange(offset, offset + n))
        &&& after.cursor() == before.cursor()
    } else {
        r == Err::<Seq<u8>, IoError>(IoError::UnexpectedEof)
    }
}

/// Whether `after` and `r` are what writing `data` at `offset` makes of the
/// device `before`: the bytes are written and the cursor put back, or
/// nothing is written where the device ends before them.
pub open spec fn write_at<D: DiskDevice>(
    before: D,
    after: D,
    offset: int,
    data: Seq<u8>,
    r: Result<(), IoError>,
) -> bool {
    if offset + data.len() <= before.contents().len() {
        &&& r is Ok
        &&& after.contents() == overwritten(before.contents(), offset, data)
        &&& after.cursor() == before.cursor()
    } else {
        &&& r == Err::<(), IoError>(IoError::WriteZero)
        &&& after.contents() == before.contents()
    }
}

/// The bytes that were read, or the error in their place.
pub open spec fn bytes_result<const N: usize>(r: Result<[u8; N], IoError>) -> Result<
    Seq<u8>,
    IoError,
> {
    match r {
        Ok(a) => Ok(a@),
        Err(e) => Err(e),
    }
}

/// Copies a vector of 440 bytes into an array.
fn to_bootcode(v: &Vec<u8>) -> (r: [u8; 440])
    requires
        v@.len() == 440,
    ensures
        r@ == v@,
{
    let mut bytes = [0u8;440];
    let mut i: usize = 0;
    while i < 440
        invariant
            i <= 440,
            v@.len() == 440,
            forall|j: int| 0 <= j < i ==> bytes@[j] == v@[j],
        decreases 440 - i,
    {
        bytes[i] = v[i];
        i += 1;
    }
    assert(bytes@ =~= v@);
    bytes
}

/// Return the 440 bytes of BIOS bootcode.
pub fn read_bootcode<D: DiskDevice>(device: &mut D) -> (r: Result<[u8; 440], IoError>)
    ensures
        D::obeys_device_spec() ==> read_at(*old(device), *final(device), 0, 440, bytes_result(r)),
{
    let bootcode_offset: u64 = 0;
    let cur = device.stream_position()?;
    let _ = device.seek_to(bootcode_offset)?;
    let v = device.read_exact(440)?;
    if v.len() != 440 {
        return Err(IoError::UnexpectedEof);
    }
    let bootcode = to_bootcode(&v);
    device.seek_to(cur)?;
    Ok(bootcode)
}

/// Write the 440 bytes of BIOS bootcode.
pub fn write_bootcode<D: DiskDevice>(device: &mut D, bootcode: &[u8; 440]) -> (r: Result<
    (),
    IoError,
>)
    ensures
        D::obeys_device_spec() ==> write_at(*old(device), *final(device), 0, bootcode@, r),
{
    let bootcode_offset: u64 = 0;
    let cur = device.stream_position()?;
    let _ = device.seek_to(bootcode_offset)?;
    device.write_all(bootcode.as_slice())?;
    device.flush()?;
    device.seek_to(cur)?;
    Ok(())
}

/// Read the 4 bytes of MBR disk signature.
pub fn read_disk_signature<D: DiskDevice>(device: &mut D) -> (r: Result<[u8; 4], IoError>)
    ensures
        D::obeys_device_spec() ==> read_at(*old(device), *final(device), 440, 4, bytes_result(r)),
{
    let dsig_offset: u64 = 440;
    let cur = device.stream_position()?;
    let _ = device.seek_to(dsig_offset)?;
    let v = device.read_exact(4)?;
    if v.len() != 4 {
        return Err(IoError::UnexpectedEof);
    }
    let dsig = [v[0], v[1], v[2], v[3]];
    assert(dsig@ =~= v@);
    device.seek_to(cur)?;
    Ok(dsig)
}

/// Write the 4 bytes of MBR disk signature.
pub fn write_disk_signature<D: DiskDevice>(device: &mut D, sig: &[u8; 4]) -> (r: Result<
    (),
    IoError,
>)
    ensures
        D::obeys_device_spec() ==> write_at(*old(device), *final(device), 440, sig@, r),
{
    let dsig_offset: u64 = 440;
    let cur = device.stream_position()?;
    let _ = device.seek_to(dsig_offset)?;
    device.write_all(sig.as_slice())?;
    device.flush()?;
    device.seek_to(cur)?;
    Ok(())
}

} // verus!
