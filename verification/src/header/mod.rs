//! GPT-header object and helper functions.

pub mod builder;

pub use builder::HeaderBuilder;

use crate::codec::{
    le_u16, le_u32, le_u64, lemma_u16_le_decodes, lemma_u32_le_decodes, lemma_u64_le_decodes,
    put_le_u16, put_le_u32, put_le_u64, put_u8, put_zeros, u16_le, u32_le, u64_le, zeros, Reader,
};
use crate::device::{overwritten, DiskDevice, IoError};
use crate::disk::LogicalBlockSize;
use crate::guid::Guid;
use crate::text::{decimal, decimal_text, joined};
use vstd::prelude::*;
use vstd::string::StringExecFns;

verus! {

/// The least number of entries a partition array has.
pub const MIN_NUM_PARTS: u32 = 128;

/// The number of bytes a header takes on disk.
pub const HEADER_SIZE: usize = 92;

/// Errors returned when interacting with a header.
#[derive(Clone, Copy, Debug)]
pub enum HeaderError {
    /// The device failed.
    Io(IoError),
    /// The first eight bytes are not `EFI PART`.
    InvalidGptSignature,
    /// The checksum a header stores is not the checksum of its bytes.
    InvalidCRC32,
    /// `build` was called with a backup LBA before the primary LBA.
    MissingBackupLba,
    /// There is no room between the primary header and the backup header.
    BackupLbaTooEarly,
    /// The device is shorter than three blocks.
    DiskTooSmall,
    /// A byte offset does not fit in 64 bits.
    Overflow(&'static str),
}

impl HeaderError {
    /// What went wrong, in words.
    pub open spec fn text(self) -> Seq<char> {
        match self {
            HeaderError::Io(e) => "Header IO Error: "@ + e.text(),
            HeaderError::InvalidGptSignature => "invalid GPT signature"@,
            HeaderError::InvalidCRC32 => "invalid CRC32 checksum"@,
            HeaderError::MissingBackupLba => "HeaderBuilder expects the field backup_lba to be set"@,
            HeaderError::BackupLbaTooEarly => "HeaderBuilder: there isn't enough space between first_lba and backup_lba"@,
            HeaderError::DiskTooSmall => "disk image too small for backup header"@,
            HeaderError::Overflow(m) => "Header error Overflow: "@ + m@,
        }
    }

    /// What went wrong, in words.
    pub fn to_text(&self) -> (r: String)
        ensures
            r@ == self.text(),
    {
        match self {
            HeaderError::Io(e) => joined("Header IO Error: ", e.to_text()),
            HeaderError::InvalidGptSignature => "invalid GPT signature".to_owned(),
            HeaderError::InvalidCRC32 => "invalid CRC32 checksum".to_owned(),
            HeaderError::MissingBackupLba => "HeaderBuilder expects the field backup_lba to be set".to_owned(),
            HeaderError::BackupLbaTooEarly => "HeaderBuilder: there isn't enough space between first_lba and backup_lba".to_owned(),
            HeaderError::DiskTooSmall => "disk image too small for backup header".to_owned(),
            HeaderError::Overflow(m) => joined("Header error Overflow: ", m),
        }
    }
}

/// Header describing a GPT disk.
#[derive(Debug, Eq, PartialEq)]
pub struct Header {
    /// GPT header magic signature, hardcoded to "EFI PART".
    pub signature: String,
    /// major, minor
    pub revision: (u16, u16),
    /// Size of the header in bytes, 92.
    pub header_size_le: u32,
    /// CRC32 of the header with crc32 section zeroed
    pub crc32: u32,
    /// must be 0
    pub reserved: u32,
    /// For main header, 1
    pub current_lba: u64,
    /// LBA for backup header
    pub backup_lba: u64,
    /// First usable LBA for partitions (primary table last LBA + 1)
    pub first_usable: u64,
    /// Last usable LBA (secondary partition table first LBA - 1)
    pub last_usable: u64,
    /// UUID of the disk
    pub disk_guid: Guid,
    /// Starting LBA of partition entries
    pub part_start: u64,
    /// Number of partition entries
    pub num_parts: u32,
    /// Size of a partition entry, usually 128
    pub part_size: u32,
    /// CRC32 of the partition table
    pub crc32_parts: u32,
}

/// What a header says, as plain values.
pub struct HeaderView {
    pub signature: Seq<char>,
    pub revision: (u16, u16),
    pub header_size_le: u32,
    pub crc32: u32,
    pub reserved: u32,
    pub current_lba: u64,
    pub backup_lba: u64,
    pub first_usable: u64,
    pub last_usable: u64,
    pub disk_guid: Guid,
    pub part_start: u64,
    pub num_parts: u32,
    pub part_size: u32,
    pub crc32_parts: u32,
}

impl View for Header {
    type V = HeaderView;

    open spec fn view(&self) -> HeaderView {
        HeaderView {
            signature: self.signature@,
            revision: self.revision,
            header_size_le: self.header_size_le,
            crc32: self.crc32,
            reserved: self.reserved,
            current_lba: self.current_lba,
            backup_lba: self.backup_lba,
            first_usable: self.first_usable,
            last_usable: self.last_usable,
            disk_guid: self.disk_guid,
            part_start: self.part_start,
            num_parts: self.num_parts,
            part_size: self.part_size,
            crc32_parts: self.crc32_parts,
        }
    }
}

impl Clone for Header {
    fn clone(&self) -> (r: Self)
        ensures
            r@ == self@,
    {
        Header {
            signature: self.signature.clone(),
            revision: self.revision,
            header_size_le: self.header_size_le,
            crc32: self.crc32,
            reserved: self.reserved,
            current_lba: self.current_lba,
            backup_lba: self.backup_lba,
            first_usable: self.first_usable,
            last_usable: self.last_usable,
            disk_guid: self.disk_guid,
            part_start: self.part_start,
            num_parts: self.num_parts,
            part_size: self.part_size,
            crc32_parts: self.crc32_parts,
        }
    }
}

/// The CRC-32/ISO-HDLC checksum of `data`: what `crc::Crc::<u32>::checksum`
/// returns for the algorithm `crc::CRC_32_ISO_HDLC`.
pub uninterp spec fn crc32_iso_hdlc(data: Seq<u8>) -> u32;

/// Calls `crc::Crc::<u32>::checksum` with the algorithm
/// `crc::CRC_32_ISO_HDLC` (reflected polynomial 0xEDB88320, initial value and
/// final xor 0xFFFFFFFF). The contract only names the outcome; it depends on
/// the bytes alone.
#[verifier::external_body]
pub(crate) fn calculate_crc32(b: &[u8]) -> (r: u32)
    ensures
        r == crc32_iso_hdlc(b@),
{
    crc::Crc::<u32>::new(&crc::CRC_32_ISO_HDLC).checksum(b)
}

/// The eight bytes `EFI PART`.
pub open spec fn signature_bytes() -> Seq<u8> {
    seq![0x45u8, 0x46u8, 0x49u8, 0x20u8, 0x50u8, 0x41u8, 0x52u8, 0x54u8]
}

/// The 92 bytes of a header that stores `crc` as its own checksum and
/// `parts_crc` as the checksum of the partition array. The signature and the
/// reserved word are fixed by the format: the fields of those names, like the
/// two checksum fields, have no part in it.
pub open spec fn header_bytes(h: HeaderView, crc: u32, parts_crc: u32) -> Seq<u8> {
    signature_bytes() + u16_le(h.revision.1) + u16_le(h.revision.0) + u32_le(h.header_size_le)
        + u32_le(crc) + u32_le(0) + u64_le(h.current_lba) + u64_le(h.backup_lba) + u64_le(
        h.first_usable,
    ) + u64_le(h.last_usable) + h.disk_guid.wire() + u64_le(h.part_start) + u32_le(h.num_parts)
        + u32_le(h.part_size) + u32_le(parts_crc)
}

/// The 92 bytes written for a header whose partition array has the checksum
/// `parts_crc`: the header's own checksum is taken over the bytes with zeros
/// in its place, and then stored there.
pub open spec fn header_image(h: HeaderView, parts_crc: u32) -> Seq<u8> {
    header_bytes(h, crc32_iso_hdlc(header_bytes(h, 0, parts_crc)), parts_crc)
}

/// The block written for a header: its 92 bytes, then zeros to the end of the
/// block.
pub open spec fn header_block(h: HeaderView, parts_crc: u32, lb_size: LogicalBlockSize) -> Seq<u8> {
    header_image(h, parts_crc) + zeros((lb_size.bytes() - 92) as nat)
}

/// `s` with zeros in place of the stored checksum, bytes 16 to 19.
pub open spec fn with_zero_checksum(s: Seq<u8>) -> Seq<u8>
    recommends
        s.len() == 92,
{
    s.subrange(0, 16) + zeros(4) + s.subrange(20, 92)
}

/// The fields that 92 header bytes store, each at its offset.
pub open spec fn header_fields(s: Seq<u8>) -> HeaderView
    recommends
        s.len() == 92,
{
    HeaderView {
        signature: "EFI PART"@,
        revision: (le_u16(s.subrange(10, 12)), le_u16(s.subrange(8, 10))),
        header_size_le: le_u32(s.subrange(12, 16)),
        crc32: le_u32(s.subrange(16, 20)),
        reserved: le_u32(s.subrange(20, 24)),
        current_lba: le_u64(s.subrange(24, 32)),
        backup_lba: le_u64(s.subrange(32, 40)),
        first_usable: le_u64(s.subrange(40, 48)),
        last_usable: le_u64(s.subrange(48, 56)),
        disk_guid: Guid::from_wire(s.subrange(56, 72)),
        part_start: le_u64(s.subrange(72, 80)),
        num_parts: le_u32(s.subrange(80, 84)),
        part_size: le_u32(s.subrange(84, 88)),
        crc32_parts: le_u32(s.subrange(88, 92)),
    }
}

/// What reading a header from `s` gives: an end-of-input error where fewer
/// than 92 bytes are there, a signature error where the first eight are not
/// `EFI PART`, a checksum error where the stored checksum is not that of the
/// 92 bytes with zeros in its place, and else the fields.
pub open spec fn decode_header(s: Seq<u8>) -> Result<HeaderView, HeaderError> {
    if s.len() < 92 {
        Err(HeaderError::Io(IoError::UnexpectedEof))
    } else if s.subrange(0, 8) != signature_bytes() {
        Err(HeaderError::InvalidGptSignature)
    } else if crc32_iso_hdlc(with_zero_checksum(s.subrange(0, 92))) != le_u32(s.subrange(16, 20)) {
        Err(HeaderError::InvalidCRC32)
    } else {
        Ok(header_fields(s.subrange(0, 92)))
    }
}

/// What reading a header from `s` gives where the checksum is not looked
/// at.
pub open spec fn decode_header_unchecked(s: Seq<u8>) -> Result<HeaderView, HeaderError> {
    if s.len() < 92 {
        Err(HeaderError::Io(IoError::UnexpectedEof))
    } else if s.subrange(0, 8) != signature_bytes() {
        Err(HeaderError::InvalidGptSignature)
    } else {
        Ok(header_fields(s.subrange(0, 92)))
    }
}

/// The plain values of a header or the error in its place.
pub open spec fn header_result_view(r: Result<Header, HeaderError>) -> Result<
    HeaderView,
    HeaderError,
> {
    match r {
        Ok(h) => Ok(h@),
        Err(e) => Err(e),
    }
}

/// `c`, or zero where there is none.
pub open spec fn checksum_or_zero(c: Option<u32>) -> u32 {
    match c {
        Some(x) => x,
        None => 0,
    }
}

/// What reading back gives for a header written with `parts_crc`: the fields
/// that were written, the fixed signature and reserved word, and the two
/// checksums that were stored.
pub open spec fn stored_view(h: HeaderView, parts_crc: u32) -> HeaderView {
    HeaderView {
        signature: "EFI PART"@,
        crc32: crc32_iso_hdlc(header_bytes(h, 0, parts_crc)),
        reserved: 0,
        crc32_parts: parts_crc,
        ..h
    }
}

/// Where each field lies in the 92 bytes of a header.
pub proof fn lemma_header_bytes_layout(h: HeaderView, crc: u32, parts_crc: u32)
    ensures
        ({
            let s = header_bytes(h, crc, parts_crc);
            &&& s.len() == 92
            &&& s.subrange(0, 8) == signature_bytes()
            &&& s.subrange(8, 10) == u16_le(h.revision.1)
            &&& s.subrange(10, 12) == u16_le(h.revision.0)
            &&& s.subrange(12, 16) == u32_le(h.header_size_le)
            &&& s.subrange(16, 20) == u32_le(crc)
            &&& s.subrange(20, 24) == u32_le(0)
            &&& s.subrange(24, 32) == u64_le(h.current_lba)
            &&& s.subrange(32, 40) == u64_le(h.backup_lba)
            &&& s.subrange(40, 48) == u64_le(h.first_usable)
            &&& s.subrange(48, 56) == u64_le(h.last_usable)
            &&& s.subrange(56, 72) == h.disk_guid.wire()
            &&& s.subrange(72, 80) == u64_le(h.part_start)
            &&& s.subrange(80, 84) == u32_le(h.num_parts)
            &&& s.subrange(84, 88) == u32_le(h.part_size)
            &&& s.subrange(88, 92) == u32_le(parts_crc)
        }),
{
    h.disk_guid.lemma_wire_decodes();
    let s = header_bytes(h, crc, parts_crc);
    let a0 = signature_bytes();
    let a1 = a0 + u16_le(h.revision.1);
    assert(a1.len() == 10);
    let a2 = a1 + u16_le(h.revision.0);
    assert(a2.len() == 12);
    let a3 = a2 + u32_le(h.header_size_le);
    assert(a3.len() == 16);
    let a4 = a3 + u32_le(crc);
    assert(a4.len() == 20);
    let a5 = a4 + u32_le(0);
    assert(a5.len() == 24);
    let a6 = a5 + u64_le(h.current_lba);
    assert(a6.len() == 32);
    let a7 = a6 + u64_le(h.backup_lba);
    assert(a7.len() == 40);
    let a8 = a7 + u64_le(h.first_usable);
    assert(a8.len() == 48);
    let a9 = a8 + u64_le(h.last_usable);
    assert(a9.len() == 56);
    let a10 = a9 + h.disk_guid.wire();
    assert(a10.len() == 72);
    let a11 = a10 + u64_le(h.part_start);
    assert(a11.len() == 80);
    let a12 = a11 + u32_le(h.num_parts);
    assert(a12.len() == 84);
    let a13 = a12 + u32_le(h.part_size);
    assert(a13.len() == 88);
    let a14 = a13 + u32_le(parts_crc);
    assert(a14.len() == 92);
    assert(s == a14);
    assert(s.subrange(0, 92) =~= a14);
    assert(a14.subrange(88, 92) =~= u32_le(parts_crc));
    assert(s.subrange(88, 92) =~= s.subrange(0, 92).subrange(88, 92));
    assert(a14.subrange(0, 88) =~= a13);
    assert(s.subrange(0, 88) =~= s.subrange(0, 92).subrange(0, 88));
    assert(a13.subrange(84, 88) =~= u32_le(h.part_size));
    assert(s.subrange(84, 88) =~= s.subrange(0, 88).subrange(84, 88));
    assert(a13.subrange(0, 84) =~= a12);
    assert(s.subrange(0, 84) =~= s.subrange(0, 88).subrange(0, 84));
    assert(a12.subrange(80, 84) =~= u32_le(h.num_parts));
    assert(s.subrange(80, 84) =~= s.subrange(0, 84).subrange(80, 84));
    assert(a12.subrange(0, 80) =~= a11);
    assert(s.subrange(0, 80) =~= s.subrange(0, 84).subrange(0, 80));
    assert(a11.subrange(72, 80) =~= u64_le(h.part_start));
    assert(s.subrange(72, 80) =~= s.subrange(0, 80).subrange(72, 80));
    assert(a11.subrange(0, 72) =~= a10);
    assert(s.subrange(0, 72) =~= s.subrange(0, 80).subrange(0, 72));
    assert(a10.subrange(56, 72) =~= h.disk_guid.wire());
    assert(s.subrange(56, 72) =~= s.subrange(0, 72).subrange(56, 72));
    assert(a10.subrange(0, 56) =~= a9);
    assert(s.subrange(0, 56) =~= s.subrange(0, 72).subrange(0, 56));
    assert(a9.subrange(48, 56) =~= u64_le(h.last_usable));
    assert(s.subrange(48, 56) =~= s.subrange(0, 56).subrange(48, 56));
    assert(a9.subrange(0, 48) =~= a8);
    assert(s.subrange(0, 48) =~= s.subrange(0, 56).subrange(0, 48));
    assert(a8.subrange(40, 48) =~= u64_le(h.first_usable));
    assert(s.subrange(40, 48) =~= s.subrange(0, 48).subrange(40, 48));
    assert(a8.subrange(0, 40) =~= a7);
    assert(s.subrange(0, 40) =~= s.subrange(0, 48).subrange(0, 40));
    assert(a7.subrange(32, 40) =~= u64_le(h.backup_lba));
    assert(s.subrange(32, 40) =~= s.subrange(0, 40).subrange(32, 40));
    assert(a7.subrange(0, 32) =~= a6);
    assert(s.subrange(0, 32) =~= s.subrange(0, 40).subrange(0, 32));
    assert(a6.subrange(24, 32) =~= u64_le(h.current_lba));
    assert(s.subrange(24, 32) =~= s.subrange(0, 32).subrange(24, 32));
    assert(a6.subrange(0, 24) =~= a5);
    assert(s.subrange(0, 24) =~= s.subrange(0, 32).subrange(0, 24));
    assert(a5.subrange(20, 24) =~= u32_le(0));
    assert(s.subrange(20, 24) =~= s.subrange(0, 24).subrange(20, 24));
    assert(a5.subrange(0, 20) =~= a4);
    assert(s.subrange(0, 20) =~= s.subrange(0, 24).subrange(0, 20));
    assert(a4.subrange(16, 20) =~= u32_le(crc));
    assert(s.subrange(16, 20) =~= s.subrange(0, 20).subrange(16, 20));
    assert(a4.subrange(0, 16) =~= a3);
    assert(s.subrange(0, 16) =~= s.subrange(0, 20).subrange(0, 16));
    assert(a3.subrange(12, 16) =~= u32_le(h.header_size_le));
    assert(s.subrange(12, 16) =~= s.subrange(0, 16).subrange(12, 16));
    assert(a3.subrange(0, 12) =~= a2);
    assert(s.subrange(0, 12) =~= s.subrange(0, 16).subrange(0, 12));
    assert(a2.subrange(10, 12) =~= u16_le(h.revision.0));
    assert(s.subrange(10, 12) =~= s.subrange(0, 12).subrange(10, 12));
    assert(a2.subrange(0, 10) =~= a1);
    assert(s.subrange(0, 10) =~= s.subrange(0, 12).subrange(0, 10));
    assert(a1.subrange(8, 10) =~= u16_le(h.revision.1));
    assert(s.subrange(8, 10) =~= s.subrange(0, 10).subrange(8, 10));
    assert(a1.subrange(0, 8) =~= a0);
    assert(s.subrange(0, 8) =~= s.subrange(0, 10).subrange(0, 8));
}

/// A header that was written reads back: the bytes written for `h` decode
/// to the fields of `h` with the checksums that were stored, writing what
/// was read gives the same bytes again, and the checksum stored in them is
/// the checksum of the bytes with zeros in its place.
pub proof fn lemma_header_round_trip(h: HeaderView, parts_crc: u32)
    ensures
        decode_header(header_image(h, parts_crc)) == Ok::<HeaderView, HeaderError>(
            stored_view(h, parts_crc),
        ),
        header_image(stored_view(h, parts_crc), parts_crc) == header_image(h, parts_crc),
        crc32_iso_hdlc(with_zero_checksum(header_image(h, parts_crc))) == le_u32(
            header_image(h, parts_crc).subrange(16, 20),
        ),
{
    let crc = crc32_iso_hdlc(header_bytes(h, 0, parts_crc));
    let s = header_image(h, parts_crc);
    lemma_header_bytes_layout(h, crc, parts_crc);
    lemma_header_bytes_layout(h, 0, parts_crc);
    assert(s.subrange(0, 92) =~= s);
    assert(with_zero_checksum(s) =~= header_bytes(h, 0, parts_crc));
    lemma_u16_le_decodes(h.revision.1);
    lemma_u16_le_decodes(h.revision.0);
    lemma_u32_le_decodes(h.header_size_le);
    lemma_u32_le_decodes(crc);
    lemma_u32_le_decodes(0);
    lemma_u64_le_decodes(h.current_lba);
    lemma_u64_le_decodes(h.backup_lba);
    lemma_u64_le_decodes(h.first_usable);
    lemma_u64_le_decodes(h.last_usable);
    h.disk_guid.lemma_wire_decodes();
    lemma_u64_le_decodes(h.part_start);
    lemma_u32_le_decodes(h.num_parts);
    lemma_u32_le_decodes(h.part_size);
    lemma_u32_le_decodes(parts_crc);
    assert(header_fields(s) == stored_view(h, parts_crc));
    let t = stored_view(h, parts_crc);
    assert(header_bytes(t, 0, parts_crc) == header_bytes(h, 0, parts_crc));
}

impl Header {
    /// Serializes the header with the two checksums given, zero where one is
    /// not given.
    pub fn as_bytes(&self, header_checksum: Option<u32>, partitions_checksum: Option<u32>) -> (r:
        Vec<u8>)
        ensures
            r@ == header_bytes(
                self@,
                checksum_or_zero(header_checksum),
                checksum_or_zero(partitions_checksum),
            ),
            r@.len() == 92,
    {
        let mut out: Vec<u8> = Vec::new();
        put_u8(&mut out, 0x45);
        put_u8(&mut out, 0x46);
        put_u8(&mut out, 0x49);
        put_u8(&mut out, 0x20);
        put_u8(&mut out, 0x50);
        put_u8(&mut out, 0x41);
        put_u8(&mut out, 0x52);
        put_u8(&mut out, 0x54);
        assert(out@ =~= signature_bytes());
        put_le_u16(&mut out, self.revision.1);
        put_le_u16(&mut out, self.revision.0);
        put_le_u32(&mut out, self.header_size_le);
        put_le_u32(
            &mut out,
            match header_checksum {
                Some(c) => c,
                None => 0,
            },
        );
        put_le_u32(&mut out, 0);
        put_le_u64(&mut out, self.current_lba);
        put_le_u64(&mut out, self.backup_lba);
        put_le_u64(&mut out, self.first_usable);
        put_le_u64(&mut out, self.last_usable);
        self.disk_guid.write(&mut out);
        put_le_u64(&mut out, self.part_start);
        put_le_u32(&mut out, self.num_parts);
        put_le_u32(&mut out, self.part_size);
        put_le_u32(
            &mut out,
            match partitions_checksum {
                Some(c) => c,
                None => 0,
            },
        );
        out
    }

    /// Reads a header from the first 92 bytes of `bytes`, verifying its
    /// signature and its checksum. The header returned holds the checksum
    /// that was stored.
    pub fn from_bytes(bytes: &[u8]) -> (r: Result<Header, HeaderError>)
        ensures
            header_result_view(r) == decode_header(bytes@),
    {
        let h = match Self::from_bytes_unchecked(bytes) {
            Ok(h) => h,
            Err(e) => { return Err(e); },
        };
        let ghost s = bytes@.subrange(0, 92);
        // The checksum is taken with zeros in place of the stored one.
        let mut zeroed: Vec<u8> = Vec::new();
        let mut i: usize = 0;
        while i < HEADER_SIZE
            invariant
                i <= 92,
                bytes@.len() >= 92,
                zeroed@.len() == i,
                forall|j: int|
                    0 <= j < i ==> zeroed@[j] == if 16 <= j < 20 {
                        0u8
                    } else {
                        bytes@[j]
                    },
            decreases 92 - i,
        {
            if 16 <= i && i < 20 {
                zeroed.push(0);
            } else {
                zeroed.push(bytes[i]);
            }
            i += 1;
        }
        assert(zeroed@ =~= with_zero_checksum(s));
        let c = calculate_crc32(zeroed.as_slice());
        assert(s.subrange(16, 20) =~= bytes@.subrange(16, 20));
        if c != h.crc32 {
            return Err(HeaderError::InvalidCRC32);
        }
        Ok(h)
    }

    /// The disk GUID and the two checksums, a line each.
    pub open spec fn text(h: HeaderView) -> Seq<char> {
        "Disk:\t\t"@ + h.disk_guid.text() + "\nCRC32:\t\t"@ + decimal_text(h.crc32 as nat)
            + "\nTable CRC:\t"@ + decimal_text(h.crc32_parts as nat)
    }

    /// The disk GUID and the two checksums, a line each.
    pub fn to_text(&self) -> (r: String)
        ensures
            r@ == Self::text(self@),
    {
        let guid = self.disk_guid.to_text();
        let crc = decimal(self.crc32 as u64);
        let table_crc = decimal(self.crc32_parts as u64);
        let s = joined("Disk:\t\t", guid.as_str());
        let s = s.concat("\nCRC32:\t\t");
        let s = s.concat(crc.as_str());
        let s = s.concat("\nTable CRC:\t");
        s.concat(table_crc.as_str())
    }

    /// Reads the fields of a header from the first 92 bytes of `bytes`,
    /// verifying its signature and not its checksum.
    pub fn from_bytes_unchecked(bytes: &[u8]) -> (r: Result<Header, HeaderError>)
        ensures
            header_result_view(r) == decode_header_unchecked(bytes@),
    {
        if bytes.len() < HEADER_SIZE {
            return Err(HeaderError::Io(IoError::UnexpectedEof));
        }
        let ghost s = bytes@.subrange(0, 92);
        let mut rdr = Reader::new(bytes);
        let sig = match rdr.read(8) {
            Ok(v) => v,
            Err(_) => { return Err(HeaderError::Io(IoError::UnexpectedEof)); },
        };
        assert(sig@ =~= bytes@.subrange(0, 8));
        if !(sig[0] == 0x45 && sig[1] == 0x46 && sig[2] == 0x49 && sig[3] == 0x20 && sig[4] == 0x50
            && sig[5] == 0x41 && sig[6] == 0x52 && sig[7] == 0x54) {
            assert(sig@ != signature_bytes());
            return Err(HeaderError::InvalidGptSignature);
        }
        assert(sig@ =~= signature_bytes());
        let minor = match rdr.read_le_u16() {
            Ok(x) => x,
            Err(_) => { return Err(HeaderError::Io(IoError::UnexpectedEof)); },
        };
        let major = match rdr.read_le_u16() {
            Ok(x) => x,
            Err(_) => { return Err(HeaderError::Io(IoError::UnexpectedEof)); },
        };
        let header_size_le = match rdr.read_le_u32() {
            Ok(x) => x,
            Err(_) => { return Err(HeaderError::Io(IoError::UnexpectedEof)); },
        };
        let crc32 = match rdr.read_le_u32() {
            Ok(x) => x,
            Err(_) => { return Err(HeaderError::Io(IoError::UnexpectedEof)); },
        };
        let reserved = match rdr.read_le_u32() {
            Ok(x) => x,
            Err(_) => { return Err(HeaderError::Io(IoError::UnexpectedEof)); },
        };
        let current_lba = match rdr.read_le_u64() {
            Ok(x) => x,
            Err(_) => { return Err(HeaderError::Io(IoError::UnexpectedEof)); },
        };
        let backup_lba = match rdr.read_le_u64() {
            Ok(x) => x,
            Err(_) => { return Err(HeaderError::Io(IoError::UnexpectedEof)); },
        };
        let first_usable = match rdr.read_le_u64() {
            Ok(x) => x,
            Err(_) => { return Err(HeaderError::Io(IoError::UnexpectedEof)); },
        };
        let last_usable = match rdr.read_le_u64() {
            Ok(x) => x,
            Err(_) => { return Err(HeaderError::Io(IoError::UnexpectedEof)); },
        };
        let ghost guid_at = rdr.remaining();
        let disk_guid = match parse_uuid(&mut rdr) {
            Ok(x) => x,
            Err(e) => { return Err(HeaderError::Io(e)); },
        };
        let part_start = match rdr.read_le_u64() {
            Ok(x) => x,
            Err(_) => { return Err(HeaderError::Io(IoError::UnexpectedEof)); },
        };
        let num_parts = match rdr.read_le_u32() {
            Ok(x) => x,
            Err(_) => { return Err(HeaderError::Io(IoError::UnexpectedEof)); },
        };
        let part_size = match rdr.read_le_u32() {
            Ok(x) => x,
            Err(_) => { return Err(HeaderError::Io(IoError::UnexpectedEof)); },
        };
        let crc32_parts = match rdr.read_le_u32() {
            Ok(x) => x,
            Err(_) => { return Err(HeaderError::Io(IoError::UnexpectedEof)); },
        };
        proof {
            let b = bytes@;
            assert(guid_at == b.subrange(56, b.len() as int));
            assert(guid_at.subrange(0, 4) =~= s.subrange(56, 72).subrange(0, 4));
            assert(guid_at.subrange(4, 6) =~= s.subrange(56, 72).subrange(4, 6));
            assert(guid_at.subrange(6, 8) =~= s.subrange(56, 72).subrange(6, 8));
            assert(guid_at.subrange(8, 16) =~= s.subrange(56, 72).subrange(8, 16));
            assert(disk_guid == Guid::from_wire(s.subrange(56, 72)));
        }
        let h = Header {
            signature: "EFI PART".to_owned(),
            revision: (major, minor),
            header_size_le,
            crc32,
            reserved,
            current_lba,
            backup_lba,
            first_usable,
            last_usable,
            disk_guid,
            part_start,
            num_parts,
            part_size,
            crc32_parts,
        };
        assert(h@ == header_fields(s));
        Ok(h)
    }

    /// Whether a table of `partitions_len` partitions needs more entries
    /// than the array of this header has.
    pub fn num_parts_would_change(&self, partitions_len: u32) -> (r: bool)
        ensures
            r == (partitions_len > self.num_parts),
    {
        partitions_len > self.num_parts
    }

    /// Write the primary header.
    ///
    /// The checksum of the partition array is taken from the device, and the
    /// checksum of the header from the bytes that are written. A header that
    /// does not lie before its backup is refused, and the device is not
    /// touched.
    pub fn write_primary<D: DiskDevice>(&self, file: &mut D, lb_size: LogicalBlockSize) -> (r:
        Result<usize, HeaderError>)
        ensures
            self.current_lba >= self.backup_lba ==> (r matches Err(
                HeaderError::BackupLbaTooEarly,
            )) && *final(file) == *old(file),
            D::obeys_device_spec() ==> written_header(
                old(file).contents(),
                final(file).contents(),
                guarded_write_spec(
                    old(file).contents(),
                    self@,
                    self.current_lba < self.backup_lba,
                    lb_size,
                ),
                lb_size,
                r,
            ),
    {
        // This is the primary header. It must start before the backup one.
        if self.current_lba >= self.backup_lba {
            return Err(HeaderError::BackupLbaTooEarly);
        }
        self.file_write_header(file, self.current_lba, lb_size)
    }

    /// Write the backup header.
    ///
    /// The checksum of the partition array is taken from the device, and the
    /// checksum of the header from the bytes that are written. A header that
    /// does not lie behind its primary is refused, and the device is not
    /// touched.
    pub fn write_backup<D: DiskDevice>(&self, file: &mut D, lb_size: LogicalBlockSize) -> (r:
        Result<usize, HeaderError>)
        ensures
            self.current_lba <= self.backup_lba ==> (r matches Err(
                HeaderError::BackupLbaTooEarly,
            )) && *final(file) == *old(file),
            D::obeys_device_spec() ==> written_header(
                old(file).contents(),
                final(file).contents(),
                guarded_write_spec(
                    old(file).contents(),
                    self@,
                    self.current_lba > self.backup_lba,
                    lb_size,
                ),
                lb_size,
                r,
            ),
    {
        // This is the backup header. It must start after the primary one.
        if self.current_lba <= self.backup_lba {
            return Err(HeaderError::BackupLbaTooEarly);
        }
        self.file_write_header(file, self.current_lba, lb_size)
    }

    /// Write an header to an arbitrary LBA.
    ///
    /// The block written holds the header with fresh checksums and zeros
    /// behind it.
    pub fn file_write_header<D: DiskDevice>(
        &self,
        file: &mut D,
        lba: u64,
        lb_size: LogicalBlockSize,
    ) -> (r: Result<usize, HeaderError>)
        ensures
            D::obeys_device_spec() ==> written_header(
                old(file).contents(),
                final(file).contents(),
                write_header_spec(old(file).contents(), self@, lba, lb_size),
                lb_size,
                r,
            ),
    {
        // Build up byte array in memory
        let parts_checksum = match partentry_checksum(file, self, lb_size) {
            Ok(c) => c,
            Err(e) => { return Err(e); },
        };
        // Write it to disk in 1 shot
        let start = match lb_size.byte_offset(lba) {
            Some(x) => x,
            None => { return Err(HeaderError::Overflow("header overflow - offset")); },
        };
        match file.seek_to(start) {
            Ok(_) => {},
            Err(e) => { return Err(HeaderError::Io(e)); },
        };
        let mut bytes = self.sealed_bytes(parts_checksum);
        // The rest of the logical block must be zeros.
        put_zeros(&mut bytes, lb_size.as_usize() - HEADER_SIZE);
        match file.write_all(bytes.as_slice()) {
            Ok(_) => {},
            Err(e) => { return Err(HeaderError::Io(e)); },
        };
        Ok(bytes.len())
    }

    /// Serializes the header as it is written to disk: with `parts_crc` as
    /// the checksum of the partition array and the header's own checksum
    /// computed over the result.
    pub fn sealed_bytes(&self, parts_crc: u32) -> (r: Vec<u8>)
        ensures
            r@ == header_image(self@, parts_crc),
            r@.len() == 92,
    {
        let unsealed = self.as_bytes(None, Some(parts_crc));
        let checksum = calculate_crc32(unsealed.as_slice());
        self.as_bytes(Some(checksum), Some(parts_crc))
    }
}

/// The LBA of the backup header on a device of `len` bytes: the last block
/// of a device that has at least three.
pub open spec fn backup_lba_spec(len: int, lb_size: LogicalBlockSize) -> Result<u64, HeaderError> {
    if len < 3 * lb_size.bytes() {
        Err(HeaderError::DiskTooSmall)
    } else {
        Ok((len / lb_size.bytes() - 1) as u64)
    }
}

/// The LBA of the backup header on a device of `len` bytes.
pub fn backup_lba_for_length(len: u64, lb_size: LogicalBlockSize) -> (r: Result<u64, HeaderError>)
    ensures
        r == backup_lba_spec(len as int, lb_size),
{
    let lb: u64 = lb_size.as_u64();
    // lba0: prot mbr, lba1: prim, .., lba-1: backup
    // at least three lba need to be present else it doesn't make sense
    // to check for the backup header
    if len < lb * 3 {
        return Err(HeaderError::DiskTooSmall);
    }
    let bak_offset = len - lb;
    let bak_lba = bak_offset / lb;
    Ok(bak_lba)
}

/// The byte offset at which the partition array of `h` starts.
pub open spec fn table_offset(h: HeaderView, lb_size: LogicalBlockSize) -> int {
    h.part_start * lb_size.bytes()
}

/// The number of bytes in the partition array of `h`.
pub open spec fn table_len(h: HeaderView) -> int {
    h.num_parts * h.part_size
}

/// Finds the LBA of the backup header from the length of the device, and
/// leaves the cursor where it was.
pub fn find_backup_lba<D: DiskDevice>(f: &mut D, sector_size: LogicalBlockSize) -> (r: Result<
    u64,
    HeaderError,
>)
    ensures
        D::obeys_device_spec() ==> {
            &&& final(f).contents() == old(f).contents()
            &&& final(f).cursor() == old(f).cursor()
            &&& old(f).contents().len() <= u64::MAX
            &&& r == backup_lba_spec(old(f).contents().len() as int, sector_size)
        },
{
    let old_pos = match f.stream_position() {
        Ok(p) => p,
        Err(e) => { return Err(HeaderError::Io(e)); },
    };
    let len = match f.seek_to_end() {
        Ok(p) => p,
        Err(e) => { return Err(HeaderError::Io(e)); },
    };
    match f.seek_to(old_pos) {
        Ok(_) => {},
        Err(e) => { return Err(HeaderError::Io(e)); },
    };
    backup_lba_for_length(len, sector_size)
}

/// What reading the header at byte `offset` of a device holding `contents`
/// gives: an end-of-input error where the device ends before the header
/// does, and else what the 92 bytes hold.
pub open spec fn header_at(contents: Seq<u8>, offset: int) -> Result<HeaderView, HeaderError> {
    if offset + 92 > contents.len() {
        Err(HeaderError::Io(IoError::UnexpectedEof))
    } else {
        decode_header(contents.subrange(offset, offset + 92))
    }
}

/// Reads and verifies the header stored at byte `offset`.
pub fn file_read_header<D: DiskDevice>(file: &mut D, offset: u64) -> (r: Result<
    Header,
    HeaderError,
>)
    ensures
        D::obeys_device_spec() ==> {
            &&& final(file).contents() == old(file).contents()
            &&& header_result_view(r) == header_at(old(file).contents(), offset as int)
        },
{
    match file.seek_to(offset) {
        Ok(_) => {},
        Err(e) => { return Err(HeaderError::Io(e)); },
    };
    let bytes = match file.read_exact(HEADER_SIZE) {
        Ok(b) => b,
        Err(e) => { return Err(HeaderError::Io(e)); },
    };
    proof {
        if D::obeys_device_spec() {
            assert(bytes@.subrange(0, 92) =~= bytes@);
        }
    }
    Header::from_bytes(bytes.as_slice())
}

/// Reads the primary header, at LBA 1, and puts the cursor back.
pub fn read_primary_header<D: DiskDevice>(file: &mut D, sector_size: LogicalBlockSize) -> (r:
    Result<Header, HeaderError>)
    ensures
        D::obeys_device_spec() ==> {
            &&& final(file).contents() == old(file).contents()
            &&& final(file).cursor() == old(file).cursor()
            &&& header_result_view(r) == header_at(old(file).contents(), sector_size.bytes())
        },
{
    let cur = match file.stream_position() {
        Ok(p) => p,
        Err(e) => { return Err(HeaderError::Io(e)); },
    };
    let offset: u64 = sector_size.as_u64();
    let res = file_read_header(file, offset);
    match file.seek_to(cur) {
        Ok(_) => {},
        Err(e) => { return Err(HeaderError::Io(e)); },
    };
    res
}

/// What reading the backup header of a device holding `contents` gives: the
/// header in the last block, where the device has three blocks.
pub open spec fn backup_header_spec(contents: Seq<u8>, lb_size: LogicalBlockSize) -> Result<
    HeaderView,
    HeaderError,
> {
    match backup_lba_spec(contents.len() as int, lb_size) {
        Err(e) => Err(e),
        Ok(lba) => header_at(contents, lba * lb_size.bytes()),
    }
}

/// Reads the backup header, in the last block, and puts the cursor back.
pub fn read_backup_header<D: DiskDevice>(file: &mut D, sector_size: LogicalBlockSize) -> (r:
    Result<Header, HeaderError>)
    ensures
        D::obeys_device_spec() ==> {
            &&& final(file).contents() == old(file).contents()
            &&& final(file).cursor() == old(file).cursor()
            &&& header_result_view(r) == backup_header_spec(old(file).contents(), sector_size)
        },
{
    let cur = match file.stream_position() {
        Ok(p) => p,
        Err(e) => { return Err(HeaderError::Io(e)); },
    };
    let h2sect = match find_backup_lba(file, sector_size) {
        Ok(x) => x,
        Err(e) => { return Err(e); },
    };
    proof {
        if D::obeys_device_spec() {
            let len = file.contents().len() as int;
            let lb = sector_size.bytes();
            assert(h2sect * lb <= len) by (nonlinear_arith)
                requires
                    h2sect == len / lb - 1,
                    lb > 0,
            ;
        }
    }
    let offset = match sector_size.byte_offset(h2sect) {
        Some(x) => x,
        None => { return Err(HeaderError::Overflow("backup header overflow - offset")); },
    };
    let res = file_read_header(file, offset);
    match file.seek_to(cur) {
        Ok(_) => {},
        Err(e) => { return Err(HeaderError::Io(e)); },
    };
    res
}

/// Read a GPT header from any device capable of reading and seeking.
pub fn read_header_from_arbitrary_device<D: DiskDevice>(
    device: &mut D,
    sector_size: LogicalBlockSize,
) -> (r: Result<Header, HeaderError>)
    ensures
        D::obeys_device_spec() ==> {
            &&& final(device).contents() == old(device).contents()
            &&& final(device).cursor() == old(device).cursor()
            &&& header_result_view(r) == header_at(old(device).contents(), sector_size.bytes())
        },
{
    read_primary_header(device, sector_size)
}

/// What taking the checksum of the partition array of `h` gives on a device
/// holding `contents`: the checksum of the bytes of the array, or an error
/// where an offset does not fit or the device ends before the array does.
pub open spec fn table_checksum_spec(contents: Seq<u8>, h: HeaderView, lb_size: LogicalBlockSize) -> Result<
    u32,
    HeaderError,
> {
    if table_offset(h, lb_size) > u64::MAX {
        Err(HeaderError::Overflow("header overflow - partition table start"))
    } else if table_len(h) > usize::MAX {
        Err(HeaderError::Overflow("partition table - size"))
    } else if table_offset(h, lb_size) + table_len(h) > contents.len() {
        Err(HeaderError::Io(IoError::UnexpectedEof))
    } else {
        Ok(
            crc32_iso_hdlc(
                contents.subrange(
                    table_offset(h, lb_size),
                    table_offset(h, lb_size) + table_len(h),
                ),
            ),
        )
    }
}

/// Reads the partition array that `hdr` points at and takes its checksum.
pub fn partentry_checksum<D: DiskDevice>(
    file: &mut D,
    hdr: &Header,
    lb_size: LogicalBlockSize,
) -> (r: Result<u32, HeaderError>)
    ensures
        table_offset(hdr@, lb_size) > u64::MAX ==> *final(file) == *old(file) && r == Err::<
            u32,
            HeaderError,
        >(HeaderError::Overflow("header overflow - partition table start")),
        table_offset(hdr@, lb_size) <= u64::MAX && table_len(hdr@) > usize::MAX ==> *final(file)
            == *old(file) && r == Err::<u32, HeaderError>(
            HeaderError::Overflow("partition table - size"),
        ),
        D::obeys_device_spec() ==> {
            &&& final(file).contents() == old(file).contents()
            &&& r == table_checksum_spec(old(file).contents(), hdr@, lb_size)
        },
{
    // Seek to start of partition table.
    let start = match lb_size.byte_offset(hdr.part_start) {
        Some(x) => x,
        None => {
            return Err(HeaderError::Overflow("header overflow - partition table start"));
        },
    };
    // Read partition table.
    assert(hdr.num_parts * hdr.part_size <= 0xffff_ffff * 0xffff_ffff) by (nonlinear_arith)
        requires
            hdr.num_parts <= 0xffff_ffff,
            hdr.part_size <= 0xffff_ffff,
    ;
    let pt_len: u64 = (hdr.num_parts as u64) * (hdr.part_size as u64);
    if pt_len > usize::MAX as u64 {
        return Err(HeaderError::Overflow("partition table - size"));
    }
    match file.seek_to(start) {
        Ok(_) => {},
        Err(e) => { return Err(HeaderError::Io(e)); },
    };
    let buf = match file.read_exact(pt_len as usize) {
        Ok(b) => b,
        Err(e) => { return Err(HeaderError::Io(e)); },
    };
    // Compute CRC32 over all table bits.
    Ok(calculate_crc32(buf.as_slice()))
}

/// What writing the header `h` at block `lba` makes of a device holding
/// `contents`: the header block in place of what was there, or an error
/// where an offset does not fit or the device ends too early. The header
/// written stores the checksum of the partition array that is on the
/// device.
pub open spec fn write_header_spec(
    contents: Seq<u8>,
    h: HeaderView,
    lba: u64,
    lb_size: LogicalBlockSize,
) -> Result<Seq<u8>, HeaderError> {
    match table_checksum_spec(contents, h, lb_size) {
        Err(e) => Err(e),
        Ok(parts_crc) => if lba * lb_size.bytes() > u64::MAX {
            Err(HeaderError::Overflow("header overflow - offset"))
        } else if lba * lb_size.bytes() + lb_size.bytes() > contents.len() {
            Err(HeaderError::Io(IoError::WriteZero))
        } else {
            Ok(overwritten(contents, lba * lb_size.bytes(), header_block(h, parts_crc, lb_size)))
        },
    }
}

/// What writing the header `h` where it says it lies makes of a device
/// holding `contents`, where `in_order` says whether the header lies on the
/// side of its backup that it is written for.
pub open spec fn guarded_write_spec(
    contents: Seq<u8>,
    h: HeaderView,
    in_order: bool,
    lb_size: LogicalBlockSize,
) -> Result<Seq<u8>, HeaderError> {
    if in_order {
        write_header_spec(contents, h, h.current_lba, lb_size)
    } else {
        Err(HeaderError::BackupLbaTooEarly)
    }
}

/// Whether `after` and `r` are what a write with the outcome `outcome`
/// leaves of `before`: on success the block is written and its length
/// returned, and on an error the device is as it was.
pub open spec fn written_header(
    before: Seq<u8>,
    after: Seq<u8>,
    outcome: Result<Seq<u8>, HeaderError>,
    lb_size: LogicalBlockSize,
    r: Result<usize, HeaderError>,
) -> bool {
    match outcome {
        Ok(image) => r == Ok::<usize, HeaderError>(lb_size.bytes() as usize) && after == image,
        Err(e) => r == Err::<usize, HeaderError>(e) && after == before,
    }
}

/// A helper function to create a new header and write it to disk.
/// If the uuid isn't given a random one will be generated.  Use
/// this in conjunction with Partition::write()
pub fn write_header_to_device<D: DiskDevice>(
    device: &mut D,
    uuid: Option<Guid>,
    sector_size: LogicalBlockSize,
) -> (r: Result<Guid, HeaderError>)
    ensures
        r matches Ok(guid) ==> (uuid matches Some(u) ==> guid == u) && (uuid is None
            ==> guid.is_random_kind()),
        D::obeys_device_spec() ==> match backup_lba_spec(
            old(device).contents().len() as int,
            sector_size,
        ) {
            Err(e) => r == Err::<Guid, HeaderError>(e) && final(device).contents() == old(
                device,
            ).contents(),
            Ok(bak) => {
                let settings = builder::BuilderView {
                    primary: true,
                    disk_guid: match r {
                        Ok(guid) => guid,
                        Err(_) => Guid::spec_nil(),
                    },
                    primary_lba: 1,
                    backup_lba: bak,
                    first_usable: 0,
                    last_usable: 0,
                    num_parts: 128,
                    part_size: 128,
                };
                match builder::build_spec(settings, sector_size) {
                    Err(e) => r == Err::<Guid, HeaderError>(e) && final(device).contents() == old(
                        device,
                    ).contents(),
                    Ok(h) => match guarded_write_spec(
                        old(device).contents(),
                        h,
                        h.current_lba < h.backup_lba,
                        sector_size,
                    ) {
                        Err(e) => r == Err::<Guid, HeaderError>(e) && final(device).contents()
                            == old(device).contents(),
                        Ok(image) => r is Ok && final(device).contents() == image,
                    },
                }
            },
        },
{
    let bak = match find_backup_lba(device, sector_size) {
        Ok(b) => b,
        Err(e) => { return Err(e); },
    };
    let mut header = HeaderBuilder::new();
    match uuid {
        Some(u) => {
            header.disk_guid(u);
        },
        None => {},
    }
    header.backup_lba(bak);
    let header = match header.build(sector_size) {
        Ok(h) => h,
        Err(e) => { return Err(e); },
    };
    match header.write_primary(device, sector_size) {
        Ok(_) => {},
        Err(e) => { return Err(e); },
    }
    Ok(header.disk_guid)
}

/// Parses a uuid with first 3 portions in little endian.
pub fn parse_uuid(rdr: &mut Reader) -> (r: Result<Guid, IoError>)
    ensures
        final(rdr).data() == old(rdr).data(),
        r is Ok <==> old(rdr).position() + 16 <= old(rdr).data().len(),
        r matches Ok(g) ==> g == Guid::from_wire(old(rdr).remaining())
            && final(rdr).position() == old(rdr).position() + 16,
        r matches Err(e) ==> e == IoError::UnexpectedEof
            && final(rdr).position() == old(rdr).position(),
{
    match Guid::read(rdr) {
        Ok(g) => Ok(g),
        Err(_) => Err(IoError::UnexpectedEof),
    }
}

} // verus!
