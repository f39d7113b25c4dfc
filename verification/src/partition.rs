//! Partition-related types and helper functions.
//!
//! This module provides access to low-level primitives
//! to work with GPT partitions.

use crate::codec::{
    le_u16, le_u64, put_le_u16, put_le_u64, put_zeros, u16_le, u64_le, zeros, Reader,
};
use crate::device::{overwritten, DiskDevice, IoError};
use crate::disk::LogicalBlockSize;
use crate::guid::Guid;
use crate::header::{calculate_crc32, crc32_iso_hdlc, parse_uuid, Header, HeaderView};
use crate::order::{ascending_keys, lists_keys, sorted_keys};
use crate::partition_types::Type;
use crate::text::{decimal, decimal_text, joined};
use crate::GptError;
use std::collections::BTreeMap;
use vstd::prelude::*;
use vstd::string::StringExecFns;

verus! {

/// Required platform partition.
pub const PLATFORM: u64 = 1;

/// No Block-IO protocol.
pub const EFI: u64 = 2;

/// Legacy-BIOS bootable partition.
pub const BOOTABLE: u64 = 4;

/// Partition entry attributes, defined for UEFI.
#[derive(Clone, Copy, Debug, PartialEq, Eq, Structural, Hash)]
pub struct PartitionAttributes {
    bits: u64,
}

impl PartitionAttributes {
    /// The attributes as the bits of a partition's flags.
    pub closed spec fn spec_bits(self) -> u64 {
        self.bits
    }

    /// The attributes among the bits of `bits`: every other bit is dropped.
    pub fn from_bits_truncate(bits: u64) -> (r: Self)
        ensures
            r.spec_bits() == bits & (PLATFORM | EFI | BOOTABLE),
    {
        Self { bits: bits & (PLATFORM | EFI | BOOTABLE) }
    }

    /// The attributes as the bits of a partition's flags.
    pub fn bits(&self) -> (r: u64)
        ensures
            r == self.spec_bits(),
    {
        self.bits
    }

    /// Whether every attribute of `other` is among these.
    pub fn contains(&self, other: Self) -> (r: bool)
        ensures
            r == (self.spec_bits() & other.spec_bits() == other.spec_bits()),
    {
        self.bits & other.bits == other.bits
    }

    /// These attributes and those of `other`.
    pub fn union(self, other: Self) -> (r: Self)
        ensures
            r.spec_bits() == self.spec_bits() | other.spec_bits(),
    {
        Self { bits: self.bits | other.bits }
    }
}

/// The number of bytes of a partition entry that this library reads.
pub const ENTRY_SIZE: usize = 128;

/// The number of UTF-16 code units that an entry has room for.
pub const NAME_UNITS: usize = 36;

/// A partition entry in a GPT partition table.
#[derive(Debug, Eq, PartialEq)]
pub struct Partition {
    /// GUID of the partition type.
    pub part_type_guid: Type,
    /// UUID of the partition.
    pub part_guid: Guid,
    /// First LBA of the partition.
    pub first_lba: u64,
    /// Last LBA of the partition.
    pub last_lba: u64,
    /// Partition flags.
    pub flags: u64,
    /// Partition name.
    pub name: String,
}

/// What a partition entry says, as plain values.
pub struct PartitionView {
    pub part_type_guid: Type,
    pub part_guid: Guid,
    pub first_lba: u64,
    pub last_lba: u64,
    pub flags: u64,
    pub name: Seq<char>,
}

impl View for Partition {
    type V = PartitionView;

    open spec fn view(&self) -> PartitionView {
        PartitionView {
            part_type_guid: self.part_type_guid,
            part_guid: self.part_guid,
            first_lba: self.first_lba,
            last_lba: self.last_lba,
            flags: self.flags,
            name: self.name@,
        }
    }
}

impl Clone for Partition {
    fn clone(&self) -> (r: Self)
        ensures
            r@ == self@,
    {
        Partition {
            part_type_guid: self.part_type_guid,
            part_guid: self.part_guid,
            first_lba: self.first_lba,
            last_lba: self.last_lba,
            flags: self.flags,
            name: self.name.clone(),
        }
    }
}

impl PartitionView {
    /// Whether the entry is in use: its type is not the identifier of all
    /// zeros.
    pub open spec fn is_used(self) -> bool {
        self.part_type_guid.guid != Guid::spec_nil()
    }
}

/// The UTF-16 code units of one character: itself below U+10000, and a
/// surrogate pair from there on.
pub open spec fn utf16_of_char(c: char) -> Seq<u16> {
    let v = c as u32;
    if v < 0x1_0000 {
        seq![v as u16]
    } else {
        seq![(0xD800 + (v - 0x1_0000) / 0x400) as u16, (0xDC00 + (v - 0x1_0000) % 0x400) as u16]
    }
}

/// The UTF-16 code units of a text.
pub open spec fn utf16_encoding(s: Seq<char>) -> Seq<u16>
    decreases s.len(),
{
    if s.len() == 0 {
        Seq::empty()
    } else {
        utf16_encoding(s.drop_last()) + utf16_of_char(s.last())
    }
}

/// The text that code units decode to: a unit that is no surrogate is a
/// character, a high surrogate with a low one behind it gives one character
/// beyond U+FFFF, and any other surrogate gives U+FFFD in its place.
pub open spec fn utf16_lossy_decoding(units: Seq<u16>) -> Seq<char>
    decreases units.len(),
{
    if units.len() == 0 {
        Seq::empty()
    } else if units[0] < 0xD800 || units[0] > 0xDFFF {
        seq![units[0] as char] + utf16_lossy_decoding(units.drop_first())
    } else if units[0] < 0xDC00 && units.len() >= 2 && 0xDC00 <= units[1] <= 0xDFFF {
        seq![(0x1_0000 + (units[0] - 0xD800) * 0x400 + (units[1] - 0xDC00)) as char]
            + utf16_lossy_decoding(units.subrange(2, units.len() as int))
    } else {
        seq!['\u{FFFD}'] + utf16_lossy_decoding(units.drop_first())
    }
}

/// The code units of a text that starts with `c` are those of `c` and then
/// those of the rest.
proof fn lemma_encoding_front(c: char, s: Seq<char>)
    ensures
        utf16_encoding(seq![c] + s) == utf16_of_char(c) + utf16_encoding(s),
    decreases s.len(),
{
    let whole = seq![c] + s;
    if s.len() == 0 {
        assert(whole.drop_last() =~= Seq::<char>::empty());
        assert(whole.last() == c);
        assert(utf16_encoding(whole.drop_last()) =~= Seq::<u16>::empty());
        assert(utf16_encoding(whole) =~= utf16_of_char(c) + utf16_encoding(s));
    } else {
        assert(whole.drop_last() =~= seq![c] + s.drop_last());
        assert(whole.last() == s.last());
        lemma_encoding_front(c, s.drop_last());
        assert(utf16_encoding(whole) =~= utf16_of_char(c) + utf16_encoding(s));
    }
}

/// The code units of a character decode to the character, whatever
/// follows them.
proof fn lemma_decoding_front(c: char, rest: Seq<u16>)
    ensures
        utf16_lossy_decoding(utf16_of_char(c) + rest) == seq![c] + utf16_lossy_decoding(rest),
{
    let v = c as u32;
    let units = utf16_of_char(c) + rest;
    if v < 0x1_0000 {
        assert(units[0] == v as u16);
        assert(units.drop_first() =~= rest);
    } else {
        let high = (v - 0x1_0000) / 0x400;
        let low = (v - 0x1_0000) % 0x400;
        assert(v <= 0x10_FFFF);
        assert(0 <= high <= 0x3FF && 0 <= low <= 0x3FF && high * 0x400 + low == v - 0x1_0000);
        assert(units[0] == (0xD800 + high) as u16);
        assert(units[1] == (0xDC00 + low) as u16);
        assert(units.subrange(2, units.len() as int) =~= rest);
    }
}

/// A text comes back from its code units.
pub proof fn lemma_utf16_round_trip(s: Seq<char>)
    ensures
        utf16_lossy_decoding(utf16_encoding(s)) == s,
    decreases s.len(),
{
    if s.len() > 0 {
        let rest = s.drop_first();
        assert(s =~= seq![s[0]] + rest);
        lemma_encoding_front(s[0], rest);
        lemma_decoding_front(s[0], utf16_encoding(rest));
        lemma_utf16_round_trip(rest);
    }
}

/// A character other than U+0000 has no code unit that is zero.
proof fn lemma_char_has_no_zero(c: char)
    requires
        c != '\0',
    ensures
        forall|i: int| 0 <= i < utf16_of_char(c).len() ==> utf16_of_char(c)[i] != 0,
{
    let v = c as u32;
    assert(v != 0) by {
        assert('\0' as u32 == 0);
    }
    if v >= 0x1_0000 {
        assert(0 <= (v - 0x1_0000) / 0x400 <= 0x3FF);
    }
}

/// A text without the character U+0000 has no code unit that is zero.
proof fn lemma_encoding_has_no_zero(s: Seq<char>)
    requires
        forall|i: int| 0 <= i < s.len() ==> s[i] != '\0',
    ensures
        forall|i: int| 0 <= i < utf16_encoding(s).len() ==> utf16_encoding(s)[i] != 0,
    decreases s.len(),
{
    if s.len() > 0 {
        let rest = s.drop_last();
        let c = s.last();
        assert(s[s.len() - 1] == c);
        assert forall|i: int| 0 <= i < rest.len() implies rest[i] != '\0' by {
            assert(rest[i] == s[i]);
        }
        lemma_encoding_has_no_zero(rest);
        lemma_char_has_no_zero(c);
        let head = utf16_encoding(rest);
        let tail = utf16_of_char(c);
        assert(utf16_encoding(s) == head + tail);
        assert forall|i: int| 0 <= i < (head + tail).len() implies (head + tail)[i] != 0 by {
            if i < head.len() {
                assert((head + tail)[i] == head[i]);
            } else {
                assert((head + tail)[i] == tail[i - head.len()]);
            }
        }
    }
}

/// Where no code unit is zero, the name ends with the code units.
proof fn lemma_nul_position_without_zero(units: Seq<u16>)
    requires
        forall|i: int| 0 <= i < units.len() ==> units[i] != 0,
    ensures
        nul_position(units) == units.len(),
    decreases units.len(),
{
    if units.len() > 0 {
        let rest = units.drop_first();
        assert forall|i: int| 0 <= i < rest.len() implies rest[i] != 0 by {
            assert(rest[i] == units[i + 1]);
        }
        lemma_nul_position_without_zero(rest);
    }
}

/// The code units of `units`, each as two little-endian bytes.
pub open spec fn u16s_le(units: Seq<u16>) -> Seq<u8>
    decreases units.len(),
{
    if units.len() == 0 {
        Seq::empty()
    } else {
        u16s_le(units.drop_last()) + u16_le(units.last())
    }
}

/// The first 36 of `units`, or all where there are fewer.
pub open spec fn first_units(units: Seq<u16>) -> Seq<u16> {
    if units.len() > 36 {
        units.subrange(0, 36)
    } else {
        units
    }
}

/// The bytes that store a name: its first 36 UTF-16 code units, little-endian.
pub open spec fn name_bytes(name: Seq<char>) -> Seq<u8> {
    u16s_le(first_units(utf16_encoding(name)))
}

/// The fields of an entry as stored, before the entry is cut or padded to
/// its size: 56 bytes and the name.
pub open spec fn entry_body(p: PartitionView) -> Seq<u8> {
    p.part_type_guid.guid.wire() + p.part_guid.wire() + u64_le(p.first_lba) + u64_le(p.last_lba)
        + u64_le(p.flags) + name_bytes(p.name)
}

/// `s` cut to `n` bytes, or padded with zeros to `n` bytes.
pub open spec fn fitted(s: Seq<u8>, n: int) -> Seq<u8> {
    if s.len() >= n {
        s.subrange(0, n)
    } else {
        s + zeros((n - s.len()) as nat)
    }
}

/// The `size` bytes of an entry on disk.
pub open spec fn entry_bytes(p: PartitionView, size: int) -> Seq<u8> {
    fitted(entry_body(p), size)
}

/// The 36 code units that the name field of a 128-byte entry holds.
pub open spec fn entry_units(s: Seq<u8>) -> Seq<u16>
    recommends
        s.len() >= 128,
{
    Seq::new(36, |i: int| le_u16(s.subrange(56 + 2 * i, 58 + 2 * i)))
}

/// The number of code units before the first that is zero, or the number
/// of all where none is.
pub open spec fn nul_position(units: Seq<u16>) -> int
    decreases units.len(),
{
    if units.len() == 0 || units[0] == 0 {
        0
    } else {
        1 + nul_position(units.drop_first())
    }
}

/// The entry that 128 bytes store. The name ends before the first code unit
/// that is zero.
pub open spec fn decode_entry(s: Seq<u8>) -> PartitionView
    recommends
        s.len() >= 128,
{
    let units = entry_units(s);
    PartitionView {
        part_type_guid: Type { guid: Guid::from_wire(s.subrange(0, 16)) },
        part_guid: Guid::from_wire(s.subrange(16, 32)),
        first_lba: le_u64(s.subrange(32, 40)),
        last_lba: le_u64(s.subrange(40, 48)),
        flags: le_u64(s.subrange(48, 56)),
        name: utf16_lossy_decoding(units.subrange(0, nul_position(units))),
    }
}

/// The 128 bytes of slot `i` of a partition array, counted from zero.
pub open spec fn slot(table: Seq<u8>, i: int) -> Seq<u8> {
    table.subrange(128 * i, 128 * i + 128)
}

/// The 128 bytes that hold partition `k` in an array that starts at byte
/// `start` of `contents`: those of slot `k - 1`.
pub open spec fn key_slot(contents: Seq<u8>, start: int, k: u32) -> Seq<u8> {
    contents.subrange(start + 128 * (k - 1), start + 128 * k)
}

/// The partitions that the first `n` slots of a partition array hold: slot
/// `i` gives partition `i + 1`, and a slot of zeros gives none.
pub open spec fn decode_table(table: Seq<u8>, n: int) -> Map<u32, PartitionView> {
    Map::new(
        |k: u32| 1 <= k <= n && key_slot(table, 0, k) != zeros(128),
        |k: u32| decode_entry(key_slot(table, 0, k)),
    )
}

/// The plain values of the partitions of a table.
pub open spec fn table_view(m: Map<u32, Partition>) -> Map<u32, PartitionView> {
    m.map_values(|p: Partition| p@)
}

/// The plain values of a sequence of partitions.
pub open spec fn views(v: Seq<Partition>) -> Seq<PartitionView> {
    v.map_values(|p: Partition| p@)
}

/// The partitions in use among those with the indices `ks`, in the order of
/// `ks`.
pub open spec fn used_entries_of(m: Map<u32, PartitionView>, ks: Seq<u32>) -> Seq<PartitionView>
    decreases ks.len(),
{
    if ks.len() == 0 {
        Seq::empty()
    } else if m[ks.last()].is_used() {
        used_entries_of(m, ks.drop_last()).push(m[ks.last()])
    } else {
        used_entries_of(m, ks.drop_last())
    }
}

/// The partitions of a table that are in use, in ascending order of their
/// index: the order in which they take the slots of the partition array.
pub open spec fn used_entries(m: Map<u32, PartitionView>) -> Seq<PartitionView> {
    used_entries_of(m, ascending_keys(m))
}

/// The first and the last block of each partition.
pub open spec fn spans_of(entries: Seq<PartitionView>) -> Seq<(u64, u64)> {
    entries.map_values(|p: PartitionView| (p.first_lba, p.last_lba))
}

/// The number of blocks from `first_lba` to `last_lba`, both counted, or why
/// there is no such number.
pub open spec fn sectors_len_spec(p: PartitionView) -> Result<u64, GptError> {
    if p.last_lba < p.first_lba {
        Err(GptError::Overflow("Invalid partition.  last_lba < first_lba"))
    } else if p.last_lba - p.first_lba + 1 > u64::MAX {
        Err(GptError::Overflow("partition length overflow - sectors"))
    } else {
        Ok((p.last_lba - p.first_lba + 1) as u64)
    }
}

/// The number of bytes from the start of `first_lba` to the end of
/// `last_lba`, or why there is no such number.
pub open spec fn bytes_len_spec(p: PartitionView, lb_size: LogicalBlockSize) -> Result<
    u64,
    GptError,
> {
    match sectors_len_spec(p) {
        Err(e) => Err(e),
        Ok(n) => if n * lb_size.bytes() > u64::MAX {
            Err(GptError::Overflow("partition length overflow - bytes"))
        } else {
            Ok((n * lb_size.bytes()) as u64)
        },
    }
}

/// The byte offset at which the partition starts, or why there is none.
pub open spec fn bytes_start_spec(p: PartitionView, lb_size: LogicalBlockSize) -> Result<
    u64,
    GptError,
> {
    if p.first_lba * lb_size.bytes() > u64::MAX {
        Err(GptError::Overflow("partition start overflow - bytes"))
    } else {
        Ok((p.first_lba * lb_size.bytes()) as u64)
    }
}

/// The byte offset of slot `index` of the partition array that starts at
/// `start_lba`, or why there is none.
pub open spec fn slot_offset_spec(
    index: u64,
    start_lba: u64,
    lb_size: LogicalBlockSize,
    bytes_per_partition: u32,
) -> Result<u64, GptError> {
    if start_lba * lb_size.bytes() > u64::MAX {
        Err(GptError::Overflow("partition overflow - start offset"))
    } else if index * bytes_per_partition > u64::MAX {
        Err(GptError::Overflow("partition overflow"))
    } else if start_lba * lb_size.bytes() + index * bytes_per_partition > u64::MAX {
        Err(GptError::Overflow("partition overflow - offset"))
    } else {
        Ok((start_lba * lb_size.bytes() + index * bytes_per_partition) as u64)
    }
}

/// What reading the partitions that `h` points at gives on a device
/// holding `contents`: the partitions that the slots of the array hold, or
/// an error where an offset does not fit, the device ends before the array
/// does, or the checksum of the array is not the one in the header.
pub open spec fn read_partitions_spec(
    contents: Seq<u8>,
    h: HeaderView,
    lb_size: LogicalBlockSize,
) -> Result<Map<u32, PartitionView>, GptError> {
    let start = h.part_start * lb_size.bytes();
    let table = contents.subrange(start, start + 128 * h.num_parts);
    if start > u64::MAX {
        Err(GptError::Overflow("partition overflow - start offset"))
    } else if 128 * h.num_parts > usize::MAX {
        Err(GptError::Overflow("partitions - size"))
    } else if start + 128 * h.num_parts > contents.len() {
        Err(GptError::Io(IoError::UnexpectedEof))
    } else if crc32_iso_hdlc(table) != h.crc32_parts {
        Err(GptError::InvalidTableCRC)
    } else {
        Ok(decode_table(table, h.num_parts as int))
    }
}

/// The plain values of the partitions read, or the error in their place.
pub open spec fn table_result_view(r: Result<BTreeMap<u32, Partition>, GptError>) -> Result<
    Map<u32, PartitionView>,
    GptError,
> {
    match r {
        Ok(t) => Ok(table_view(t@)),
        Err(e) => Err(e),
    }
}

/// Whether `after` and `r` are what writing `data` at the offset `at`
/// leaves of `before`: the bytes are written where the offset is one and
/// the device does not end before them, and else nothing is.
pub open spec fn written_at(
    before: Seq<u8>,
    after: Seq<u8>,
    at: Result<u64, GptError>,
    data: Seq<u8>,
    r: Result<(), GptError>,
) -> bool {
    match at {
        Err(e) => r == Err::<(), GptError>(e) && after == before,
        Ok(offset) => if offset + data.len() <= before.len() {
            r is Ok && after == overwritten(before, offset as int, data)
        } else {
            r == Err::<(), GptError>(GptError::Io(IoError::WriteZero)) && after == before
        },
    }
}

/// Appending one code unit to the units appends its two bytes to theirs.
proof fn lemma_u16s_le_push(units: Seq<u16>, u: u16)
    ensures
        u16s_le(units.push(u)) == u16s_le(units) + u16_le(u),
        u16s_le(units.push(u)).len() == u16s_le(units).len() + 2,
{
    assert(units.push(u).drop_last() =~= units);
}

/// The stored code units take two bytes each.
proof fn lemma_u16s_le_len(units: Seq<u16>)
    ensures
        u16s_le(units).len() == 2 * units.len(),
    decreases units.len(),
{
    if units.len() > 0 {
        lemma_u16s_le_len(units.drop_last());
    }
}

/// Code unit `i` is stored in bytes `2 * i` and `2 * i + 1`.
proof fn lemma_u16s_le_unit(units: Seq<u16>, i: int)
    requires
        0 <= i < units.len(),
    ensures
        u16s_le(units).len() == 2 * units.len(),
        u16s_le(units).subrange(2 * i, 2 * i + 2) == u16_le(units[i]),
    decreases units.len(),
{
    lemma_u16s_le_len(units);
    lemma_u16s_le_len(units.drop_last());
    if i == units.len() - 1 {
        assert(u16s_le(units).subrange(2 * i, 2 * i + 2) =~= u16_le(units[i]));
    } else {
        lemma_u16s_le_unit(units.drop_last(), i);
        assert(u16s_le(units).subrange(2 * i, 2 * i + 2) =~= u16s_le(
            units.drop_last(),
        ).subrange(2 * i, 2 * i + 2));
    }
}

/// Zeros behind the code units of a name do not move its end: the units
/// before the first zero are the same with and without them.
proof fn lemma_nul_position_padded(units: Seq<u16>, padded: Seq<u16>)
    requires
        units.len() <= padded.len(),
        forall|i: int| 0 <= i < units.len() ==> padded[i] == units[i],
        forall|i: int| units.len() <= i < padded.len() ==> padded[i] == 0,
    ensures
        nul_position(padded) == nul_position(units),
        0 <= nul_position(units) <= units.len(),
        padded.subrange(0, nul_position(padded)) == units.subrange(0, nul_position(units)),
    decreases units.len(),
{
    if units.len() == 0 || units[0] == 0 {
        assert(padded.subrange(0, 0) =~= units.subrange(0, 0));
    } else {
        lemma_nul_position_padded(units.drop_first(), padded.drop_first());
        let n = nul_position(units.drop_first());
        assert(padded.subrange(0, n + 1) =~= seq![padded[0]] + padded.drop_first().subrange(0, n));
        assert(units.subrange(0, n + 1) =~= seq![units[0]] + units.drop_first().subrange(0, n));
    }
}

/// Where the parts of an entry lie in its 128 bytes: the five fixed fields
/// first, then the name as far as it fits, then zeros.
proof fn lemma_entry_layout(
    a: Seq<u8>,
    b: Seq<u8>,
    c: Seq<u8>,
    d: Seq<u8>,
    e: Seq<u8>,
    tail: Seq<u8>,
)
    requires
        a.len() == 16,
        b.len() == 16,
        c.len() == 8,
        d.len() == 8,
        e.len() == 8,
    ensures
        fitted(a + b + c + d + e + tail, 128).len() == 128,
        fitted(a + b + c + d + e + tail, 128).subrange(0, 16) == a,
        fitted(a + b + c + d + e + tail, 128).subrange(16, 32) == b,
        fitted(a + b + c + d + e + tail, 128).subrange(32, 40) == c,
        fitted(a + b + c + d + e + tail, 128).subrange(40, 48) == d,
        fitted(a + b + c + d + e + tail, 128).subrange(48, 56) == e,
        forall|i: int|
            56 <= i < 128 ==> fitted(a + b + c + d + e + tail, 128)[i] == if i - 56 < tail.len() {
                tail[i - 56]
            } else {
                0u8
            },
{
    let s = fitted(a + b + c + d + e + tail, 128);
    assert(s.subrange(0, 16) =~= a);
    assert(s.subrange(16, 32) =~= b);
    assert(s.subrange(32, 40) =~= c);
    assert(s.subrange(40, 48) =~= d);
    assert(s.subrange(48, 56) =~= e);
}

/// The code units that the name field holds: those stored, then zeros.
proof fn lemma_entry_units(s: Seq<u8>, stored: Seq<u16>)
    requires
        s.len() == 128,
        stored.len() <= 36,
        forall|i: int|
            56 <= i < 128 ==> s[i] == if i - 56 < u16s_le(stored).len() {
                u16s_le(stored)[i - 56]
            } else {
                0u8
            },
    ensures
        forall|i: int| 0 <= i < stored.len() ==> entry_units(s)[i] == stored[i],
        forall|i: int| stored.len() <= i < 36 ==> entry_units(s)[i] == 0,
{
    lemma_u16s_le_len(stored);
    let units = entry_units(s);
    assert forall|i: int| 0 <= i < stored.len() implies units[i] == stored[i] by {
        lemma_u16s_le_unit(stored, i);
        crate::codec::lemma_u16_le_decodes(stored[i]);
        assert(s.subrange(56 + 2 * i, 58 + 2 * i) =~= u16s_le(stored).subrange(2 * i, 2 * i + 2));
    }
    assert forall|i: int| stored.len() <= i < 36 implies units[i] == 0 by {
        crate::codec::lemma_u16_le_decodes(0u16);
        assert(s.subrange(56 + 2 * i, 58 + 2 * i) =~= u16_le(0u16));
    }
}

/// An entry that was written reads back: the 128 bytes stored for a
/// partition decode to its identifiers, bounds and flags, and to the name
/// that its stored code units spell, those of its first 36 that stand before
/// a zero.
pub proof fn lemma_entry_round_trip(p: PartitionView)
    ensures
        entry_bytes(p, 128).len() == 128,
        decode_entry(entry_bytes(p, 128)).part_type_guid == p.part_type_guid,
        decode_entry(entry_bytes(p, 128)).part_guid == p.part_guid,
        decode_entry(entry_bytes(p, 128)).first_lba == p.first_lba,
        decode_entry(entry_bytes(p, 128)).last_lba == p.last_lba,
        decode_entry(entry_bytes(p, 128)).flags == p.flags,
        decode_entry(entry_bytes(p, 128)).name == utf16_lossy_decoding(
            first_units(utf16_encoding(p.name)).subrange(
                0,
                nul_position(first_units(utf16_encoding(p.name))),
            ),
        ),
{
    let stored = first_units(utf16_encoding(p.name));
    let s = entry_bytes(p, 128);
    p.part_type_guid.guid.lemma_wire_decodes();
    p.part_guid.lemma_wire_decodes();
    crate::codec::lemma_u64_le_decodes(p.first_lba);
    crate::codec::lemma_u64_le_decodes(p.last_lba);
    crate::codec::lemma_u64_le_decodes(p.flags);
    lemma_entry_layout(
        p.part_type_guid.guid.wire(),
        p.part_guid.wire(),
        u64_le(p.first_lba),
        u64_le(p.last_lba),
        u64_le(p.flags),
        u16s_le(stored),
    );
    lemma_entry_units(s, stored);
    lemma_nul_position_padded(stored, entry_units(s));
}

/// A partition comes back from its entry: where the name has no more than
/// 36 code units and does not hold the character U+0000, the 128 bytes
/// stored for a partition decode to the partition.
pub proof fn lemma_entry_reads_back(p: PartitionView)
    requires
        utf16_encoding(p.name).len() <= 36,
        forall|i: int| 0 <= i < p.name.len() ==> p.name[i] != '\0',
    ensures
        decode_entry(entry_bytes(p, 128)) == p,
{
    let stored = first_units(utf16_encoding(p.name));
    lemma_entry_round_trip(p);
    lemma_encoding_has_no_zero(p.name);
    lemma_nul_position_without_zero(stored);
    assert(stored.subrange(0, stored.len() as int) =~= stored);
    lemma_utf16_round_trip(p.name);
}

/// The byte offset of slot `index`, checked for overflow.
fn slot_offset(
    index: u64,
    start_lba: u64,
    lb_size: LogicalBlockSize,
    bytes_per_partition: u32,
) -> (r: Result<u64, GptError>)
    ensures
        r == slot_offset_spec(index, start_lba, lb_size, bytes_per_partition),
{
    let pstart = match lb_size.byte_offset(start_lba) {
        Some(x) => x,
        None => { return Err(GptError::Overflow("partition overflow - start offset")); },
    };
    // The offset is bytes_per_partition * partition_index
    let offset = match index.checked_mul(bytes_per_partition as u64) {
        Some(x) => x,
        None => { return Err(GptError::Overflow("partition overflow")); },
    };
    match pstart.checked_add(offset) {
        Some(x) => Ok(x),
        None => Err(GptError::Overflow("partition overflow - offset")),
    }
}

/// Appends the stored form of a name: its first 36 UTF-16 code units.
fn put_name(out: &mut Vec<u8>, name: &str)
    ensures
        final(out)@ == old(out)@ + name_bytes(name@),
{
    let ghost mut units: Seq<u16> = Seq::empty();
    let mut count: usize = 0;
    assert(name@.take(0) =~= Seq::<char>::empty());
    assert(out@ =~= old(out)@ + u16s_le(units));
    for c in iter: name.chars()
        invariant
            iter.seq() == name@,
            units == first_units(utf16_encoding(name@.take(iter.index() as int))),
            count == units.len(),
            out@ == old(out)@ + u16s_le(units),
    {
        let ghost before = utf16_encoding(name@.take(iter.index() as int));
        let ghost prefix = name@.take(iter.index() + 1);
        proof {
            assert(prefix.drop_last() =~= name@.take(iter.index() as int));
            assert(prefix.last() == c);
            assert(utf16_encoding(prefix) == before + utf16_of_char(c));
        }
        let v = c as u32;
        if v < 0x1_0000 {
            if count < NAME_UNITS {
                put_le_u16(out, v as u16);
                proof {
                    lemma_u16s_le_push(units, v as u16);
                    assert(before + utf16_of_char(c) =~= units.push(v as u16));
                    units = units.push(v as u16);
                }
                count += 1;
            } else {
                assert(first_units(before + utf16_of_char(c)) =~= units);
            }
        } else {
            let w = v - 0x1_0000;
            let hi = (0xD800 + w / 0x400) as u16;
            let lo = (0xDC00 + w % 0x400) as u16;
            assert(utf16_of_char(c) =~= seq![hi, lo]);
            if count < NAME_UNITS {
                put_le_u16(out, hi);
                proof {
                    lemma_u16s_le_push(units, hi);
                }
                let ghost with_hi = units.push(hi);
                count += 1;
                if count < NAME_UNITS {
                    put_le_u16(out, lo);
                    proof {
                        lemma_u16s_le_push(with_hi, lo);
                        assert(before + utf16_of_char(c) =~= with_hi.push(lo));
                        units = with_hi.push(lo);
                    }
                    count += 1;
                } else {
                    proof {
                        assert(first_units(before + utf16_of_char(c)) =~= with_hi);
                        units = with_hi;
                    }
                }
            } else {
                assert(first_units(before + utf16_of_char(c)) =~= units);
            }
        }
    }
    assert(name@.take(name@.len() as int) =~= name@);
}

/// Calls `String::from_utf16_lossy`, which decodes UTF-16 and puts U+FFFD in
/// place of each surrogate that has no partner. The contract claims that
/// text.
#[verifier::external_body]
fn decode_utf16_lossy(units: &[u16]) -> (r: String)
    ensures
        r@ == utf16_lossy_decoding(units@),
{
    String::from_utf16_lossy(units)
}

impl Partition {
    /// Create a partition entry of type "unused", whose bytes are all 0s.
    pub fn zero() -> (r: Self)
        ensures
            r@ == (PartitionView {
                part_type_guid: crate::partition_types::spec_unused(),
                part_guid: Guid::spec_nil(),
                first_lba: 0,
                last_lba: 0,
                flags: 0,
                name: Seq::<char>::empty(),
            }),
    {
        Self {
            part_type_guid: crate::partition_types::unused(),
            part_guid: Guid::nil(),
            first_lba: 0,
            last_lba: 0,
            flags: 0,
            name: String::new(),
        }
    }

    /// The name, the two GUIDs, the span and the flags, a line each.
    pub open spec fn text(p: PartitionView) -> Seq<char> {
        "Partition:\t\t"@ + p.name + "\nPartition GUID:\t\t"@ + p.part_guid.text()
            + "\nPartition Type:\t\t"@ + p.part_type_guid.guid.text() + "\nSpan:\t\t\t"@
            + decimal_text(p.first_lba as nat) + " - "@ + decimal_text(p.last_lba as nat)
            + "\nFlags:\t\t\t"@ + decimal_text(p.flags as nat)
    }

    /// The name, the two GUIDs, the span and the flags, a line each.
    pub fn to_text(&self) -> (r: String)
        ensures
            r@ == Self::text(self@),
    {
        let guid = self.part_guid.to_text();
        let type_guid = self.part_type_guid.guid.to_text();
        let first = decimal(self.first_lba);
        let last = decimal(self.last_lba);
        let flags = decimal(self.flags);
        let s = joined("Partition:\t\t", self.name.as_str());
        let s = s.concat("\nPartition GUID:\t\t");
        let s = s.concat(guid.as_str());
        let s = s.concat("\nPartition Type:\t\t");
        let s = s.concat(type_guid.as_str());
        let s = s.concat("\nSpan:\t\t\t");
        let s = s.concat(first.as_str());
        let s = s.concat(" - ");
        let s = s.concat(last.as_str());
        let s = s.concat("\nFlags:\t\t\t");
        s.concat(flags.as_str())
    }

    /// Serialize this partition entry to its bytes representation.
    pub fn as_bytes(&self, entry_size: u32) -> (r: Vec<u8>)
        ensures
            r@ == entry_bytes(self@, entry_size as int),
            r@.len() == entry_size,
    {
        let mut buf: Vec<u8> = Vec::new();
        // Type GUID.
        self.part_type_guid.guid.write(&mut buf);
        // Partition GUID.
        self.part_guid.write(&mut buf);
        // LBAs and flags.
        put_le_u64(&mut buf, self.first_lba);
        put_le_u64(&mut buf, self.last_lba);
        put_le_u64(&mut buf, self.flags);
        // Partition name as UTF16-LE.
        put_name(&mut buf, self.name.as_str());
        assert(buf@ == entry_body(self@));
        proof {
            lemma_u16s_le_len(first_units(utf16_encoding(self.name@)));
            self.part_type_guid.guid.lemma_wire_decodes();
            self.part_guid.lemma_wire_decodes();
        }
        // Resize buffer to exact entry size.
        let size = entry_size as usize;
        if buf.len() >= size {
            buf.truncate(size);
        } else {
            let missing = size - buf.len();
            put_zeros(&mut buf, missing);
        }
        buf
    }

    /// Reads the entry that the first 128 bytes of `bytes` store, or nothing
    /// where they are all zero: such a slot is not in use.
    pub fn from_bytes(bytes: &[u8]) -> (r: Option<Partition>)
        requires
            bytes@.len() >= 128,
        ensures
            bytes@.subrange(0, 128) == zeros(128) <==> r is None,
            r matches Some(p) ==> p@ == decode_entry(bytes@.subrange(0, 128)),
    {
        let ghost s = bytes@.subrange(0, 128);
        let mut all_zero = true;
        let mut i: usize = 0;
        while i < ENTRY_SIZE
            invariant
                i <= 128,
                bytes@.len() >= 128,
                all_zero <==> forall|j: int| 0 <= j < i ==> bytes@[j] == 0,
            decreases 128 - i,
        {
            if bytes[i] != 0 {
                all_zero = false;
            }
            i += 1;
        }
        if all_zero {
            assert(s =~= zeros(128));
            return None;
        }
        assert(s != zeros(128)) by {
            let j = choose|j: int| 0 <= j < 128 && bytes@[j] != 0;
            assert(s[j] != zeros(128)[j]);
        }
        let mut rdr = Reader::new(bytes);
        let ghost type_at = rdr.remaining();
        let type_guid = match parse_uuid(&mut rdr) {
            Ok(g) => g,
            Err(_) => { return None; },
        };
        let ghost part_at = rdr.remaining();
        let part_guid = match parse_uuid(&mut rdr) {
            Ok(g) => g,
            Err(_) => { return None; },
        };
        let first_lba = match rdr.read_le_u64() {
            Ok(x) => x,
            Err(_) => { return None; },
        };
        let last_lba = match rdr.read_le_u64() {
            Ok(x) => x,
            Err(_) => { return None; },
        };
        let flags = match rdr.read_le_u64() {
            Ok(x) => x,
            Err(_) => { return None; },
        };
        proof {
            let t = s.subrange(0, 16);
            assert(type_at.subrange(0, 4) =~= t.subrange(0, 4));
            assert(type_at.subrange(4, 6) =~= t.subrange(4, 6));
            assert(type_at.subrange(6, 8) =~= t.subrange(6, 8));
            assert(type_at.subrange(8, 16) =~= t.subrange(8, 16));
            let g = s.subrange(16, 32);
            assert(part_at.subrange(0, 4) =~= g.subrange(0, 4));
            assert(part_at.subrange(4, 6) =~= g.subrange(4, 6));
            assert(part_at.subrange(6, 8) =~= g.subrange(6, 8));
            assert(part_at.subrange(8, 16) =~= g.subrange(8, 16));
        }
        let mut units: Vec<u16> = Vec::new();
        let mut zero_pos: usize = NAME_UNITS;
        let mut k: usize = 0;
        assert(entry_units(s).subrange(0, 36) =~= entry_units(s));
        while k < NAME_UNITS
            invariant
                k <= 36,
                bytes@.len() >= 128,
                s == bytes@.subrange(0, 128),
                rdr.data() == bytes@,
                rdr.position() == 56 + 2 * k,
                units@ == entry_units(s).subrange(0, k as int),
                zero_pos <= 36,
                zero_pos < 36 ==> zero_pos < k,
                nul_position(entry_units(s)) == if zero_pos < 36 {
                    zero_pos as int
                } else {
                    k + nul_position(entry_units(s).subrange(k as int, 36))
                },
            decreases 36 - k,
        {
            let ghost rest = entry_units(s).subrange(k as int, 36);
            let u = match rdr.read_le_u16() {
                Ok(x) => x,
                Err(_) => { return None; },
            };
            proof {
                assert(u == entry_units(s)[k as int]);
                assert(rest[0] == u);
                assert(rest.drop_first() =~= entry_units(s).subrange(k + 1, 36));
            }
            if u == 0 && zero_pos == NAME_UNITS {
                zero_pos = k;
            }
            units.push(u);
            k += 1;
            assert(units@ =~= entry_units(s).subrange(0, k as int));
        }
        assert(units@ =~= entry_units(s));
        let name_units = vstd::slice::slice_subrange(units.as_slice(), 0, zero_pos);
        let name = decode_utf16_lossy(name_units);
        Some(
            Partition {
                part_type_guid: Type::from_guid(type_guid),
                part_guid,
                first_lba,
                last_lba,
                flags,
                name,
            },
        )
    }

    /// Write the partition entry to the partitions area in the given device.
    /// NOTE: does not update partitions array crc32 in the headers!
    pub fn write_to_device<D: DiskDevice>(
        &self,
        device: &mut D,
        partition_index: u64,
        start_lba: u64,
        lb_size: LogicalBlockSize,
        bytes_per_partition: u32,
    ) -> (r: Result<(), GptError>)
        ensures
            r matches Err(e) ==> e is Io || e is Overflow,
            slot_offset_spec(partition_index, start_lba, lb_size, bytes_per_partition) is Err ==> r
                == Err::<(), GptError>(
                slot_offset_spec(partition_index, start_lba, lb_size, bytes_per_partition)->Err_0,
            ) && *final(device) == *old(device),
            D::obeys_device_spec() ==> (r is Ok ==> old(device).contents().len() <= u64::MAX),
            D::obeys_device_spec() ==> written_at(
                old(device).contents(),
                final(device).contents(),
                slot_offset_spec(partition_index, start_lba, lb_size, bytes_per_partition),
                entry_bytes(self@, bytes_per_partition as int),
                r,
            ),
    {
        let at = match slot_offset(partition_index, start_lba, lb_size, bytes_per_partition) {
            Ok(x) => x,
            Err(e) => { return Err(e); },
        };
        match device.seek_to(at) {
            Ok(_) => {},
            Err(e) => { return Err(GptError::Io(e)); },
        };
        let bytes = self.as_bytes(bytes_per_partition);
        match device.write_all(bytes.as_slice()) {
            Ok(_) => {},
            Err(e) => { return Err(GptError::Io(e)); },
        };
        Ok(())
    }

    /// Write empty partition entries starting at the given index in the partition array
    /// for the given number of entries...
    pub fn write_zero_entries_to_device<D: DiskDevice>(
        device: &mut D,
        starting_partition_index: u64,
        number_entries: u64,
        start_lba: u64,
        lb_size: LogicalBlockSize,
        bytes_per_partition: u32,
    ) -> (r: Result<(), GptError>)
        ensures
            r matches Err(e) ==> e is Io || e is Overflow,
            slot_offset_spec(
                starting_partition_index,
                start_lba,
                lb_size,
                bytes_per_partition,
            ) is Err ==> r == Err::<(), GptError>(
                slot_offset_spec(
                    starting_partition_index,
                    start_lba,
                    lb_size,
                    bytes_per_partition,
                )->Err_0,
            ) && *final(device) == *old(device),
            D::obeys_device_spec() ==> (r is Ok ==> old(device).contents().len() <= u64::MAX),
            D::obeys_device_spec() ==> written_at(
                old(device).contents(),
                final(device).contents(),
                match slot_offset_spec(
                    starting_partition_index,
                    start_lba,
                    lb_size,
                    bytes_per_partition,
                ) {
                    Ok(offset) => if bytes_per_partition * number_entries > usize::MAX {
                        Err(GptError::Overflow("partition overflow - bytes to zero"))
                    } else {
                        Ok(offset)
                    },
                    Err(e) => Err(e),
                },
                zeros((bytes_per_partition * number_entries) as nat),
                r,
            ),
    {
        let at = match slot_offset(
            starting_partition_index,
            start_lba,
            lb_size,
            bytes_per_partition,
        ) {
            Ok(x) => x,
            Err(e) => { return Err(e); },
        };
        match device.seek_to(at) {
            Ok(_) => {},
            Err(e) => { return Err(GptError::Io(e)); },
        };
        let bytes_to_zero: u64 = match (bytes_per_partition as u64).checked_mul(number_entries) {
            Some(x) => x,
            None => {
                return Err(GptError::Overflow("partition overflow - bytes to zero"));
            },
        };
        if bytes_to_zero > usize::MAX as u64 {
            return Err(GptError::Overflow("partition overflow - bytes to zero"));
        }
        let mut blank: Vec<u8> = Vec::new();
        put_zeros(&mut blank, bytes_to_zero as usize);
        assert(blank@ =~= zeros(bytes_to_zero as nat));
        match device.write_all(blank.as_slice()) {
            Ok(_) => {},
            Err(e) => { return Err(GptError::Io(e)); },
        };
        Ok(())
    }

    /// Return the length (in bytes) of this partition.
    /// Partition size is calculated as (last_lba + 1 - first_lba) * block_size
    /// Bounds are inclusive, meaning we add one to account for the full last logical block
    pub fn bytes_len(&self, lb_size: LogicalBlockSize) -> (r: Result<u64, GptError>)
        ensures
            r == bytes_len_spec(self@, lb_size),
    {
        let sectors = match self.sectors_len() {
            Ok(n) => n,
            Err(e) => { return Err(e); },
        };
        match lb_size.byte_offset(sectors) {
            Some(x) => Ok(x),
            None => Err(GptError::Overflow("partition length overflow - bytes")),
        }
    }

    /// Return the starting offset (in bytes) of this partition.
    pub fn bytes_start(&self, lb_size: LogicalBlockSize) -> (r: Result<u64, GptError>)
        ensures
            r == bytes_start_spec(self@, lb_size),
    {
        match lb_size.byte_offset(self.first_lba) {
            Some(x) => Ok(x),
            None => Err(GptError::Overflow("partition start overflow - bytes")),
        }
    }

    /// Check whether this partition is in use.
    pub fn is_used(&self) -> (r: bool)
        ensures
            r == self@.is_used(),
    {
        !self.part_type_guid.guid.is_nil()
    }

    /// Return the length (in sectors) of this partition.
    pub fn sectors_len(&self) -> (r: Result<u64, GptError>)
        ensures
            r == sectors_len_spec(self@),
    {
        let span = match self.last_lba.checked_sub(self.first_lba) {
            Some(x) => x,
            None => {
                return Err(GptError::Overflow("Invalid partition.  last_lba < first_lba"));
            },
        };
        match span.checked_add(1) {
            Some(x) => Ok(x),
            None => Err(GptError::Overflow("partition length overflow - sectors")),
        }
    }
}

/// Tables that agree on the indices `ks` have the same used partitions
/// among them.
proof fn lemma_used_entries_agree(
    m1: Map<u32, PartitionView>,
    m2: Map<u32, PartitionView>,
    ks: Seq<u32>,
)
    requires
        forall|j: int| 0 <= j < ks.len() ==> m1[#[trigger] ks[j]] == m2[ks[j]],
    ensures
        used_entries_of(m1, ks) == used_entries_of(m2, ks),
    decreases ks.len(),
{
    if ks.len() > 0 {
        let rest = ks.drop_last();
        assert forall|j: int| 0 <= j < rest.len() implies m1[#[trigger] rest[j]] == m2[rest[j]] by {
            assert(rest[j] == ks[j]);
        }
        lemma_used_entries_agree(m1, m2, rest);
        assert(m1[ks[ks.len() - 1]] == m2[ks[ks.len() - 1]]);
    }
}

/// Leaving one index out leaves one used partition out, where the partition
/// of that index is in use, and none where it is not.
proof fn lemma_used_entries_without(m: Map<u32, PartitionView>, ks: Seq<u32>, i: int)
    requires
        0 <= i < ks.len(),
    ensures
        used_entries_of(m, ks.remove(i)).len() + (if m[ks[i]].is_used() {
            1int
        } else {
            0int
        }) == used_entries_of(m, ks).len(),
    decreases ks.len(),
{
    if i == ks.len() - 1 {
        assert(ks.remove(i) =~= ks.drop_last());
    } else {
        let shorter = ks.remove(i);
        assert(shorter.drop_last() =~= ks.drop_last().remove(i));
        assert(shorter.last() == ks.last());
        assert(ks.drop_last()[i] == ks[i]);
        lemma_used_entries_without(m, ks.drop_last(), i);
    }
}

/// Removing a partition that is in use frees one slot of the partition
/// array: the used partitions are one fewer, so that the last slot they took
/// is taken no more. Removing one that is not in use frees none.
pub proof fn lemma_remove_frees_slot(m: Map<u32, PartitionView>, ks: Seq<u32>, id: u32)
    requires
        lists_keys(ks, m),
        m.contains_key(id),
    ensures
        used_entries(m.remove(id)).len() + (if m[id].is_used() {
            1int
        } else {
            0int
        }) == used_entries(m).len(),
{
    let i = choose|i: int| 0 <= i < ks.len() && ks[i] == id;
    assert(ks.contains(id));
    let shorter = ks.remove(i);
    let smaller = m.remove(id);
    assert(lists_keys(shorter, smaller)) by {
        assert forall|x: int, y: int| 0 <= x < y < shorter.len() implies shorter[x] < shorter[y] by {
            let x0 = if x < i {
                x
            } else {
                x + 1
            };
            let y0 = if y < i {
                y
            } else {
                y + 1
            };
            assert(ks[x0] < ks[y0]);
        }
        assert forall|k: u32| shorter.contains(k) <==> smaller.contains_key(k) by {
            if shorter.contains(k) {
                let x = choose|x: int| 0 <= x < shorter.len() && shorter[x] == k;
                let x0 = if x < i {
                    x
                } else {
                    x + 1
                };
                assert(ks[x0] == k);
                assert(ks.contains(k));
                if x0 < i {
                    assert(ks[x0] < ks[i]);
                } else {
                    assert(ks[i] < ks[x0]);
                }
            }
            if smaller.contains_key(k) {
                assert(ks.contains(k));
                let x0 = choose|x0: int| 0 <= x0 < ks.len() && ks[x0] == k;
                assert(x0 != i);
                let x = if x0 < i {
                    x0
                } else {
                    x0 - 1
                };
                assert(shorter[x] == k);
            }
        }
    }
    crate::order::lemma_ascending_keys(ks, m);
    crate::order::lemma_ascending_keys(shorter, smaller);
    assert forall|j: int| 0 <= j < shorter.len() implies smaller[#[trigger] shorter[j]]
        == m[shorter[j]] by {
        assert(shorter.contains(shorter[j]));
    }
    lemma_used_entries_agree(smaller, m, shorter);
    lemma_used_entries_without(m, ks, i);
}

/// The partitions of a table that are in use, in ascending order of their
/// index.
pub fn used_partitions(m: &BTreeMap<u32, Partition>) -> (r: Vec<Partition>)
    ensures
        views(r@) == used_entries(table_view(m@)),
{
    let keys = sorted_keys(m);
    let ghost tv = table_view(m@);
    proof {
        assert(lists_keys(keys@, tv));
        crate::order::lemma_ascending_keys(keys@, tv);
    }
    let mut out: Vec<Partition> = Vec::new();
    let mut i: usize = 0;
    assert(keys@.take(0) =~= Seq::<u32>::empty());
    assert(views(out@) =~= used_entries_of(tv, keys@.take(0)));
    while i < keys.len()
        invariant
            i <= keys@.len(),
            tv == table_view(m@),
            lists_keys(keys@, m@),
            views(out@) == used_entries_of(tv, keys@.take(i as int)),
        decreases keys@.len() - i,
    {
        let k = keys[i];
        assert(keys@.contains(k));
        proof {
            let next = keys@.take(i + 1);
            assert(next.drop_last() =~= keys@.take(i as int));
            assert(next.last() == k);
        }
        match m.get(&k) {
            Some(p) => {
                if p.is_used() {
                    let ghost before = out@;
                    out.push(p.clone());
                    assert(views(out@) =~= views(before).push(p@));
                }
            },
            None => {
                assert(false);
            },
        }
        i += 1;
    }
    assert(keys@.take(keys@.len() as int) =~= keys@);
    out
}

/// The first and the last block of each partition.
pub fn spans(entries: &Vec<Partition>) -> (r: Vec<(u64, u64)>)
    ensures
        r@ == spans_of(views(entries@)),
{
    let mut out: Vec<(u64, u64)> = Vec::new();
    let mut i: usize = 0;
    while i < entries.len()
        invariant
            i <= entries@.len(),
            out@.len() == i,
            forall|j: int|
                0 <= j < i ==> #[trigger] out@[j] == (entries@[j].first_lba, entries@[j].last_lba),
        decreases entries@.len() - i,
    {
        out.push((entries[i].first_lba, entries[i].last_lba));
        i += 1;
    }
    assert(out@ =~= spans_of(views(entries@)));
    out
}

/// Read a GPT partition table from a device.
///
/// The entries are read one at a time: slot `i` gives partition `i + 1`, and
/// a slot of zeros gives none. Then the whole array is read again and its
/// checksum held against the one in the header.
pub fn file_read_partitions<D: DiskDevice>(
    file: &mut D,
    header: &Header,
    lb_size: LogicalBlockSize,
) -> (r: Result<BTreeMap<u32, Partition>, GptError>)
    requires
        header@.part_size == 128,
    ensures
        r matches Err(e) ==> e is Io || e is Overflow || e is InvalidTableCRC,
        header@.part_start * lb_size.bytes() > u64::MAX ==> *final(file) == *old(file)
            && table_result_view(r) == Err::<Map<u32, PartitionView>, GptError>(
            GptError::Overflow("partition overflow - start offset"),
        ),
        header@.part_start * lb_size.bytes() <= u64::MAX && 128 * header@.num_parts > usize::MAX
            ==> *final(file) == *old(file) && table_result_view(r) == Err::<
            Map<u32, PartitionView>,
            GptError,
        >(GptError::Overflow("partitions - size")),
        D::obeys_device_spec() ==> {
            &&& final(file).contents() == old(file).contents()
            &&& table_result_view(r) == read_partitions_spec(
                old(file).contents(),
                header@,
                lb_size,
            )
        },
{
    let pstart = match lb_size.byte_offset(header.part_start) {
        Some(x) => x,
        None => { return Err(GptError::Overflow("partition overflow - start offset")); },
    };
    let pt_len: u64 = (header.num_parts as u64) * 128;
    if pt_len > usize::MAX as u64 {
        return Err(GptError::Overflow("partitions - size"));
    }
    match file.seek_to(pstart) {
        Ok(_) => {},
        Err(e) => { return Err(GptError::Io(e)); },
    };
    let ghost contents = file.contents();
    let mut parts: BTreeMap<u32, Partition> = BTreeMap::new();
    let mut i: u32 = 0;
    while i < header.num_parts
        invariant
            i <= header.num_parts,
            pstart == header@.part_start * lb_size.bytes(),
            128 * header@.num_parts <= usize::MAX,
            D::obeys_device_spec() ==> {
                &&& file.contents() == contents
                &&& contents == old(file).contents()
                &&& file.cursor() == pstart + 128 * i
                &&& pstart + 128 * i <= contents.len() || i == 0
                &&& forall|k: u32|
                    #![trigger parts@.contains_key(k)]
                    #![trigger key_slot(contents, pstart as int, k)]
                    parts@.contains_key(k) <==> 1 <= k <= i && key_slot(
                        contents,
                        pstart as int,
                        k,
                    ) != zeros(128)
                &&& forall|k: u32|
                    parts@.contains_key(k) ==> (#[trigger] parts@[k])@ == decode_entry(
                        key_slot(contents, pstart as int, k),
                    )
            },
        decreases header.num_parts - i,
    {
        let ghost cursor_before = file.cursor();
        let bytes = match file.read_exact(ENTRY_SIZE) {
            Ok(b) => b,
            Err(e) => {
                assert(D::obeys_device_spec() ==> cursor_before + 128 > contents.len());
                return Err(GptError::Io(e));
            },
        };
        if bytes.len() < ENTRY_SIZE {
            return Err(GptError::Io(IoError::UnexpectedEof));
        }
        proof {
            if D::obeys_device_spec() {
                assert(bytes@.subrange(0, 128) =~= bytes@);
                assert(bytes@ =~= key_slot(contents, pstart as int, (i + 1) as u32));
            }
        }
        let ghost before = parts@;
        // Note: unused partition entries are zeroed, so skip them
        match Partition::from_bytes(bytes.as_slice()) {
            Some(p) => {
                parts.insert(i + 1, p);
                assert(parts@ == before.insert((i + 1) as u32, p));
            },
            None => {},
        }
        i += 1;
    }
    match file.seek_to(pstart) {
        Ok(_) => {},
        Err(e) => { return Err(GptError::Io(e)); },
    };
    let table = match file.read_exact(pt_len as usize) {
        Ok(b) => b,
        Err(e) => { return Err(GptError::Io(e)); },
    };
    let comp_crc = calculate_crc32(table.as_slice());
    if comp_crc != header.crc32_parts {
        return Err(GptError::InvalidTableCRC);
    }
    proof {
        if D::obeys_device_spec() {
            let t = table@;
            assert forall|k: u32| 1 <= k <= header.num_parts implies #[trigger] key_slot(t, 0, k)
                == key_slot(contents, pstart as int, k) by {
                assert(key_slot(t, 0, k) =~= key_slot(contents, pstart as int, k));
            }
            let a = table_view(parts@);
            let b = decode_table(t, header.num_parts as int);
            assert forall|k: u32| a.contains_key(k) <==> b.contains_key(k) by {
                if 1 <= k <= header.num_parts {
                    assert(key_slot(t, 0, k) == key_slot(contents, pstart as int, k));
                }
            }
            assert forall|k: u32| a.contains_key(k) implies a[k] == b[k] by {
                assert(key_slot(t, 0, k) == key_slot(contents, pstart as int, k));
            }
            assert(a =~= b);
        }
    }
    Ok(parts)
}

} // verus!
