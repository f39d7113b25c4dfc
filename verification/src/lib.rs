//! Reading, modifying and writing GUID Partition Tables.
//!
//! The library covers the protective MBR, the primary and backup GPT
//! headers, the partition-entry array and the checksums that bind them,
//! on any block-addressable device with 512 or 4096 byte sectors.

pub mod codec;
pub mod device;
pub mod disk;
pub mod guid;
pub mod header;
pub mod image;
pub mod mbr;
pub mod order;
pub mod overlap;
pub mod partition;
pub mod partition_types;
pub mod space;
pub mod text;

use crate::device::IoError;
use crate::disk::LogicalBlockSize;
use crate::guid::Guid;
use crate::header::builder::{build_spec, builder_from, BuilderView};
use crate::header::{
    backup_header_spec, backup_lba_spec, find_backup_lba, header_at, header_result_view,
    read_backup_header, read_primary_header, Header, HeaderBuilder, HeaderError, HeaderView,
};
use crate::partition::{
    file_read_partitions, read_partitions_spec, spans, spans_of, table_view, used_entries,
    used_partitions, views, Partition, PartitionView,
};
use crate::image::{arrays_fit, optional_view, write_arrays, write_headers, written_image};
use crate::overlap::{
    has_room_at, holds_every_free_block, holds_free_blocks, in_section,
    lemma_add_partition_is_first_fit, lemma_add_partition_keeps_disjoint,
    lemma_section_is_free, lemma_sections_are_complete, lemma_spans_of_table, sections_ascend,
    table_disjoint, table_free_at, table_within,
};
use crate::partition_types::Type;
use crate::space::{free_sections, free_sections_spec, place, placement, size_in_blocks};
use std::collections::BTreeMap;
use vstd::prelude::*;

pub use crate::device::DiskDevice;

verus! {

/// Errors returned when interacting with a Gpt Disk.
#[non_exhaustive]
#[derive(Clone, Copy, Debug)]
pub enum GptError {
    /// The device failed.
    Io(IoError),
    /// Error returned from writing or reading the header
    Header(HeaderError),
    /// we were expecting to read an existing partition table, but instead we're
    /// attempting to create a new blank table
    CreatingInitializedDisk,
    /// Somthing Overflowed or Underflowed
    /// This will never occur when dealing with sane values
    Overflow(&'static str),
    /// Unable to find enough space on drive
    NotEnoughSpace,
    /// disk not opened in writable mode
    ReadOnly,
    /// If you try to create more partition than the header supports
    OverflowPartitionCount,
    /// The partition count changes but you did not allow that
    PartitionCountWouldChange,
    /// The checksum a header stores for the partition array is not the
    /// checksum of the array.
    InvalidTableCRC,
    /// The header gives partition entries a size other than 128 bytes.
    UnsupportedEntrySize,
}

impl GptError {
    /// What went wrong, in words.
    pub open spec fn text(self) -> Seq<char> {
        match self {
            GptError::Io(e) => "GPT IO Error: "@ + e.text(),
            GptError::Header(e) => "GPT Header Error: "@ + e.text(),
            GptError::CreatingInitializedDisk => "we were expecting to read an existing partition table, but instead we're attempting to create a new blank table"@,
            GptError::Overflow(m) => "GTP error Overflow: "@ + m@,
            GptError::NotEnoughSpace => "Unable to find enough space on drive"@,
            GptError::ReadOnly => "disk not opened in writable mode"@,
            GptError::OverflowPartitionCount => "not enough partition slots"@,
            GptError::PartitionCountWouldChange => "partition would change but is not allowed"@,
            GptError::InvalidTableCRC => "partition table CRC mismatch"@,
            GptError::UnsupportedEntrySize => "partition entries are not of 128 bytes"@,
        }
    }

    /// What went wrong, in words.
    pub fn to_text(&self) -> (r: String)
        ensures
            r@ == self.text(),
    {
        match self {
            GptError::Io(e) => crate::text::joined("GPT IO Error: ", e.to_text()),
            GptError::Header(e) => {
                let inner = e.to_text();
                crate::text::joined("GPT Header Error: ", inner.as_str())
            },
            GptError::CreatingInitializedDisk => "we were expecting to read an existing partition table, but instead we're attempting to create a new blank table".to_owned(),
            GptError::Overflow(m) => crate::text::joined("GTP error Overflow: ", m),
            GptError::NotEnoughSpace => "Unable to find enough space on drive".to_owned(),
            GptError::ReadOnly => "disk not opened in writable mode".to_owned(),
            GptError::OverflowPartitionCount => "not enough partition slots".to_owned(),
            GptError::PartitionCountWouldChange => "partition would change but is not allowed".to_owned(),
            GptError::InvalidTableCRC => "partition table CRC mismatch".to_owned(),
            GptError::UnsupportedEntrySize => "partition entries are not of 128 bytes".to_owned(),
        }
    }
}

impl From<IoError> for GptError {
    fn from(e: IoError) -> (r: Self) {
        Self::Io(e)
    }
}

impl vstd::std_specs::convert::FromSpecImpl<IoError> for GptError {
    open spec fn obeys_from_spec() -> bool {
        true
    }

    open spec fn from_spec(e: IoError) -> Self {
        Self::Io(e)
    }
}

impl From<HeaderError> for GptError {
    fn from(e: HeaderError) -> (r: Self) {
        Self::Header(e)
    }
}

impl vstd::std_specs::convert::FromSpecImpl<HeaderError> for GptError {
    open spec fn obeys_from_spec() -> bool {
        true
    }

    open spec fn from_spec(e: HeaderError) -> Self {
        Self::Header(e)
    }
}

/// Whether `e` reports a failure of the device.
pub open spec fn is_device_failure(e: GptError) -> bool {
    e is Io || e matches GptError::Header(HeaderError::Io(_))
}

/// Configuration options to open a GPT disk.
///
/// ## Default
/// By Default the disk is readonly and only one header needs to be valid.
/// If the disk is writable by default the primary and backup partitions are
/// written to, but changing the partition count will fail.
#[derive(Clone, Copy, Debug, PartialEq, Eq, Structural)]
pub struct GptConfig {
    /// Logical block size.
    lb_size: LogicalBlockSize,
    /// Whether to open a GPT partition table in writable mode.
    writable: bool,
    /// Force both the primary and backup header to be valid
    only_valid_headers: bool,
    /// Treat the backup header as readonly
    readonly_backup: bool,
    /// allows to change the partition count
    ///
    /// ## Warning
    /// This might change the first usable and last usable part
    change_partition_count: bool,
}

/// What a configuration holds, as plain values.
pub struct ConfigView {
    pub lb_size: LogicalBlockSize,
    pub writable: bool,
    pub only_valid_headers: bool,
    pub readonly_backup: bool,
    pub change_partition_count: bool,
}

impl View for GptConfig {
    type V = ConfigView;

    closed spec fn view(&self) -> ConfigView {
        ConfigView {
            lb_size: self.lb_size,
            writable: self.writable,
            only_valid_headers: self.only_valid_headers,
            readonly_backup: self.readonly_backup,
            change_partition_count: self.change_partition_count,
        }
    }
}

/// The default configuration: blocks of 512 bytes, read-only, one valid
/// header suffices, the backup is written, the partition count is kept.
pub open spec fn default_config() -> ConfigView {
    ConfigView {
        lb_size: LogicalBlockSize::Lb512,
        writable: false,
        only_valid_headers: false,
        readonly_backup: false,
        change_partition_count: false,
    }
}

impl Default for GptConfig {
    fn default() -> (r: Self)
        ensures
            r@ == default_config(),
    {
        Self {
            lb_size: crate::disk::DEFAULT_SECTOR_SIZE,
            writable: false,
            only_valid_headers: false,
            readonly_backup: false,
            change_partition_count: false,
        }
    }
}

/// The headers that opening a disk keeps, given what reading the primary
/// and the backup gave: both where both must be valid, and else both as
/// they were read where at least one is valid. The error is that of the
/// primary where both count, or where both failed.
pub open spec fn selected_headers(
    only_valid_headers: bool,
    h1: Result<HeaderView, HeaderError>,
    h2: Result<HeaderView, HeaderError>,
) -> Result<(Result<HeaderView, HeaderError>, Result<HeaderView, HeaderError>), GptError> {
    if only_valid_headers {
        match (h1, h2) {
            (Err(e), _) => Err(GptError::Header(e)),
            (Ok(_), Err(e)) => Err(GptError::Header(e)),
            (Ok(_), Ok(_)) => Ok((h1, h2)),
        }
    } else {
        match (h1, h2) {
            (Err(e), Err(_)) => Err(GptError::Header(e)),
            _ => Ok((h1, h2)),
        }
    }
}

/// The header that a disk goes by: the primary where it is valid, and else
/// the backup.
pub open spec fn current_header(
    primary: Result<HeaderView, HeaderError>,
    backup: Result<HeaderView, HeaderError>,
) -> Result<HeaderView, HeaderError> {
    match primary {
        Ok(h) => Ok(h),
        Err(_) => backup,
    }
}

/// The settings of the builder for a new disk, but for its GUID.
pub open spec fn new_builder(disk_guid: Guid) -> BuilderView {
    BuilderView {
        primary: true,
        disk_guid,
        primary_lba: 1,
        backup_lba: 0,
        first_usable: 0,
        last_usable: 0,
        num_parts: 128,
        part_size: 128,
    }
}

/// The primary header that a disk is given afresh: the one built from the
/// disk's current header, or from nothing where it has none, for the backup
/// LBA `bak`, for `count` partitions and at least 128, with the GUID `guid`.
pub open spec fn fresh_primary(
    current: Result<HeaderView, HeaderError>,
    guid: Guid,
    count: int,
    bak: u64,
    lb_size: LogicalBlockSize,
) -> Result<HeaderView, HeaderError> {
    let base = match current {
        Ok(h) => builder_from(h),
        Err(_) => new_builder(guid),
    };
    build_spec(
        BuilderView {
            num_parts: if count >= 128 {
                count as u32
            } else {
                128
            },
            backup_lba: bak,
            disk_guid: guid,
            primary: true,
            ..base
        },
        lb_size,
    )
}

/// The backup header that goes with the primary header `primary`.
pub open spec fn fresh_backup(primary: HeaderView, lb_size: LogicalBlockSize) -> Result<
    HeaderView,
    HeaderError,
> {
    build_spec(BuilderView { primary: false, ..builder_from(primary) }, lb_size)
}

/// What opening a disk finds on a device holding `contents`: the two
/// headers as they read, of which the configuration asks one or both to be
/// valid, and the partitions that the array of the valid one holds.
pub open spec fn opened(contents: Seq<u8>, config: ConfigView) -> Result<
    (Result<HeaderView, HeaderError>, Result<HeaderView, HeaderError>, Map<u32, PartitionView>),
    GptError,
> {
    let lb = config.lb_size;
    let h1 = header_at(contents, lb.bytes());
    let h2 = backup_header_spec(contents, lb);
    match selected_headers(config.only_valid_headers, h1, h2) {
        Err(e) => Err(e),
        Ok(_) => {
            let h = current_header(h1, h2)->Ok_0;
            if h.part_size != 128 {
                Err(GptError::UnsupportedEntrySize)
            } else {
                match read_partitions_spec(contents, h, lb) {
                    Err(e) => Err(e),
                    Ok(m) => Ok((h1, h2, m)),
                }
            }
        },
    }
}

/// The headers of a new disk with the GUID `guid` on a device of `len`
/// bytes: the primary, and the backup unless it is read-only.
pub open spec fn created(len: int, config: ConfigView, guid: Guid) -> Result<
    (HeaderView, Result<HeaderView, HeaderError>),
    GptError,
> {
    let lb = config.lb_size;
    match backup_lba_spec(len, lb) {
        Err(e) => Err(GptError::Header(e)),
        Ok(bak) => match build_spec(BuilderView { backup_lba: bak, ..new_builder(guid) }, lb) {
            Err(e) => Err(GptError::Header(e)),
            Ok(p) => if config.readonly_backup {
                Ok((p, Err(HeaderError::InvalidGptSignature)))
            } else {
                match fresh_backup(p, lb) {
                    Err(e) => Err(GptError::Header(e)),
                    Ok(b) => Ok((p, Ok(b))),
                }
            },
        },
    }
}

/// What giving a disk its headers afresh comes to, on a device of `len`
/// bytes and for `count` partitions: whether it succeeds, and the primary
/// and the backup header that the disk has afterwards. The primary is
/// replaced before the backup is built.
pub open spec fn initialised(
    primary: Result<HeaderView, HeaderError>,
    backup: Result<HeaderView, HeaderError>,
    guid: Guid,
    count: int,
    len: int,
    config: ConfigView,
) -> (Result<(), GptError>, Result<HeaderView, HeaderError>, Result<HeaderView, HeaderError>) {
    let lb = config.lb_size;
    match backup_lba_spec(len, lb) {
        Err(e) => (Err(GptError::Header(e)), primary, backup),
        Ok(bak) => if count > u32::MAX {
            (Err(GptError::OverflowPartitionCount), primary, backup)
        } else {
            match fresh_primary(current_header(primary, backup), guid, count, bak, lb) {
                Err(e) => (Err(GptError::Header(e)), primary, backup),
                Ok(p) => if config.readonly_backup {
                    (Ok(()), Ok(p), backup)
                } else {
                    match fresh_backup(p, lb) {
                        Err(e) => (Err(GptError::Header(e)), Ok(p), backup),
                        Ok(b) => (Ok(()), Ok(p), Ok(b)),
                    }
                },
            }
        },
    }
}

/// Whether `primary` and `backup` are the headers that a disk is given
/// afresh for `count` partitions, where it had the headers `old_primary` and
/// `old_backup`: a primary built from the header that it went by, for a
/// backup LBA of its own, and the backup that goes with it unless the
/// backup is read-only.
pub open spec fn headers_fresh(
    old_primary: Result<HeaderView, HeaderError>,
    old_backup: Result<HeaderView, HeaderError>,
    guid: Guid,
    count: int,
    config: ConfigView,
    primary: Result<HeaderView, HeaderError>,
    backup: Result<HeaderView, HeaderError>,
) -> bool {
    let lb = config.lb_size;
    &&& count <= u32::MAX
    &&& primary matches Ok(p)
    &&& primary == fresh_primary(
        current_header(old_primary, old_backup),
        guid,
        count,
        p.backup_lba,
        lb,
    )
    &&& backup == if config.readonly_backup {
        old_backup
    } else {
        fresh_backup(p, lb)
    }
    &&& !config.readonly_backup ==> backup is Ok
}

/// Whether the index `i` can be given to a new partition: the table has no
/// partition of that index, or one that is not in use.
pub open spec fn slot_is_free(m: Map<u32, PartitionView>, i: u32) -> bool {
    !m.contains_key(i) || !m[i].is_used()
}

/// The least index from `i` to `num_parts` that can be given to a new
/// partition, or nothing where there is none.
pub open spec fn first_free_from(m: Map<u32, PartitionView>, i: int, num_parts: u32) -> Option<u32>
    decreases num_parts - i + 1,
{
    if i < 1 || i > num_parts {
        None
    } else if slot_is_free(m, i as u32) {
        Some(i as u32)
    } else {
        first_free_from(m, i + 1, num_parts)
    }
}

/// The index that the next partition gets: 1 in an empty table, and else
/// the least index up to `num_parts` that is free, or nothing where all
/// are taken.
pub open spec fn next_partition_id_spec(m: Map<u32, PartitionView>, num_parts: u32) -> Option<u32> {
    if m.dom().is_empty() {
        Some(1)
    } else {
        first_free_from(m, 1, num_parts)
    }
}

/// Where a new partition of `size` bytes goes on a disk with the partitions
/// `m` and the header `h`: its index, its first and its last block, or why
/// it cannot be added.
///
/// The partition takes the least free index, or the index behind the last
/// where none is free; an index beyond the partition count of the header is
/// refused unless the count may change. It is placed in the first free
/// section that has room for it, at the next multiple of the alignment.
pub open spec fn add_plan(
    m: Map<u32, PartitionView>,
    h: HeaderView,
    config: ConfigView,
    size: u64,
    alignment: Option<u64>,
) -> Result<(u32, u64, u64), GptError> {
    let size_lba = size_in_blocks(size, config.lb_size.bytes()) as u64;
    let sections = free_sections_spec(h.first_usable, h.last_usable, spans_of(used_entries(m)));
    let id = match next_partition_id_spec(m, h.num_parts) {
        Some(i) => i as int,
        None => h.num_parts + 1,
    };
    if id > u32::MAX {
        Err(GptError::OverflowPartitionCount)
    } else if id > h.num_parts && !config.change_partition_count {
        Err(GptError::PartitionCountWouldChange)
    } else {
        match placement(sections, size_lba, alignment) {
            None => Err(GptError::NotEnoughSpace),
            Some(first) => Ok((id as u32, first as u64, (first + size_lba - 1) as u64)),
        }
    }
}

/// The index of the first partition, in ascending order of the indices
/// `ks`, whose GUID is `guid`.
pub open spec fn first_with_guid(m: Map<u32, PartitionView>, ks: Seq<u32>, guid: Guid) -> Option<
    u32,
>
    decreases ks.len(),
{
    if ks.len() == 0 {
        None
    } else if m[ks[0]].part_guid == guid {
        Some(ks[0])
    } else {
        first_with_guid(m, ks.drop_first(), guid)
    }
}

impl GptConfig {
    /// Create a new default configuration.
    pub fn new() -> (r: Self)
        ensures
            r@ == default_config(),
    {
        GptConfig::default()
    }

    /// Whether to open a GPT partition table in writable mode.
    pub fn writable(self, writable: bool) -> (r: Self)
        ensures
            r@ == (ConfigView { writable, ..self@ }),
    {
        let mut c = self;
        c.writable = writable;
        c
    }

    /// Whether disks are opened in writable mode.
    pub fn is_writable(&self) -> (r: bool)
        ensures
            r == self@.writable,
    {
        self.writable
    }

    /// Size of logical blocks (sectors) for this disk.
    pub fn logical_block_size(self, lb_size: LogicalBlockSize) -> (r: Self)
        ensures
            r@ == (ConfigView { lb_size, ..self@ }),
    {
        let mut c = self;
        c.lb_size = lb_size;
        c
    }

    /// Sets wether both header need to be valid to open a device.
    pub fn only_valid_headers(self, only_valid_headers: bool) -> (r: Self)
        ensures
            r@ == (ConfigView { only_valid_headers, ..self@ }),
    {
        let mut c = self;
        c.only_valid_headers = only_valid_headers;
        c
    }

    /// Sets wether the backup header should be treated as readonly.
    pub fn readonly_backup(self, readonly_backup: bool) -> (r: Self)
        ensures
            r@ == (ConfigView { readonly_backup, ..self@ }),
    {
        let mut c = self;
        c.readonly_backup = readonly_backup;
        c
    }

    /// Sets wether the partition count of the current header can be change.
    ///
    /// ## Warning
    /// This might change the first usable and last usable lba.
    pub fn change_partition_count(self, change_partition_count: bool) -> (r: Self)
        ensures
            r@ == (ConfigView { change_partition_count, ..self@ }),
    {
        let mut c = self;
        c.change_partition_count = change_partition_count;
        c
    }

    /// Decides which of the two headers read from a disk are kept.
    pub fn select_headers(
        &self,
        h1: Result<Header, HeaderError>,
        h2: Result<Header, HeaderError>,
    ) -> (r: Result<(Result<Header, HeaderError>, Result<Header, HeaderError>), GptError>)
        ensures
            match selected_headers(
                self@.only_valid_headers,
                header_result_view(h1),
                header_result_view(h2),
            ) {
                Ok(_) => r == Ok::<
                    (Result<Header, HeaderError>, Result<Header, HeaderError>),
                    GptError,
                >((h1, h2)),
                Err(e) => r matches Err(x) && x == e,
            },
    {
        if self.only_valid_headers {
            match h1 {
                Err(e) => Err(GptError::Header(e)),
                Ok(p) => match h2 {
                    Err(e) => Err(GptError::Header(e)),
                    Ok(b) => Ok((Ok(p), Ok(b))),
                },
            }
        } else {
            match h1 {
                Ok(p) => Ok((Ok(p), h2)),
                Err(e1) => match h2 {
                    Ok(b) => Ok((Err(e1), Ok(b))),
                    Err(_) => Err(GptError::Header(e1)),
                },
            }
        }
    }

    /// Open the GPT disk from the given device and
    /// inspect it according to configuration options.
    pub fn open_from_device<D: DiskDevice>(self, device: D) -> (r: Result<GptDisk<D>, GptError>)
        ensures
            r matches Ok(disk) ==> {
                let contents = device.contents();
                let lb = self@.lb_size;
                &&& disk.spec_config() == self@
                &&& selected_headers(
                    self@.only_valid_headers,
                    disk.spec_primary(),
                    disk.spec_backup(),
                ) is Ok
                &&& disk.spec_header().part_size == 128
                &&& disk.spec_guid() == disk.spec_header().disk_guid
            },
            D::obeys_device_spec() ==> match opened(device.contents(), self@) {
                Err(e) => r matches Err(x) && x == e,
                Ok((h1, h2, m)) => {
                    &&& r matches Ok(disk)
                    &&& disk.spec_device().contents() == device.contents()
                    &&& disk.spec_primary() == h1
                    &&& disk.spec_backup() == h2
                    &&& disk.spec_partitions() == m
                },
            },
    {
        let mut device = device;
        // Proper GPT disk, fully inspect its layout.
        let h1 = read_primary_header(&mut device, self.lb_size);
        let h2 = read_backup_header(&mut device, self.lb_size);
        let (h1, h2) = match self.select_headers(h1, h2) {
            Ok(pair) => pair,
            Err(e) => { return Err(e); },
        };
        let headers = match HeaderPair::from_results(h1, h2) {
            Some(pair) => pair,
            None => { return Err(GptError::Header(HeaderError::InvalidGptSignature)); },
        };
        let header = headers.current();
        if header.part_size != 128 {
            return Err(GptError::UnsupportedEntrySize);
        }
        let table = match file_read_partitions(&mut device, header, self.lb_size) {
            Ok(t) => t,
            Err(e) => { return Err(e); },
        };
        let guid = header.disk_guid;
        Ok(GptDisk { config: self, device, guid, headers, partitions: table })
    }

    /// Create a GPTDisk with default headers and an empty partition table.
    /// If guid is None then it will generate a new random guid.
    pub fn create_from_device<D: DiskDevice>(self, device: D, guid: Option<Guid>) -> (r: Result<
        GptDisk<D>,
        GptError,
    >)
        ensures
            r matches Ok(disk) ==> {
                let lb = self@.lb_size;
                &&& disk.spec_config() == self@
                &&& guid matches Some(g) ==> disk.spec_guid() == g
                &&& guid is None ==> disk.spec_guid().is_random_kind()
                &&& disk.spec_partitions() == Map::<u32, PartitionView>::empty()
                &&& disk.spec_primary() matches Ok(p)
                &&& disk.spec_primary() == build_spec(
                    BuilderView { backup_lba: p.backup_lba, ..new_builder(disk.spec_guid()) },
                    lb,
                )
                &&& disk.spec_backup() == if self@.readonly_backup {
                    Err::<HeaderView, HeaderError>(HeaderError::InvalidGptSignature)
                } else {
                    fresh_backup(p, lb)
                }
            },
            r matches Err(e) ==> is_device_failure(e) || (e matches GptError::Header(x)
                && !(x is Io)),
            D::obeys_device_spec() ==> match created(
                device.contents().len() as int,
                self@,
                match r {
                    Ok(disk) => disk.spec_guid(),
                    Err(_) => Guid::spec_nil(),
                },
            ) {
                Err(e) => r matches Err(x) && x == e,
                Ok((p, b)) => {
                    &&& r matches Ok(disk)
                    &&& disk.spec_device().contents() == device.contents()
                    &&& disk.spec_primary() == Ok::<HeaderView, HeaderError>(p)
                    &&& disk.spec_backup() == b
                },
            },
    {
        let mut device = device;
        let guid = match guid {
            Some(g) => g,
            None => Guid::random(),
        };
        // setup default headers
        let bak = match find_backup_lba(&mut device, self.lb_size) {
            Ok(b) => b,
            Err(e) => { return Err(GptError::Header(e)); },
        };
        let mut b1 = HeaderBuilder::new();
        b1.num_parts(0).backup_lba(bak).disk_guid(guid).primary(true);
        let h1 = match b1.build(self.lb_size) {
            Ok(h) => h,
            Err(e) => { return Err(GptError::Header(e)); },
        };
        let headers = if !self.readonly_backup {
            let mut b2 = HeaderBuilder::from_header(&h1);
            b2.primary(false);
            match b2.build(self.lb_size) {
                Ok(h2) => HeaderPair::Both { primary: h1, backup: h2 },
                Err(e) => { return Err(GptError::Header(e)); },
            }
        } else {
            HeaderPair::PrimaryOnly {
                primary: h1,
                backup_error: HeaderError::InvalidGptSignature,
            }
        };
        let partitions: BTreeMap<u32, Partition> = BTreeMap::new();
        assert(table_view(partitions@) =~= Map::<u32, PartitionView>::empty());
        Ok(GptDisk { config: self, device, guid, headers, partitions })
    }
}

/// The two headers of a disk, of which at least one is valid.
#[derive(Debug)]
enum HeaderPair {
    /// Both headers are valid.
    Both { primary: Header, backup: Header },
    /// The primary is valid, and there is no backup for the reason given.
    PrimaryOnly { primary: Header, backup_error: HeaderError },
    /// The backup is valid, and there is no primary for the reason given.
    BackupOnly { primary_error: HeaderError, backup: Header },
}

impl HeaderPair {
    /// The primary header, or why there is none.
    spec fn primary(self) -> Result<HeaderView, HeaderError> {
        match self {
            HeaderPair::Both { primary, backup } => Ok(primary@),
            HeaderPair::PrimaryOnly { primary, backup_error } => Ok(primary@),
            HeaderPair::BackupOnly { primary_error, backup } => Err(primary_error),
        }
    }

    /// The backup header, or why there is none.
    spec fn backup(self) -> Result<HeaderView, HeaderError> {
        match self {
            HeaderPair::Both { primary, backup } => Ok(backup@),
            HeaderPair::PrimaryOnly { primary, backup_error } => Err(backup_error),
            HeaderPair::BackupOnly { primary_error, backup } => Ok(backup@),
        }
    }

    /// The pair of two headers as they were read, of which one is valid.
    fn from_results(h1: Result<Header, HeaderError>, h2: Result<Header, HeaderError>) -> (r: Option<
        HeaderPair,
    >)
        ensures
            h1 is Ok || h2 is Ok <==> r is Some,
            r matches Some(pair) ==> pair.primary() == header_result_view(h1) && pair.backup()
                == header_result_view(h2),
    {
        match h1 {
            Ok(primary) => match h2 {
                Ok(backup) => Some(HeaderPair::Both { primary, backup }),
                Err(backup_error) => Some(HeaderPair::PrimaryOnly { primary, backup_error }),
            },
            Err(primary_error) => match h2 {
                Ok(backup) => Some(HeaderPair::BackupOnly { primary_error, backup }),
                Err(_) => None,
            },
        }
    }

    /// The pair with `h` as its primary.
    fn with_primary(self, h: Header) -> (r: HeaderPair)
        ensures
            r.primary() == Ok::<HeaderView, HeaderError>(h@),
            r.backup() == self.backup(),
    {
        match self {
            HeaderPair::Both { primary, backup } => HeaderPair::Both { primary: h, backup },
            HeaderPair::PrimaryOnly { primary, backup_error } => HeaderPair::PrimaryOnly {
                primary: h,
                backup_error,
            },
            HeaderPair::BackupOnly { primary_error, backup } => HeaderPair::Both {
                primary: h,
                backup,
            },
        }
    }

    /// The pair with `h` as its backup.
    fn with_backup(self, h: Header) -> (r: HeaderPair)
        ensures
            r.backup() == Ok::<HeaderView, HeaderError>(h@),
            r.primary() == self.primary(),
    {
        match self {
            HeaderPair::Both { primary, backup } => HeaderPair::Both { primary, backup: h },
            HeaderPair::PrimaryOnly { primary, backup_error } => HeaderPair::Both {
                primary,
                backup: h,
            },
            HeaderPair::BackupOnly { primary_error, backup } => HeaderPair::BackupOnly {
                primary_error,
                backup: h,
            },
        }
    }

    /// Puts `h` in place of the primary.
    fn set_primary(&mut self, h: Header)
        ensures
            final(self).primary() == Ok::<HeaderView, HeaderError>(h@),
            final(self).backup() == old(self).backup(),
    {
        let pair = self.duplicate().with_primary(h);
        *self = pair;
    }

    /// Puts `h` in place of the backup.
    fn set_backup(&mut self, h: Header)
        ensures
            final(self).backup() == Ok::<HeaderView, HeaderError>(h@),
            final(self).primary() == old(self).primary(),
    {
        let pair = self.duplicate().with_backup(h);
        *self = pair;
    }

    /// A copy of the pair.
    fn duplicate(&self) -> (r: HeaderPair)
        ensures
            r.primary() == self.primary(),
            r.backup() == self.backup(),
    {
        match self {
            HeaderPair::Both { primary, backup } => HeaderPair::Both {
                primary: primary.clone(),
                backup: backup.clone(),
            },
            HeaderPair::PrimaryOnly { primary, backup_error } => HeaderPair::PrimaryOnly {
                primary: primary.clone(),
                backup_error: *backup_error,
            },
            HeaderPair::BackupOnly { primary_error, backup } => HeaderPair::BackupOnly {
                primary_error: *primary_error,
                backup: backup.clone(),
            },
        }
    }

    /// The header to go by: the primary where it is valid, and else the
    /// backup.
    fn current(&self) -> (r: &Header)
        ensures
            current_header(self.primary(), self.backup()) == Ok::<HeaderView, HeaderError>(r@),
    {
        match self {
            HeaderPair::Both { primary, backup } => primary,
            HeaderPair::PrimaryOnly { primary, backup_error } => primary,
            HeaderPair::BackupOnly { primary_error, backup } => backup,
        }
    }
}

/// A GPT disk backed by an arbitrary device.
#[derive(Debug)]
pub struct GptDisk<D> {
    config: GptConfig,
    device: D,
    guid: Guid,
    headers: HeaderPair,
    /// partition: 0 does never exist
    partitions: BTreeMap<u32, Partition>,
}

impl<D> GptDisk<D> {

    /// The configuration of the disk.
    pub closed spec fn spec_config(&self) -> ConfigView {
        self.config@
    }

    /// The device of the disk.
    pub closed spec fn spec_device(&self) -> D {
        self.device
    }

    /// The GUID that the disk gives to the headers it builds.
    pub closed spec fn spec_guid(&self) -> Guid {
        self.guid
    }

    /// The primary header, or why the disk has none.
    pub closed spec fn spec_primary(&self) -> Result<HeaderView, HeaderError> {
        self.headers.primary()
    }

    /// The backup header, or why the disk has none.
    pub closed spec fn spec_backup(&self) -> Result<HeaderView, HeaderError> {
        self.headers.backup()
    }

    /// A disk has a primary header or a backup header.
    pub proof fn lemma_has_header(&self)
        ensures
            self.spec_primary() is Ok || self.spec_backup() is Ok,
    {
    }

    /// The partitions of the disk, by their index.
    pub closed spec fn spec_partitions(&self) -> Map<u32, PartitionView> {
        table_view(self.partitions@)
    }

    /// The header that the disk goes by: the primary where it has one, and
    /// else the backup.
    pub open spec fn spec_header(&self) -> HeaderView {
        current_header(self.spec_primary(), self.spec_backup())->Ok_0
    }

    /// Retrieve primary header, if any.
    pub fn primary_header(&self) -> (r: Result<&Header, HeaderError>)
        ensures
            match r {
                Ok(h) => self.spec_primary() == Ok::<HeaderView, HeaderError>(h@),
                Err(e) => self.spec_primary() == Err::<HeaderView, HeaderError>(e),
            },
    {
        match &self.headers {
            HeaderPair::Both { primary, backup } => Ok(primary),
            HeaderPair::PrimaryOnly { primary, backup_error } => Ok(primary),
            HeaderPair::BackupOnly { primary_error, backup } => Err(*primary_error),
        }
    }

    /// Retrieve backup header, if any.
    pub fn backup_header(&self) -> (r: Result<&Header, HeaderError>)
        ensures
            match r {
                Ok(h) => self.spec_backup() == Ok::<HeaderView, HeaderError>(h@),
                Err(e) => self.spec_backup() == Err::<HeaderView, HeaderError>(e),
            },
    {
        match &self.headers {
            HeaderPair::Both { primary, backup } => Ok(backup),
            HeaderPair::PrimaryOnly { primary, backup_error } => Err(*backup_error),
            HeaderPair::BackupOnly { primary_error, backup } => Ok(backup),
        }
    }

    /// Retrieve the current valid header.
    pub fn header(&self) -> (r: &Header)
        ensures
            r@ == self.spec_header(),
            current_header(self.spec_primary(), self.spec_backup()) is Ok,
    {
        self.headers.current()
    }

    /// Retrieve partition entries.
    pub fn partitions(&self) -> (r: &BTreeMap<u32, Partition>)
        ensures
            table_view(r@) == self.spec_partitions(),
    {
        &self.partitions
    }

    /// Retrieve disk UUID.
    pub fn guid(&self) -> (r: &Guid)
        ensures
            *r == self.spec_guid(),
    {
        &self.guid
    }

    /// Retrieve disk logical block size.
    pub fn logical_block_size(&self) -> (r: &LogicalBlockSize)
        ensures
            *r == self.spec_config().lb_size,
    {
        &self.config.lb_size
    }

    /// Get a mutable reference to to the underlying device.
    pub fn device_mut(&mut self) -> (r: &mut D)
        ensures
            *r == old(self).spec_device(),
            final(self).spec_device() == *final(r),
            final(self).spec_config() == old(self).spec_config(),
            final(self).spec_guid() == old(self).spec_guid(),
            final(self).spec_primary() == old(self).spec_primary(),
            final(self).spec_backup() == old(self).spec_backup(),
            final(self).spec_partitions() == old(self).spec_partitions(),
    {
        &mut self.device
    }

    /// Get a reference to to the underlying device.
    pub fn device_ref(&self) -> (r: &D)
        ensures
            *r == self.spec_device(),
    {
        &self.device
    }

    /// Whether a disk differs from `before` in nothing but its partitions.
    pub open spec fn same_but_partitions(&self, before: &Self) -> bool {
        &&& self.spec_config() == before.spec_config()
        &&& self.spec_device() == before.spec_device()
        &&& self.spec_guid() == before.spec_guid()
        &&& self.spec_primary() == before.spec_primary()
        &&& self.spec_backup() == before.spec_backup()
    }

    /// Change the disk device that we are reading/writing from/to.
    /// Returns the previous disk device.
    pub fn update_disk_device(&mut self, device: D, writable: bool) -> (r: D)
        ensures
            r == old(self).spec_device(),
            final(self).spec_device() == device,
            final(self).spec_config() == (ConfigView { writable, ..old(self).spec_config() }),
            final(self).spec_guid() == old(self).spec_guid(),
            final(self).spec_primary() == old(self).spec_primary(),
            final(self).spec_backup() == old(self).spec_backup(),
            final(self).spec_partitions() == old(self).spec_partitions(),
    {
        self.config.writable = writable;
        let mut previous = device;
        core::mem::swap(&mut self.device, &mut previous);
        previous
    }

    /// Updates the disk device that the GptDisk instance is interacting with.
    /// Returns a new GptDisk instance, retaining the previous configuration and GUID,
    /// but with the specified device and writable status.
    pub fn with_disk_device<N>(&self, device: N, writable: bool) -> (r: GptDisk<N>)
        ensures
            r.spec_device() == device,
            r.spec_config() == (ConfigView { writable, ..self.spec_config() }),
            r.spec_guid() == self.spec_guid(),
            r.spec_primary() == self.spec_primary(),
            r.spec_backup() == self.spec_backup(),
            r.spec_partitions() == self.spec_partitions(),
    {
        let mut config = self.config;
        config.writable = writable;
        GptDisk {
            config,
            device,
            guid: self.guid,
            headers: self.headers.duplicate(),
            partitions: self.partitions.clone(),
        }
    }

    /// Remove partition from this disk.
    pub fn remove_partition(&mut self, id: u32) -> (r: Option<u32>)
        ensures
            final(self).same_but_partitions(old(self)),
            final(self).spec_partitions() == old(self).spec_partitions().remove(id),
            r == if old(self).spec_partitions().contains_key(id) {
                Some(id)
            } else {
                None
            },
    {
        let ghost before = self.partitions@;
        let removed = self.partitions.remove(&id);
        assert(table_view(self.partitions@) =~= table_view(before).remove(id));
        match removed {
            Some(_) => Some(id),
            None => None,
        }
    }

    /// Remove partition from this disk. This tries to find the first partition based on its partition guid.
    pub fn remove_partition_by_guid(&mut self, guid: Guid) -> (r: Option<u32>)
        ensures
            final(self).same_but_partitions(old(self)),
            r == first_with_guid(
                old(self).spec_partitions(),
                crate::order::ascending_keys(old(self).spec_partitions()),
                guid,
            ),
            final(self).spec_partitions() == match r {
                Some(id) => old(self).spec_partitions().remove(id),
                None => old(self).spec_partitions(),
            },
    {
        let keys = crate::order::sorted_keys(&self.partitions);
        let ghost m = table_view(self.partitions@);
        proof {
            assert(crate::order::lists_keys(keys@, m));
            crate::order::lemma_ascending_keys(keys@, m);
        }
        let mut i: usize = 0;
        assert(keys@.skip(0) =~= keys@);
        while i < keys.len()
            invariant
                i <= keys@.len(),
                *self == *old(self),
                m == table_view(self.partitions@),
                m == old(self).spec_partitions(),
                keys@ == crate::order::ascending_keys(m),
                crate::order::lists_keys(keys@, self.partitions@),
                first_with_guid(m, keys@, guid) == first_with_guid(m, keys@.skip(i as int), guid),
            decreases keys@.len() - i,
        {
            let k = keys[i];
            assert(keys@.contains(k));
            proof {
                assert(keys@.skip(i as int)[0] == k);
                assert(keys@.skip(i as int).drop_first() =~= keys@.skip(i + 1));
            }
            let found = match self.partitions.get(&k) {
                Some(p) => p.part_guid == guid,
                None => false,
            };
            assert(m.contains_key(k));
            assert(found == (m[k].part_guid == guid));
            if found {
                assert(first_with_guid(m, keys@.skip(i as int), guid) == Some(k));
                let ghost before = self.partitions@;
                self.partitions.remove(&k);
                assert(table_view(self.partitions@) =~= table_view(before).remove(k));
                return Some(k);
            }
            i += 1;
        }
        None
    }

    /// Whether the partitions in use lie in the usable range of the header
    /// and no two of them have a block in common.
    pub open spec fn is_orderly(&self) -> bool {
        &&& table_disjoint(self.spec_partitions())
        &&& table_within(
            self.spec_partitions(),
            self.spec_header().first_usable,
            self.spec_header().last_usable,
        )
    }

    /// Find free space on the disk.
    /// Returns a tuple of (starting_lba, length in lba's) for each section:
    /// the section holds that many blocks from the starting one on. On a
    /// disk whose partitions lie in the usable range and apart from each
    /// other, the sections come in ascending order, every block of a
    /// section is free, and every free block of the usable range lies in a
    /// section.
    pub fn find_free_sectors(&self) -> (r: Vec<(u64, u64)>)
        ensures
            r@ == free_sections_spec(
                self.spec_header().first_usable,
                self.spec_header().last_usable,
                spans_of(used_entries(self.spec_partitions())),
            ),
            forall|j: int| 0 <= j < r@.len() ==> (#[trigger] r@[j]).0 + r@[j].1 <= u64::MAX + 1,
            self.is_orderly() ==> sections_ascend(r@) && holds_free_blocks(
                r@,
                self.spec_partitions(),
                self.spec_header().first_usable,
                self.spec_header().last_usable,
            ),
            self.is_orderly() && self.spec_header().last_usable < u64::MAX
                ==> holds_every_free_block(
                r@,
                self.spec_partitions(),
                self.spec_header().first_usable,
                self.spec_header().last_usable,
            ),
    {
        let header = self.header();
        let used = used_partitions(&self.partitions);
        let covered = spans(&used);
        let sections = free_sections(header.first_usable, header.last_usable, &covered);
        proof {
            let m = self.spec_partitions();
            if self.is_orderly() && header.first_usable <= header.last_usable {
                lemma_spans_of_table(m, header.first_usable, header.last_usable);
                lemma_sections_are_complete(m, header.first_usable, header.last_usable);
                assert forall|j: int, x: int|
                    0 <= j < sections@.len() && #[trigger] in_section(
                        sections@[j],
                        x,
                    ) implies header.first_usable <= x <= header.last_usable && table_free_at(
                    m,
                    x,
                ) by {
                    lemma_section_is_free(
                        header.first_usable,
                        header.last_usable,
                        covered@,
                        j,
                        x,
                    );
                }
            }
        }
        sections
    }

    /// Find next highest partition id.
    /// Will always return > 0
    ///
    /// If this returns None there is not more space to add a partiton
    pub fn find_next_partition_id(&self) -> (r: Option<u32>)
        ensures
            r == next_partition_id_spec(self.spec_partitions(), self.spec_header().num_parts),
            r matches Some(i) ==> i > 0,
    {
        if self.partitions.is_empty() {
            // Partitions start at 1.
            assert(self.spec_partitions().dom() =~= self.partitions@.dom());
            return Some(1);
        }
        assert(self.spec_partitions().dom() =~= self.partitions@.dom());
        let num_parts = self.header().num_parts;
        let ghost m = self.spec_partitions();
        // get the first free partition slot
        let mut i: u32 = 1;
        while i <= num_parts
            invariant
                1 <= i,
                i <= num_parts + 1,
                m == table_view(self.partitions@),
                m == self.spec_partitions(),
                !m.dom().is_empty(),
                num_parts == self.spec_header().num_parts,
                first_free_from(m, 1, num_parts) == first_free_from(m, i as int, num_parts),
            decreases num_parts + 1 - i,
        {
            let free = match self.partitions.get(&i) {
                Some(p) => !p.is_used(),
                None => true,
            };
            assert(free == slot_is_free(m, i));
            if free {
                return Some(i);
            }
            if i == u32::MAX {
                assert(first_free_from(m, i + 1, num_parts) is None);
                return None;
            }
            i += 1;
        }
        None
    }

    /// Retrieve partition entries, replacing it with an empty partitions list.
    pub fn take_partitions(&mut self) -> (r: BTreeMap<u32, Partition>)
        ensures
            final(self).same_but_partitions(old(self)),
            table_view(r@) == old(self).spec_partitions(),
            final(self).spec_partitions() == Map::<u32, PartitionView>::empty(),
    {
        let mut taken: BTreeMap<u32, Partition> = BTreeMap::new();
        core::mem::swap(&mut self.partitions, &mut taken);
        assert(table_view(self.partitions@) =~= Map::<u32, PartitionView>::empty());
        taken
    }

    /// Update disk UUID.
    ///
    /// If no UUID is specified, a new random one is generated.
    /// No changes are recorded to disk until `write()` is called.
    pub fn update_guid(&mut self, uuid: Option<Guid>)
        ensures
            final(self).spec_config() == old(self).spec_config(),
            final(self).spec_device() == old(self).spec_device(),
            final(self).spec_primary() == old(self).spec_primary(),
            final(self).spec_backup() == old(self).spec_backup(),
            final(self).spec_partitions() == old(self).spec_partitions(),
            uuid matches Some(g) ==> final(self).spec_guid() == g,
            uuid is None ==> final(self).spec_guid().is_random_kind(),
    {
        let guid = match uuid {
            Some(u) => u,
            None => Guid::random(),
        };
        self.guid = guid;
    }

    /// The primary header that writing the disk builds: that of its current
    /// header.
    pub open spec fn primary_to_write(disk: Self) -> Result<HeaderView, HeaderError> {
        build_spec(
            BuilderView { primary: true, ..builder_from(disk.spec_header()) },
            disk.spec_config().lb_size,
        )
    }

    /// The backup header that writing the disk builds: that of the primary
    /// that it builds.
    pub open spec fn backup_to_write(disk: Self) -> Result<HeaderView, HeaderError> {
        match Self::primary_to_write(disk) {
            Ok(p) => fresh_backup(p, disk.spec_config().lb_size),
            Err(e) => Err(e),
        }
    }

    /// Whether `contents` is what the device of `disk` holds after the disk
    /// was written: the partitions in use fill the first slots of the
    /// arrays, in ascending order of their index, zeros fill the other
    /// slots, and the headers are written over the result, the backup first
    /// and unless it is read-only.
    pub open spec fn is_written(disk: Self, contents: Seq<u8>) -> bool
        where D: DiskDevice
    {
        let lb = disk.spec_config().lb_size;
        let entries = used_entries(disk.spec_partitions());
        &&& Self::primary_to_write(disk) matches Ok(p)
        &&& entries.len() <= p.num_parts
        &&& if disk.spec_config().readonly_backup {
            written_image(disk.spec_device().contents(), entries, p, None, lb) == Ok::<
                Seq<u8>,
                HeaderError,
            >(contents)
        } else {
            &&& Self::backup_to_write(disk) matches Ok(b)
            &&& written_image(disk.spec_device().contents(), entries, p, Some(b), lb) == Ok::<
                Seq<u8>,
                HeaderError,
            >(contents)
        }
    }

    /// What giving the disk `disk` its headers afresh comes to, for `count`
    /// partitions.
    pub open spec fn init_outcome(disk: Self, count: int) -> (
        Result<(), GptError>,
        Result<HeaderView, HeaderError>,
        Result<HeaderView, HeaderError>,
    )
        where D: DiskDevice
    {
        initialised(
            disk.spec_primary(),
            disk.spec_backup(),
            disk.spec_guid(),
            count,
            disk.spec_device().contents().len() as int,
            disk.spec_config(),
        )
    }

    /// Whether the headers of the disk `after` are those that the disk
    /// `before` is given afresh, for `count` partitions.
    pub open spec fn fresh_headers(before: Self, count: int, after: Self) -> bool {
        headers_fresh(
            before.spec_primary(),
            before.spec_backup(),
            before.spec_guid(),
            count,
            before.spec_config(),
            after.spec_primary(),
            after.spec_backup(),
        )
    }

    /// Whether the disk `disk` can be written: it is writable, its device
    /// has three blocks, its headers can be built, and the device has room
    /// for the arrays and the headers.
    pub open spec fn can_write(disk: Self) -> bool
        where D: DiskDevice
    {
        let lb = disk.spec_config().lb_size;
        let c = disk.spec_device().contents();
        let entries = used_entries(disk.spec_partitions());
        &&& disk.spec_config().writable
        &&& backup_lba_spec(c.len() as int, lb) is Ok
        &&& Self::primary_to_write(disk) matches Ok(p)
        &&& if disk.spec_config().readonly_backup {
            &&& arrays_fit(c, entries.len() as int, p, None, lb)
            &&& written_image(c, entries, p, None, lb) is Ok
        } else {
            &&& Self::backup_to_write(disk) matches Ok(b)
            &&& arrays_fit(c, entries.len() as int, p, Some(b), lb)
            &&& written_image(c, entries, p, Some(b), lb) is Ok
        }
    }

    /// Why the disk `disk` is not written, where that shows before anything
    /// is written: it is read-only, its device is too small, or a header
    /// cannot be built.
    pub open spec fn write_refusal(disk: Self) -> Option<GptError>
        where D: DiskDevice
    {
        let lb = disk.spec_config().lb_size;
        if !disk.spec_config().writable {
            Some(GptError::ReadOnly)
        } else {
            match backup_lba_spec(disk.spec_device().contents().len() as int, lb) {
                Err(e) => Some(GptError::Header(e)),
                Ok(_) => match Self::primary_to_write(disk) {
                    Err(e) => Some(GptError::Header(e)),
                    Ok(p) => if disk.spec_config().readonly_backup {
                        None
                    } else {
                        match fresh_backup(p, lb) {
                            Err(e) => Some(GptError::Header(e)),
                            Ok(_) => None,
                        }
                    },
                },
            }
        }
    }

    /// Take the underlying device object and force
    /// self to drop out of scope.
    ///
    /// Caution: this will abandon any changes that where not written.
    pub fn take_device(self) -> (r: D)
        ensures
            r == self.spec_device(),
    {
        self.device
    }
}

impl<D: Clone> Clone for GptDisk<D> {
    fn clone(&self) -> (r: Self)
        ensures
            r.spec_config() == self.spec_config(),
            r.spec_guid() == self.spec_guid(),
            r.spec_primary() == self.spec_primary(),
            r.spec_backup() == self.spec_backup(),
            r.spec_partitions() == self.spec_partitions(),
    {
        Self {
            config: self.config,
            device: self.device.clone(),
            guid: self.guid,
            headers: self.headers.duplicate(),
            partitions: self.partitions.clone(),
        }
    }
}

impl<D: DiskDevice> GptDisk<D> {
    /// Makes sure there exists a primary header and if allowed also creates the backup
    /// header.
    pub fn init_headers(&mut self) -> (r: Result<(), GptError>)
        ensures
            final(self).spec_config() == old(self).spec_config(),
            final(self).spec_guid() == old(self).spec_guid(),
            final(self).spec_partitions() == old(self).spec_partitions(),
            D::obeys_device_spec() ==> final(self).spec_device().contents() == old(
                self).spec_device().contents(),
            r is Ok ==> Self::fresh_headers(
                *old(self),
                old(self).spec_partitions().dom().len() as int,
                *final(self),
            ),
            r matches Err(e) ==> is_device_failure(e) || e is Header || e is OverflowPartitionCount,
            (r matches Err(e) && !(e is Header)) ==> final(self).spec_primary() == old(
                self).spec_primary() && final(self).spec_backup() == old(self).spec_backup(),
            D::obeys_device_spec() ==> (r, final(self).spec_primary(), final(self).spec_backup())
                == Self::init_outcome(*old(self), old(self).spec_partitions().dom().len() as int),
    {
        let lb = self.config.lb_size;
        let bak = match find_backup_lba(&mut self.device, lb) {
            Ok(b) => b,
            Err(e) => { return Err(GptError::Header(e)); },
        };
        let count = self.partitions.len();
        assert(self.spec_partitions().dom() =~= self.partitions@.dom());
        if count > u32::MAX as usize {
            return Err(GptError::OverflowPartitionCount);
        }
        let num_parts = count as u32;
        let mut b1 = HeaderBuilder::from_maybe_header(Some(self.headers.current()));
        b1.num_parts(num_parts).backup_lba(bak).disk_guid(self.guid).primary(true);
        let h1 = match b1.build(lb) {
            Ok(h) => h,
            Err(e) => { return Err(GptError::Header(e)); },
        };
        if !self.config.readonly_backup {
            let mut b2 = HeaderBuilder::from_header(&h1);
            b2.primary(false);
            self.headers.set_primary(h1);
            let h2 = match b2.build(lb) {
                Ok(h) => h,
                Err(e) => { return Err(GptError::Header(e)); },
            };
            self.headers.set_backup(h2);
        } else {
            self.headers.set_primary(h1);
        }
        Ok(())
    }

    /// Add another partition to this disk.  This tries to find
    /// the optimum partition location with the lowest block device.
    /// Returns the new partition id if there was sufficient room
    /// to add the partition. Size is specified in bytes.
    ///
    /// The size must not be zero, nor the alignment where one is given.
    ///
    /// On a disk whose partitions lie in the usable range and apart from
    /// each other the new partition takes free blocks of the usable range,
    /// the lowest at which it can start, so that the partitions stay apart.
    pub fn add_partition(
        &mut self,
        name: &str,
        size: u64,
        part_type: Type,
        flags: u64,
        part_alignment: Option<u64>,
    ) -> (r: Result<u32, GptError>)
        requires
            size > 0,
            part_alignment != Some(0u64),
        ensures
            final(self).spec_config() == old(self).spec_config(),
            final(self).spec_guid() == old(self).spec_guid(),
            D::obeys_device_spec() ==> final(self).spec_device().contents() == old(
                self).spec_device().contents(),
            match add_plan(
                old(self).spec_partitions(),
                old(self).spec_header(),
                old(self).spec_config(),
                size,
                part_alignment,
            ) {
                Err(e) => {
                    &&& r == Err::<u32, GptError>(e)
                    &&& *final(self) == *old(self)
                },
                Ok((id, first, last)) => {
                    let count = final(self).spec_partitions().dom().len() as int;
                    &&& final(self).spec_partitions()[id].part_guid.is_random_kind()
                    &&& old(self).is_orderly() ==> {
                        &&& old(self).spec_header().first_usable <= first <= last <= old(
                            self).spec_header().last_usable
                        &&& forall|x: int|
                            first <= x <= last ==> table_free_at(old(self).spec_partitions(), x)
                        &&& old(self).spec_header().last_usable < u64::MAX ==> forall|t: int|
                            #[trigger] has_room_at(
                                old(self).spec_partitions(),
                                old(self).spec_header().first_usable,
                                old(self).spec_header().last_usable,
                                last - first + 1,
                                part_alignment,
                                t,
                            ) ==> first <= t
                        &&& table_disjoint(final(self).spec_partitions())
                        &&& table_within(
                            final(self).spec_partitions(),
                            old(self).spec_header().first_usable,
                            old(self).spec_header().last_usable,
                        )
                    }
                    &&& final(self).spec_partitions() == old(self).spec_partitions().insert(
                        id,
                        PartitionView {
                            part_type_guid: part_type,
                            part_guid: final(self).spec_partitions()[id].part_guid,
                            first_lba: first,
                            last_lba: last,
                            flags,
                            name: name@,
                        },
                    )
                    &&& part_alignment matches Some(a) ==> first % a == 0
                    &&& if id <= old(self).spec_header().num_parts {
                        &&& r == Ok::<u32, GptError>(id)
                        &&& final(self).spec_primary() == old(self).spec_primary()
                        &&& final(self).spec_backup() == old(self).spec_backup()
                    } else {
                        &&& match r {
                            Ok(i) => i == id && Self::fresh_headers(
                                *old(self),
                                count,
                                *final(self),
                            ),
                            Err(e) => is_device_failure(e) || e is Header
                                || e is OverflowPartitionCount,
                        }
                        &&& D::obeys_device_spec() ==> {
                            let outcome = Self::init_outcome(*old(self), count);
                            &&& final(self).spec_primary() == outcome.1
                            &&& final(self).spec_backup() == outcome.2
                            &&& r == match outcome.0 {
                                Ok(_) => Ok::<u32, GptError>(id),
                                Err(e) => Err::<u32, GptError>(e),
                            }
                        }
                    }
                },
            },
    {
        let lb = self.config.lb_size;
        // Ceiling division which avoids overflow
        let size_lba: u64 = (size - 1) / lb.as_u64() + 1;
        let partition_id = match self.find_next_partition_id() {
            Some(i) => i,
            None => match self.header().num_parts.checked_add(1) {
                Some(i) => i,
                None => { return Err(GptError::OverflowPartitionCount); },
            },
        };
        // let's try to increase the num parts
        // because partition_id 0 will never exist the num_parts is without + 1
        let num_parts_changes = self.header().num_parts_would_change(partition_id);
        if num_parts_changes && !self.config.change_partition_count {
            return Err(GptError::PartitionCountWouldChange);
        }
        // Find the lowest lba that is larger than size.
        let free_sections = self.find_free_sectors();
        let starting_lba = match place(&free_sections, size_lba, part_alignment) {
            Some(x) => x,
            None => { return Err(GptError::NotEnoughSpace); },
        };
        // Found our free slice.
        let part = Partition {
            part_type_guid: part_type,
            part_guid: Guid::random(),
            first_lba: starting_lba,
            last_lba: starting_lba + (size_lba - 1),
            flags,
            name: name.to_owned(),
        };
        let ghost before = self.partitions@;
        let ghost pv = part@;
        proof {
            let m = self.spec_partitions();
            if self.is_orderly() {
                lemma_add_partition_keeps_disjoint(
                    m,
                    self.spec_header(),
                    self.spec_config(),
                    size,
                    part_alignment,
                    pv,
                );
                if self.spec_header().last_usable < u64::MAX {
                    assert forall|t: int| #[trigger]
                        has_room_at(
                            m,
                            self.spec_header().first_usable,
                            self.spec_header().last_usable,
                            size_lba as int,
                            part_alignment,
                            t,
                        ) implies starting_lba <= t by {
                        lemma_add_partition_is_first_fit(
                            m,
                            self.spec_header(),
                            self.spec_config(),
                            size,
                            part_alignment,
                            t,
                        );
                    }
                }
            }
        }
        self.partitions.insert(partition_id, part);
        assert(table_view(self.partitions@) =~= table_view(before).insert(partition_id, pv));
        if num_parts_changes {
            // update headers
            match self.init_headers() {
                Ok(_) => {},
                Err(e) => { return Err(e); },
            }
        }
        Ok(partition_id)
    }

    /// Update current partition table.
    ///
    /// No changes are recorded to disk until `write()` is called.
    ///
    /// ## Note
    /// you need to make sure that all values in the partition are set correctly.
    /// The table must not hold a partition 0.
    pub fn update_partitions(&mut self, pp: BTreeMap<u32, Partition>) -> (r: Result<(), GptError>)
        requires
            !pp@.contains_key(0),
        ensures
            final(self).spec_config() == old(self).spec_config(),
            final(self).spec_guid() == old(self).spec_guid(),
            D::obeys_device_spec() ==> final(self).spec_device().contents() == old(
                self).spec_device().contents(),
            ({
                let count = pp@.dom().len() as int;
                let refused = count > old(self).spec_header().num_parts && !old(
                    self).spec_config().change_partition_count;
                if refused {
                    &&& r matches Err(e)
                    &&& e is PartitionCountWouldChange || e is OverflowPartitionCount
                    &&& count <= u32::MAX ==> e is PartitionCountWouldChange
                    &&& final(self).spec_partitions() == old(self).spec_partitions()
                    &&& final(self).spec_primary() == old(self).spec_primary()
                    &&& final(self).spec_backup() == old(self).spec_backup()
                } else {
                    &&& final(self).spec_partitions() == table_view(pp@)
                    &&& r is Ok ==> Self::fresh_headers(*old(self), count, *final(self))
                    &&& r matches Err(e) ==> is_device_failure(e) || e is Header
                        || e is OverflowPartitionCount
                    &&& D::obeys_device_spec() ==> (
                        r,
                        final(self).spec_primary(),
                        final(self).spec_backup(),
                    ) == Self::init_outcome(*old(self), count)
                }
            }),
    {
        let count = pp.len();
        let over = count > u32::MAX as usize;
        let num_parts_changes = over || self.header().num_parts_would_change(count as u32);
        if num_parts_changes && !self.config.change_partition_count {
            if over {
                return Err(GptError::OverflowPartitionCount);
            }
            return Err(GptError::PartitionCountWouldChange);
        }
        self.partitions = pp;
        assert(self.spec_partitions().dom() =~= pp@.dom());
        self.init_headers()
    }

    /// Builds the headers that are written: the primary from the header
    /// that the disk goes by, and its backup unless the backup is read-only.
    /// The disk keeps them as its own.
    fn headers_to_write(&mut self) -> (r: Result<(Header, Option<Header>), GptError>)
        requires
            old(self).spec_config().writable,
        ensures
            final(self).spec_config() == old(self).spec_config(),
            final(self).spec_guid() == old(self).spec_guid(),
            final(self).spec_partitions() == old(self).spec_partitions(),
            r matches Err(e) ==> e is Header,
            D::obeys_device_spec() ==> final(self).spec_device().contents() == old(
                self).spec_device().contents(),
            D::obeys_device_spec() ==> (r is Ok <==> Self::write_refusal(*old(self)) is None),
            D::obeys_device_spec() ==> (r matches Err(e) ==> Self::write_refusal(*old(self))
                == Some(e)),
            r matches Ok((p, b)) ==> {
                &&& Self::primary_to_write(*old(self)) == Ok::<HeaderView, HeaderError>(p@)
                &&& final(self).spec_primary() == Ok::<HeaderView, HeaderError>(p@)
                &&& if old(self).spec_config().readonly_backup {
                    b is None && final(self).spec_backup() == old(self).spec_backup()
                } else {
                    b matches Some(bh) && Self::backup_to_write(*old(self)) == Ok::<
                        HeaderView,
                        HeaderError,
                    >(bh@) && final(self).spec_backup() == Ok::<HeaderView, HeaderError>(bh@)
                }
            },
    {
        let lb = self.config.lb_size;
        match find_backup_lba(&mut self.device, lb) {
            Ok(_) => {},
            Err(e) => { return Err(GptError::Header(e)); },
        };
        let mut pb = HeaderBuilder::from_header(self.headers.current());
        pb.primary(true);
        let primary_header = match pb.build(lb) {
            Ok(h) => h,
            Err(e) => { return Err(GptError::Header(e)); },
        };
        self.headers.set_primary(primary_header.clone());
        let backup_header: Option<Header> = if !self.config.readonly_backup {
            let mut bb = HeaderBuilder::from_header(&primary_header);
            bb.primary(false);
            match bb.build(lb) {
                Ok(h) => {
                    self.headers.set_backup(h.clone());
                    Some(h)
                },
                Err(e) => { return Err(GptError::Header(e)); },
            }
        } else {
            None
        };
        Ok((primary_header, backup_header))
    }

    /// Persist state to disk, consuming this disk object.
    ///
    /// This is a destructive action, as it overwrite headers and
    /// partitions entries on disk. All writes are flushed to disk
    /// before returning the underlying DiskDeviceObject.
    pub fn write(self) -> (r: Result<D, GptError>)
        ensures
            !self.spec_config().writable ==> r matches Err(GptError::ReadOnly),
            r matches Ok(device) ==> self.spec_config().writable && (D::obeys_device_spec()
                ==> Self::is_written(self, device.contents())),
            D::obeys_device_spec() ==> (r is Ok <==> Self::can_write(self)),
            D::obeys_device_spec() ==> (Self::write_refusal(self) matches Some(e) ==> (
            r matches Err(x) && x == e)),
    {
        let mut disk = self;
        match disk.write_inplace() {
            Ok(_) => {},
            Err(e) => { return Err(e); },
        }
        Ok(disk.device)
    }

    /// Persist state to disk, leaving this disk object intact.
    ///
    /// This is a destructive action, as it overwrites headers
    /// and partitions entries on disk. All writes are flushed
    /// to disk before returning.
    pub fn write_inplace(&mut self) -> (r: Result<(), GptError>)
        ensures
            final(self).spec_config() == old(self).spec_config(),
            final(self).spec_guid() == old(self).spec_guid(),
            final(self).spec_partitions() == old(self).spec_partitions(),
            !old(self).spec_config().writable ==> (r matches Err(GptError::ReadOnly)) && *final(
                self) == *old(self),
            r matches Err(GptError::ReadOnly) ==> !old(self).spec_config().writable,
            r is Ok ==> {
                &&& D::obeys_device_spec() ==> Self::is_written(
                    *old(self),
                    final(self).spec_device().contents(),
                )
                &&& final(self).spec_primary() == Self::primary_to_write(*old(self))
                &&& final(self).spec_backup() == if old(self).spec_config().readonly_backup {
                    old(self).spec_backup()
                } else {
                    Self::backup_to_write(*old(self))
                }
            },
            D::obeys_device_spec() ==> (r matches Err(GptError::OverflowPartitionCount) ==> (
            Self::primary_to_write(*old(self)) matches Ok(p) && used_entries(
                old(self).spec_partitions(),
            ).len() > p.num_parts)),
            D::obeys_device_spec() ==> (r is Ok <==> Self::can_write(*old(self))),
            D::obeys_device_spec() ==> (Self::write_refusal(*old(self)) matches Some(e) ==> r
                == Err::<(), GptError>(e) && final(self).spec_device().contents() == old(
                self).spec_device().contents()),
    {
        if !self.config.writable {
            return Err(GptError::ReadOnly);
        }
        let lb = self.config.lb_size;
        let (primary_header, backup_header) = match self.headers_to_write() {
            Ok(pair) => pair,
            Err(e) => { return Err(e); },
        };
        // Write all of the used partitions at the start of the partition array.
        let used = used_partitions(&self.partitions);
        match write_arrays(&mut self.device, &used, &primary_header, &backup_header, lb) {
            Ok(_) => {},
            Err(e) => { return Err(e); },
        }
        match write_headers(&mut self.device, &primary_header, &backup_header, lb) {
            Ok(_) => {},
            Err(e) => { return Err(GptError::Header(e)); },
        }
        match self.device.flush() {
            Ok(_) => {},
            Err(e) => { return Err(GptError::Io(e)); },
        }
        Ok(())
    }
}

} // verus!
