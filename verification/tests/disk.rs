use gpt::device::{IoError, MemDevice};
use gpt::disk::{LogicalBlockSize, DEFAULT_SECTOR_SIZE};
use gpt::guid::Guid;
use gpt::header::{Header, HeaderBuilder, HeaderError};
use gpt::mbr::ProtectiveMBR;
use gpt::partition::Partition;
use gpt::partition_types::{basic, linux_fs};
use gpt::space::{free_sections, place};
use gpt::text::{decimal, joined};
use gpt::{DiskDevice, GptConfig, GptError};
use std::collections::BTreeMap;

fn fresh(blocks: usize) -> gpt::GptDisk<MemDevice> {
    GptConfig::new()
        .writable(true)
        .create_from_device(MemDevice::new(vec![0; blocks * 512]), None)
        .unwrap()
}

#[test]
fn block_sizes() {
    assert_eq!(DEFAULT_SECTOR_SIZE, LogicalBlockSize::Lb512);
    assert_eq!(LogicalBlockSize::Lb512.as_u64(), 512);
    assert_eq!(LogicalBlockSize::Lb4096.as_usize(), 4096);
    assert_eq!(u64::from(LogicalBlockSize::Lb4096), 4096);
    assert_eq!(usize::from(LogicalBlockSize::Lb512), 512);
    assert_eq!(LogicalBlockSize::try_from(512), Ok(LogicalBlockSize::Lb512));
    assert_eq!(LogicalBlockSize::try_from(4096), Ok(LogicalBlockSize::Lb4096));
    assert_eq!(
        LogicalBlockSize::try_from(1024),
        Err("unsupported logical block size (must be 512 or 4096)")
    );
    assert_eq!(LogicalBlockSize::Lb512.to_text(), "512");
    assert_eq!(LogicalBlockSize::Lb4096.to_text(), "4096");
}

#[test]
fn offsets_overflow_exactly_beyond_the_bound() {
    for lb in [LogicalBlockSize::Lb512, LogicalBlockSize::Lb4096] {
        let bound = u64::MAX / lb.as_u64();
        assert_eq!(lb.byte_offset(0), Some(0));
        assert_eq!(lb.byte_offset(3), Some(3 * lb.as_u64()));
        assert_eq!(lb.byte_offset(bound), Some(bound * lb.as_u64()));
        assert_eq!(lb.byte_offset(bound + 1), None);
        assert_eq!(lb.byte_offset(u64::MAX), None);
    }
    let header = HeaderBuilder::new()
        .backup_lba(u64::MAX / 512 + 40)
        .primary(false)
        .build(LogicalBlockSize::Lb512)
        .unwrap();
    let mut device = MemDevice::new(vec![0; 4096]);
    assert!(matches!(
        header.write_backup(&mut device, LogicalBlockSize::Lb512),
        Err(HeaderError::Overflow("header overflow - partition table start"))
    ));
}

#[test]
fn free_sections_between_spans() {
    assert_eq!(free_sections(34, 94, &vec![]), vec![(34, 61)]);
    assert_eq!(
        free_sections(5, 100, &vec![(50, 60), (10, 20)]),
        vec![(5, 5), (21, 29), (61, 40)]
    );
    assert_eq!(free_sections(34, 94, &vec![(34, 57)]), vec![(34, 0), (58, 37)]);
    assert_eq!(
        free_sections(34, 94, &vec![(34, 34)]),
        vec![(34, 0), (35, 60)]
    );
    assert_eq!(
        free_sections(34, 94, &vec![(94, 94), (34, 93)]),
        vec![(34, 0), (94, 0), (95, 0)]
    );
    assert_eq!(
        free_sections(34, 94, &vec![(40, 40), (41, 41)]),
        vec![(34, 6), (41, 0), (42, 53)]
    );
    assert_eq!(
        free_sections(1, u64::MAX, &vec![(u64::MAX, u64::MAX)]),
        vec![(1, u64::MAX - 1), (u64::MAX, 0)]
    );
    assert_eq!(free_sections(0, u64::MAX, &vec![]), vec![(0, u64::MAX)]);
    assert_eq!(free_sections(7, 7, &vec![]), vec![(7, 1)]);
    assert_eq!(free_sections(8, 7, &vec![]), vec![]);
    assert_eq!(place(&free_sections(8, 7, &vec![]), 1, None), None);
}

#[test]
fn placement_is_first_fit_and_aligned() {
    let sections = vec![(34, 0), (58, 36), (200, 1000)];
    assert_eq!(place(&sections, 36, None), Some(58));
    assert_eq!(place(&sections, 37, None), Some(200));
    assert_eq!(place(&sections, 1, None), Some(58));
    assert_eq!(place(&sections, 1000, None), Some(200));
    assert_eq!(place(&sections, 1001, None), None);
    assert_eq!(place(&sections, 8, Some(64)), Some(64));
    assert_eq!(place(&sections, 30, Some(64)), Some(64));
    assert_eq!(place(&sections, 31, Some(64)), Some(256));
    assert_eq!(place(&sections, u64::MAX, Some(64)), None);
    assert_eq!(place(&sections, 8, Some(1)), Some(58));
    assert_eq!(place(&sections, 8, Some(58)), Some(58));
    assert_eq!(place(&sections, 8, Some(2048)), None);
    assert_eq!(place(&vec![], 1, None), None);
}

#[test]
fn create_from_scratch() {
    let mut device = MemDevice::new(vec![0; 64 * 1024]);
    ProtectiveMBR::with_lb_size(127)
        .overwrite_lba0(&mut device)
        .unwrap();
    let mut disk = GptConfig::new()
        .writable(true)
        .logical_block_size(LogicalBlockSize::Lb512)
        .create_from_device(device, None)
        .unwrap();
    assert_eq!(disk.find_free_sectors(), vec![(34, 61)]);
    assert_eq!(disk.find_next_partition_id(), Some(1));
    assert_eq!(disk.add_partition("test1", 12 * 1024, basic(), 0, None).unwrap(), 1);
    assert_eq!(disk.find_next_partition_id(), Some(2));
    assert_eq!(disk.add_partition("test2", 18 * 1024, linux_fs(), 0, None).unwrap(), 2);
    let first = &disk.partitions()[&1];
    assert_eq!((first.first_lba, first.last_lba), (34, 57));
    assert_eq!(first.name, "test1");
    assert_eq!(first.part_type_guid, basic());
    let second = &disk.partitions()[&2];
    assert_eq!((second.first_lba, second.last_lba), (58, 93));
    assert_ne!(first.part_guid, second.part_guid);
    assert_eq!(disk.find_free_sectors(), vec![(34, 0), (58, 0), (94, 1)]);
    assert!(matches!(
        disk.add_partition("test3", 1024, basic(), 0, None),
        Err(GptError::NotEnoughSpace)
    ));
    let guid = *disk.guid();

    let device = disk.write().unwrap();
    let reopened = GptConfig::new()
        .only_valid_headers(true)
        .open_from_device(device)
        .unwrap();
    let primary = reopened.primary_header().unwrap();
    let backup = reopened.backup_header().unwrap();
    assert_eq!(primary.disk_guid, guid);
    assert_eq!((primary.current_lba, primary.backup_lba), (1, 127));
    assert_eq!((backup.current_lba, backup.backup_lba), (127, 1));
    assert_eq!((primary.part_start, backup.part_start), (2, 95));
    assert_eq!(primary.crc32_parts, backup.crc32_parts);
    assert_eq!(reopened.partitions()[&1].name, "test1");
    assert_eq!(reopened.partitions()[&2].last_lba, 93);
    assert_eq!(reopened.guid(), &guid);
    assert_eq!(reopened.device_ref().get_ref()[510..512], [0x55, 0xAA]);
}

#[test]
fn aligned_partitions_start_on_multiples() {
    let mut disk = fresh(4096);
    for alignment in [8u64, 64, 2048, 3, 1] {
        let id = disk
            .add_partition("part", 5 * 512, linux_fs(), 0, Some(alignment))
            .unwrap();
        let p = &disk.partitions()[&id];
        assert_eq!(p.first_lba % alignment, 0);
        assert_eq!(p.last_lba, p.first_lba + 4);
    }
    let firsts: Vec<u64> = disk.partitions().values().map(|p| p.first_lba).collect();
    assert_eq!(firsts, vec![40, 64, 2048, 45, 34]);
}

#[test]
fn added_partitions_do_not_overlap() {
    let mut disk = fresh(2048);
    for i in 0..20u64 {
        let alignment = if i % 3 == 0 { None } else { Some(i % 7 + 1) };
        disk.add_partition("p", (i % 5 + 1) * 512, basic(), 0, alignment)
            .unwrap();
    }
    let all: Vec<(u64, u64)> = disk
        .partitions()
        .values()
        .map(|p| (p.first_lba, p.last_lba))
        .collect();
    assert_eq!(all.len(), 20);
    for (i, a) in all.iter().enumerate() {
        assert!(34 <= a.0 && a.0 <= a.1 && a.1 <= 2014);
        for b in all.iter().skip(i + 1) {
            assert!(a.1 < b.0 || b.1 < a.0);
        }
    }
    for (start, length) in disk.find_free_sectors() {
        for a in all.iter() {
            assert!(a.1 < start || start + length <= a.0);
        }
    }
}

#[test]
fn a_block_in_use_is_not_given_again() {
    let mut disk = fresh(128);
    assert_eq!(disk.add_partition("one", 512, basic(), 0, None).unwrap(), 1);
    assert_eq!(disk.partitions()[&1].first_lba, 34);
    assert_eq!(disk.partitions()[&1].last_lba, 34);
    assert_eq!(disk.find_free_sectors(), vec![(34, 0), (35, 60)]);
    assert_eq!(disk.add_partition("two", 512, basic(), 0, None).unwrap(), 2);
    assert_eq!(disk.partitions()[&2].first_lba, 35);
    assert_eq!(disk.partitions()[&2].last_lba, 35);
    // The rest of the disk is taken whole, up to the last usable block.
    assert_eq!(disk.add_partition("rest", 59 * 512, basic(), 0, None).unwrap(), 3);
    assert_eq!(disk.partitions()[&3].first_lba, 36);
    assert_eq!(disk.partitions()[&3].last_lba, 94);
    assert!(matches!(
        disk.add_partition("more", 1, basic(), 0, None),
        Err(GptError::NotEnoughSpace)
    ));
    // A freed block is found again, and it is the lowest.
    assert_eq!(disk.remove_partition(2), Some(2));
    assert_eq!(disk.find_free_sectors(), vec![(34, 0), (35, 1), (95, 0)]);
    assert_eq!(disk.add_partition("again", 512, basic(), 0, None).unwrap(), 2);
    assert_eq!(disk.partitions()[&2].first_lba, 35);
}

#[test]
fn a_full_table_is_reported_before_a_full_disk() {
    let mut disk = fresh(67 + 128);
    for _ in 0..128 {
        disk.add_partition("p", 512, basic(), 0, None).unwrap();
    }
    assert_eq!(disk.partitions()[&128].first_lba, 161);
    assert!(matches!(
        disk.add_partition("p", 512, basic(), 0, None),
        Err(GptError::PartitionCountWouldChange)
    ));
    assert_eq!(disk.remove_partition(5), Some(5));
    assert!(matches!(
        disk.add_partition("p", 1024, basic(), 0, None),
        Err(GptError::NotEnoughSpace)
    ));
}

#[test]
fn the_partition_count_grows_where_it_may() {
    let mut disk = GptConfig::new()
        .writable(true)
        .change_partition_count(true)
        .create_from_device(MemDevice::new(vec![0; 512 * 300]), None)
        .unwrap();
    for i in 0..129u32 {
        assert_eq!(disk.add_partition("p", 512, basic(), 0, None).unwrap(), i + 1);
    }
    assert_eq!(disk.header().num_parts, 129);
    assert_eq!(disk.partitions()[&129].first_lba, 34 + 128);
    let device = disk.write().unwrap();
    let reopened = GptConfig::new().open_from_device(device).unwrap();
    assert_eq!(reopened.header().num_parts, 129);
    assert_eq!(reopened.partitions().len(), 129);
}

#[test]
fn the_129th_partition_needs_leave() {
    let mut disk = fresh(4096);
    for _ in 0..128 {
        disk.add_partition("p", 2 * 512, basic(), 0, None).unwrap();
    }
    let before = disk.partitions().clone();
    assert_eq!(disk.find_next_partition_id(), None);
    assert!(matches!(
        disk.add_partition("p", 2 * 512, basic(), 0, None),
        Err(GptError::PartitionCountWouldChange)
    ));
    assert_eq!(disk.partitions(), &before);
    assert_eq!(disk.header().num_parts, 128);

    let mut table = before.clone();
    table.insert(500, Partition::zero());
    assert!(matches!(
        disk.update_partitions(table),
        Err(GptError::PartitionCountWouldChange)
    ));
    assert_eq!(disk.partitions(), &before);
}

#[test]
fn removal_frees_the_index_and_the_slot() {
    let mut disk = fresh(256);
    disk.add_partition("a", 512, basic(), 0, None).unwrap();
    disk.add_partition("b", 2 * 512, basic(), 0, None).unwrap();
    disk.add_partition("c", 2 * 512, basic(), 0, None).unwrap();
    disk.write_inplace().unwrap();
    let slot = |disk: &gpt::GptDisk<MemDevice>, array: usize, i: usize| {
        disk.device_ref().get_ref()[array * 512 + i * 128..array * 512 + (i + 1) * 128].to_vec()
    };
    let backup_array = disk.backup_header().unwrap().part_start as usize;
    assert_eq!(backup_array, 223);
    assert_ne!(slot(&disk, 2, 2), vec![0u8; 128]);
    assert_ne!(slot(&disk, backup_array, 2), vec![0u8; 128]);
    let third = slot(&disk, 2, 2);

    assert_eq!(disk.remove_partition(7), None);
    assert_eq!(disk.remove_partition(2), Some(2));
    assert_eq!(disk.find_next_partition_id(), Some(2));
    disk.write_inplace().unwrap();
    assert_eq!(slot(&disk, 2, 1), third);
    assert_eq!(slot(&disk, 2, 2), vec![0u8; 128]);
    assert_eq!(slot(&disk, backup_array, 1), third);
    assert_eq!(slot(&disk, backup_array, 2), vec![0u8; 128]);
    assert_eq!(
        disk.device_ref().get_ref()[2 * 512 + 2 * 128..34 * 512],
        vec![0u8; 126 * 128][..]
    );

    let guid = disk.partitions()[&3].part_guid;
    assert_eq!(disk.remove_partition_by_guid(guid), Some(3));
    assert_eq!(disk.remove_partition_by_guid(guid), None);
    assert_eq!(disk.partitions().len(), 1);
    let taken = disk.take_partitions();
    assert_eq!(taken.len(), 1);
    assert!(disk.partitions().is_empty());
}

#[test]
fn round_trip_through_a_second_device() {
    let mut disk = fresh(72);
    disk.add_partition("first", 512, linux_fs(), 0, None).unwrap();
    disk.add_partition("second", 4 * 512, linux_fs(), 4, None).unwrap();
    let image = disk.write().unwrap();

    let opened = GptConfig::new().open_from_device(image.clone()).unwrap();
    let good_header1 = opened.primary_header().unwrap().clone();
    let good_header2 = opened.backup_header().unwrap().clone();
    let good_partitions = opened.partitions().clone();
    assert_eq!(good_partitions.len(), 2);

    let blank = MemDevice::new(vec![0; 72 * 512]);
    let copy = opened.with_disk_device(blank, true);
    let written = copy.write().unwrap();
    assert_eq!(written.get_ref()[512..], image.get_ref()[512..]);

    let again = GptConfig::new().open_from_device(written).unwrap();
    assert_eq!(again.primary_header().unwrap(), &good_header1);
    assert_eq!(again.backup_header().unwrap(), &good_header2);
    assert_eq!(again.partitions(), &good_partitions);
}

#[test]
fn a_flipped_byte_in_the_primary_header_is_found() {
    let mut disk = fresh(128);
    disk.add_partition("data", 8 * 512, basic(), 0, None).unwrap();
    let image = disk.write().unwrap();
    let mut bytes = image.into_inner();
    bytes[512 + 33] ^= 0x40;

    let strict = GptConfig::new()
        .only_valid_headers(true)
        .open_from_device(MemDevice::new(bytes.clone()));
    assert!(matches!(
        strict,
        Err(GptError::Header(HeaderError::InvalidCRC32))
    ));

    let lenient = GptConfig::new()
        .open_from_device(MemDevice::new(bytes.clone()))
        .unwrap();
    assert!(matches!(
        lenient.primary_header(),
        Err(HeaderError::InvalidCRC32)
    ));
    let backup = lenient.backup_header().unwrap();
    assert_eq!(lenient.header(), backup);
    assert_eq!(backup.current_lba, 127);
    assert_eq!(lenient.partitions()[&1].name, "data");

    bytes[127 * 512] = b'X';
    let neither = GptConfig::new().open_from_device(MemDevice::new(bytes));
    assert!(matches!(
        neither,
        Err(GptError::Header(HeaderError::InvalidCRC32))
    ));
}

#[test]
fn a_flipped_byte_in_the_array_is_found() {
    let mut disk = fresh(128);
    disk.add_partition("data", 8 * 512, basic(), 0, None).unwrap();
    let mut bytes = disk.write().unwrap().into_inner();
    bytes[2 * 512 + 300] ^= 1;
    assert!(matches!(
        GptConfig::new().open_from_device(MemDevice::new(bytes)),
        Err(GptError::InvalidTableCRC)
    ));
}

#[test]
fn entries_of_another_size_are_refused() {
    let lb = LogicalBlockSize::Lb512;
    let mut device = MemDevice::new(vec![0; 256 * 512]);
    let header = HeaderBuilder::new()
        .part_size(256)
        .backup_lba(255)
        .build(lb)
        .unwrap();
    assert_eq!(header.first_usable, 66);
    header.write_primary(&mut device, lb).unwrap();
    assert!(matches!(
        GptConfig::new().open_from_device(device),
        Err(GptError::UnsupportedEntrySize)
    ));
}

#[test]
fn small_and_short_devices() {
    assert!(matches!(
        GptConfig::new().create_from_device(MemDevice::new(vec![0; 1024]), None),
        Err(GptError::Header(HeaderError::DiskTooSmall))
    ));
    assert!(matches!(
        GptConfig::new().create_from_device(MemDevice::new(vec![0; 66 * 512]), None),
        Err(GptError::Header(HeaderError::BackupLbaTooEarly))
    ));
    assert!(GptConfig::new()
        .create_from_device(MemDevice::new(vec![0; 68 * 512]), None)
        .is_ok());
    assert!(matches!(
        GptConfig::new().open_from_device(MemDevice::new(vec![0; 600])),
        Err(GptError::Header(HeaderError::Io(IoError::UnexpectedEof)))
    ));
    assert!(matches!(
        GptConfig::new()
            .only_valid_headers(true)
            .open_from_device(MemDevice::new(vec![0; 4096])),
        Err(GptError::Header(HeaderError::InvalidGptSignature))
    ));
}

#[test]
fn read_only_disks_are_not_written() {
    let mut disk = GptConfig::new()
        .create_from_device(MemDevice::new(vec![7; 128 * 512]), None)
        .unwrap();
    disk.add_partition("data", 512, basic(), 0, None).unwrap();
    assert!(matches!(disk.write_inplace(), Err(GptError::ReadOnly)));
    assert_eq!(disk.device_ref().get_ref(), &vec![7u8; 128 * 512]);
    let old = disk.update_disk_device(MemDevice::new(vec![0; 128 * 512]), true);
    assert_eq!(old.get_ref(), &vec![7u8; 128 * 512]);
    disk.write_inplace().unwrap();
    assert!(matches!(disk.clone().write(), Ok(_)));
    disk.device_mut().seek_to(3).unwrap();
    assert_eq!(disk.take_device().stream_position(), Ok(3));
}

#[test]
fn guid_and_table_updates() {
    let mut disk = fresh(128);
    let g = Guid::from_fields(1, 2, 3, 4);
    disk.update_guid(Some(g));
    assert_eq!(disk.guid(), &g);
    disk.update_guid(None);
    assert_ne!(disk.guid(), &g);
    disk.update_guid(Some(g));

    let mut table = BTreeMap::new();
    let mut p = Partition::zero();
    p.part_type_guid = basic();
    p.first_lba = 40;
    p.last_lba = 49;
    table.insert(5, p.clone());
    disk.update_partitions(table).unwrap();
    assert_eq!(disk.primary_header().unwrap().disk_guid, g);
    assert_eq!(disk.backup_header().unwrap().disk_guid, g);
    assert_eq!(disk.partitions()[&5], p);
    assert_eq!(disk.find_next_partition_id(), Some(1));
    assert_eq!(disk.find_free_sectors(), vec![(34, 6), (50, 45)]);

    let device = disk.write().unwrap();
    let reopened = GptConfig::new().open_from_device(device).unwrap();
    assert_eq!(reopened.guid(), &g);
    // On disk the partition takes the first slot, whatever its index was.
    assert_eq!(reopened.partitions()[&1], p);
    assert_eq!(reopened.partitions().len(), 1);
}

#[test]
fn header_text_and_error_texts() {
    let header = Header {
        signature: "EFI PART".to_string(),
        revision: (1, 0),
        header_size_le: 92,
        crc32: 1050019802,
        reserved: 0,
        current_lba: 1,
        backup_lba: 95,
        first_usable: 34,
        last_usable: 62,
        disk_guid: Guid::parse_str("f12fc858-c753-41d3-93a4-bfac001cdf9f").unwrap(),
        part_start: 2,
        num_parts: 128,
        part_size: 128,
        crc32_parts: 0,
    };
    assert_eq!(
        header.to_text(),
        "Disk:\t\tf12fc858-c753-41d3-93a4-bfac001cdf9f\nCRC32:\t\t1050019802\nTable CRC:\t0"
    );
    assert_eq!(decimal(0), "0");
    assert_eq!(decimal(9), "9");
    assert_eq!(decimal(10), "10");
    assert_eq!(decimal(u64::MAX), "18446744073709551615");
    assert_eq!(joined("a", "bc"), "abc");
    assert_eq!(
        GptError::ReadOnly.to_text(),
        "disk not opened in writable mode"
    );
    assert_eq!(
        GptError::Overflow("partition overflow").to_text(),
        "GTP error Overflow: partition overflow"
    );
    assert_eq!(
        GptError::Header(HeaderError::Io(IoError::UnexpectedEof)).to_text(),
        "GPT Header Error: Header IO Error: unexpected end of file"
    );
    assert_eq!(
        GptError::from(IoError::WriteZero).to_text(),
        "GPT IO Error: write zero"
    );
    assert_eq!(
        GptError::from(HeaderError::MissingBackupLba).to_text(),
        "GPT Header Error: HeaderBuilder expects the field backup_lba to be set"
    );
    assert_eq!(
        gpt::mbr::MBRError::from(IoError::Other).to_text(),
        "MBR IO Error: other error"
    );
    assert_eq!(
        gpt::mbr::MBRError::InvalidPartitionLength.to_text(),
        "Invalid Partition length expected 16"
    );
    assert_eq!(
        HeaderError::Overflow("header overflow - offset").to_text(),
        "Header error Overflow: header overflow - offset"
    );
    assert_eq!(GptError::NotEnoughSpace.to_text(), "Unable to find enough space on drive");
    assert_eq!(GptError::OverflowPartitionCount.to_text(), "not enough partition slots");
    assert_eq!(
        GptError::PartitionCountWouldChange.to_text(),
        "partition would change but is not allowed"
    );
    assert_eq!(GptError::InvalidTableCRC.to_text(), "partition table CRC mismatch");
}

#[test]
fn builder_overflow_and_header_order() {
    let lb = LogicalBlockSize::Lb512;
    assert!(matches!(
        HeaderBuilder::new()
            .backup_lba(1000)
            .last_usable(u64::MAX)
            .primary(false)
            .build(lb),
        Err(HeaderError::Overflow("header overflow - partition array start"))
    ));
    let primary = HeaderBuilder::new().backup_lba(127).build(lb).unwrap();
    let backup = HeaderBuilder::from_header(&primary).primary(false).build(lb).unwrap();
    let mut device = MemDevice::new(vec![0; 128 * 512]);
    assert!(matches!(
        primary.write_backup(&mut device, lb),
        Err(HeaderError::BackupLbaTooEarly)
    ));
    assert!(matches!(
        backup.write_primary(&mut device, lb),
        Err(HeaderError::BackupLbaTooEarly)
    ));
    assert_eq!(device.get_ref(), &vec![0u8; 128 * 512]);
    assert_eq!(primary.write_primary(&mut device, lb).unwrap(), 512);
    assert_eq!(backup.write_backup(&mut device, lb).unwrap(), 512);
    assert!(primary.num_parts_would_change(129));
    assert!(!primary.num_parts_would_change(128));
    let same = HeaderBuilder::from_maybe_header(Some(&backup)).build(lb).unwrap();
    assert_eq!(same, backup);
    assert_eq!(HeaderBuilder::default().backup_lba(127).first_usable(40).build(lb).unwrap().first_usable, 40);
}
