use gpt::device::MemDevice;
use gpt::disk::LogicalBlockSize;
use gpt::guid::Guid;
use gpt::header::{
    find_backup_lba, read_backup_header, read_primary_header, Header, HeaderBuilder, HeaderError,
};
use gpt::partition::Partition;
use gpt::partition_types::linux_fs;
use gpt::GptConfig;
use std::collections::BTreeMap;

fn disk_guid() -> Guid {
    Guid::parse_str("1B6A2BFA-E92B-184C-A8A7-ED0610D54821").unwrap()
}

fn expected_headers() -> (Header, Header) {
    let expected_primary = Header {
        signature: "EFI PART".to_string(),
        revision: (1, 0),
        header_size_le: 92,
        crc32: 0x55f06699,
        reserved: 0,
        current_lba: 1,
        backup_lba: 71,
        first_usable: 34,
        last_usable: 38,
        disk_guid: disk_guid(),
        part_start: 2,
        num_parts: 128,
        part_size: 128,
        crc32_parts: 0x5fad601b,
    };

    let mut expected_backup = expected_primary.clone();
    expected_backup.crc32 = 0x7ddfa41b;
    expected_backup.current_lba = 71;
    expected_backup.backup_lba = 1;
    expected_backup.part_start = 39;

    (expected_primary, expected_backup)
}

/// A disk of 72 blocks with two Linux partitions, at blocks 34 and 35 to 38.
fn two_partition_image() -> Vec<u8> {
    let mut disk = GptConfig::new()
        .writable(true)
        .create_from_device(MemDevice::new(vec![0; 72 * 512]), Some(disk_guid()))
        .unwrap();
    let mut table = BTreeMap::new();
    let mut p1 = Partition::zero();
    p1.part_type_guid = linux_fs();
    p1.part_guid = Guid::parse_str("F38EAB50-076F-CB45-97F8-B1B7E5AF078F").unwrap();
    p1.first_lba = 34;
    p1.last_lba = 34;
    table.insert(1, p1);
    let mut p2 = Partition::zero();
    p2.part_type_guid = linux_fs();
    p2.part_guid = Guid::parse_str("8EEE35AF-4A93-2C4F-AA7A-5FB193AC6FF7").unwrap();
    p2.first_lba = 35;
    p2.last_lba = 38;
    table.insert(2, p2);
    disk.update_partitions(table).unwrap();
    disk.write().unwrap().into_inner()
}

#[test]
fn read_gpt_disk() {
    let lb_size = LogicalBlockSize::Lb512;
    let (expected_primary, expected_backup) = expected_headers();

    let mut file = MemDevice::new(two_partition_image());
    let primary = read_primary_header(&mut file, lb_size).unwrap();
    let backup = read_backup_header(&mut file, lb_size).unwrap();

    assert_eq!(primary, expected_primary);
    assert_eq!(backup, expected_backup);
}

#[test]
fn create_gpt_disk() {
    let header_1 = HeaderBuilder::new()
        .disk_guid(disk_guid())
        .backup_lba(71)
        .build(LogicalBlockSize::Lb512)
        .unwrap();

    let backup_header = HeaderBuilder::new()
        .disk_guid(disk_guid())
        .backup_lba(71)
        .primary(false)
        .build(LogicalBlockSize::Lb512)
        .unwrap();

    let (mut expected_primary, mut expected_backup) = expected_headers();

    let header_2 = HeaderBuilder::from_header(&expected_primary)
        .build(LogicalBlockSize::Lb512)
        .unwrap();

    assert_eq!(header_1, header_2);

    expected_primary.crc32 = 0;
    expected_primary.crc32_parts = 0;
    expected_backup.crc32 = 0;
    expected_backup.crc32_parts = 0;

    assert_eq!(expected_primary, header_1);
    assert_eq!(expected_backup, backup_header);
}

#[test]
fn write_gpt_disk() {
    let lb_size = LogicalBlockSize::Lb512;

    let primary = HeaderBuilder::new()
        .disk_guid(disk_guid())
        .backup_lba(71)
        .build(lb_size)
        .unwrap();

    let backup = HeaderBuilder::new()
        .disk_guid(disk_guid())
        .backup_lba(71)
        .primary(false)
        .build(lb_size)
        .unwrap();

    let mut expected_disk = MemDevice::new(two_partition_image());
    let mut bytes = expected_disk.get_ref().clone();

    let first_lba = 1;
    let backup_lba = find_backup_lba(&mut expected_disk, lb_size).unwrap();

    // clear out primary and backup
    for b in bytes[(first_lba * 512) as usize..(first_lba * 512 + 92) as usize].iter_mut() {
        *b = 0;
    }
    for b in bytes[(backup_lba * 512) as usize..(backup_lba * 512 + 92) as usize].iter_mut() {
        *b = 0;
    }
    let mut memory_disk = MemDevice::new(bytes);

    primary.write_primary(&mut memory_disk, lb_size).unwrap();
    backup.write_backup(&mut memory_disk, lb_size).unwrap();

    assert_eq!(memory_disk.into_inner(), expected_disk.into_inner());
}

#[test]
fn header_from_short_input_is_end_of_input() {
    let r = Header::from_bytes(&[0u8; 91]);
    assert!(matches!(
        r,
        Err(HeaderError::Io(gpt::device::IoError::UnexpectedEof))
    ));
}

#[test]
fn header_with_bad_signature_is_refused() {
    let mut bytes = two_partition_image()[512..512 + 92].to_vec();
    assert!(Header::from_bytes(&bytes).is_ok());
    bytes[0] = b'X';
    assert!(matches!(
        Header::from_bytes(&bytes),
        Err(HeaderError::InvalidGptSignature)
    ));
}

#[test]
fn header_with_flipped_byte_fails_checksum() {
    let mut bytes = two_partition_image()[512..512 + 92].to_vec();
    bytes[40] ^= 1;
    assert!(matches!(
        Header::from_bytes(&bytes),
        Err(HeaderError::InvalidCRC32)
    ));
}

#[test]
fn header_bytes_round_trip() {
    let (primary, _) = expected_headers();
    let bytes = primary.sealed_bytes(0x5fad601b);
    assert_eq!(bytes.len(), 92);
    assert_eq!(&bytes[0..8], b"EFI PART");
    assert_eq!(&bytes[8..12], &[0, 0, 1, 0]);
    assert_eq!(&bytes[12..16], &[92, 0, 0, 0]);
    assert_eq!(&bytes[16..20], &0x55f06699u32.to_le_bytes());
    let parsed = Header::from_bytes(&bytes).unwrap();
    assert_eq!(parsed, primary);
    assert_eq!(parsed.sealed_bytes(parsed.crc32_parts), bytes);
}

#[test]
fn builder_errors() {
    let lb = LogicalBlockSize::Lb512;
    assert!(matches!(
        HeaderBuilder::new().backup_lba(0).build(lb),
        Err(HeaderError::MissingBackupLba)
    ));
    assert!(matches!(
        HeaderBuilder::new().backup_lba(20).build(lb),
        Err(HeaderError::BackupLbaTooEarly)
    ));
    assert!(matches!(
        HeaderBuilder::new().backup_lba(66).build(lb),
        Err(HeaderError::BackupLbaTooEarly)
    ));
    let h = HeaderBuilder::new().backup_lba(67).build(lb).unwrap();
    assert_eq!((h.first_usable, h.last_usable), (34, 34));
    let h = HeaderBuilder::new().num_parts(3).backup_lba(67).build(lb).unwrap();
    assert_eq!(h.num_parts, 128);
    let h = HeaderBuilder::new()
        .backup_lba(1000)
        .build(LogicalBlockSize::Lb4096)
        .unwrap();
    assert_eq!((h.first_usable, h.last_usable, h.part_start), (6, 995, 2));
}

#[test]
fn backup_lba_of_small_devices() {
    let lb = LogicalBlockSize::Lb512;
    let mut three = MemDevice::new(vec![0; 3 * 512]);
    assert_eq!(find_backup_lba(&mut three, lb).unwrap(), 2);
    let mut two = MemDevice::new(vec![0; 2 * 512]);
    assert!(matches!(
        find_backup_lba(&mut two, lb),
        Err(HeaderError::DiskTooSmall)
    ));
    let mut odd = MemDevice::new(vec![0; 3 * 4096 + 100]);
    assert_eq!(find_backup_lba(&mut odd, LogicalBlockSize::Lb4096).unwrap(), 2);
}
