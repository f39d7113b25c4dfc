use gpt::device::MemDevice;
use gpt::disk::LogicalBlockSize;
use gpt::guid::Guid;
use gpt::header::{partentry_checksum, HeaderBuilder};
use gpt::partition::{
    file_read_partitions, spans, used_partitions, Partition, PartitionAttributes, BOOTABLE, EFI,
    PLATFORM,
};
use gpt::partition_types::{basic, bios, efi, linux_fs, linux_swap, unused, Type};
use gpt::GptError;
use std::collections::BTreeMap;

fn sample() -> Partition {
    Partition {
        part_type_guid: linux_fs(),
        part_guid: Guid::from_fields(0x00112233, 0x4455, 0x6677, 0x8899AABBCCDDEEFF),
        first_lba: 0x0102030405060708,
        last_lba: 0x1112131415161718,
        flags: 0x8000_0000_0000_0005,
        name: "ab".to_string(),
    }
}

#[test]
fn entry_layout() {
    let bytes = sample().as_bytes(128);
    assert_eq!(bytes.len(), 128);
    assert_eq!(
        &bytes[0..16],
        &[
            0xAF, 0x3D, 0xC6, 0x0F, 0x83, 0x84, 0x72, 0x47, 0x8E, 0x79, 0x3D, 0x69, 0xD8, 0x47,
            0x7D, 0xE4
        ]
    );
    assert_eq!(
        &bytes[16..32],
        &[
            0x33, 0x22, 0x11, 0x00, 0x55, 0x44, 0x77, 0x66, 0x88, 0x99, 0xAA, 0xBB, 0xCC, 0xDD,
            0xEE, 0xFF
        ]
    );
    assert_eq!(&bytes[32..40], &[8, 7, 6, 5, 4, 3, 2, 1]);
    assert_eq!(&bytes[40..48], &[0x18, 0x17, 0x16, 0x15, 0x14, 0x13, 0x12, 0x11]);
    assert_eq!(&bytes[48..56], &[5, 0, 0, 0, 0, 0, 0, 0x80]);
    assert_eq!(&bytes[56..60], &[b'a', 0, b'b', 0]);
    assert_eq!(&bytes[60..128], &[0u8; 68][..]);
}

#[test]
fn entry_is_cut_or_padded_to_its_size() {
    let p = sample();
    assert_eq!(p.as_bytes(256)[..128], p.as_bytes(128)[..]);
    assert_eq!(p.as_bytes(256)[128..], [0u8; 128][..]);
    assert_eq!(p.as_bytes(40)[..], p.as_bytes(128)[..40]);
    assert_eq!(p.as_bytes(0), Vec::<u8>::new());
}

#[test]
fn names_are_utf16_and_end_after_36_units() {
    let mut p = sample();
    p.name = "\u{e9}\u{1F600}z".to_string();
    let bytes = p.as_bytes(128);
    assert_eq!(
        &bytes[56..66],
        &[0xE9, 0x00, 0x3D, 0xD8, 0x00, 0xDE, b'z', 0, 0, 0]
    );
    let read = Partition::from_bytes(&bytes).unwrap();
    assert_eq!(read, p);

    let mut long = sample();
    long.name = "0123456789012345678901234567890123456789".to_string();
    let bytes = long.as_bytes(128);
    assert_eq!(bytes.len(), 128);
    assert_eq!(&bytes[126..128], &[b'5', 0]);
    let read = Partition::from_bytes(&bytes).unwrap();
    assert_eq!(read.name, "012345678901234567890123456789012345");

    // A surrogate pair that would end behind the 36th unit is cut in the middle.
    let mut split = sample();
    split.name = format!("{}\u{1F600}", "x".repeat(35));
    let bytes = split.as_bytes(128);
    assert_eq!(&bytes[126..128], &[0x3D, 0xD8]);
    let read = Partition::from_bytes(&bytes).unwrap();
    assert_eq!(read.name, format!("{}\u{FFFD}", "x".repeat(35)));
}

#[test]
fn name_ends_at_the_first_nul() {
    let mut bytes = sample().as_bytes(128);
    bytes[60] = 0;
    bytes[61] = 0;
    bytes[62] = b'c';
    let read = Partition::from_bytes(&bytes).unwrap();
    assert_eq!(read.name, "ab");
    bytes[56] = 0;
    bytes[57] = 0;
    let read = Partition::from_bytes(&bytes).unwrap();
    assert_eq!(read.name, "");
}

#[test]
fn zero_slot_is_no_partition() {
    assert_eq!(Partition::from_bytes(&[0u8; 128]), None);
    let mut bytes = [0u8; 128];
    bytes[127] = 1;
    let p = Partition::from_bytes(&bytes).unwrap();
    assert!(!p.is_used());
    assert_eq!(p.part_type_guid, unused());
    assert!(sample().is_used());
    assert!(!Partition::zero().is_used());
}

#[test]
fn partition_text() {
    let mut p = sample();
    p.first_lba = 34;
    p.last_lba = 1057;
    p.flags = 0;
    assert_eq!(
        p.to_text(),
        "Partition:\t\tab\nPartition GUID:\t\t00112233-4455-6677-8899-aabbccddeeff\nPartition Type:\t\t0fc63daf-8483-4772-8e79-3d69d8477de4\nSpan:\t\t\t34 - 1057\nFlags:\t\t\t0"
    );
}

#[test]
fn length_errors_carry_their_place() {
    let mut p = Partition::zero();
    p.first_lba = 1;
    assert!(matches!(
        p.sectors_len(),
        Err(GptError::Overflow("Invalid partition.  last_lba < first_lba"))
    ));
    p.first_lba = 0;
    p.last_lba = u64::MAX;
    assert!(matches!(
        p.sectors_len(),
        Err(GptError::Overflow("partition length overflow - sectors"))
    ));
    p.last_lba = u64::MAX / 512;
    assert!(matches!(
        p.bytes_len(LogicalBlockSize::Lb512),
        Err(GptError::Overflow("partition length overflow - bytes"))
    ));
    p.last_lba = u64::MAX / 512 - 1;
    assert_eq!(p.bytes_len(LogicalBlockSize::Lb512).unwrap(), u64::MAX - 511);
    p.first_lba = u64::MAX / 4096 + 1;
    assert!(matches!(
        p.bytes_start(LogicalBlockSize::Lb4096),
        Err(GptError::Overflow("partition start overflow - bytes"))
    ));
    p.first_lba = u64::MAX / 4096;
    assert_eq!(
        p.bytes_start(LogicalBlockSize::Lb4096).unwrap(),
        u64::MAX - 4095
    );
}

#[test]
fn partitions_write_into_their_slots() {
    let mut device = MemDevice::new(vec![0xFF; 4096]);
    let p = sample();
    p.write_to_device(&mut device, 3, 2, LogicalBlockSize::Lb512, 128)
        .unwrap();
    assert_eq!(&device.get_ref()[..1408], &[0xFF; 1408][..]);
    assert_eq!(&device.get_ref()[1408..1536], &p.as_bytes(128)[..]);
    assert_eq!(&device.get_ref()[1536..], &[0xFF; 2560][..]);

    Partition::write_zero_entries_to_device(&mut device, 4, 2, 2, LogicalBlockSize::Lb512, 128)
        .unwrap();
    assert_eq!(&device.get_ref()[1536..1792], &[0u8; 256][..]);
    assert_eq!(&device.get_ref()[1792..], &[0xFF; 2304][..]);

    assert!(matches!(
        p.write_to_device(&mut device, 0, u64::MAX, LogicalBlockSize::Lb512, 128),
        Err(GptError::Overflow("partition overflow - start offset"))
    ));
    assert!(matches!(
        p.write_to_device(&mut device, u64::MAX, 0, LogicalBlockSize::Lb512, 128),
        Err(GptError::Overflow("partition overflow"))
    ));
    assert!(matches!(
        p.write_to_device(&mut device, 1, u64::MAX / 512, LogicalBlockSize::Lb512, 4096),
        Err(GptError::Overflow("partition overflow - offset"))
    ));
    assert!(matches!(
        p.write_to_device(&mut device, 31, 2, LogicalBlockSize::Lb512, 128),
        Err(GptError::Io(gpt::device::IoError::WriteZero))
    ));
}

#[test]
fn checksum_of_the_array_on_the_device() {
    let mut bytes = vec![0u8; 2048];
    bytes[512..521].copy_from_slice(b"123456789");
    let mut device = MemDevice::new(bytes);
    let mut header = HeaderBuilder::new().backup_lba(1000).build(LogicalBlockSize::Lb512).unwrap();
    header.part_start = 1;
    header.num_parts = 9;
    header.part_size = 1;
    assert_eq!(
        partentry_checksum(&mut device, &header, LogicalBlockSize::Lb512).unwrap(),
        0xCBF43926
    );
    header.num_parts = 0;
    assert_eq!(
        partentry_checksum(&mut device, &header, LogicalBlockSize::Lb512).unwrap(),
        0
    );
}

#[test]
fn table_with_a_wrong_checksum_is_refused() {
    let mut device = MemDevice::new(vec![0u8; 64 * 1024]);
    let mut header = HeaderBuilder::new().backup_lba(127).build(LogicalBlockSize::Lb512).unwrap();
    assert!(matches!(
        file_read_partitions(&mut device, &header, LogicalBlockSize::Lb512),
        Err(GptError::InvalidTableCRC)
    ));
    header.crc32_parts = partentry_checksum(&mut device, &header, LogicalBlockSize::Lb512).unwrap();
    let table = file_read_partitions(&mut device, &header, LogicalBlockSize::Lb512).unwrap();
    assert!(table.is_empty());
    header.part_start = 127;
    assert!(matches!(
        file_read_partitions(&mut device, &header, LogicalBlockSize::Lb512),
        Err(GptError::Io(gpt::device::IoError::UnexpectedEof))
    ));
}

#[test]
fn used_partitions_come_in_order_of_their_index() {
    let mut table = BTreeMap::new();
    let mut a = sample();
    a.first_lba = 50;
    a.last_lba = 60;
    let mut b = sample();
    b.first_lba = 10;
    b.last_lba = 20;
    table.insert(7, a.clone());
    table.insert(3, Partition::zero());
    table.insert(9, b.clone());
    let used = used_partitions(&table);
    assert_eq!(used, vec![a, b]);
    assert_eq!(spans(&used), vec![(50, 60), (10, 20)]);
}

#[test]
fn well_known_types() {
    assert_eq!(linux_fs().os(), "Linux");
    assert_eq!(linux_fs().description(), "Linux Filesystem Data");
    assert_eq!(linux_swap().labels(), ("Linux", "Swap Partition"));
    assert_eq!(basic().labels(), ("Windows", "Basic Data Partition"));
    assert_eq!(efi().labels(), ("None", "EFI System Partition"));
    assert_eq!(bios().labels(), ("None", "BIOS Boot Partition"));
    assert_eq!(unused().labels(), ("None", "Unused"));
    let apple = Type::parse("48465300-0000-11AA-AA11-00306543ECAC").unwrap();
    assert_eq!(apple.os(), "macOS Darwin");
    let shared = Type::parse("6A898CC3-1DD2-11B2-99A6-080020736631").unwrap();
    assert_eq!(shared.labels(), ("Solaris Illumos", "/usr Partition"));
    let unknown = Type::parse("11111111-2222-3333-4444-555555555555").unwrap();
    assert_eq!(unknown.labels(), ("Unknown", "Unknown"));
    assert_eq!(unknown.guid.d2, 0x2222);
    assert_eq!(Type::parse("linux"), Err("Invalid Partition Type GUID."));
    assert_eq!(Type::from_guid(linux_fs().guid), linux_fs());
    assert_eq!(Type::from(basic().guid), basic());
    assert_eq!("0657FD6D-A4AB-43C4-84E5-0933C84B4F4F".parse(), Ok(linux_swap()));
    assert_eq!("swap".parse::<Type>(), Err("Invalid Partition Type GUID."));
}

#[test]
fn attributes() {
    assert_eq!((PLATFORM, EFI, BOOTABLE), (1, 2, 4));
    let flags = PartitionAttributes::from_bits_truncate(0xFFFF_0000_0000_0005);
    assert_eq!(flags.bits(), 5);
    assert!(flags.contains(PartitionAttributes::from_bits_truncate(BOOTABLE)));
    assert!(!flags.contains(PartitionAttributes::from_bits_truncate(EFI)));
    let all = flags.union(PartitionAttributes::from_bits_truncate(EFI));
    assert_eq!(all.bits(), 7);
}
