use gpt::device::MemDevice;
use gpt::disk::{LogicalBlockSize, DEFAULT_SECTOR_SIZE};
use gpt::guid::Guid;
use gpt::header::{read_header_from_arbitrary_device, write_header_to_device};
use gpt::partition::Partition;
use gpt::partition_types::{linux_fs, Type};
use gpt::GptConfig;
use std::collections::BTreeMap;

/// The image of a disk of 72 blocks with two Linux partitions.
fn gpt_disk_image() -> MemDevice {
    let guid = Guid::parse_str("1B6A2BFA-E92B-184C-A8A7-ED0610D54821").unwrap();
    let mut disk = GptConfig::new()
        .writable(true)
        .create_from_device(MemDevice::new(vec![0; 72 * 512]), Some(guid))
        .unwrap();
    let mut table = BTreeMap::new();
    let mut first = Partition::zero();
    first.part_type_guid = linux_fs();
    first.part_guid = Guid::parse_str("F38EAB50-076F-CB45-97F8-B1B7E5AF078F").unwrap();
    first.first_lba = 34;
    first.last_lba = 34;
    table.insert(1, first);
    let mut second = Partition::zero();
    second.part_type_guid = linux_fs();
    second.part_guid = Guid::parse_str("8EEE35AF-4A93-2C4F-AA7A-5FB193AC6FF7").unwrap();
    second.first_lba = 35;
    second.last_lba = 38;
    table.insert(2, second);
    disk.update_partitions(table).unwrap();
    disk.write().unwrap()
}

#[test]
fn test_gpt_disk_read() {
    let lb_size = LogicalBlockSize::Lb512;

    let gdisk = GptConfig::new().open_from_device(gpt_disk_image()).unwrap();
    assert_eq!(*gdisk.logical_block_size(), lb_size);
    assert!(gdisk.primary_header().is_ok());
    assert!(gdisk.backup_header().is_ok());
    assert_eq!(gdisk.partitions().len(), 2);

    let h1 = gdisk.primary_header().unwrap();
    assert_eq!(h1.current_lba, 1);
    assert_eq!(h1.backup_lba, 71);

    let h2 = gdisk.backup_header().unwrap();
    assert_eq!(h2.current_lba, 71);
    assert_eq!(h2.backup_lba, 1);

    let p1 = gdisk.partitions().get(&1).unwrap();
    assert_eq!(p1.part_type_guid, linux_fs());
    assert_eq!(
        p1.part_guid,
        Guid::parse_str("F38EAB50-076F-CB45-97F8-B1B7E5AF078F").unwrap()
    );
    assert_eq!(p1.first_lba, 34);
    assert_eq!(p1.last_lba, 34);
    assert_eq!(p1.name, "");

    let p1_start = p1.bytes_start(*gdisk.logical_block_size()).unwrap();
    assert_eq!(p1_start, 512 * 34);
    let p1_len = p1.bytes_len(*gdisk.logical_block_size()).unwrap();
    assert_eq!(p1_len, 512);

    let p2 = gdisk.partitions().get(&2).unwrap();
    assert_eq!(p2.part_type_guid, linux_fs());
    assert_eq!(
        p2.part_guid,
        Guid::parse_str("8EEE35AF-4A93-2C4F-AA7A-5FB193AC6FF7").unwrap()
    );
    assert_eq!(p2.first_lba, 35);
    assert_eq!(p2.last_lba, 38);
    assert_eq!(p2.name, "");

    let p2_start = p2.bytes_start(*gdisk.logical_block_size()).unwrap();
    assert_eq!(p2_start, 512 * 35);
    let p2_len = p2.bytes_len(*gdisk.logical_block_size()).unwrap();
    assert_eq!(p2_len, 4 * 512);

    assert_eq!(h1.crc32, 0x55F06699);
    assert_eq!(h1.crc32_parts, 0x5FAD601B);
    assert_eq!(h2.crc32, 0x7DDFA41B);
    assert_eq!((h1.first_usable, h1.last_usable, h2.part_start), (34, 38, 39));
}

#[test]
fn test_gpt_disk_write_fidelity_with_device() {
    let image = gpt_disk_image();

    let gdisk = GptConfig::new().open_from_device(image.clone()).unwrap();
    let good_header1 = gdisk.primary_header().unwrap().clone();
    let good_header2 = gdisk.backup_header().unwrap().clone();
    let good_partitions = gdisk.partitions().clone();
    println!("good header1={:?}", good_header1);
    println!("good header2={:?}", good_header2);
    println!("good partitions={:#?}", good_partitions);

    // Test that we can write this test partition table to an in-memory buffer
    // instead, then load the results and verify they should be the same.
    let image_size = image.get_ref().len();
    let mem_device = MemDevice::new(vec![0_u8; image_size]);
    let gdisk = gdisk.with_disk_device(mem_device, true);
    let mem_device = gdisk.write().unwrap();

    // The header blocks and the two arrays are written as they were read.
    assert_eq!(mem_device.get_ref()[512..34 * 512], image.get_ref()[512..34 * 512]);
    assert_eq!(mem_device.get_ref()[39 * 512..], image.get_ref()[39 * 512..]);

    let copy = MemDevice::new(mem_device.get_ref().clone());
    let gdisk_file = GptConfig::new().open_from_device(copy).unwrap();
    assert_eq!(gdisk_file.primary_header().unwrap(), &good_header1);
    assert_eq!(gdisk_file.backup_header().unwrap(), &good_header2);
    assert_eq!(gdisk_file.partitions().clone(), good_partitions);

    // Test that if we read it back from this memory buffer, it matches the known good.
    let gdisk_mem = GptConfig::new().open_from_device(mem_device).unwrap();
    assert_eq!(gdisk_mem.primary_header().unwrap(), &good_header1);
    assert_eq!(gdisk_mem.backup_header().unwrap(), &good_header2);
    assert_eq!(gdisk_mem.partitions().clone(), good_partitions);
}

#[test]
fn test_write_header() {
    let mut tempdisk = MemDevice::new(vec![0; 100 * 4096]);
    println!("Writing header");
    let w = write_header_to_device(
        &mut tempdisk,
        Some(Guid::parse_str("f400b934-48ef-4381-8f26-459f6b33c7df").unwrap()),
        DEFAULT_SECTOR_SIZE,
    );
    println!("Wrote header: {:?}", w);
    println!("Reading header");
    let h = read_header_from_arbitrary_device(&mut tempdisk, DEFAULT_SECTOR_SIZE).unwrap();
    println!("header: {:#?}", h);
    assert_eq!(
        h.disk_guid,
        Guid::parse_str("f400b934-48ef-4381-8f26-459f6b33c7df").unwrap()
    );
    assert_eq!(w.unwrap(), h.disk_guid);
    assert_eq!((h.current_lba, h.backup_lba), (1, 799));

    let p = Partition {
        part_type_guid: Type::parse("0FC63DAF-8483-4772-8E79-3D69D8477DE4").unwrap(),
        part_guid: Guid::random(),
        first_lba: 36,
        last_lba: 40,
        flags: 0,
        name: "gpt test".to_string(),
    };
    p.write_to_device(&mut tempdisk, 0, h.part_start, DEFAULT_SECTOR_SIZE, 128)
        .unwrap();
    assert_eq!(
        Partition::from_bytes(&tempdisk.get_ref()[1024..1152]).unwrap(),
        p
    );
}
