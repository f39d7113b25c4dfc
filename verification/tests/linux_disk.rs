use gpt::device::MemDevice;
use gpt::disk::DEFAULT_SECTOR_SIZE;
use gpt::guid::Guid;
use gpt::header::{read_header_from_arbitrary_device, Header};
use gpt::partition::{file_read_partitions, Partition};
use gpt::partition_types::Type;
use gpt::GptConfig;
use std::collections::BTreeMap;

/// A disk of 96 blocks with one Linux partition named `primary`.
fn linux_image() -> Vec<u8> {
    let guid = Guid::parse_str("f12fc858-c753-41d3-93a4-bfac001cdf9f").unwrap();
    let mut disk = GptConfig::new()
        .writable(true)
        .create_from_device(MemDevice::new(vec![0; 96 * 512]), Some(guid))
        .unwrap();
    let mut table = BTreeMap::new();
    let mut p = Partition::zero();
    p.part_type_guid = Type::parse("0FC63DAF-8483-4772-8E79-3D69D8477DE4").unwrap();
    p.part_guid = Guid::parse_str("6fcc8240-3985-4840-901f-a05e7fd9b69d").unwrap();
    p.first_lba = 34;
    p.last_lba = 62;
    p.name = "primary".to_string();
    table.insert(1, p);
    disk.update_partitions(table).unwrap();
    disk.write().unwrap().into_inner()
}

#[test]
fn test_read_header() {
    let expected_header = Header {
        signature: "EFI PART".to_string(),
        revision: (1, 0),
        header_size_le: 92,
        crc32: 1050019802,
        reserved: 0,
        current_lba: 1,
        backup_lba: 95,
        first_usable: 34,
        last_usable: 62,
        disk_guid: Guid::parse_str("f12fc858-c753-41d3-93a4-bfac001cdf9f").unwrap(),
        part_start: 2,
        num_parts: 128,
        part_size: 128,
        crc32_parts: 151952294,
    };

    let expected_partition = Partition {
        part_type_guid: Type::parse("0FC63DAF-8483-4772-8E79-3D69D8477DE4").unwrap(),
        part_guid: Guid::parse_str("6fcc8240-3985-4840-901f-a05e7fd9b69d").unwrap(),
        first_lba: 34,
        last_lba: 62,
        flags: 0,
        name: "primary".to_string(),
    };
    assert_eq!(expected_partition.part_type_guid.os(), "Linux");
    assert_eq!(
        expected_partition.part_type_guid.description(),
        "Linux Filesystem Data"
    );

    let mut disk = MemDevice::new(linux_image());
    let h = read_header_from_arbitrary_device(&mut disk, DEFAULT_SECTOR_SIZE).unwrap();

    println!("header: {:?}", h);
    assert_eq!(h, expected_header);

    let p = file_read_partitions(&mut disk, &h, DEFAULT_SECTOR_SIZE).unwrap();
    println!("Partitions: {:?}", p);
    assert_eq!(p[&1], expected_partition);
}
