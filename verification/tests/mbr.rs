use gpt::device::{IoError, MemDevice};
use gpt::disk::LogicalBlockSize;
use gpt::mbr::{
    read_bootcode, read_disk_signature, write_bootcode, write_disk_signature, MBRError,
    PartRecord, ProtectiveMBR,
};
use gpt::DiskDevice;

#[test]
fn protective_record_covers_the_disk() {
    let r = PartRecord::new_protective(Some(127));
    assert_eq!(r.os_type, 0xEE);
    assert_eq!(r.lb_start, 1);
    assert_eq!(r.lb_size, 127);
    assert_eq!(
        r.to_bytes(),
        [0x00, 0x00, 0x02, 0x00, 0xEE, 0xFF, 0xFF, 0xFF, 1, 0, 0, 0, 127, 0, 0, 0]
    );
    assert_eq!(PartRecord::new_protective(None).lb_size, 0xFFFF_FFFF);
    assert_eq!(PartRecord::zero().to_bytes(), [0u8; 16]);
}

#[test]
fn record_reads_back() {
    let mut r = PartRecord::new_protective(Some(0x01020304));
    r.boot_indicator = 0x80;
    r.start_track = 9;
    let bytes = r.to_bytes();
    assert_eq!(PartRecord::from_bytes(&bytes).unwrap(), r);
    assert!(matches!(
        PartRecord::from_bytes(&bytes[..15]),
        Err(MBRError::InvalidPartitionLength)
    ));
    assert!(matches!(
        PartRecord::from_bytes(&[0u8; 17]),
        Err(MBRError::InvalidPartitionLength)
    ));
}

#[test]
fn mbr_layout() {
    let mut mbr = ProtectiveMBR::with_lb_size(131);
    mbr.set_disk_signature([1, 2, 3, 4]);
    let mut code = [0u8; 440];
    code[0] = 0xEB;
    code[439] = 0x90;
    mbr.set_bootcode(code);
    let bytes = mbr.to_bytes();
    assert_eq!(bytes.len(), 512);
    assert_eq!(bytes[0], 0xEB);
    assert_eq!(bytes[439], 0x90);
    assert_eq!(&bytes[440..444], &[1, 2, 3, 4]);
    assert_eq!(&bytes[444..446], &[0, 0]);
    assert_eq!(&bytes[446..462], &PartRecord::new_protective(Some(131)).to_bytes());
    assert_eq!(&bytes[462..510], &[0u8; 48][..]);
    assert_eq!(&bytes[510..512], &[0x55, 0xAA]);
    assert_eq!(mbr.bootcode(), &code);
    assert_eq!(mbr.disk_signature(), &[1, 2, 3, 4]);
}

#[test]
fn mbr_reads_back() {
    let mut mbr = ProtectiveMBR::new();
    assert_eq!(mbr.partition(0), Some(PartRecord::new_protective(None)));
    assert_eq!(mbr.partition(3), Some(PartRecord::zero()));
    assert_eq!(mbr.partition(4), None);
    let mut second = PartRecord::zero();
    second.os_type = 0x83;
    second.lb_start = 2048;
    assert_eq!(mbr.set_partition(1, second), Some(PartRecord::zero()));
    assert_eq!(mbr.set_partition(4, second), None);
    assert_eq!(mbr.partition(1), Some(second));

    let bytes = mbr.to_bytes();
    let parsed = ProtectiveMBR::from_bytes(&bytes, LogicalBlockSize::Lb512).unwrap();
    assert_eq!(parsed.to_bytes(), bytes);
    assert_eq!(parsed.partition(1), Some(second));

    let mut block = bytes.to_vec();
    block.resize(4096, 0);
    let parsed = ProtectiveMBR::from_bytes(&block, LogicalBlockSize::Lb4096).unwrap();
    assert_eq!(parsed.to_bytes(), bytes);
}

#[test]
fn mbr_errors() {
    let bytes = ProtectiveMBR::new().to_bytes();
    assert!(matches!(
        ProtectiveMBR::from_bytes(&bytes, LogicalBlockSize::Lb4096),
        Err(MBRError::InvalidMBRLength)
    ));
    assert!(matches!(
        ProtectiveMBR::from_bytes(&bytes[..511], LogicalBlockSize::Lb512),
        Err(MBRError::InvalidMBRLength)
    ));
    let mut bad = bytes;
    bad[511] = 0;
    assert!(matches!(
        ProtectiveMBR::from_bytes(&bad, LogicalBlockSize::Lb512),
        Err(MBRError::InvalidMBRSignature)
    ));
    let mut short = MemDevice::new(vec![0; 100]);
    assert!(matches!(
        ProtectiveMBR::from_disk(&mut short, LogicalBlockSize::Lb512),
        Err(MBRError::Io(IoError::UnexpectedEof))
    ));
}

#[test]
fn overwrite_lba0_keeps_the_cursor() {
    let mut device = MemDevice::new(vec![0xFF; 2048]);
    device.seek_to(700).unwrap();
    let mbr = ProtectiveMBR::with_lb_size(3);
    assert_eq!(mbr.overwrite_lba0(&mut device).unwrap(), 512);
    assert_eq!(device.stream_position().unwrap(), 700);
    assert_eq!(&device.get_ref()[..512], &mbr.to_bytes()[..]);
    assert_eq!(&device.get_ref()[512..], &[0xFF; 1536][..]);
    let read = ProtectiveMBR::from_disk(&mut device, LogicalBlockSize::Lb512).unwrap();
    assert_eq!(read.to_bytes(), mbr.to_bytes());
    assert_eq!(device.stream_position().unwrap(), 700);
}

#[test]
fn update_conservative_keeps_the_boot_code() {
    let mut device = MemDevice::new(vec![0xFF; 1024]);
    device.seek_to(5).unwrap();
    let mbr = ProtectiveMBR::with_lb_size(1);
    assert_eq!(mbr.update_conservative(&mut device).unwrap(), 66);
    assert_eq!(device.stream_position().unwrap(), 5);
    assert_eq!(&device.get_ref()[..446], &[0xFF; 446][..]);
    assert_eq!(&device.get_ref()[446..512], &mbr.to_bytes()[446..]);
    assert_eq!(&device.get_ref()[512..], &[0xFF; 512][..]);
}

#[test]
fn boot_code_and_disk_signature_on_a_device() {
    let mut device = MemDevice::new(vec![0; 512]);
    device.seek_to(11).unwrap();
    let mut code = [0u8; 440];
    code[1] = 0x42;
    write_bootcode(&mut device, &code).unwrap();
    write_disk_signature(&mut device, &[9, 8, 7, 6]).unwrap();
    assert_eq!(device.stream_position().unwrap(), 11);
    assert_eq!(read_bootcode(&mut device).unwrap(), code);
    assert_eq!(read_disk_signature(&mut device).unwrap(), [9, 8, 7, 6]);
    assert_eq!(&device.get_ref()[440..444], &[9, 8, 7, 6]);
    assert_eq!(&device.get_ref()[444..], &[0u8; 68][..]);

    let mut short = MemDevice::new(vec![0; 442]);
    assert!(read_bootcode(&mut short).is_ok());
    assert_eq!(read_disk_signature(&mut short), Err(IoError::UnexpectedEof));
    assert_eq!(
        write_disk_signature(&mut short, &[1, 2, 3, 4]),
        Err(IoError::WriteZero)
    );
}
