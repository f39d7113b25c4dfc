use gpt::disk::LogicalBlockSize;
use gpt::partition::Partition;

#[test]
fn test_zero_part() {
    let p0 = Partition::zero();

    let b128 = p0.as_bytes(128);
    assert_eq!(b128.len(), 128);
    assert_eq!(b128, vec![0_u8; 128]);

    let b256 = p0.as_bytes(256);
    assert_eq!(b256.len(), 256);
    assert_eq!(b256, vec![0_u8; 256]);
}

#[test]
fn test_part_len() {
    {
        // Zero.
        let p0 = Partition::zero();
        let sectors = p0.sectors_len().unwrap();
        let b512len = p0.bytes_len(LogicalBlockSize::Lb512).unwrap();
        let b4096len = p0.bytes_len(LogicalBlockSize::Lb4096).unwrap();

        // partition sector sizes are inclusive so the minimal size is 1
        assert_eq!(sectors, 1);
        // The lower bound of partition size is equal to the logical block size.
        // This is because the bounds for the partition size are inclusive and use
        // logical block addressing, meaning that even when the lba_start and lba_end
        // are set to the same block, you still have the space within that block.
        assert_eq!(b512len, 512);
        assert_eq!(b4096len, 4096);
    }

    {
        // Negative length.
        let mut p1 = Partition::zero();
        p1.first_lba = p1.last_lba + 1;
        p1.sectors_len().unwrap_err();
        p1.bytes_len(LogicalBlockSize::Lb512).unwrap_err();
        p1.bytes_len(LogicalBlockSize::Lb4096).unwrap_err();
    }

    {
        // Overflowing u64 length.
        let mut p2 = Partition::zero();
        p2.last_lba = <u64>::max_value();
        p2.sectors_len().unwrap_err();
        p2.bytes_len(LogicalBlockSize::Lb512).unwrap_err();
        p2.bytes_len(LogicalBlockSize::Lb4096).unwrap_err();
    }

    {
        // Positive value.
        let mut p3 = Partition::zero();
        p3.first_lba = 2;
        p3.last_lba = 3;
        let sectors = p3.sectors_len().unwrap();
        let b512len = p3.bytes_len(LogicalBlockSize::Lb512).unwrap();
        let b4096len = p3.bytes_len(LogicalBlockSize::Lb4096).unwrap();

        assert_eq!(sectors, 2);
        assert_eq!(b512len, 2 * 512);
        assert_eq!(b4096len, 2 * 4096);
    }
}

#[test]
fn test_part_bytes_start() {
    {
        // Zero.
        let p0 = Partition::zero();
        let b512len = p0.bytes_start(LogicalBlockSize::Lb512).unwrap();
        let b4096len = p0.bytes_start(LogicalBlockSize::Lb4096).unwrap();

        assert_eq!(b512len, 0);
        assert_eq!(b4096len, 0);
    }

    {
        // Overflowing u64 start.
        let mut p1 = Partition::zero();
        p1.first_lba = <u64>::max_value();
        p1.bytes_len(LogicalBlockSize::Lb512).unwrap_err();
        p1.bytes_len(LogicalBlockSize::Lb4096).unwrap_err();
    }

    {
        // Positive value.
        let mut p2 = Partition::zero();
        p2.first_lba = 2;
        let b512start = p2.bytes_start(LogicalBlockSize::Lb512).unwrap();
        let b4096start = p2.bytes_start(LogicalBlockSize::Lb4096).unwrap();

        assert_eq!(b512start, 2 * 512);
        assert_eq!(b4096start, 2 * 4096);
    }
}
