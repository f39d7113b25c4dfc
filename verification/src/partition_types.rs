//! Partition types: the identifiers that say what a partition holds, and
//! the names under which the well-known ones go.

use crate::guid::Guid;
use vstd::prelude::*;

verus! {

/// The type of a partition: the identifier stored in the first sixteen
/// bytes of its entry.
#[derive(Clone, Copy, Debug, PartialEq, Eq, Structural, Hash)]
pub struct Type {
    /// The identifier of the type.
    pub guid: Guid,
}

/// An unused entry: the identifier of all zeros.
pub open spec fn spec_unused() -> Type {
    Type { guid: Guid { d1: 0x00000000, d2: 0x0000, d3: 0x0000, d4: 0x0000000000000000 } }
}

/// An unused entry: the identifier of all zeros.
#[verifier::when_used_as_spec(spec_unused)]
pub fn unused() -> (r: Type)
    ensures
        r == spec_unused(),
{
    Type { guid: Guid { d1: 0x00000000, d2: 0x0000, d3: 0x0000, d4: 0x0000000000000000 } }
}

/// EFI system partition.
pub open spec fn spec_efi() -> Type {
    Type { guid: Guid { d1: 0xC12A7328, d2: 0xF81F, d3: 0x11D2, d4: 0xBA4B00A0C93EC93B } }
}

/// EFI system partition.
#[verifier::when_used_as_spec(spec_efi)]
pub fn efi() -> (r: Type)
    ensures
        r == spec_efi(),
{
    Type { guid: Guid { d1: 0xC12A7328, d2: 0xF81F, d3: 0x11D2, d4: 0xBA4B00A0C93EC93B } }
}

/// BIOS boot partition.
pub open spec fn spec_bios() -> Type {
    Type { guid: Guid { d1: 0x21686148, d2: 0x6449, d3: 0x6E6F, d4: 0x744E656564454649 } }
}

/// BIOS boot partition.
#[verifier::when_used_as_spec(spec_bios)]
pub fn bios() -> (r: Type)
    ensures
        r == spec_bios(),
{
    Type { guid: Guid { d1: 0x21686148, d2: 0x6449, d3: 0x6E6F, d4: 0x744E656564454649 } }
}

/// Basic data partition.
pub open spec fn spec_basic() -> Type {
    Type { guid: Guid { d1: 0xEBD0A0A2, d2: 0xB9E5, d3: 0x4433, d4: 0x87C068B6B72699C7 } }
}

/// Basic data partition.
#[verifier::when_used_as_spec(spec_basic)]
pub fn basic() -> (r: Type)
    ensures
        r == spec_basic(),
{
    Type { guid: Guid { d1: 0xEBD0A0A2, d2: 0xB9E5, d3: 0x4433, d4: 0x87C068B6B72699C7 } }
}

/// Linux filesystem data.
pub open spec fn spec_linux_fs() -> Type {
    Type { guid: Guid { d1: 0x0FC63DAF, d2: 0x8483, d3: 0x4772, d4: 0x8E793D69D8477DE4 } }
}

/// Linux filesystem data.
#[verifier::when_used_as_spec(spec_linux_fs)]
pub fn linux_fs() -> (r: Type)
    ensures
        r == spec_linux_fs(),
{
    Type { guid: Guid { d1: 0x0FC63DAF, d2: 0x8483, d3: 0x4772, d4: 0x8E793D69D8477DE4 } }
}

/// Linux swap partition.
pub open spec fn spec_linux_swap() -> Type {
    Type { guid: Guid { d1: 0x0657FD6D, d2: 0xA4AB, d3: 0x43C4, d4: 0x84E50933C84B4F4F } }
}

/// Linux swap partition.
#[verifier::when_used_as_spec(spec_linux_swap)]
pub fn linux_swap() -> (r: Type)
    ensures
        r == spec_linux_swap(),
{
    Type { guid: Guid { d1: 0x0657FD6D, d2: 0xA4AB, d3: 0x43C4, d4: 0x84E50933C84B4F4F } }
}

/// The operating system and the description that go with a type
/// identifier, or `Unknown` twice for one that is not well known.
pub open spec fn labels_of(g: Guid) -> (Seq<char>, Seq<char>) {
    if g == (Guid { d1: 0x00000000, d2: 0x0000, d3: 0x0000, d4: 0x0000000000000000 }) {
        ("None"@, "Unused"@)
    } else if g == (Guid { d1: 0x024DEE41, d2: 0x33E7, d3: 0x11D3, d4: 0x9D690008C781F39F }) {
        ("None"@, "MBR Partition Scheme"@)
    } else if g == (Guid { d1: 0xC12A7328, d2: 0xF81F, d3: 0x11D2, d4: 0xBA4B00A0C93EC93B }) {
        ("None"@, "EFI System Partition"@)
    } else if g == (Guid { d1: 0x21686148, d2: 0x6449, d3: 0x6E6F, d4: 0x744E656564454649 }) {
        ("None"@, "BIOS Boot Partition"@)
    } else if g == (Guid { d1: 0xD3BFE2DE, d2: 0x3DAF, d3: 0x11DF, d4: 0xBA40E3A556D89593 }) {
        ("None"@, "Intel Fast Flash (iFFS) Partition"@)
    } else if g == (Guid { d1: 0xF4019732, d2: 0x066E, d3: 0x4E12, d4: 0x8273346C5641494F }) {
        ("None"@, "Sony Boot Partition"@)
    } else if g == (Guid { d1: 0xBFBFAFE7, d2: 0xA34F, d3: 0x448A, d4: 0x9A5B6213EB736C22 }) {
        ("None"@, "Lenovo Boot Partition"@)
    } else if g == (Guid { d1: 0xE3C9E316, d2: 0x0B5C, d3: 0x4DB8, d4: 0x817DF92DF00215AE }) {
        ("Windows"@, "Microsoft Reserved Partition"@)
    } else if g == (Guid { d1: 0xEBD0A0A2, d2: 0xB9E5, d3: 0x4433, d4: 0x87C068B6B72699C7 }) {
        ("Windows"@, "Basic Data Partition"@)
    } else if g == (Guid { d1: 0x5808C8AA, d2: 0x7E8F, d3: 0x42E0, d4: 0x85D2E1E90434CFB3 }) {
        ("Windows"@, "Logical Disk Manager Metadata Partition"@)
    } else if g == (Guid { d1: 0xAF9B60A0, d2: 0x1431, d3: 0x4F62, d4: 0xBC683311714A69AD }) {
        ("Windows"@, "Logical Disk Manager Data Partition"@)
    } else if g == (Guid { d1: 0xDE94BBA4, d2: 0x06D1, d3: 0x4D40, d4: 0xA16ABFD50179D6AC }) {
        ("Windows"@, "Windows Recovery Environment"@)
    } else if g == (Guid { d1: 0x37AFFC90, d2: 0xEF7D, d3: 0x4E96, d4: 0x91C32D7AE055B174 }) {
        ("Windows"@, "IBM General Parallel File System Partition"@)
    } else if g == (Guid { d1: 0xE75CAF8F, d2: 0xF680, d3: 0x4CEE, d4: 0xAFA3B001E56EFC2D }) {
        ("Windows"@, "Storage Spaces Partition"@)
    } else if g == (Guid { d1: 0x75894C1E, d2: 0x3AEB, d3: 0x11D3, d4: 0xB7C17B03A0000000 }) {
        ("HP-UX"@, "Data Partition"@)
    } else if g == (Guid { d1: 0xE2A1E728, d2: 0x32E3, d3: 0x11D6, d4: 0xA6827B03A0000000 }) {
        ("HP-UX"@, "Service Partition"@)
    } else if g == (Guid { d1: 0x0FC63DAF, d2: 0x8483, d3: 0x4772, d4: 0x8E793D69D8477DE4 }) {
        ("Linux"@, "Linux Filesystem Data"@)
    } else if g == (Guid { d1: 0xA19D880F, d2: 0x05FC, d3: 0x4D3B, d4: 0xA006743F0F84911E }) {
        ("Linux"@, "RAID Partition"@)
    } else if g == (Guid { d1: 0x44479540, d2: 0xF297, d3: 0x41B2, d4: 0x9AF7D131D5F0458A }) {
        ("Linux"@, "Root Partition (x86)"@)
    } else if g == (Guid { d1: 0x4F68BCE3, d2: 0xE8CD, d3: 0x4DB1, d4: 0x96E7FBCAF984B709 }) {
        ("Linux"@, "Root Partition (x86-64)"@)
    } else if g == (Guid { d1: 0x69DAD710, d2: 0x2CE4, d3: 0x4E3C, d4: 0xB16C21A1D49ABED3 }) {
        ("Linux"@, "Root Partition (32-bit ARM)"@)
    } else if g == (Guid { d1: 0xB921B045, d2: 0x1DF0, d3: 0x41C3, d4: 0xAF444C6F280D3FAE }) {
        ("Linux"@, "Root Partition (64-bit ARM/AArch64)"@)
    } else if g == (Guid { d1: 0x0657FD6D, d2: 0xA4AB, d3: 0x43C4, d4: 0x84E50933C84B4F4F }) {
        ("Linux"@, "Swap Partition"@)
    } else if g == (Guid { d1: 0xE6D6D379, d2: 0xF507, d3: 0x44C2, d4: 0xA23C238F2A3DF928 }) {
        ("Linux"@, "Logical Volume Manager Partition"@)
    } else if g == (Guid { d1: 0x933AC7E1, d2: 0x2EB4, d3: 0x4F13, d4: 0xB8440E14E2AEF915 }) {
        ("Linux"@, "/home Partition"@)
    } else if g == (Guid { d1: 0x3B8F8425, d2: 0x20E0, d3: 0x4F3B, d4: 0x907F1A25A76F98E8 }) {
        ("Linux"@, "/srv (Server Data) Partition"@)
    } else if g == (Guid { d1: 0x7FFEC5C9, d2: 0x2D00, d3: 0x49B7, d4: 0x89413EA10A5586B7 }) {
        ("Linux"@, "Plain dm-crypt Partition"@)
    } else if g == (Guid { d1: 0xCA7D7CCB, d2: 0x63ED, d3: 0x4C53, d4: 0x861C1742536059CC }) {
        ("Linux"@, "LUKS Partition"@)
    } else if g == (Guid { d1: 0x8DA63339, d2: 0x0007, d3: 0x60C0, d4: 0xC436083AC8230908 }) {
        ("Linux"@, "Reserved"@)
    } else if g == (Guid { d1: 0x83BD6B9D, d2: 0x7F41, d3: 0x11DC, d4: 0xBE0B001560B84F0F }) {
        ("FreeBSD"@, "Boot Partition"@)
    } else if g == (Guid { d1: 0x516E7CB4, d2: 0x6ECF, d3: 0x11D6, d4: 0x8FF800022D09712B }) {
        ("FreeBSD"@, "Data Partition"@)
    } else if g == (Guid { d1: 0x516E7CB5, d2: 0x6ECF, d3: 0x11D6, d4: 0x8FF800022D09712B }) {
        ("FreeBSD"@, "Swap Partition"@)
    } else if g == (Guid { d1: 0x516E7CB6, d2: 0x6ECF, d3: 0x11D6, d4: 0x8FF800022D09712B }) {
        ("FreeBSD"@, "Unix File System (UFS) Partition"@)
    } else if g == (Guid { d1: 0x516E7CB8, d2: 0x6ECF, d3: 0x11D6, d4: 0x8FF800022D09712B }) {
        ("FreeBSD"@, "Vinium Volume Manager Partition"@)
    } else if g == (Guid { d1: 0x516E7CBA, d2: 0x6ECF, d3: 0x11D6, d4: 0x8FF800022D09712B }) {
        ("FreeBSD"@, "ZFS Partition"@)
    } else if g == (Guid { d1: 0x48465300, d2: 0x0000, d3: 0x11AA, d4: 0xAA1100306543ECAC }) {
        ("macOS Darwin"@, "Hierarchical File System Plus (HFS+) Partition"@)
    } else if g == (Guid { d1: 0x55465300, d2: 0x0000, d3: 0x11AA, d4: 0xAA1100306543ECAC }) {
        ("macOS Darwin"@, "Apple UFS"@)
    } else if g == (Guid { d1: 0x6A898CC3, d2: 0x1DD2, d3: 0x11B2, d4: 0x99A6080020736631 }) {
        ("Solaris Illumos"@, "/usr Partition"@)
    } else if g == (Guid { d1: 0x52414944, d2: 0x0000, d3: 0x11AA, d4: 0xAA1100306543ECAC }) {
        ("macOS Darwin"@, "Apple RAID Partition"@)
    } else if g == (Guid { d1: 0x52414944, d2: 0x5F4F, d3: 0x11AA, d4: 0xAA1100306543ECAC }) {
        ("macOS Darwin"@, "APple RAID Partition, offline"@)
    } else if g == (Guid { d1: 0x426F6F74, d2: 0x0000, d3: 0x11AA, d4: 0xAA1100306543ECAC }) {
        ("macOS Darwin"@, "Apple Boot Partition (Recovery HD)"@)
    } else if g == (Guid { d1: 0x4C616265, d2: 0x6C00, d3: 0x11AA, d4: 0xAA1100306543ECAC }) {
        ("macOS Darwin"@, "Apple Label"@)
    } else if g == (Guid { d1: 0x5265636F, d2: 0x7665, d3: 0x11AA, d4: 0xAA1100306543ECAC }) {
        ("macOS Darwin"@, "Apple TV Recovery Partition"@)
    } else if g == (Guid { d1: 0x53746F72, d2: 0x6167, d3: 0x11AA, d4: 0xAA1100306543ECAC }) {
        ("macOS Darwin"@, "Apple Core Storage Partition"@)
    } else if g == (Guid { d1: 0xB6FA30DA, d2: 0x92D2, d3: 0x4A9A, d4: 0x96F1871EC6486200 }) {
        ("macOS Darwin"@, "SoftRAID_Status"@)
    } else if g == (Guid { d1: 0x2E313465, d2: 0x19B9, d3: 0x463F, d4: 0x81268A7993773801 }) {
        ("macOS Darwin"@, "SoftRAID_Scratch"@)
    } else if g == (Guid { d1: 0xFA709C7E, d2: 0x65B1, d3: 0x4593, d4: 0xBFD5E71D61DE9B02 }) {
        ("macOS Darwin"@, "SoftRAID_Volume"@)
    } else if g == (Guid { d1: 0xBBBA6DF5, d2: 0xF46F, d3: 0x4A89, d4: 0x8F598765B2727503 }) {
        ("macOS Darwin"@, "SOftRAID_Cache"@)
    } else if g == (Guid { d1: 0x6A82CB45, d2: 0x1DD2, d3: 0x11B2, d4: 0x99A6080020736631 }) {
        ("Solaris Illumos"@, "Boot Partition"@)
    } else if g == (Guid { d1: 0x6A85CF4D, d2: 0x1DD2, d3: 0x11B2, d4: 0x99A6080020736631 }) {
        ("Solaris Illumos"@, "Root Partition"@)
    } else if g == (Guid { d1: 0x6A87C46F, d2: 0x1DD2, d3: 0x11B2, d4: 0x99A6080020736631 }) {
        ("Solaris Illumos"@, "Swap Partition"@)
    } else if g == (Guid { d1: 0x6A8B642B, d2: 0x1DD2, d3: 0x11B2, d4: 0x99A6080020736631 }) {
        ("Solaris Illumos"@, "Backup Partition"@)
    } else if g == (Guid { d1: 0x6A8EF2E9, d2: 0x1DD2, d3: 0x11B2, d4: 0x99A6080020736631 }) {
        ("Solaris Illumos"@, "/var Partition"@)
    } else if g == (Guid { d1: 0x6A90BA39, d2: 0x1DD2, d3: 0x11B2, d4: 0x99A6080020736631 }) {
        ("Solaris Illumos"@, "/home Partition"@)
    } else if g == (Guid { d1: 0x6A9283A5, d2: 0x1DD2, d3: 0x11B2, d4: 0x99A6080020736631 }) {
        ("Solaris Illumos"@, "Alternate Sector"@)
    } else if g == (Guid { d1: 0x6A945A3B, d2: 0x1DD2, d3: 0x11B2, d4: 0x99A6080020736631 }) {
        ("Solaris Illumos"@, "Reserved"@)
    } else if g == (Guid { d1: 0x6A9630D1, d2: 0x1DD2, d3: 0x11B2, d4: 0x99A6080020736631 }) {
        ("Solaris Illumos"@, "Reserved"@)
    } else if g == (Guid { d1: 0x6A980767, d2: 0x1DD2, d3: 0x11B2, d4: 0x99A6080020736631 }) {
        ("Solaris Illumos"@, "Reserved"@)
    } else if g == (Guid { d1: 0x6A96237F, d2: 0x1DD2, d3: 0x11B2, d4: 0x99A6080020736631 }) {
        (" Solaris Illumos"@, "Reserved"@)
    } else if g == (Guid { d1: 0x6A8D2AC7, d2: 0x1DD2, d3: 0x11B2, d4: 0x99A6080020736631 }) {
        ("Solaris Illumos"@, "Reserved"@)
    } else if g == (Guid { d1: 0x49F48D32, d2: 0xB10E, d3: 0x11DC, d4: 0xB99B0019D1879648 }) {
        ("NetBSD"@, "Swap Partition"@)
    } else if g == (Guid { d1: 0x49F48D5A, d2: 0xB10E, d3: 0x11DC, d4: 0xB99B0019D1879648 }) {
        ("NetBSD"@, "FFS Partition"@)
    } else if g == (Guid { d1: 0x49F48D82, d2: 0xB10E, d3: 0x11DC, d4: 0xB99B0019D1879648 }) {
        ("NetBSD"@, "LFS Partition"@)
    } else if g == (Guid { d1: 0x49F48DAA, d2: 0xB10E, d3: 0x11DC, d4: 0xB99B0019D1879648 }) {
        ("NetBSD"@, "RAID Partition"@)
    } else if g == (Guid { d1: 0x2DB519C4, d2: 0xB10F, d3: 0x11DC, d4: 0xB99B0019D1879648 }) {
        ("NetBSD"@, "Concatenated Partition"@)
    } else if g == (Guid { d1: 0x2DB519EC, d2: 0xB10F, d3: 0x11DC, d4: 0xB99B0019D1879648 }) {
        ("NetBSD"@, "Encrypted Partition"@)
    } else if g == (Guid { d1: 0xFE3A2A5D, d2: 0x4F32, d3: 0x41A7, d4: 0xB725ACCC3285A309 }) {
        ("ChromeOS"@, "ChromeOS Kernel"@)
    } else if g == (Guid { d1: 0x3CB8E202, d2: 0x3B7E, d3: 0x47DD, d4: 0x8A3C7FF2A13CFCEC }) {
        ("ChromeOS"@, "ChromeOS rootfs"@)
    } else if g == (Guid { d1: 0x2E0A753D, d2: 0x9E48, d3: 0x43B0, d4: 0x8337B15192CB1B5E }) {
        ("ChromeOS"@, "ChromeOS Future Use"@)
    } else if g == (Guid { d1: 0x5DFBF5F4, d2: 0x2848, d3: 0x4BAC, d4: 0xAA5E0D9A20B745A6 }) {
        ("ContainerLinux by CoreOS"@, "/usr partition (coreos-usr)"@)
    } else if g == (Guid { d1: 0x3884DD41, d2: 0x8582, d3: 0x4404, d4: 0xB9A8E9B84F2DF50E }) {
        ("ContainerLinux by CoreOS"@, "Resizable rootfs (coreos-resize)"@)
    } else if g == (Guid { d1: 0xC95DC21A, d2: 0xDF0E, d3: 0x4340, d4: 0x8D7B26CBFA9A03E0 }) {
        ("ContainerLinux by CoreOS"@, "OEM customizations (coreos-reserved)"@)
    } else if g == (Guid { d1: 0xBE9067B9, d2: 0xEA49, d3: 0x4F15, d4: 0xB4F6F36F8C9E1818 }) {
        ("ContainerLinux by CoreOS"@, "Root filesystem on RAID (coreos-root-raid)"@)
    } else if g == (Guid { d1: 0x42465331, d2: 0x3BA3, d3: 0x10F1, d4: 0x802A4861696B7521 }) {
        ("Haiku"@, "Haiku BFS"@)
    } else if g == (Guid { d1: 0x85D5E45E, d2: 0x237C, d3: 0x11E1, d4: 0xB4B3E89A8F7FC3A7 }) {
        ("MidnightBSD"@, "Boot Partition"@)
    } else if g == (Guid { d1: 0x85D5E45A, d2: 0x237C, d3: 0x11E1, d4: 0xB4B3E89A8F7FC3A7 }) {
        ("MidnightBSD"@, "Data Partition"@)
    } else if g == (Guid { d1: 0x85D5E45B, d2: 0x237C, d3: 0x11E1, d4: 0xB4B3E89A8F7FC3A7 }) {
        ("MidnightBSD"@, "Swap Partition"@)
    } else if g == (Guid { d1: 0x0394EF8B, d2: 0x237E, d3: 0x11E1, d4: 0xB4B3E89A8F7FC3A7 }) {
        ("MidnightBSD"@, "Unix File System (UFS) Partition"@)
    } else if g == (Guid { d1: 0x85D5E45C, d2: 0x237C, d3: 0x11E1, d4: 0xB4B3E89A8F7FC3A7 }) {
        ("MidnightBSD"@, "Vinium Volume Manager Partition"@)
    } else if g == (Guid { d1: 0x85D5E45D, d2: 0x237C, d3: 0x11E1, d4: 0xB4B3E89A8F7FC3A7 }) {
        ("MidnightBSD"@, "ZFS Partition"@)
    } else if g == (Guid { d1: 0x45B0969E, d2: 0x9B03, d3: 0x4F30, d4: 0xB4C6B4B80CEFF106 }) {
        ("Ceph"@, "Ceph Journal"@)
    } else if g == (Guid { d1: 0x45B0969E, d2: 0x9B03, d3: 0x4F30, d4: 0xB4C65EC00CEFF106 }) {
        ("Ceph"@, "Ceph dm-crypt Encryted Journal"@)
    } else if g == (Guid { d1: 0x4FBD7E29, d2: 0x9D25, d3: 0x41B8, d4: 0xAFD0062C0CEFF05D }) {
        ("Ceph"@, "Ceph OSD"@)
    } else if g == (Guid { d1: 0x4FBD7E29, d2: 0x9D25, d3: 0x41B8, d4: 0xAFD05EC00CEFF05D }) {
        ("Ceph"@, "Ceph dm-crypt OSD"@)
    } else if g == (Guid { d1: 0x89C57F98, d2: 0x2FE5, d3: 0x4DC0, d4: 0x89C1F3AD0CEFF2BE }) {
        ("Ceph"@, "Ceph Disk In Creation"@)
    } else if g == (Guid { d1: 0x89C57F98, d2: 0x2FE5, d3: 0x4DC0, d4: 0x89C15EC00CEFF2BE }) {
        ("Ceph"@, "Ceph dm-crypt Disk In Creation"@)
    } else if g == (Guid { d1: 0x824CC7A0, d2: 0x36A8, d3: 0x11E3, d4: 0x890A952519AD3F61 }) {
        ("OpenBSD"@, "Data Partition"@)
    } else if g == (Guid { d1: 0xCEF5A9AD, d2: 0x73BC, d3: 0x4601, d4: 0x89F3CDEEEEE321A1 }) {
        ("QNX"@, "Power-safe (QNX6) File System"@)
    } else if g == (Guid { d1: 0xC91818F9, d2: 0x8025, d3: 0x47AF, d4: 0x89D2F030D7000C2C }) {
        ("Plan 9"@, "Plan 9 Partition"@)
    } else if g == (Guid { d1: 0x9D275380, d2: 0x40AD, d3: 0x11DB, d4: 0xBF97000C2911D1B8 }) {
        ("VMware ESX"@, "vmkcore (coredump partition)"@)
    } else if g == (Guid { d1: 0xAA31E02A, d2: 0x400F, d3: 0x11DB, d4: 0x9590000C2911D1B8 }) {
        ("VMware ESX"@, "VMFS Filesystem Partition"@)
    } else if g == (Guid { d1: 0x9198EFFC, d2: 0x31C0, d3: 0x11DB, d4: 0x8F78000C2911D1B8 }) {
        ("VMware ESX"@, "VMware Reserved"@)
    } else if g == (Guid { d1: 0x2568845D, d2: 0x2332, d3: 0x4675, d4: 0xBC398FA5A4748D15 }) {
        ("Android-IA"@, "Bootloader"@)
    } else if g == (Guid { d1: 0x114EAFFE, d2: 0x1552, d3: 0x4022, d4: 0xB26E9B053604CF84 }) {
        ("Android-IA"@, "Bootloader2"@)
    } else if g == (Guid { d1: 0x49A4D17F, d2: 0x93A3, d3: 0x45C1, d4: 0xA0DEF50B2EBE2599 }) {
        ("Android-IA"@, "Boot"@)
    } else if g == (Guid { d1: 0x4177C722, d2: 0x9E92, d3: 0x4AAB, d4: 0x864443502BFD5506 }) {
        ("Android-IA"@, "Recovery"@)
    } else if g == (Guid { d1: 0xEF32A33B, d2: 0xA409, d3: 0x486C, d4: 0x91419FFB711F6266 }) {
        ("Android-IA"@, "Misc"@)
    } else if g == (Guid { d1: 0x20AC26BE, d2: 0x20B7, d3: 0x11E3, d4: 0x84C56CFDB94711E9 }) {
        ("Android-IA"@, "Metadata"@)
    } else if g == (Guid { d1: 0x38F428E6, d2: 0xD326, d3: 0x425D, d4: 0x91406E0EA133647C }) {
        ("Android-IA"@, "System"@)
    } else if g == (Guid { d1: 0xA893EF21, d2: 0xE428, d3: 0x470A, d4: 0x9E550668FD91A2D9 }) {
        ("Android-IA"@, "Cache"@)
    } else if g == (Guid { d1: 0xDC76DDA9, d2: 0x5AC1, d3: 0x491C, d4: 0xAF42A82591580C0D }) {
        ("Android-IA"@, "Data"@)
    } else if g == (Guid { d1: 0xEBC597D0, d2: 0x2053, d3: 0x4B15, d4: 0x8B64E0AAC75F4DB1 }) {
        ("Android-IA"@, "Persistent"@)
    } else if g == (Guid { d1: 0x8F68CC74, d2: 0xC5E5, d3: 0x48DA, d4: 0xBE91A0C8C15E9C80 }) {
        ("Android-IA"@, "Factory"@)
    } else if g == (Guid { d1: 0x767941D0, d2: 0x2085, d3: 0x11E3, d4: 0xAD3B6CFDB94711E9 }) {
        ("Android-IA"@, "Fastboot/Tertiary"@)
    } else if g == (Guid { d1: 0xAC6D7924, d2: 0xEB71, d3: 0x4DF8, d4: 0xB48DE267B27148FF }) {
        ("Android-IA"@, "OEM"@)
    } else if g == (Guid { d1: 0x7412F7D5, d2: 0xA156, d3: 0x4B13, d4: 0x81DC867174929325 }) {
        ("ONIE"@, "Boot"@)
    } else if g == (Guid { d1: 0xD4E6E2CD, d2: 0x4469, d3: 0x46F3, d4: 0xB5CB1BFF57AFC149 }) {
        ("ONIE"@, "Config"@)
    } else if g == (Guid { d1: 0x9E1A2D38, d2: 0xC612, d3: 0x4316, d4: 0xAA268B49521E5A8B }) {
        ("PowerPC"@, "PReP Boot"@)
    } else if g == (Guid { d1: 0xBC13C2FF, d2: 0x59E6, d3: 0x4262, d4: 0xA352B275FD6F7172 }) {
        ("Freedesktop"@, "Shared Boot Loader Configuration"@)
    } else if g == (Guid { d1: 0x734E5AFE, d2: 0xF61A, d3: 0x11E6, d4: 0xBC6492361F002671 }) {
        ("Atari TOS"@, "Basic Data Partition (GEM, BGM, F32)"@)
    } else {
        ("Unknown"@, "Unknown"@)
    }
}

impl From<Guid> for Type {
    fn from(guid: Guid) -> (r: Self) {
        Type { guid }
    }
}

impl vstd::std_specs::convert::FromSpecImpl<Guid> for Type {
    open spec fn obeys_from_spec() -> bool {
        true
    }

    open spec fn from_spec(guid: Guid) -> Self {
        Type { guid }
    }
}

impl core::str::FromStr for Type {
    type Err = &'static str;

    /// Reads a type from the text of its identifier, as `Type::parse` does.
    fn from_str(s: &str) -> (r: Result<Self, Self::Err>)
        ensures
            match crate::guid::uuid_text_fields(s@) {
                Some((d1, d2, d3, d4)) => r == Ok::<Type, &'static str>(
                    Type { guid: Guid { d1, d2, d3, d4 } },
                ),
                None => r matches Err(m) && m@ == "Invalid Partition Type GUID."@,
            },
    {
        Type::parse(s)
    }
}

impl Type {
    /// Whether the identifier has the four fields given.
    fn is(&self, d1: u32, d2: u16, d3: u16, d4: u64) -> (r: bool)
        ensures
            r == (self.guid == (Guid { d1, d2, d3, d4 })),
    {
        self.guid.d1 == d1 && self.guid.d2 == d2 && self.guid.d3 == d3 && self.guid.d4 == d4
    }

    /// The type with the identifier `guid`.
    pub fn from_guid(guid: Guid) -> (r: Type)
        ensures
            r.guid == guid,
    {
        Type { guid }
    }

    /// Reads a type from the text of its identifier, such as
    /// `0FC63DAF-8483-4772-8E79-3D69D8477DE4`.
    pub fn parse(text: &str) -> (r: Result<Type, &'static str>)
        ensures
            match crate::guid::uuid_text_fields(text@) {
                Some((d1, d2, d3, d4)) => r == Ok::<Type, &'static str>(
                    Type { guid: Guid { d1, d2, d3, d4 } },
                ),
                None => r matches Err(m) && m@ == "Invalid Partition Type GUID."@,
            },
    {
        match Guid::parse_str(text) {
            Some(guid) => Ok(Type { guid }),
            None => Err("Invalid Partition Type GUID."),
        }
    }

    /// The operating system that the type belongs to, `Unknown` for a type
    /// that is not well known.
    pub fn os(&self) -> (r: &'static str)
        ensures
            r@ == labels_of(self.guid).0,
    {
        self.labels().0
    }

    /// What the type is for, `Unknown` for a type that is not well known.
    pub fn description(&self) -> (r: &'static str)
        ensures
            r@ == labels_of(self.guid).1,
    {
        self.labels().1
    }

    /// The operating system and the description of the type.
    pub fn labels(&self) -> (r: (&'static str, &'static str))
        ensures
            (r.0@, r.1@) == labels_of(self.guid),
    {
        if self.is(0x00000000, 0x0000, 0x0000, 0x0000000000000000) {
            ("None", "Unused")
        } else if self.is(0x024DEE41, 0x33E7, 0x11D3, 0x9D690008C781F39F) {
            ("None", "MBR Partition Scheme")
        } else if self.is(0xC12A7328, 0xF81F, 0x11D2, 0xBA4B00A0C93EC93B) {
            ("None", "EFI System Partition")
        } else if self.is(0x21686148, 0x6449, 0x6E6F, 0x744E656564454649) {
            ("None", "BIOS Boot Partition")
        } else if self.is(0xD3BFE2DE, 0x3DAF, 0x11DF, 0xBA40E3A556D89593) {
            ("None", "Intel Fast Flash (iFFS) Partition")
        } else if self.is(0xF4019732, 0x066E, 0x4E12, 0x8273346C5641494F) {
            ("None", "Sony Boot Partition")
        } else if self.is(0xBFBFAFE7, 0xA34F, 0x448A, 0x9A5B6213EB736C22) {
            ("None", "Lenovo Boot Partition")
        } else if self.is(0xE3C9E316, 0x0B5C, 0x4DB8, 0x817DF92DF00215AE) {
            ("Windows", "Microsoft Reserved Partition")
        } else if self.is(0xEBD0A0A2, 0xB9E5, 0x4433, 0x87C068B6B72699C7) {
            ("Windows", "Basic Data Partition")
        } else if self.is(0x5808C8AA, 0x7E8F, 0x42E0, 0x85D2E1E90434CFB3) {
            ("Windows", "Logical Disk Manager Metadata Partition")
        } else if self.is(0xAF9B60A0, 0x1431, 0x4F62, 0xBC683311714A69AD) {
            ("Windows", "Logical Disk Manager Data Partition")
        } else if self.is(0xDE94BBA4, 0x06D1, 0x4D40, 0xA16ABFD50179D6AC) {
            ("Windows", "Windows Recovery Environment")
        } else if self.is(0x37AFFC90, 0xEF7D, 0x4E96, 0x91C32D7AE055B174) {
            ("Windows", "IBM General Parallel File System Partition")
        } else if self.is(0xE75CAF8F, 0xF680, 0x4CEE, 0xAFA3B001E56EFC2D) {
            ("Windows", "Storage Spaces Partition")
        } else if self.is(0x75894C1E, 0x3AEB, 0x11D3, 0xB7C17B03A0000000) {
            ("HP-UX", "Data Partition")
        } else if self.is(0xE2A1E728, 0x32E3, 0x11D6, 0xA6827B03A0000000) {
            ("HP-UX", "Service Partition")
        } else if self.is(0x0FC63DAF, 0x8483, 0x4772, 0x8E793D69D8477DE4) {
            ("Linux", "Linux Filesystem Data")
        } else if self.is(0xA19D880F, 0x05FC, 0x4D3B, 0xA006743F0F84911E) {
            ("Linux", "RAID Partition")
        } else if self.is(0x44479540, 0xF297, 0x41B2, 0x9AF7D131D5F0458A) {
            ("Linux", "Root Partition (x86)")
        } else if self.is(0x4F68BCE3, 0xE8CD, 0x4DB1, 0x96E7FBCAF984B709) {
            ("Linux", "Root Partition (x86-64)")
        } else if self.is(0x69DAD710, 0x2CE4, 0x4E3C, 0xB16C21A1D49ABED3) {
            ("Linux", "Root Partition (32-bit ARM)")
        } else if self.is(0xB921B045, 0x1DF0, 0x41C3, 0xAF444C6F280D3FAE) {
            ("Linux", "Root Partition (64-bit ARM/AArch64)")
        } else if self.is(0x0657FD6D, 0xA4AB, 0x43C4, 0x84E50933C84B4F4F) {
            ("Linux", "Swap Partition")
        } else if self.is(0xE6D6D379, 0xF507, 0x44C2, 0xA23C238F2A3DF928) {
            ("Linux", "Logical Volume Manager Partition")
        } else if self.is(0x933AC7E1, 0x2EB4, 0x4F13, 0xB8440E14E2AEF915) {
            ("Linux", "/home Partition")
        } else if self.is(0x3B8F8425, 0x20E0, 0x4F3B, 0x907F1A25A76F98E8) {
            ("Linux", "/srv (Server Data) Partition")
        } else if self.is(0x7FFEC5C9, 0x2D00, 0x49B7, 0x89413EA10A5586B7) {
            ("Linux", "Plain dm-crypt Partition")
        } else if self.is(0xCA7D7CCB, 0x63ED, 0x4C53, 0x861C1742536059CC) {
            ("Linux", "LUKS Partition")
        } else if self.is(0x8DA63339, 0x0007, 0x60C0, 0xC436083AC8230908) {
            ("Linux", "Reserved")
        } else if self.is(0x83BD6B9D, 0x7F41, 0x11DC, 0xBE0B001560B84F0F) {
            ("FreeBSD", "Boot Partition")
        } else if self.is(0x516E7CB4, 0x6ECF, 0x11D6, 0x8FF800022D09712B) {
            ("FreeBSD", "Data Partition")
        } else if self.is(0x516E7CB5, 0x6ECF, 0x11D6, 0x8FF800022D09712B) {
            ("FreeBSD", "Swap Partition")
        } else if self.is(0x516E7CB6, 0x6ECF, 0x11D6, 0x8FF800022D09712B) {
            ("FreeBSD", "Unix File System (UFS) Partition")
        } else if self.is(0x516E7CB8, 0x6ECF, 0x11D6, 0x8FF800022D09712B) {
            ("FreeBSD", "Vinium Volume Manager Partition")
        } else if self.is(0x516E7CBA, 0x6ECF, 0x11D6, 0x8FF800022D09712B) {
            ("FreeBSD", "ZFS Partition")
        } else if self.is(0x48465300, 0x0000, 0x11AA, 0xAA1100306543ECAC) {
            ("macOS Darwin", "Hierarchical File System Plus (HFS+) Partition")
        } else if self.is(0x55465300, 0x0000, 0x11AA, 0xAA1100306543ECAC) {
            ("macOS Darwin", "Apple UFS")
        } else if self.is(0x6A898CC3, 0x1DD2, 0x11B2, 0x99A6080020736631) {
            ("Solaris Illumos", "/usr Partition")
        } else if self.is(0x52414944, 0x0000, 0x11AA, 0xAA1100306543ECAC) {
            ("macOS Darwin", "Apple RAID Partition")
        } else if self.is(0x52414944, 0x5F4F, 0x11AA, 0xAA1100306543ECAC) {
            ("macOS Darwin", "APple RAID Partition, offline")
        } else if self.is(0x426F6F74, 0x0000, 0x11AA, 0xAA1100306543ECAC) {
            ("macOS Darwin", "Apple Boot Partition (Recovery HD)")
        } else if self.is(0x4C616265, 0x6C00, 0x11AA, 0xAA1100306543ECAC) {
            ("macOS Darwin", "Apple Label")
        } else if self.is(0x5265636F, 0x7665, 0x11AA, 0xAA1100306543ECAC) {
            ("macOS Darwin", "Apple TV Recovery Partition")
        } else if self.is(0x53746F72, 0x6167, 0x11AA, 0xAA1100306543ECAC) {
            ("macOS Darwin", "Apple Core Storage Partition")
        } else if self.is(0xB6FA30DA, 0x92D2, 0x4A9A, 0x96F1871EC6486200) {
            ("macOS Darwin", "SoftRAID_Status")
        } else if self.is(0x2E313465, 0x19B9, 0x463F, 0x81268A7993773801) {
            ("macOS Darwin", "SoftRAID_Scratch")
        } else if self.is(0xFA709C7E, 0x65B1, 0x4593, 0xBFD5E71D61DE9B02) {
            ("macOS Darwin", "SoftRAID_Volume")
        } else if self.is(0xBBBA6DF5, 0xF46F, 0x4A89, 0x8F598765B2727503) {
            ("macOS Darwin", "SOftRAID_Cache")
        } else if self.is(0x6A82CB45, 0x1DD2, 0x11B2, 0x99A6080020736631) {
            ("Solaris Illumos", "Boot Partition")
        } else if self.is(0x6A85CF4D, 0x1DD2, 0x11B2, 0x99A6080020736631) {
            ("Solaris Illumos", "Root Partition")
        } else if self.is(0x6A87C46F, 0x1DD2, 0x11B2, 0x99A6080020736631) {
            ("Solaris Illumos", "Swap Partition")
        } else if self.is(0x6A8B642B, 0x1DD2, 0x11B2, 0x99A6080020736631) {
            ("Solaris Illumos", "Backup Partition")
        } else if self.is(0x6A8EF2E9, 0x1DD2, 0x11B2, 0x99A6080020736631) {
            ("Solaris Illumos", "/var Partition")
        } else if self.is(0x6A90BA39, 0x1DD2, 0x11B2, 0x99A6080020736631) {
            ("Solaris Illumos", "/home Partition")
        } else if self.is(0x6A9283A5, 0x1DD2, 0x11B2, 0x99A6080020736631) {
            ("Solaris Illumos", "Alternate Sector")
        } else if self.is(0x6A945A3B, 0x1DD2, 0x11B2, 0x99A6080020736631) {
            ("Solaris Illumos", "Reserved")
        } else if self.is(0x6A9630D1, 0x1DD2, 0x11B2, 0x99A6080020736631) {
            ("Solaris Illumos", "Reserved")
        } else if self.is(0x6A980767, 0x1DD2, 0x11B2, 0x99A6080020736631) {
            ("Solaris Illumos", "Reserved")
        } else if self.is(0x6A96237F, 0x1DD2, 0x11B2, 0x99A6080020736631) {
            (" Solaris Illumos", "Reserved")
        } else if self.is(0x6A8D2AC7, 0x1DD2, 0x11B2, 0x99A6080020736631) {
            ("Solaris Illumos", "Reserved")
        } else if self.is(0x49F48D32, 0xB10E, 0x11DC, 0xB99B0019D1879648) {
            ("NetBSD", "Swap Partition")
        } else if self.is(0x49F48D5A, 0xB10E, 0x11DC, 0xB99B0019D1879648) {
            ("NetBSD", "FFS Partition")
        } else if self.is(0x49F48D82, 0xB10E, 0x11DC, 0xB99B0019D1879648) {
            ("NetBSD", "LFS Partition")
        } else if self.is(0x49F48DAA, 0xB10E, 0x11DC, 0xB99B0019D1879648) {
            ("NetBSD", "RAID Partition")
        } else if self.is(0x2DB519C4, 0xB10F, 0x11DC, 0xB99B0019D1879648) {
            ("NetBSD", "Concatenated Partition")
        } else if self.is(0x2DB519EC, 0xB10F, 0x11DC, 0xB99B0019D1879648) {
            ("NetBSD", "Encrypted Partition")
        } else if self.is(0xFE3A2A5D, 0x4F32, 0x41A7, 0xB725ACCC3285A309) {
            ("ChromeOS", "ChromeOS Kernel")
        } else if self.is(0x3CB8E202, 0x3B7E, 0x47DD, 0x8A3C7FF2A13CFCEC) {
            ("ChromeOS", "ChromeOS rootfs")
        } else if self.is(0x2E0A753D, 0x9E48, 0x43B0, 0x8337B15192CB1B5E) {
            ("ChromeOS", "ChromeOS Future Use")
        } else if self.is(0x5DFBF5F4, 0x2848, 0x4BAC, 0xAA5E0D9A20B745A6) {
            ("ContainerLinux by CoreOS", "/usr partition (coreos-usr)")
        } else if self.is(0x3884DD41, 0x8582, 0x4404, 0xB9A8E9B84F2DF50E) {
            ("ContainerLinux by CoreOS", "Resizable rootfs (coreos-resize)")
        } else if self.is(0xC95DC21A, 0xDF0E, 0x4340, 0x8D7B26CBFA9A03E0) {
            ("ContainerLinux by CoreOS", "OEM customizations (coreos-reserved)")
        } else if self.is(0xBE9067B9, 0xEA49, 0x4F15, 0xB4F6F36F8C9E1818) {
            ("ContainerLinux by CoreOS", "Root filesystem on RAID (coreos-root-raid)")
        } else if self.is(0x42465331, 0x3BA3, 0x10F1, 0x802A4861696B7521) {
            ("Haiku", "Haiku BFS")
        } else if self.is(0x85D5E45E, 0x237C, 0x11E1, 0xB4B3E89A8F7FC3A7) {
            ("MidnightBSD", "Boot Partition")
        } else if self.is(0x85D5E45A, 0x237C, 0x11E1, 0xB4B3E89A8F7FC3A7) {
            ("MidnightBSD", "Data Partition")
        } else if self.is(0x85D5E45B, 0x237C, 0x11E1, 0xB4B3E89A8F7FC3A7) {
            ("MidnightBSD", "Swap Partition")
        } else if self.is(0x0394EF8B, 0x237E, 0x11E1, 0xB4B3E89A8F7FC3A7) {
            ("MidnightBSD", "Unix File System (UFS) Partition")
        } else if self.is(0x85D5E45C, 0x237C, 0x11E1, 0xB4B3E89A8F7FC3A7) {
            ("MidnightBSD", "Vinium Volume Manager Partition")
        } else if self.is(0x85D5E45D, 0x237C, 0x11E1, 0xB4B3E89A8F7FC3A7) {
            ("MidnightBSD", "ZFS Partition")
        } else if self.is(0x45B0969E, 0x9B03, 0x4F30, 0xB4C6B4B80CEFF106) {
            ("Ceph", "Ceph Journal")
        } else if self.is(0x45B0969E, 0x9B03, 0x4F30, 0xB4C65EC00CEFF106) {
            ("Ceph", "Ceph dm-crypt Encryted Journal")
        } else if self.is(0x4FBD7E29, 0x9D25, 0x41B8, 0xAFD0062C0CEFF05D) {
            ("Ceph", "Ceph OSD")
        } else if self.is(0x4FBD7E29, 0x9D25, 0x41B8, 0xAFD05EC00CEFF05D) {
            ("Ceph", "Ceph dm-crypt OSD")
        } else if self.is(0x89C57F98, 0x2FE5, 0x4DC0, 0x89C1F3AD0CEFF2BE) {
            ("Ceph", "Ceph Disk In Creation")
        } else if self.is(0x89C57F98, 0x2FE5, 0x4DC0, 0x89C15EC00CEFF2BE) {
            ("Ceph", "Ceph dm-crypt Disk In Creation")
        } else if self.is(0x824CC7A0, 0x36A8, 0x11E3, 0x890A952519AD3F61) {
            ("OpenBSD", "Data Partition")
        } else if self.is(0xCEF5A9AD, 0x73BC, 0x4601, 0x89F3CDEEEEE321A1) {
            ("QNX", "Power-safe (QNX6) File System")
        } else if self.is(0xC91818F9, 0x8025, 0x47AF, 0x89D2F030D7000C2C) {
            ("Plan 9", "Plan 9 Partition")
        } else if self.is(0x9D275380, 0x40AD, 0x11DB, 0xBF97000C2911D1B8) {
            ("VMware ESX", "vmkcore (coredump partition)")
        } else if self.is(0xAA31E02A, 0x400F, 0x11DB, 0x9590000C2911D1B8) {
            ("VMware ESX", "VMFS Filesystem Partition")
        } else if self.is(0x9198EFFC, 0x31C0, 0x11DB, 0x8F78000C2911D1B8) {
            ("VMware ESX", "VMware Reserved")
        } else if self.is(0x2568845D, 0x2332, 0x4675, 0xBC398FA5A4748D15) {
            ("Android-IA", "Bootloader")
        } else if self.is(0x114EAFFE, 0x1552, 0x4022, 0xB26E9B053604CF84) {
            ("Android-IA", "Bootloader2")
        } else if self.is(0x49A4D17F, 0x93A3, 0x45C1, 0xA0DEF50B2EBE2599) {
            ("Android-IA", "Boot")
        } else if self.is(0x4177C722, 0x9E92, 0x4AAB, 0x864443502BFD5506) {
            ("Android-IA", "Recovery")
        } else if self.is(0xEF32A33B, 0xA409, 0x486C, 0x91419FFB711F6266) {
            ("Android-IA", "Misc")
        } else if self.is(0x20AC26BE, 0x20B7, 0x11E3, 0x84C56CFDB94711E9) {
            ("Android-IA", "Metadata")
        } else if self.is(0x38F428E6, 0xD326, 0x425D, 0x91406E0EA133647C) {
            ("Android-IA", "System")
        } else if self.is(0xA893EF21, 0xE428, 0x470A, 0x9E550668FD91A2D9) {
            ("Android-IA", "Cache")
        } else if self.is(0xDC76DDA9, 0x5AC1, 0x491C, 0xAF42A82591580C0D) {
            ("Android-IA", "Data")
        } else if self.is(0xEBC597D0, 0x2053, 0x4B15, 0x8B64E0AAC75F4DB1) {
            ("Android-IA", "Persistent")
        } else if self.is(0x8F68CC74, 0xC5E5, 0x48DA, 0xBE91A0C8C15E9C80) {
            ("Android-IA", "Factory")
        } else if self.is(0x767941D0, 0x2085, 0x11E3, 0xAD3B6CFDB94711E9) {
            ("Android-IA", "Fastboot/Tertiary")
        } else if self.is(0xAC6D7924, 0xEB71, 0x4DF8, 0xB48DE267B27148FF) {
            ("Android-IA", "OEM")
        } else if self.is(0x7412F7D5, 0xA156, 0x4B13, 0x81DC867174929325) {
            ("ONIE", "Boot")
        } else if self.is(0xD4E6E2CD, 0x4469, 0x46F3, 0xB5CB1BFF57AFC149) {
            ("ONIE", "Config")
        } else if self.is(0x9E1A2D38, 0xC612, 0x4316, 0xAA268B49521E5A8B) {
            ("PowerPC", "PReP Boot")
        } else if self.is(0xBC13C2FF, 0x59E6, 0x4262, 0xA352B275FD6F7172) {
            ("Freedesktop", "Shared Boot Loader Configuration")
        } else if self.is(0x734E5AFE, 0xF61A, 0x11E6, 0xBC6492361F002671) {
            ("Atari TOS", "Basic Data Partition (GEM, BGM, F32)")
        } else {
            ("Unknown", "Unknown")
        }
    }
}

} // verus!
