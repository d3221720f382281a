//! Devices, disk images, partition tables, filesystem types.

use lbx::blockdev::{read_vec, IoAdapter, ReadAt, SeekTo, Slice};
use lbx::disk::inflate::inflate;
use lbx::disk::qcow2::{Backing, Qcow2};
use lbx::disk::{backing_error, check_depth, DiskImage};
use lbx::fsys::detect::driver;
use lbx::fsys::names::{drop_dots, ext_label, fat_label, file_kind, normalize};
use lbx::fsys::{detect, driver_for, DirEntry, Driver, FileKind};
use lbx::part::{self, TableKind};
use lbx::source::remote::ByteStream;
use lbx::source::resolve_relative;
use lbx::Error;
use std::io::Write;
use std::sync::Arc;

fn blob(n: usize) -> Vec<u8> {
    (0..n).map(|i| (i % 251) as u8).collect()
}

// --- devices ---

#[test]
fn devices_read_exactly_or_fail() {
    let dev = blob(1000);
    assert_eq!(read_vec(&dev, 10, 5).unwrap(), dev[10..15]);
    assert_eq!(dev.size(), 1000);
    assert!(read_vec(&dev, 999, 1).is_ok());
    let e = read_vec(&dev, 999, 2).unwrap_err();
    assert_eq!(e.message(), "read out of bounds: offset 999 + len 2 > size 1000");
    assert!(dev.check_bounds(u64::MAX, 1).is_err());
    assert!(dev.check_bounds(1000, 0).is_ok());
}

#[test]
fn two_reads_join_to_one() {
    let dev = blob(1000);
    let mut both = read_vec(&dev, 100, 7).unwrap();
    both.extend(read_vec(&dev, 107, 9).unwrap());
    assert_eq!(both, read_vec(&dev, 100, 16).unwrap());
}

#[test]
fn a_slice_reads_its_parent() {
    let dev = Arc::new(blob(1000));
    let s = Slice::new(dev.clone(), 100, 50);
    assert_eq!(s.size(), 50);
    assert_eq!(read_vec(&s, 5, 10).unwrap(), dev[105..115]);
    assert!(read_vec(&s, 45, 6).is_err());
    // One that leaves its parent can be read only where the parent can.
    let s = Slice::new(dev.clone(), 990, 50);
    assert_eq!(read_vec(&s, 0, 10).unwrap(), dev[990..]);
    assert!(read_vec(&s, 5, 10).is_err());
}

#[test]
fn a_stream_over_a_device_moves_and_refuses_writes() {
    let dev = blob(100);
    let mut io = IoAdapter::new(dev.clone());
    let mut buf = [0u8; 60];
    assert_eq!(io.read(&mut buf).unwrap(), 60);
    assert_eq!(buf, dev[..60]);
    assert_eq!(io.read(&mut buf).unwrap(), 40);
    assert_eq!(buf[..40], dev[60..]);
    assert_eq!(io.read(&mut buf).unwrap(), 0);
    assert_eq!(io.seek(SeekTo::Start(10)).unwrap(), 10);
    assert_eq!(io.seek(SeekTo::Current(-5)).unwrap(), 5);
    assert_eq!(io.seek(SeekTo::End(-1)).unwrap(), 99);
    assert_eq!(io.seek(SeekTo::End(-101)).unwrap_err().message(), "I/O error: seek before start");
    assert_eq!(io.read(&mut buf).unwrap(), 1);
    assert_eq!(buf[0], dev[99]);
    assert_eq!(io.write(&[1]).unwrap_err().message(), "I/O error: device is read-only");
}

#[test]
fn a_device_streams_from_its_position_on() {
    let dev = blob(100);
    let mut io = IoAdapter::new(dev.clone());
    io.seek(SeekTo::Start(90)).unwrap();
    assert_eq!(ByteStream::read(&mut io, 4).unwrap(), dev[90..94]);
    assert_eq!(ByteStream::read(&mut io, 40).unwrap(), dev[94..]);
    assert_eq!(ByteStream::read(&mut io, 40).unwrap(), Vec::<u8>::new());
}

/// A read out of range fails with the numbers of the call, and leaves the
/// buffer alone.
fn refuses<D: ReadAt>(dev: &D, at: u64, n: usize, end: u64) {
    let mut buf = vec![0xa5u8; n];
    match dev.read_at(at, &mut buf) {
        Err(Error::OutOfBounds { offset, len, size }) => {
            assert_eq!((offset, len, size), (at, n, end))
        }
        other => panic!("{other:?}"),
    }
    assert_eq!(buf, vec![0xa5u8; n]);
}

#[test]
fn reads_out_of_range_name_the_range() {
    let dev = Arc::new(blob(1000));
    let s = Slice::new(dev.clone(), 100, 50);
    refuses(&s, 45, 6, 50);
    refuses(&s, 51, 0, 50);
    refuses(&s, u64::MAX, 2, 50);
    assert!(s.read_at(50, &mut []).is_ok());
    let q = Qcow2::open(image("")).unwrap();
    refuses(&q, 2047, 2, 2048);
    refuses(&q, u64::MAX, 1, 2048);
    refuses(&DiskImage::open(image("")).unwrap(), 2000, 49, 2048);
}

// --- disk images ---

fn deflate(data: &[u8]) -> Vec<u8> {
    let mut e = flate2::write::DeflateEncoder::new(Vec::new(), flate2::Compression::fast());
    e.write_all(data).unwrap();
    e.finish().unwrap()
}

const COMPRESSED: u64 = 1 << 62;

/// A version 2 image of four 512-byte clusters: one with data, one absent,
/// one compressed, one absent.
fn image(backing: &str) -> Vec<u8> {
    let mut v = vec![0u8; 2560];
    v[0..4].copy_from_slice(b"QFI\xfb");
    v[4..8].copy_from_slice(&2u32.to_be_bytes());
    if !backing.is_empty() {
        v[8..16].copy_from_slice(&100u64.to_be_bytes());
        v[16..20].copy_from_slice(&(backing.len() as u32).to_be_bytes());
        v[100..100 + backing.len()].copy_from_slice(backing.as_bytes());
    }
    v[20..24].copy_from_slice(&9u32.to_be_bytes()); // cluster bits
    v[24..32].copy_from_slice(&2048u64.to_be_bytes()); // virtual size
    v[36..40].copy_from_slice(&1u32.to_be_bytes()); // L1 entries
    v[40..48].copy_from_slice(&512u64.to_be_bytes()); // L1 offset
    v[512..520].copy_from_slice(&(1u64 << 63 | 1024).to_be_bytes());
    v[1024..1032].copy_from_slice(&(1u64 << 63 | 1536).to_be_bytes());
    v[1040..1048].copy_from_slice(&(COMPRESSED | 2048).to_be_bytes());
    v[1536..2048].copy_from_slice(&[7u8; 512]);
    let packed = deflate(&[9u8; 512]);
    v[2048..2048 + packed.len()].copy_from_slice(&packed);
    v
}

#[test]
fn qcow2_clusters_are_mapped() {
    let disk = DiskImage::open(image("")).unwrap();
    assert_eq!(disk.format(), "qcow2");
    assert_eq!(disk.size(), 2048);
    let all = read_vec(&disk, 0, 2048).unwrap();
    assert_eq!(all[..512], [7u8; 512]);
    assert_eq!(all[512..1024], [0u8; 512]);
    assert_eq!(all[1024..1536], [9u8; 512]);
    assert_eq!(all[1536..], [0u8; 512]);
    // Across clusters, and again from the kept one.
    let part = read_vec(&disk, 1020, 8).unwrap();
    assert_eq!(part, [0, 0, 0, 0, 9, 9, 9, 9]);
    assert!(read_vec(&disk, 2047, 2).is_err());
}

#[test]
fn inflated_clusters_are_kept_by_their_offset() {
    // Two entries for the same compressed bytes: one says that they span two
    // sectors, the other one, which is too few of them.
    let data = blob(512);
    let mut packed = vec![1, 0x00, 0x02, 0xff, 0xfd]; // one stored block
    packed.extend_from_slice(&data);
    let mut v = image("");
    v.resize(3072, 0);
    v[2048..2048 + packed.len()].copy_from_slice(&packed);
    v[1040..1048].copy_from_slice(&(COMPRESSED | 1 << 61 | 2048).to_be_bytes());
    v[1048..1056].copy_from_slice(&(COMPRESSED | 2048).to_be_bytes());
    let disk = DiskImage::open(v).unwrap();
    assert!(read_vec(&disk, 1536, 512).is_err());
    assert_eq!(read_vec(&disk, 1024, 512).unwrap(), data);
    assert_eq!(read_vec(&disk, 1536, 512).unwrap(), data);
}

#[test]
fn absent_clusters_come_from_the_backing_image() {
    let disk = DiskImage::open(image("base.img")).unwrap();
    assert_eq!(disk.backing_file(), Some("base.img"));
    // A backing image may be shorter than what it backs.
    let base = vec![5u8; 1000];
    let disk = disk.with_backing(Backing { dev: Box::new(base) });
    let all = read_vec(&disk, 0, 2048).unwrap();
    assert_eq!(all[..512], [7u8; 512]);
    assert_eq!(all[512..1000], [5u8; 488]);
    assert_eq!(all[1000..1024], [0u8; 24]);
    assert_eq!(all[1024..1536], [9u8; 512]);
    assert_eq!(all[1536..], [0u8; 512]);
}

#[test]
fn compressed_clusters_are_noticed() {
    assert!(Qcow2::open(image("")).unwrap().has_compressed_clusters().unwrap());
    let mut plain = image("");
    plain[1040..1048].copy_from_slice(&0u64.to_be_bytes());
    assert!(!Qcow2::open(plain).unwrap().has_compressed_clusters().unwrap());
}

#[test]
fn unsupported_images_are_refused() {
    let mut v = image("");
    v[4..8].copy_from_slice(&9u32.to_be_bytes());
    assert!(Qcow2::open(v).is_err());
    let mut v = image("");
    v[32..36].copy_from_slice(&1u32.to_be_bytes()); // encryption
    let e = Qcow2::open(v).err().unwrap().message();
    assert!(e.starts_with("qcow2 feature not supported yet: "), "{e}");
    let mut v = image("");
    v[20..24].copy_from_slice(&30u32.to_be_bytes());
    let e = Qcow2::open(v).err().unwrap().message();
    assert!(e.starts_with("qcow2: "), "{e}");
    assert!(Qcow2::open(vec![0u8; 10]).is_err());
}

#[test]
fn anything_else_is_raw() {
    let disk = DiskImage::open(blob(100)).unwrap();
    assert_eq!(disk.format(), "raw");
    assert_eq!(disk.backing_file(), None);
    assert_eq!(read_vec(&disk, 0, 100).unwrap(), blob(100));
    assert_eq!(DiskImage::open(vec![1u8, 2]).unwrap().format(), "raw");
}

#[test]
fn backing_files_stand_beside_the_image() {
    assert_eq!(resolve_relative("/images/disk.qcow2", "base.img"), "/images/base.img");
    assert_eq!(resolve_relative("/images/disk.qcow2", "/abs/base.img"), "/abs/base.img");
    assert_eq!(resolve_relative("disk.qcow2", "base.img"), "base.img");
    assert!(check_depth(8).is_ok());
    assert_eq!(
        check_depth(9).unwrap_err().message(),
        "qcow2: backing file chain too deep (loop?)"
    );
    assert_eq!(
        backing_error("/a", &Error::NoPartitions).message(),
        "qcow2: opening backing file /a: no partition table found and whole disk is not a filesystem"
    );
}

#[test]
fn clusters_inflate_to_their_size() {
    let data = blob(4096);
    assert_eq!(inflate(&deflate(&data), 4096, 0).unwrap(), data);
    // What is left of a larger stream is not looked at.
    assert_eq!(inflate(&deflate(&data), 1000, 0).unwrap(), data[..1000]);
    // A stream that ends before that is an error, and so is garbage.
    assert!(inflate(&deflate(&data), 5000, 0).is_err());
    assert!(inflate(&[0xff; 64], 512, 0).is_err());
}

// --- partition tables ---

/// The on-disk form of a GUID.
fn guid(s: &str) -> Vec<u8> {
    let hex: Vec<u8> = s.bytes().filter(|b| *b != b'-').collect();
    let b: Vec<u8> = hex
        .chunks(2)
        .map(|c| u8::from_str_radix(std::str::from_utf8(c).unwrap(), 16).unwrap())
        .collect();
    let order = [3, 2, 1, 0, 5, 4, 7, 6, 8, 9, 10, 11, 12, 13, 14, 15];
    order.iter().map(|&i| b[i]).collect()
}

fn gpt_disk() -> Vec<u8> {
    let mut d = vec![0u8; 512 * 100];
    d[512..520].copy_from_slice(b"EFI PART");
    d[512 + 72..512 + 80].copy_from_slice(&2u64.to_le_bytes());
    d[512 + 80..512 + 84].copy_from_slice(&4u32.to_le_bytes());
    d[512 + 84..512 + 88].copy_from_slice(&128u32.to_le_bytes());
    let e = 1024;
    d[e..e + 16].copy_from_slice(&guid("c12a7328-f81f-11d2-ba4b-00a0c93ec93b"));
    d[e + 16..e + 32].copy_from_slice(&guid("01234567-89ab-cdef-0123-456789abcdef"));
    d[e + 32..e + 40].copy_from_slice(&34u64.to_le_bytes());
    d[e + 40..e + 48].copy_from_slice(&43u64.to_le_bytes());
    let name: Vec<u8> = "boot \u{1f600}".encode_utf16().flat_map(|u| u.to_le_bytes()).collect();
    d[e + 56..e + 56 + name.len()].copy_from_slice(&name);
    let e = 1024 + 256; // the third slot
    d[e..e + 16].copy_from_slice(&guid("11111111-2222-3333-4444-555555555555"));
    d[e + 32..e + 40].copy_from_slice(&50u64.to_le_bytes());
    d[e + 40..e + 48].copy_from_slice(&50u64.to_le_bytes());
    d
}

#[test]
fn gpt_slots_become_partitions() {
    let table = part::scan(&gpt_disk()).unwrap();
    assert_eq!(table.kind, TableKind::Gpt);
    assert_eq!(table.partitions.len(), 2);
    let p = &table.partitions[0];
    assert_eq!(p.index, 1);
    assert_eq!(p.start_byte, 34 * 512);
    assert_eq!(p.size_bytes, 10 * 512);
    assert_eq!(p.kind, "EFI System");
    assert_eq!(p.type_id, "c12a7328-f81f-11d2-ba4b-00a0c93ec93b");
    assert_eq!(p.name.as_deref(), Some("boot \u{1f600}"));
    assert!(p.probe_worthy);
    assert_eq!(p.part_uuid.as_deref(), Some("01234567-89ab-cdef-0123-456789abcdef"));
    let p = &table.partitions[1];
    assert_eq!(p.index, 3);
    assert_eq!(p.size_bytes, 512);
    assert_eq!(p.kind, "11111111-2222-3333-4444-555555555555");
    assert!(!p.probe_worthy);
    assert_eq!(p.part_uuid, None);
    assert_eq!(p.name, None);
}

#[test]
fn implausible_gpt_is_refused() {
    let mut d = gpt_disk();
    d[512 + 84..512 + 88].copy_from_slice(&64u32.to_le_bytes());
    assert_eq!(
        part::scan(&d).unwrap_err().message(),
        "gpt: implausible GPT: 4 entries of 64 bytes"
    );
}

fn mbr_entry(sector: &mut [u8], slot: usize, kind: u8, start: u32, sectors: u32) {
    let e = 446 + slot * 16;
    sector[e + 4] = kind;
    sector[e + 8..e + 12].copy_from_slice(&start.to_le_bytes());
    sector[e + 12..e + 16].copy_from_slice(&sectors.to_le_bytes());
    sector[510] = 0x55;
    sector[511] = 0xaa;
}

#[test]
fn mbr_and_its_logical_partitions() {
    let mut d = vec![0u8; 512 * 200];
    d[440..444].copy_from_slice(&0xdeadbeefu32.to_le_bytes());
    mbr_entry(&mut d[..512], 0, 0x83, 10, 20);
    mbr_entry(&mut d[..512], 1, 0x05, 100, 100);
    mbr_entry(&mut d[512 * 100..512 * 101], 0, 0x0c, 1, 5);
    mbr_entry(&mut d[512 * 100..512 * 101], 1, 0x05, 10, 20);
    mbr_entry(&mut d[512 * 110..512 * 111], 0, 0x42, 2, 6);
    let table = part::scan(&d).unwrap();
    assert_eq!(table.kind, TableKind::Mbr);
    let found: Vec<(usize, u64, u64, &str, &str, Option<&str>)> = table
        .partitions
        .iter()
        .map(|p| {
            (
                p.index,
                p.start_byte / 512,
                p.size_bytes / 512,
                p.kind.as_str(),
                p.type_id.as_str(),
                p.part_uuid.as_deref(),
            )
        })
        .collect();
    assert_eq!(
        found,
        vec![
            (1, 10, 20, "Linux", "0x83", Some("deadbeef-01")),
            (5, 101, 5, "FAT32", "0x0c", Some("deadbeef-05")),
            (6, 112, 6, "0x42", "0x42", Some("deadbeef-06")),
        ]
    );
}

#[test]
fn a_disk_without_a_table_is_one_partition() {
    let table = part::scan(&blob(3000)).unwrap();
    assert_eq!(table.kind, TableKind::NoTable);
    assert_eq!(table.partitions.len(), 1);
    assert_eq!(table.partitions[0].kind, "whole disk");
    assert_eq!(table.partitions[0].size_bytes, 3000);
}

#[test]
fn partitions_open_as_devices() {
    let disk = Arc::new(gpt_disk());
    let table = part::scan(disk.as_ref()).unwrap();
    let dev = table.partitions[0].open(disk.clone());
    assert_eq!(dev.size(), 5120);
    assert_eq!(read_vec(&dev, 0, 16).unwrap(), disk[34 * 512..34 * 512 + 16]);
}

// --- filesystem types ---

#[test]
fn filesystems_are_told_by_their_magic() {
    assert_eq!(detect(&vec![0u8; 70000]).unwrap(), None);
    let mut d = vec![0u8; 70000];
    d[1024 + 56..1024 + 58].copy_from_slice(&[0x53, 0xef]);
    assert_eq!(detect(&d).unwrap(), Some("ext4"));
    assert!(matches!(driver_for(&d), Ok(Driver::Ext4)));
    let mut d = vec![0u8; 70000];
    d[..4].copy_from_slice(b"XFSB");
    assert_eq!(detect(&d).unwrap(), Some("xfs"));
    d[..4].copy_from_slice(b"hsqs");
    assert_eq!(detect(&d).unwrap(), Some("squashfs"));
    let mut d = vec![0u8; 70000];
    d[0x10040..0x10048].copy_from_slice(b"_BHRfS_M");
    assert_eq!(detect(&d).unwrap(), Some("btrfs"));
    assert_eq!(
        driver_for(&d).err().unwrap().message(),
        "unrecognized filesystem (detected btrfs, not supported yet)"
    );
    let mut d = vec![0u8; 512];
    d[0] = 0xeb;
    d[82..90].copy_from_slice(b"FAT32   ");
    assert_eq!(detect(&d).unwrap(), Some("vfat"));
    assert!(matches!(driver_for(&d), Ok(Driver::Vfat)));
    // A boot sector names the file system behind its jump.
    let mut d = vec![0u8; 512];
    d[3..11].copy_from_slice(b"NTFS    ");
    assert_eq!(detect(&d).unwrap(), Some("ntfs"));
    d[3..11].copy_from_slice(b"ReFS\0\0\0\0");
    assert_eq!(detect(&d).unwrap(), Some("refs"));
    d[10] = 1;
    assert_eq!(detect(&d).unwrap(), None);
    assert_eq!(detect(&vec![0u8; 10]).unwrap(), None);
    assert_eq!(driver(None).err().unwrap().message(), "unrecognized filesystem");
}

#[test]
fn names_and_labels() {
    let e = |name: &str| DirEntry { name: name.into(), kind: FileKind::Dir, size: 0 };
    let left = drop_dots(vec![e("."), e("boot"), e(".."), e(".hidden")]);
    let names: Vec<&str> = left.iter().map(|e| e.name.as_str()).collect();
    assert_eq!(names, vec!["boot", ".hidden"]);
    assert_eq!(file_kind(true, false, false), FileKind::File);
    assert_eq!(file_kind(false, true, false), FileKind::Dir);
    assert_eq!(file_kind(false, false, true), FileKind::Symlink);
    assert_eq!(file_kind(false, false, false), FileKind::Other);
    assert_eq!(ext_label(""), None);
    assert_eq!(ext_label("root").as_deref(), Some("root"));
    assert_eq!(fat_label("EFI        ").as_deref(), Some("EFI"));
    assert_eq!(fat_label("  "), None);
    assert_eq!(normalize("/EFI/BOOT"), "EFI/BOOT");
}
