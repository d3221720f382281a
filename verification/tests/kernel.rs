//! Unwrapping kernels, digests, inflating.

use lbx::digest::{md5_hex, md5_line};
use lbx::kernel::{
    classify, compression, plan, report, to_bootable, Compression, Plan, ARM64_MAGIC_OFFSET,
    COFF_NUM_SECTIONS_AT, COFF_SIZE, PE_HEADER_OFFSET_AT, SECTION_RAW_PTR_AT, SECTION_RAW_SIZE_AT,
    SNIFF_LEN, ZBOOT_COMP_TYPE, ZBOOT_PAYLOAD_OFFSET, ZBOOT_PAYLOAD_SIZE, ZIMG_MAGIC_OFFSET,
};
use std::io::Write;

/// A fake arm64 `Image`: arbitrary bytes with `ARMd` at offset 56.
fn fake_image(len: usize) -> Vec<u8> {
    let mut v = vec![0u8; len.max(ARM64_MAGIC_OFFSET + 4)];
    v[0] = b'M';
    v[1] = b'Z';
    v[ARM64_MAGIC_OFFSET..ARM64_MAGIC_OFFSET + 4].copy_from_slice(b"ARMd");
    v
}

fn gzip(data: &[u8]) -> Vec<u8> {
    let mut e = flate2::write::GzEncoder::new(Vec::new(), flate2::Compression::fast());
    e.write_all(data).unwrap();
    e.finish().unwrap()
}

/// Minimal EFI zboot wrapper around an already-compressed payload.
fn zboot(codec: &str, payload: &[u8]) -> Vec<u8> {
    let payload_off: u32 = 64;
    let mut v = vec![0u8; payload_off as usize];
    v[0..2].copy_from_slice(b"MZ");
    v[ZIMG_MAGIC_OFFSET..ZIMG_MAGIC_OFFSET + 4].copy_from_slice(b"zimg");
    v[ZBOOT_PAYLOAD_OFFSET..ZBOOT_PAYLOAD_OFFSET + 4].copy_from_slice(&payload_off.to_le_bytes());
    v[ZBOOT_PAYLOAD_SIZE..ZBOOT_PAYLOAD_SIZE + 4]
        .copy_from_slice(&(payload.len() as u32).to_le_bytes());
    let name = codec.as_bytes();
    v[ZBOOT_COMP_TYPE..ZBOOT_COMP_TYPE + name.len()].copy_from_slice(name);
    v.extend_from_slice(payload);
    v
}

/// Minimal systemd-stub UKI: a PE with a single `.linux` section whose
/// raw data is `linux` (itself raw/gzip/zboot).
fn uki(linux: &[u8]) -> Vec<u8> {
    let pe_off = 0x80usize;
    let coff = pe_off + 4;
    let table = coff + COFF_SIZE; // optional header size left 0
    let payload_off = 0x100usize;
    let mut v = vec![0u8; payload_off];
    v[0..2].copy_from_slice(b"MZ");
    v[PE_HEADER_OFFSET_AT..PE_HEADER_OFFSET_AT + 4].copy_from_slice(&(pe_off as u32).to_le_bytes());
    v[pe_off..pe_off + 4].copy_from_slice(b"PE\0\0");
    v[coff..coff + 2].copy_from_slice(&0xaa64u16.to_le_bytes()); // ARM64
    v[coff + COFF_NUM_SECTIONS_AT..coff + COFF_NUM_SECTIONS_AT + 2]
        .copy_from_slice(&1u16.to_le_bytes());
    v[table..table + 8].copy_from_slice(b".linux\0\0");
    v[table + SECTION_RAW_SIZE_AT..table + SECTION_RAW_SIZE_AT + 4]
        .copy_from_slice(&(linux.len() as u32).to_le_bytes());
    v[table + SECTION_RAW_PTR_AT..table + SECTION_RAW_PTR_AT + 4]
        .copy_from_slice(&(payload_off as u32).to_le_bytes());
    v.extend_from_slice(linux);
    v
}

#[test]
fn uki_unwraps_linux_section() {
    let img = fake_image(2048);
    // .linux as gzip Image.gz (the newer Ubuntu arm64 case)...
    let u = uki(&gzip(&img));
    assert_eq!(compression(&u), Some(Compression::Uki));
    assert_eq!(to_bootable(u).unwrap(), img);
    // ...as a raw Image...
    let u = uki(&img);
    assert_eq!(compression(&u), Some(Compression::Uki));
    assert_eq!(to_bootable(u).unwrap(), img);
    // ...and as a nested zboot (UKI → zboot → gzip → Image).
    let u = uki(&zboot("gzip", &gzip(&img)));
    assert_eq!(to_bootable(u).unwrap(), img);
}

#[test]
fn raw_image_needs_nothing() {
    let img = fake_image(1024);
    assert_eq!(compression(&img), None);
    assert_eq!(to_bootable(img.clone()).unwrap(), img);
}

#[test]
fn x86_and_unknown_left_alone() {
    // bzImage-ish: "MZ\0\0" but no zimg, no ARMd.
    let mut bz = vec![0u8; 1024];
    bz[0..4].copy_from_slice(&[0x4d, 0x5a, 0x00, 0x00]);
    assert_eq!(compression(&bz), None);
    assert_eq!(to_bootable(bz.clone()).unwrap(), bz);
}

#[test]
fn gzip_image_round_trips() {
    let img = fake_image(2048);
    let gz = gzip(&img);
    assert_eq!(compression(&gz), Some(Compression::Gzip));
    assert_eq!(to_bootable(gz).unwrap(), img);
}

#[test]
fn gzip_non_kernel_is_not_a_kernel() {
    // A gzip that doesn't wrap an Image (e.g. an initramfs) is ignored.
    let gz = gzip(b"not a kernel, just some cpio bytes \x07\x07\x07");
    assert_eq!(compression(&gz), None);
    let clone = gz.clone();
    assert_eq!(to_bootable(gz).unwrap(), clone); // verbatim
}

#[test]
fn zboot_gzip_and_zstd() {
    let img = fake_image(4096);
    let gz = zboot("gzip", &gzip(&img));
    assert_eq!(compression(&gz), Some(Compression::Zboot("gzip".into())));
    assert_eq!(to_bootable(gz).unwrap(), img);

    let zpayload = ruzstd::encoding::compress_to_vec(
        &img[..],
        ruzstd::encoding::CompressionLevel::Fastest,
    );
    let zb = zboot("zstd", &zpayload);
    assert_eq!(compression(&zb), Some(Compression::Zboot("zstd".into())));
    assert_eq!(to_bootable(zb).unwrap(), img);
}

#[test]
fn zboot_unsupported_codec_errors() {
    let zb = zboot("lzo", &[1, 2, 3, 4]);
    // Reported honestly by compression()...
    assert_eq!(compression(&zb), Some(Compression::Zboot("lzo".into())));
    // ...but unwrapping fails clearly rather than silently passing through.
    assert!(to_bootable(zb).is_err());
}

#[test]
fn labels_name_the_wrapper() {
    assert_eq!(Compression::Gzip.label(), "gzip");
    assert_eq!(Compression::Zboot("zstd".into()).label(), "zboot+zstd");
    assert_eq!(Compression::Uki.label(), "uki");
}

#[test]
fn a_prefix_tells_the_wrapper() {
    let big = uki(&fake_image(SNIFF_LEN * 2));
    assert_eq!(compression(&big[..SNIFF_LEN]), Some(Compression::Uki));
    let raw = fake_image(SNIFF_LEN * 2);
    assert_eq!(compression(&raw[..SNIFF_LEN]), None);
}

#[test]
fn plans_stay_within_the_image() {
    // A payload that ends behind the file.
    let mut zb = zboot("gzip", &[1, 2, 3, 4]);
    zb[ZBOOT_PAYLOAD_SIZE..ZBOOT_PAYLOAD_SIZE + 4].copy_from_slice(&100u32.to_le_bytes());
    assert!(plan(&zb, &Some(Compression::Zboot("gzip".into()))).is_err());
    let zb = zboot("gzip", &[1, 2, 3, 4]);
    assert_eq!(
        plan(&zb, &Some(Compression::Zboot("gzip".into()))).unwrap(),
        Plan::Gunzip { from: 64, to: 68 }
    );
    let img = fake_image(64);
    assert_eq!(plan(&img, &None).unwrap(), Plan::Verbatim);
    assert_eq!(plan(&img, &Some(Compression::Gzip)).unwrap(), Plan::Gunzip { from: 0, to: 64 });
}

#[test]
fn broken_payloads_are_reported() {
    let zb = zboot("gzip", &[1, 2, 3, 4]);
    let e = to_bootable(zb).unwrap_err().message();
    assert!(e.starts_with("kernel decompression: "), "{e}");
    let zb = zboot("zstd", &[1, 2, 3, 4]);
    assert!(to_bootable(zb).is_err());
    assert_eq!(
        report("gzip", Err("corrupt".into())).unwrap_err().message(),
        "kernel decompression: gzip: corrupt"
    );
    assert_eq!(report("gzip", Ok(vec![1])).unwrap(), vec![1]);
}

#[test]
fn a_gzip_member_counts_only_as_an_image() {
    let img = fake_image(64);
    let gz = gzip(&img);
    assert_eq!(classify(&gz, Some(img[..60].to_vec())), Some(Compression::Gzip));
    assert_eq!(classify(&gz, Some(vec![0u8; 60])), None);
    assert_eq!(classify(&gz, None), None);
}

#[test]
fn digests_are_those_of_md5sum() {
    assert_eq!(md5_hex(b""), "d41d8cd98f00b204e9800998ecf8427e");
    assert_eq!(md5_hex(b"message digest"), "f96b697d7cb7938d525a2f31aaf161d0");
    assert_eq!(
        md5_line(b"abc", "p2:/vmlinuz"),
        "900150983cd24fb0d6963f7d28e17f72  p2:/vmlinuz"
    );
}

/// A frame of a stored block and one of `n` sequences, all with the same codes
/// of offset and match length, which take 16 more bits for each.
fn many_sequences(stored: &[u8], n: usize, of_code: u8, ml_code: u8, bits: u8) -> Vec<u8> {
    let mut v = vec![0x28, 0xb5, 0x2f, 0xfd, 0, 0x40];
    v.extend_from_slice(&((stored.len() as u32) << 3).to_le_bytes()[..3]);
    v.extend_from_slice(stored);
    let size = 1 + 4 + 3 + 2 * n + 1;
    v.extend_from_slice(&(((size as u32) << 3) | 5).to_le_bytes()[..3]);
    let rest = n - 0x7f00;
    v.extend_from_slice(&[0, 0xff, rest as u8, (rest >> 8) as u8, 0x54, 0, of_code, ml_code]);
    v.resize(v.len() + 2 * n, bits);
    v.push(1);
    v
}

#[test]
fn blocks_of_many_sequences_are_decoded() {
    let stored = fake_image(70_000);
    // Each copies three bytes from 65,533 back.
    let frame = many_sequences(&stored, 33_000, 16, 0, 0);
    let mut want = stored;
    for _ in 0..99_000 {
        want.push(want[want.len() - 65_533]);
    }
    assert_eq!(to_bootable(zboot("zstd", &frame)).unwrap(), want);
}

#[test]
fn blocks_that_copy_too_much_are_refused() {
    // Each copies 131,074 bytes.
    let frame = many_sequences(&[7; 8], 33_000, 0, 52, 0xff);
    let e = to_bootable(zboot("zstd", &frame)).unwrap_err().message();
    assert!(e.starts_with("kernel decompression: zstd: "), "{e}");
}

#[test]
fn what_leads_to_an_image_ends_in_one() {
    let img = fake_image(1000);
    for k in [img.clone(), gzip(&img), zboot("gzip", &gzip(&img)), uki(&gzip(&img))] {
        let raw = to_bootable(k).unwrap();
        assert_eq!(compression(&raw), None);
        assert_eq!(raw[ARM64_MAGIC_OFFSET..ARM64_MAGIC_OFFSET + 4], *b"ARMd");
    }
    // A wrapper may hold something else, which comes out as it is.
    let raw = to_bootable(zboot("gzip", &gzip(b"text"))).unwrap();
    assert_eq!(raw, b"text");
}
