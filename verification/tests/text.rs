//! Text helpers against what std does.

use lbx::bytes::{be_at, le_at};
use lbx::text::number::{parse_number, parse_usize, push_dec, push_hex_pad};
use lbx::text::split::{pieces, text_lines, text_words};
use lbx::text::utf16::from_utf16;
use lbx::text::{alpha, digit, lower_of, white};
use lbx::Error;

#[test]
fn white_space_is_that_of_unicode() {
    for c in '\0'..=char::MAX {
        assert_eq!(white(c), c.is_whitespace(), "{c:?}");
    }
}

#[test]
fn ascii_classes() {
    for c in '\0'..='\u{ffff}' {
        assert_eq!(digit(c), c.is_ascii_digit(), "{c:?}");
        assert_eq!(alpha(c), c.is_ascii_alphabetic(), "{c:?}");
        assert_eq!(lower_of(c), c.to_ascii_lowercase(), "{c:?}");
    }
}

fn chars(s: &str) -> Vec<char> {
    s.chars().collect()
}

fn texts(v: Vec<&[char]>) -> Vec<String> {
    v.into_iter().map(|s| s.iter().collect()).collect()
}

#[test]
fn splitting_is_that_of_std() {
    for s in ["", "/", "a", "/a//b/", "a\nb\r\n\nc\r", "  x \t y\n", "\u{a0}p\u{3000}q"] {
        let c = chars(s);
        assert_eq!(texts(pieces(&c, '/')), s.split('/').collect::<Vec<_>>(), "{s:?}");
        assert_eq!(texts(text_lines(&c)), s.lines().collect::<Vec<_>>(), "{s:?}");
        assert_eq!(texts(text_words(&c)), s.split_whitespace().collect::<Vec<_>>(), "{s:?}");
    }
}

#[test]
fn numbers_are_read_as_std_does() {
    for s in ["", "+", "-1", "0", "+7", "007", "18446744073709551615", "18446744073709551616", "1 "] {
        let c = chars(s);
        assert_eq!(parse_number(&c, 10, u64::MAX), s.parse::<u64>().ok(), "{s:?}");
        assert_eq!(parse_usize(&c), s.parse::<usize>().ok(), "{s:?}");
    }
    for s in ["", "ff", "FF", "+1f", "g", "ffffffffffffffff", "10000000000000000"] {
        assert_eq!(
            parse_number(&chars(s), 16, u64::MAX),
            u64::from_str_radix(s, 16).ok(),
            "{s:?}"
        );
    }
}

#[test]
fn numbers_are_written_as_std_does() {
    for n in [0u64, 7, 10, 99, 1234567890, u64::MAX] {
        let mut s = String::new();
        push_dec(&mut s, n);
        assert_eq!(s, format!("{n}"));
        let mut s = String::new();
        push_hex_pad(&mut s, n, 4);
        assert_eq!(s, format!("{n:04x}"));
    }
}

#[test]
fn utf16_decodes_as_std_does() {
    let cases: [&[u16]; 4] = [
        &[],
        &[0x62, 0x6f, 0x6f, 0x74],
        &[0xd83d, 0xde00, 0x21],
        &[0xd83d, 0x41, 0xde00, 0xd83d],
    ];
    for c in cases {
        assert_eq!(from_utf16(&c.to_vec()), String::from_utf16_lossy(c));
    }
}

#[test]
fn numbers_in_either_byte_order() {
    let b = [0u8, 1, 2, 3, 4, 5, 6, 7, 8];
    assert_eq!(le_at(&b, 1, 4), 0x04030201);
    assert_eq!(be_at(&b, 1, 8), 0x0102030405060708);
}

#[test]
fn messages_say_what_went_wrong() {
    let cases = [
        (Error::Io("denied".into()), "I/O error: denied"),
        (
            Error::OutOfBounds { offset: 1, len: 2, size: 2 },
            "read out of bounds: offset 1 + len 2 > size 2",
        ),
        (Error::UnknownImageFormat("x".into()), "not a supported disk image: x"),
        (Error::Qcow2("x".into()), "qcow2: x"),
        (Error::Qcow2Unsupported("x".into()), "qcow2 feature not supported yet: x"),
        (Error::Gpt("x".into()), "gpt: x"),
        (
            Error::NoPartitions,
            "no partition table found and whole disk is not a filesystem",
        ),
        (Error::NoSuchPartition(3), "partition 3 does not exist"),
        (Error::UnknownFilesystem(None), "unrecognized filesystem"),
        (
            Error::UnknownFilesystem(Some("xfs")),
            "unrecognized filesystem (detected xfs, not supported yet)",
        ),
        (Error::Ext4("x".into()), "ext4: x"),
        (Error::Vfat("x".into()), "vfat: x"),
        (Error::NotFound("/x".into()), "file not found: /x"),
        (Error::NotADirectory("/x".into()), "not a directory: /x"),
        (
            Error::NoBootArtifacts,
            "no boot artifacts (kernel/initramfs) found in any partition",
        ),
        (Error::Http("x".into()), "http: x"),
        (Error::KernelDecompress("x".into()), "kernel decompression: x"),
    ];
    for (e, text) in cases {
        assert_eq!(e.message(), text);
    }
}
