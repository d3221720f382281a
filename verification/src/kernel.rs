//! Unwrap a distro `vmlinuz` into a raw, direct-bootable arm64 `Image`.
//!
//! A direct-kernel-boot VMM (crosvm, `qemu -kernel`) loads the kernel
//! itself, with no bootloader in front of it. On arm64 it needs the raw
//! `Image`: a 64-byte header whose magic `ARMd` sits at offset 0x38. But
//! distros don't ship that as `vmlinuz` - normally GRUB or the EFI stub
//! decompresses the kernel at boot, so the on-disk `vmlinuz` is wrapped:
//!
//!   * plain **gzip** of the `Image` (`Image.gz`) - Debian/Ubuntu arm64;
//!   * **EFI zboot**: a small PE shell (marker `zimg` at offset 4) carrying
//!     a gzip/zstd/... compressed `Image` as its payload - Fedora arm64;
//!   * a **UKI** (systemd-stub Unified Kernel Image): a PE/EFI executable
//!     bundling kernel + initrd + cmdline + DTBs, with the real kernel in a
//!     `.linux` PE section (itself usually gzip/zboot) - newer Ubuntu arm64.
//!
//! An x86 `vmlinuz` is a self-extracting `bzImage` the VMM already groks,
//! and some arm64 images ship the raw `Image` directly; both are left
//! untouched. Unwrapping recurses: a UKI's `.linux` is unwrapped again.
//!
//! This module is deliberately split in two so a caller can extract bytes
//! verbatim and decide for itself when to unwrap: [`compression`] *reports*
//! the wrapper an image uses (cheaply, from a header prefix), and
//! [`to_bootable`] *performs* the unwrapping only when asked.

use crate::bytes::{
    field, has_at, law_fields_are_numbers, le, le_at, lemma_spans, small16, small32,
};
use crate::error::{Error, ErrorView, Result};
use crate::text::number::{dec, push_dec};
use crate::text::split::{has_prefix, starts_with};
use crate::text::{chars, opt, utf8};
use std::io::Read;
use vstd::prelude::*;
use vstd::slice::slice_subrange;
use vstd::string::*;
use vstd::utf8::{decode_utf8, valid_utf8};

verus! {

broadcast use vstd::seq_lib::group_seq_properties;

/// arm64 `Image` header: little-endian u32 magic `0x644d5241` (`"ARMd"`)
/// at byte offset 56.
pub const ARM64_MAGIC_OFFSET: usize = 56;

/// Where the magic ends.
pub const ARM64_MAGIC_END: usize = 60;

// EFI zboot header (`Documentation/arch/arm64/booting.rst`): `"MZ"`, then a
// `"zimg"` marker at offset 4, the payload's offset and size as u32 LE at
// offsets 8 and 12, and a NUL-padded compression-type name at offset 24.
pub const ZIMG_MAGIC_OFFSET: usize = 4;

pub const ZBOOT_PAYLOAD_OFFSET: usize = 8;

pub const ZBOOT_PAYLOAD_SIZE: usize = 12;

pub const ZBOOT_COMP_TYPE: usize = 24;

pub const ZBOOT_COMP_TYPE_LEN: usize = 32;

// PE/COFF (used by both raw arm64 `Image`s and UKIs): `"MZ"` at 0, the PE
// header offset as u32 LE at 0x3c, then `"PE\0\0"` and the COFF header
// (section count at +2, optional-header size at +16, section table after).
pub const PE_HEADER_OFFSET_AT: usize = 0x3c;

pub const COFF_NUM_SECTIONS_AT: usize = 2;

pub const COFF_OPT_HEADER_SIZE_AT: usize = 16;

pub const COFF_SIZE: usize = 20;

/// `SizeOfRawData` within a section header.
pub const SECTION_RAW_SIZE_AT: usize = 16;

/// `PointerToRawData`.
pub const SECTION_RAW_PTR_AT: usize = 20;

/// Smallest prefix [`compression`] needs to classify an image: enough for a
/// whole zboot header, a gzip member inflated past the arm64 magic, and a
/// PE section table (to spot a UKI's `.linux` section). Callers sniffing a
/// kernel only have to read this many bytes, not the whole file.
pub const SNIFF_LEN: usize = 8192;

/// How deep wrappers may nest.
pub const MAX_DEPTH: u32 = 3;

/// `ARMd`.
pub open spec fn arm64_magic() -> Seq<u8> {
    seq![0x41u8, 0x52u8, 0x4du8, 0x64u8]
}

/// `zimg`.
pub open spec fn zimg_magic() -> Seq<u8> {
    seq![0x7au8, 0x69u8, 0x6du8, 0x67u8]
}

/// `MZ`.
pub open spec fn mz_magic() -> Seq<u8> {
    seq![0x4du8, 0x5au8]
}

/// `PE\0\0`.
pub open spec fn pe_magic() -> Seq<u8> {
    seq![0x50u8, 0x45u8, 0u8, 0u8]
}

/// The name of the section that holds the kernel in a UKI: `.linux\0\0`.
pub open spec fn linux_section() -> Seq<u8> {
    seq![0x2eu8, 0x6cu8, 0x69u8, 0x6eu8, 0x75u8, 0x78u8, 0u8, 0u8]
}

/// How a `vmlinuz` is wrapped, when it needs unwrapping before a VMM can
/// direct-boot it.
#[derive(Debug, Clone, PartialEq, Eq)]
pub enum Compression {
    /// Plain gzip of an arm64 `Image` (`Image.gz`).
    Gzip,
    /// EFI zboot PE shell; the string is the payload's codec name as the
    /// header declares it (e.g. `"gzip"`, `"zstd"`, `"lzma"`).
    Zboot(String),
    /// systemd-stub UKI; the kernel is in the `.linux` PE section (which is
    /// itself unwrapped - usually gzip or zboot).
    Uki,
}

/// What a [`Compression`] says.
pub enum Wrapper {
    Gzip,
    Zboot(Seq<char>),
    Uki,
}

impl View for Compression {
    type V = Wrapper;

    open spec fn view(&self) -> Wrapper {
        match *self {
            Compression::Gzip => Wrapper::Gzip,
            Compression::Zboot(codec) => Wrapper::Zboot(codec@),
            Compression::Uki => Wrapper::Uki,
        }
    }
}

impl Wrapper {
    /// A short label, e.g. `"gzip"`, `"zboot+zstd"`, or `"uki"`.
    pub open spec fn name(self) -> Seq<char> {
        match self {
            Wrapper::Gzip => "gzip"@,
            Wrapper::Zboot(codec) => "zboot+"@ + codec,
            Wrapper::Uki => "uki"@,
        }
    }
}

impl Compression {
    /// Short label for diagnostics and the `kernel_compression` field, e.g.
    /// `"gzip"`, `"zboot+zstd"`, or `"uki"`.
    pub fn label(&self) -> (r: String)
        ensures
            r@ == self@.name(),
    {
        match self {
            Compression::Gzip => "gzip".to_owned(),
            Compression::Zboot(codec) => crate::text::join2("zboot+", codec.as_str()),
            Compression::Uki => "uki".to_owned(),
        }
    }
}

/// What an optional wrapper says.
pub open spec fn wrapper(c: Option<Compression>) -> Option<Wrapper> {
    match c {
        Some(c) => Some(c@),
        None => None,
    }
}

// ---------------------------------------------------------------------
// Looking at an image
// ---------------------------------------------------------------------

/// The bytes `[at, at + n)`, if they are all there.
pub open spec fn piece(data: Seq<u8>, at: int, n: int) -> Option<Seq<u8>> {
    if at + n <= data.len() {
        Some(field(data, at, n))
    } else {
        None
    }
}

/// The little-endian number in the `n` bytes at `at`, if they are there.
pub open spec fn number_at(data: Seq<u8>, at: int, n: int) -> Option<int> {
    match piece(data, at, n) {
        Some(b) => Some(le(b) as int),
        None => None,
    }
}

/// A raw arm64 `Image`.
pub open spec fn is_arm64_image(data: Seq<u8>) -> bool {
    piece(data, 56, 4) == Some(arm64_magic())
}

/// The start of a gzip member.
pub open spec fn is_gzip(data: Seq<u8>) -> bool {
    data.len() >= 2 && data[0] == 0x1f && data[1] == 0x8b
}

/// An EFI zboot shell.
pub open spec fn is_zboot(data: Seq<u8>) -> bool {
    piece(data, 4, 4) == Some(zimg_magic())
}

/// The `.linux` section among the sections from the `i`-th of `num` on: where
/// its data is, and how long. Nothing, if a header before it is not there.
pub open spec fn linux_among(data: Seq<u8>, table: int, i: int, num: int) -> Option<(int, int)>
    decreases num - i,
{
    let header = table + i * 40;
    if i >= num {
        None
    } else {
        match piece(data, header, 8) {
            None => None,
            Some(name) => if name == linux_section() {
                match (number_at(data, header + 16, 4), number_at(data, header + 20, 4)) {
                    (Some(size), Some(ptr)) => Some((ptr, size)),
                    _ => None,
                }
            } else {
                linux_among(data, table, i + 1, num)
            },
        }
    }
}

/// The `.linux` section of a UKI: where its data is, and how long. Nothing,
/// when `data` isn't a PE or has no such section.
pub open spec fn linux_section_of(data: Seq<u8>) -> Option<(int, int)> {
    if piece(data, 0, 2) != Some(mz_magic()) {
        None
    } else {
        match number_at(data, 0x3c, 4) {
            None => None,
            Some(pe) => if piece(data, pe, 4) != Some(pe_magic()) {
                None
            } else {
                match (number_at(data, pe + 6, 2), number_at(data, pe + 20, 2)) {
                    (Some(num), Some(opt_size)) => linux_among(data, pe + 24 + opt_size, 0, num),
                    _ => None,
                }
            },
        }
    }
}

/// The bytes before the first zero.
pub open spec fn until_zero(b: Seq<u8>) -> Seq<u8>
    decreases b.len(),
{
    if b.len() == 0 || b[0] == 0 {
        seq![]
    } else {
        seq![b[0]] + until_zero(b.skip(1))
    }
}

/// The NUL-terminated compression-type name from a zboot header.
pub open spec fn zboot_codec(data: Seq<u8>) -> Option<Seq<char>> {
    match piece(data, 24, 32) {
        None => None,
        Some(raw) => {
            let name = until_zero(raw);
            if name.len() > 0 && valid_utf8(name) {
                Some(decode_utf8(name))
            } else {
                None
            }
        },
    }
}

/// How an image that starts with `head` is wrapped. `inflated` is what the
/// start of `head` inflates to, as a gzip member.
pub open spec fn classified(head: Seq<u8>, inflated: Option<Seq<u8>>) -> Option<Wrapper> {
    if is_arm64_image(head) {
        None
    } else if is_zboot(head) {
        Some(
            Wrapper::Zboot(
                match zboot_codec(head) {
                    Some(codec) => codec,
                    None => "unknown"@,
                },
            ),
        )
    } else if is_gzip(head) && (inflated matches Some(h) && is_arm64_image(h)) {
        Some(Wrapper::Gzip)
    } else if linux_section_of(head) is Some {
        Some(Wrapper::Uki)
    } else {
        None
    }
}

// ---------------------------------------------------------------------
// The decompressors
// ---------------------------------------------------------------------

/// What [`flate2::read::GzDecoder`] makes of `gz`, read to its end: the data,
/// or the message of the error.
pub uninterp spec fn gunzipped(gz: Seq<u8>) -> core::result::Result<Seq<u8>, Seq<char>>;

/// The first `n` bytes that [`flate2::read::GzDecoder`] yields for `gz`, if it
/// yields that many without an error.
pub uninterp spec fn gunzipped_head(gz: Seq<u8>, n: nat) -> Option<Seq<u8>>;

/// What [`ruzstd::decoding::StreamingDecoder`] makes of `payload`, read to its
/// end: the data, or the message of the error.
pub uninterp spec fn unzstded(payload: Seq<u8>) -> core::result::Result<Seq<u8>, Seq<char>>;

/// `flate2::read::GzDecoder`, read to its end. Where that succeeds, reading
/// only the first bytes of the same member yields the first bytes of the data.
#[verifier::external_body]
fn gunzip(gz: &[u8]) -> (r: core::result::Result<Vec<u8>, String>)
    ensures
        match r {
            Ok(v) => {
                &&& gunzipped(gz@) == Ok::<Seq<u8>, Seq<char>>(v@)
                &&& forall|n: nat|
                    #[trigger] gunzipped_head(gz@, n) == (if n <= v@.len() {
                        Some(v@.take(n as int))
                    } else {
                        None
                    })
            },
            Err(e) => gunzipped(gz@) == Err::<Seq<u8>, Seq<char>>(e@),
        },
{
    let mut out: Vec<u8> = Vec::new();
    match flate2::read::GzDecoder::new(gz).read_to_end(&mut out) {
        Ok(_) => Ok(out),
        Err(e) => Err(e.to_string()),
    }
}

/// `flate2::read::GzDecoder`, of which exactly the first `n` bytes are read. No
/// buffer can hold more than `isize::MAX`.
#[verifier::external_body]
fn gunzip_head(gz: &[u8], n: usize) -> (r: Option<Vec<u8>>)
    requires
        n <= isize::MAX,
    ensures
        match r {
            Some(v) => gunzipped_head(gz@, n as nat) == Some(v@) && v@.len() == n,
            None => gunzipped_head(gz@, n as nat) is None,
        },
{
    let mut head: Vec<u8> = vec![0u8; n];
    match flate2::read::GzDecoder::new(gz).read_exact(&mut head) {
        Ok(()) => Some(head),
        Err(_) => None,
    }
}

/// `ruzstd::decoding::StreamingDecoder`, read to its end: what it yields, or the
/// message of the error, depends on the payload alone.
#[verifier::external_body]
fn unzstd(payload: &[u8]) -> (r: core::result::Result<Vec<u8>, String>)
    ensures
        match r {
            Ok(v) => unzstded(payload@) == Ok::<Seq<u8>, Seq<char>>(v@),
            Err(e) => unzstded(payload@) == Err::<Seq<u8>, Seq<char>>(e@),
        },
{
    let mut out: Vec<u8> = Vec::new();
    match ruzstd::decoding::StreamingDecoder::new(payload) {
        Ok(mut dec) => match dec.read_to_end(&mut out) {
            Ok(_) => Ok(out),
            Err(e) => Err(e.to_string()),
        },
        Err(e) => Err(e.to_string()),
    }
}

// ---------------------------------------------------------------------
// Classifying
// ---------------------------------------------------------------------

/// Whether the `pat.len()` bytes at `at` are there and are `pat`.
pub fn has_piece(data: &[u8], at: u64, pat: &[u8]) -> (r: bool)
    ensures
        r == (piece(data@, at as int, pat@.len() as int) == Some(pat@)),
{
    let n: usize = pat.len();
    let len: usize = data.len();
    if at > len as u64 || n > len - at as usize {
        return false;
    }
    has_at(data, at as usize, pat)
}

/// The little-endian number in the `n` bytes at `at`.
pub fn read_number(data: &[u8], at: u64, n: usize) -> (r: Option<u64>)
    requires
        n <= 4,
    ensures
        match r {
            Some(x) => number_at(data@, at as int, n as int) == Some(x as int) && x < crate::bytes::span(
                n as nat,
            ),
            None => number_at(data@, at as int, n as int) is None,
        },
{
    let len: usize = data.len();
    if at > len as u64 || n > len - at as usize {
        return None;
    }
    Some(le_at(data, at as usize, n))
}

fn arm64_image(data: &[u8]) -> (r: bool)
    ensures
        r == is_arm64_image(data@),
{
    let magic: [u8; 4] = [0x41, 0x52, 0x4d, 0x64];
    assert(magic@ =~= arm64_magic());
    has_piece(data, ARM64_MAGIC_OFFSET as u64, magic.as_slice())
}

/// Locate a UKI's `.linux` section in a PE/COFF file - its raw-data byte
/// `(offset, len)`. `None` when `data` isn't a PE or has no such section
/// (e.g. a plain arm64 `Image`, whose PE sections are `.text`/`.data`). The
/// header and section table sit in the first few KiB, so this works on a
/// [`SNIFF_LEN`] prefix for detection, or the whole file for extraction.
pub fn pe_linux_section(data: &[u8]) -> (r: Option<(usize, usize)>)
    ensures
        match r {
            Some((ptr, size)) => linux_section_of(data@) == Some((ptr as int, size as int)),
            None => linux_section_of(data@) is None,
        },
{
    proof {
        lemma_spans();
    }
    let mz: [u8; 2] = [0x4d, 0x5a];
    assert(mz@ =~= mz_magic());
    if !has_piece(data, 0, mz.as_slice()) {
        return None;
    }
    let pe_off: u64 = match read_number(data, PE_HEADER_OFFSET_AT as u64, 4) {
        Some(n) => n,
        None => {
            return None;
        },
    };
    let pe: [u8; 4] = [0x50, 0x45, 0, 0];
    assert(pe@ =~= pe_magic());
    if !has_piece(data, pe_off, pe.as_slice()) {
        return None;
    }
    let coff: u64 = pe_off + 4;
    let num_sections: u64 = match read_number(data, coff + COFF_NUM_SECTIONS_AT as u64, 2) {
        Some(n) => n,
        None => {
            return None;
        },
    };
    let opt_size: u64 = match read_number(data, coff + COFF_OPT_HEADER_SIZE_AT as u64, 2) {
        Some(n) => n,
        None => {
            return None;
        },
    };
    let table: u64 = coff + COFF_SIZE as u64 + opt_size;
    let name: [u8; 8] = [0x2e, 0x6c, 0x69, 0x6e, 0x75, 0x78, 0, 0];
    assert(name@ =~= linux_section());
    let mut i: u64 = 0;
    while i < num_sections
        invariant
            i <= num_sections < 0x1_0000,
            table <= 0x1_0002_0000,
            name@ == linux_section(),
            linux_section_of(data@) == linux_among(
                data@,
                table as int,
                i as int,
                num_sections as int,
            ),
        decreases num_sections - i,
    {
        proof {
            lemma_spans();
        }
        let header: u64 = table + i * 40;
        let len: usize = data.len();
        if header > len as u64 || 8 > len - header as usize {
            return None;
        }
        if has_piece(data, header, name.as_slice()) {
            return match (
                read_number(data, header + SECTION_RAW_SIZE_AT as u64, 4),
                read_number(data, header + SECTION_RAW_PTR_AT as u64, 4),
            ) {
                (Some(size), Some(ptr)) => Some((ptr as usize, size as usize)),
                _ => None,
            };
        }
        i = i + 1;
    }
    None
}

/// The NUL-terminated compression-type name from a zboot header.
fn zboot_comp_name(data: &[u8]) -> (r: Option<String>)
    ensures
        opt(r) == zboot_codec(data@),
{
    if data.len() < ZBOOT_COMP_TYPE + ZBOOT_COMP_TYPE_LEN {
        return None;
    }
    let raw = slice_subrange(data, ZBOOT_COMP_TYPE, ZBOOT_COMP_TYPE + ZBOOT_COMP_TYPE_LEN);
    assert(raw@ =~= field(data@, 24, 32));
    let mut end: usize = 0;
    assert(raw@.take(0) + until_zero(raw@.skip(0)) =~= until_zero(raw@)) by {
        assert(raw@.skip(0) =~= raw@);
    }
    while end < raw.len() && raw[end] != 0
        invariant
            end <= raw@.len(),
            raw@.take(end as int) + until_zero(raw@.skip(end as int)) == until_zero(raw@),
        decreases raw@.len() - end,
    {
        proof {
            let rest = raw@.skip(end as int);
            assert(rest[0] == raw@[end as int]);
            assert(rest.skip(1) =~= raw@.skip(end + 1));
            assert(raw@.take(end + 1) + until_zero(raw@.skip(end + 1)) =~= raw@.take(end as int)
                + until_zero(rest));
        }
        end = end + 1;
    }
    proof {
        let rest = raw@.skip(end as int);
        if end < raw@.len() {
            assert(rest[0] == raw@[end as int]);
        }
        assert(until_zero(rest) =~= Seq::<u8>::empty());
        assert(raw@.take(end as int) =~= until_zero(raw@));
    }
    if end == 0 {
        return None;
    }
    let name = slice_subrange(raw, 0, end);
    assert(name@ =~= until_zero(raw@));
    utf8(name)
}

/// How an image that starts with `head` is wrapped, given what the start of
/// it inflates to as a gzip member (`None` where it does not inflate).
pub fn classify(head: &[u8], inflated: Option<Vec<u8>>) -> (r: Option<Compression>)
    ensures
        wrapper(r) == classified(
            head@,
            match inflated {
                Some(h) => Some(h@),
                None => None,
            },
        ),
{
    if arm64_image(head) {
        return None;  // already a raw Image

    }
    let zimg: [u8; 4] = [0x7a, 0x69, 0x6d, 0x67];
    assert(zimg@ =~= zimg_magic());
    if has_piece(head, ZIMG_MAGIC_OFFSET as u64, zimg.as_slice()) {
        let codec = match zboot_comp_name(head) {
            Some(c) => c,
            None => "unknown".to_owned(),
        };
        return Some(Compression::Zboot(codec));
    }
    if head.len() >= 2 && head[0] == 0x1f && head[1] == 0x8b {
        if let Some(h) = &inflated {
            if arm64_image(h.as_slice()) {
                return Some(Compression::Gzip);
            }
        }
    }
    if pe_linux_section(head).is_some() {
        return Some(Compression::Uki);
    }
    None
}

/// How an image that starts with `head` is wrapped.
pub open spec fn wrapping(head: Seq<u8>) -> Option<Wrapper> {
    classified(head, gunzipped_head(head, 60))
}

/// Classify `head` (the start of a `vmlinuz`; pass at least [`SNIFF_LEN`]
/// bytes). `None` means no unwrapping is needed - an already-raw arm64
/// `Image`, an x86 `bzImage`, or a form we don't recognize - and the file
/// should be extracted verbatim. `Some` names the wrapper so the caller can
/// ask [`to_bootable`] to remove it. A recognized-but-unsupported zboot
/// codec is still reported here (honest attribute); the failure surfaces at
/// [`to_bootable`].
///
/// Of a gzip member only a header's worth of output is read, so one that isn't
/// a kernel (e.g. a gzip-compressed initramfs) is rejected without inflating
/// it in full.
pub fn compression(head: &[u8]) -> (r: Option<Compression>)
    ensures
        wrapper(r) == wrapping(head@),
{
    let inflated = if head.len() >= 2 && head[0] == 0x1f && head[1] == 0x8b {
        gunzip_head(head, ARM64_MAGIC_END)
    } else {
        None
    };
    classify(head, inflated)
}

// ---------------------------------------------------------------------
// Unwrapping
// ---------------------------------------------------------------------

/// What to do with a wrapped image.
#[derive(Debug, Clone, Copy, PartialEq, Eq, Structural)]
pub enum Plan {
    /// Nothing: it boots as it is.
    Verbatim,
    /// Inflate the bytes `[from, to)`, a gzip member.
    Gunzip { from: usize, to: usize },
    /// Decompress the bytes `[from, to)`, a zstd frame.
    Unzstd { from: usize, to: usize },
    /// Unwrap the bytes `[from, to)`, an image of its own.
    Inner { from: usize, to: usize },
}

/// Why the bytes `[off, off + size)` of `len` cannot be had, if they cannot.
pub open spec fn range_error(what: Seq<char>, off: int, size: int, len: int, overflow: Seq<char>) -> Option<
    ErrorView,
> {
    if off + size > usize::MAX {
        Some(ErrorView::KernelDecompress(overflow))
    } else if off + size > len {
        Some(
            ErrorView::KernelDecompress(
                what + " ["@ + dec(off as nat) + ".."@ + dec((off + size) as nat)
                    + "] out of range (file is "@ + dec(len as nat) + " bytes)"@,
            ),
        )
    } else {
        None
    }
}

/// What to do with a zboot shell whose payload has this codec.
pub open spec fn zboot_plan(data: Seq<u8>, codec: Seq<char>) -> core::result::Result<Plan, ErrorView> {
    match (number_at(data, 8, 4), number_at(data, 12, 4)) {
        (None, _) => Err(ErrorView::KernelDecompress("truncated zboot header at 8"@)),
        (_, None) => Err(ErrorView::KernelDecompress("truncated zboot header at 12"@)),
        (Some(off), Some(size)) => match range_error(
            "zboot payload"@,
            off,
            size,
            data.len() as int,
            "zboot payload size overflows"@,
        ) {
            Some(e) => Err(e),
            None => {
                let from = off as usize;
                let to = (off + size) as usize;
                if starts_with(codec, "gzip"@) {
                    Ok(Plan::Gunzip { from, to })
                } else if starts_with(codec, "zstd"@) {
                    Ok(Plan::Unzstd { from, to })
                } else {
                    Err(
                        ErrorView::KernelDecompress(
                            "unsupported zboot kernel compression: "@ + codec,
                        ),
                    )
                }
            },
        },
    }
}

/// What to do with an image that is wrapped like this.
pub open spec fn plan_of(data: Seq<u8>, w: Option<Wrapper>) -> core::result::Result<Plan, ErrorView> {
    match w {
        None => Ok(Plan::Verbatim),
        Some(Wrapper::Gzip) => Ok(Plan::Gunzip { from: 0, to: data.len() as usize }),
        Some(Wrapper::Zboot(codec)) => zboot_plan(data, codec),
        Some(Wrapper::Uki) => match linux_section_of(data) {
            None => Err(ErrorView::KernelDecompress("UKI .linux section not found"@)),
            Some((off, size)) => match range_error(
                "UKI .linux"@,
                off,
                size,
                data.len() as int,
                "UKI .linux size overflows"@,
            ) {
                Some(e) => Err(e),
                None => Ok(Plan::Inner { from: off as usize, to: (off + size) as usize }),
            },
        },
    }
}

/// The end of the bytes `[off, off + size)` of `len`.
fn range_end(what: &str, off: usize, size: usize, len: usize, overflow: &str) -> (r: Result<usize>)
    ensures
        match range_error(what@, off as int, size as int, len as int, overflow@) {
            Some(e) => r matches Err(x) && x@ == e,
            None => r matches Ok(end) && end == off + size && end <= len,
        },
{
    let end: usize = match off.checked_add(size) {
        Some(e) => e,
        None => {
            return Err(Error::KernelDecompress(overflow.to_owned()));
        },
    };
    if end > len {
        let mut msg: String = String::new();
        msg.append(what);
        msg.append(" [");
        push_dec(&mut msg, off as u64);
        msg.append("..");
        push_dec(&mut msg, end as u64);
        msg.append("] out of range (file is ");
        push_dec(&mut msg, len as u64);
        msg.append(" bytes)");
        assert(msg@ =~= what@ + " ["@ + dec(off as nat) + ".."@ + dec(end as nat)
            + "] out of range (file is "@ + dec(len as nat) + " bytes)"@);
        return Err(Error::KernelDecompress(msg));
    }
    Ok(end)
}

/// What to do with a zboot shell.
fn plan_zboot(data: &[u8], codec: &str) -> (r: Result<Plan>)
    ensures
        match zboot_plan(data@, codec@) {
            Ok(p) => r matches Ok(x) && x == p,
            Err(e) => r matches Err(x) && x@ == e,
        },
{
    proof {
        lemma_spans();
    }
    let off: usize = match read_number(data, ZBOOT_PAYLOAD_OFFSET as u64, 4) {
        Some(n) => n as usize,
        None => {
            return Err(Error::KernelDecompress("truncated zboot header at 8".to_owned()));
        },
    };
    let size: usize = match read_number(data, ZBOOT_PAYLOAD_SIZE as u64, 4) {
        Some(n) => n as usize,
        None => {
            return Err(Error::KernelDecompress("truncated zboot header at 12".to_owned()));
        },
    };
    let to: usize = range_end(
        "zboot payload",
        off,
        size,
        data.len(),
        "zboot payload size overflows",
    )?;
    // The codec name is what the kernel build wrote; match the supported
    // ones, accepting the version-suffixed forms (e.g. "zstd22", "xzkern").
    let c = chars(codec);
    if has_prefix(c.as_slice(), "gzip") {
        Ok(Plan::Gunzip { from: off, to })
    } else if has_prefix(c.as_slice(), "zstd") {
        Ok(Plan::Unzstd { from: off, to })
    } else {
        Err(
            Error::KernelDecompress(
                crate::text::join2("unsupported zboot kernel compression: ", codec),
            ),
        )
    }
}

/// What to do with an image that is wrapped like this. Errors only when the
/// wrapper is recognized but what it wraps cannot be had.
pub fn plan(data: &[u8], w: &Option<Compression>) -> (r: Result<Plan>)
    ensures
        match plan_of(data@, wrapper(*w)) {
            Ok(p) => r matches Ok(x) && x == p,
            Err(e) => r matches Err(x) && x@ == e,
        },
        r matches Ok(Plan::Gunzip { from, to }) ==> from <= to <= data@.len(),
        r matches Ok(Plan::Unzstd { from, to }) ==> from <= to <= data@.len(),
        r matches Ok(Plan::Inner { from, to }) ==> from <= to <= data@.len(),
{
    match w {
        None => Ok(Plan::Verbatim),
        Some(Compression::Gzip) => Ok(Plan::Gunzip { from: 0, to: data.len() }),
        Some(Compression::Zboot(codec)) => plan_zboot(data, codec.as_str()),
        Some(Compression::Uki) => match pe_linux_section(data) {
            None => Err(Error::KernelDecompress("UKI .linux section not found".to_owned())),
            Some((off, size)) => {
                let to: usize = range_end(
                    "UKI .linux",
                    off,
                    size,
                    data.len(),
                    "UKI .linux size overflows",
                )?;
                Ok(Plan::Inner { from: off, to })
            },
        },
    }
}

/// What a decompressor's outcome means: its error is reported under the
/// decompressor's name.
pub open spec fn outcome(
    name: Seq<char>,
    r: core::result::Result<Seq<u8>, Seq<char>>,
) -> core::result::Result<Seq<u8>, ErrorView> {
    match r {
        Ok(data) => Ok(data),
        Err(e) => Err(ErrorView::KernelDecompress(name + ": "@ + e)),
    }
}

/// Report a decompressor's outcome.
pub fn report(name: &str, r: core::result::Result<Vec<u8>, String>) -> (x: Result<Vec<u8>>)
    ensures
        match r {
            Ok(v) => x matches Ok(d) && d@ == v@,
            Err(e) => x matches Err(m) && m@ == ErrorView::KernelDecompress(name@ + ": "@ + e@),
        },
{
    match r {
        Ok(v) => Ok(v),
        Err(e) => {
            let mut msg: String = String::new();
            msg.append(name);
            msg.append(": ");
            msg.append(e.as_str());
            assert(msg@ =~= name@ + ": "@ + e@);
            Err(Error::KernelDecompress(msg))
        },
    }
}

/// What unwrapping `data` yields, `depth` wrappers deep.
pub open spec fn unwrapped(data: Seq<u8>, depth: nat) -> core::result::Result<Seq<u8>, ErrorView>
    decreases MAX_DEPTH - depth,
{
    if depth >= MAX_DEPTH {
        Err(ErrorView::KernelDecompress("kernel wrappers nested too deep"@))
    } else {
        match plan_of(data, wrapping(data)) {
            Err(e) => Err(e),
            Ok(Plan::Verbatim) => Ok(data),
            Ok(Plan::Gunzip { from, to }) => outcome(
                "gzip"@,
                gunzipped(data.subrange(from as int, to as int)),
            ),
            Ok(Plan::Unzstd { from, to }) => outcome(
                "zstd"@,
                unzstded(data.subrange(from as int, to as int)),
            ),
            Ok(Plan::Inner { from, to }) => unwrapped(
                data.subrange(from as int, to as int),
                depth + 1,
            ),
        }
    }
}

/// Unwrapping `data`, `depth` wrappers deep, can only end in a raw `Image`: it
/// is one, or it is plain gzip, or it is a UKI of which the same holds. (What a
/// zboot shell carries is not looked at before it is decompressed.)
pub open spec fn leads_to_image(data: Seq<u8>, depth: nat) -> bool
    decreases MAX_DEPTH - depth,
{
    if depth >= MAX_DEPTH {
        false
    } else {
        ||| is_arm64_image(data)
        ||| wrapping(data) == Some(Wrapper::Gzip)
        ||| wrapping(data) == Some(Wrapper::Uki) && (plan_of(data, wrapping(data)) matches Ok(
            Plan::Inner { from, to },
        ) && leads_to_image(data.subrange(from as int, to as int), depth + 1))
    }
}

/// Unwrap `data` to a raw arm64 `Image` if it is a recognized wrapped
/// `vmlinuz`; otherwise return it unchanged. Errors when the wrapper is
/// recognized but what it wraps cannot be had - its codec isn't supported, it
/// lies outside the file, it is corrupt, or wrappers are nested too deep - so a
/// caller that asked for unwrapping gets a clear failure rather than an
/// unbootable kernel.
///
/// A raw `Image`, plain gzip, and a UKI of either yield nothing but a raw
/// `Image`; a zboot shell yields what it carries.
pub fn to_bootable(data: Vec<u8>) -> (r: Result<Vec<u8>>)
    ensures
        match unwrapped(data@, 0) {
            Ok(d) => r matches Ok(v) && v@ == d,
            Err(e) => r matches Err(x) && x@ == e,
        },
        leads_to_image(data@, 0) ==> (r matches Ok(v) ==> is_arm64_image(v@)),
{
    to_bootable_inner(data, 0)
}

/// Wrappers can nest (a UKI's `.linux` is itself gzip/zboot), so unwrapping
/// recurses; the depth cap stops a pathological self-referential input.
fn to_bootable_inner(data: Vec<u8>, depth: u32) -> (r: Result<Vec<u8>>)
    requires
        depth <= MAX_DEPTH,
    ensures
        match unwrapped(data@, depth as nat) {
            Ok(d) => r matches Ok(v) && v@ == d,
            Err(e) => r matches Err(x) && x@ == e,
        },
        leads_to_image(data@, depth as nat) ==> (r matches Ok(v) ==> is_arm64_image(v@)),
    decreases MAX_DEPTH - depth,
{
    if depth >= MAX_DEPTH {
        return Err(Error::KernelDecompress("kernel wrappers nested too deep".to_owned()));
    }
    let w = compression(data.as_slice());
    match plan(data.as_slice(), &w)? {
        Plan::Verbatim => Ok(data),
        Plan::Gunzip { from, to } => {
            let r = gunzip(slice_subrange(data.as_slice(), from, to));
            proof {
                if wrapping(data@) == Some(Wrapper::Gzip) && r is Ok {
                    let d = r->Ok_0@;
                    assert(data@.subrange(0, data@.len() as int) =~= data@);
                    assert(gunzipped_head(data@, 60) == Some(d.take(60)));
                    assert(field(d, 56, 4) =~= field(d.take(60), 56, 4));
                }
            }
            report("gzip", r)
        },
        Plan::Unzstd { from, to } => report(
            "zstd",
            unzstd(slice_subrange(data.as_slice(), from, to)),
        ),
        Plan::Inner { from, to } => {
            let inner = vstd::slice::slice_to_vec(slice_subrange(data.as_slice(), from, to));
            to_bootable_inner(inner, depth + 1)
        },
    }
}

/// A raw `Image` needs nothing: it is left as it is, so unwrapping what was
/// unwrapped to one changes nothing.
pub proof fn law_raw_image_is_left_alone(data: Seq<u8>)
    requires
        is_arm64_image(data),
    ensures
        wrapping(data) is None,
        unwrapped(data, 0) == Ok::<Seq<u8>, ErrorView>(data),
{
}

/// What is not recognized is returned unchanged.
pub proof fn law_unrecognized_is_left_alone(data: Seq<u8>)
    requires
        wrapping(data) is None,
    ensures
        unwrapped(data, 0) == Ok::<Seq<u8>, ErrorView>(data),
{
}

/// A UKI unwraps to what its `.linux` section unwraps to - as one wrapper
/// further in - and so to that section, where it is a raw `Image`.
pub proof fn law_uki_unwraps_to_its_section(data: Seq<u8>, off: int, size: int)
    requires
        data.len() <= usize::MAX,
        wrapping(data) == Some(Wrapper::Uki),
        linux_section_of(data) == Some((off, size)),
        0 <= off <= off + size <= data.len(),
    ensures
        unwrapped(data, 0) == unwrapped(data.subrange(off, off + size), 1),
        is_arm64_image(data.subrange(off, off + size)) ==> unwrapped(data, 0) == Ok::<
            Seq<u8>,
            ErrorView,
        >(data.subrange(off, off + size)),
{
    reveal_with_fuel(unwrapped, 2);
}

/// Where the section table of a PE file ends.
pub open spec fn section_table_end(data: Seq<u8>) -> Option<int> {
    match number_at(data, 0x3c, 4) {
        Some(pe) if piece(data, 0, 2) == Some(mz_magic()) && piece(data, pe, 4) == Some(
            pe_magic(),
        ) => match (number_at(data, pe + 6, 2), number_at(data, pe + 20, 2)) {
            (Some(num), Some(opt_size)) => Some(pe + 24 + opt_size + num * 40),
            _ => None,
        },
        _ => None,
    }
}

/// Section headers in front of `n` are found in the first `n` bytes.
proof fn lemma_sections_in_front(data: Seq<u8>, table: int, i: int, num: int, n: int)
    requires
        0 <= table,
        0 <= i,
        table + num * 40 <= n <= data.len(),
    ensures
        linux_among(data.take(n), table, i, num) == linux_among(data, table, i, num),
    decreases num - i,
{
    if i < num {
        let head = data.take(n);
        let at = table + i * 40;
        assert(field(head, at, 8) =~= field(data, at, 8));
        assert(field(head, at + 16, 4) =~= field(data, at + 16, 4));
        assert(field(head, at + 20, 4) =~= field(data, at + 20, 4));
        lemma_sections_in_front(data, table, i + 1, num, n);
    }
}

/// The first [`SNIFF_LEN`] bytes are enough to recognize a raw `Image`, a zboot
/// shell, and a UKI whose section table lies in them.
pub proof fn law_prefix_is_enough(data: Seq<u8>)
    requires
        data.len() >= SNIFF_LEN,
        is_arm64_image(data) || is_zboot(data) || (section_table_end(data) matches Some(end) && end
            <= SNIFF_LEN),
    ensures
        wrapping(data.take(SNIFF_LEN as int)) == wrapping(data),
{
    let head = data.take(SNIFF_LEN as int);
    assert(field(head, 56, 4) =~= field(data, 56, 4));
    assert(field(head, 4, 4) =~= field(data, 4, 4));
    assert(field(head, 24, 32) =~= field(data, 24, 32));
    if section_table_end(data) matches Some(end) && end <= SNIFF_LEN {
        let pe = number_at(data, 0x3c, 4)->0;
        let num = number_at(data, pe + 6, 2)->0;
        let opt_size = number_at(data, pe + 20, 2)->0;
        assert(field(head, 0, 2) =~= field(data, 0, 2));
        assert(field(data, 0, 2)[0] == 0x4d);
        assert(field(head, 0x3c, 4) =~= field(data, 0x3c, 4));
        assert(field(head, pe, 4) =~= field(data, pe, 4));
        assert(field(head, pe + 6, 2) =~= field(data, pe + 6, 2));
        assert(field(head, pe + 20, 2) =~= field(data, pe + 20, 2));
        lemma_sections_in_front(data, pe + 24 + opt_size, 0, num, SNIFF_LEN as int);
    }
}

// ---------------------------------------------------------------------
// The formats
// ---------------------------------------------------------------------

/// The eight bytes at `at` are `.linux` and two zeroes.
pub open spec fn named_linux(data: Seq<u8>, at: int) -> bool {
    &&& data[at] == 0x2e && data[at + 1] == 0x6c && data[at + 2] == 0x69 && data[at + 3] == 0x6e
    &&& data[at + 4] == 0x75 && data[at + 5] == 0x78 && data[at + 6] == 0 && data[at + 7] == 0
}

/// `data` is a PE file whose header is at `pe`, with `num` sections behind an
/// optional header of `opt` bytes.
pub open spec fn is_pe(data: Seq<u8>, pe: int, num: int, opt: int) -> bool {
    &&& data.len() >= 64
    &&& data[0] == 0x4d && data[1] == 0x5a
    &&& small32(data, 60) == pe
    &&& pe + 24 <= data.len()
    &&& data[pe] == 0x50 && data[pe + 1] == 0x45 && data[pe + 2] == 0 && data[pe + 3] == 0
    &&& small16(data, pe + 6) == num
    &&& small16(data, pe + 20) == opt
}

proof fn lemma_pe(data: Seq<u8>, pe: int, num: int, opt: int)
    requires
        is_pe(data, pe, num, opt),
    ensures
        linux_section_of(data) == linux_among(data, pe + 24 + opt, 0, num),
        0 <= pe,
        0 <= num,
        0 <= opt,
{
    law_fields_are_numbers(data, 60);
    law_fields_are_numbers(data, pe + 6);
    law_fields_are_numbers(data, pe + 20);
    assert(field(data, 0, 2) =~= mz_magic());
    assert(field(data, pe, 4) =~= pe_magic());
}

proof fn lemma_is_named(data: Seq<u8>, at: int)
    requires
        0 <= at,
        at + 8 <= data.len(),
    ensures
        named_linux(data, at) <==> field(data, at, 8) == linux_section(),
{
    let f = field(data, at, 8);
    assert(forall|j: int| 0 <= j < 8 ==> f[j] == data[at + j]);
    if named_linux(data, at) {
        assert(f =~= linux_section());
    }
    if f == linux_section() {
        assert(f[0] == 0x2e && f[1] == 0x6c && f[2] == 0x69 && f[3] == 0x6e && f[4] == 0x75 && f[5]
            == 0x78 && f[6] == 0 && f[7] == 0);
    }
}

proof fn lemma_first_named(data: Seq<u8>, table: int, i: int, num: int, k: int)
    requires
        0 <= table,
        0 <= i <= k < num,
        table + 40 * k + 24 <= data.len(),
        named_linux(data, table + 40 * k),
        forall|j: int| i <= j < k ==> !named_linux(data, #[trigger] (table + 40 * j)),
    ensures
        linux_among(data, table, i, num) == Some(
            (small32(data, table + 40 * k + 20), small32(data, table + 40 * k + 16)),
        ),
    decreases k - i,
{
    lemma_is_named(data, table + 40 * i);
    law_fields_are_numbers(data, table + 40 * i + 16);
    law_fields_are_numbers(data, table + 40 * i + 20);
    if i < k {
        assert(!named_linux(data, table + 40 * i));
        lemma_first_named(data, table, i + 1, num, k);
    }
}

proof fn lemma_none_named(data: Seq<u8>, table: int, i: int, num: int)
    requires
        0 <= table,
        0 <= i,
        forall|j: int|
            i <= j < num && table + 40 * j + 8 <= data.len() ==> !named_linux(
                data,
                #[trigger] (table + 40 * j),
            ),
    ensures
        linux_among(data, table, i, num) is None,
    decreases num - i,
{
    if i < num && table + 40 * i + 8 <= data.len() {
        lemma_is_named(data, table + 40 * i);
        assert(!named_linux(data, table + 40 * i));
        lemma_none_named(data, table, i + 1, num);
    }
}

/// The kernel of a UKI is where the first section header named `.linux` says:
/// its pointer to raw data, and the size of that. The headers take 40 bytes each,
/// and stand behind the optional header.
pub proof fn law_kernel_is_in_the_linux_section(
    data: Seq<u8>,
    pe: int,
    num: int,
    opt: int,
    k: int,
)
    requires
        is_pe(data, pe, num, opt),
        0 <= k < num,
        pe + 24 + opt + 40 * k + 24 <= data.len(),
        named_linux(data, pe + 24 + opt + 40 * k),
        forall|j: int| 0 <= j < k ==> !named_linux(data, #[trigger] (pe + 24 + opt + 40 * j)),
    ensures
        linux_section_of(data) == Some(
            (
                small32(data, pe + 24 + opt + 40 * k + 20),
                small32(data, pe + 24 + opt + 40 * k + 16),
            ),
        ),
{
    lemma_pe(data, pe, num, opt);
    lemma_first_named(data, pe + 24 + opt, 0, num, k);
}

/// Without such a header, or without the marks of a PE file, there is no kernel in
/// a section.
pub proof fn law_no_linux_section(data: Seq<u8>, pe: int, num: int, opt: int)
    ensures
        data.len() >= 2 && (data[0] != 0x4d || data[1] != 0x5a) ==> linux_section_of(data) is None,
        data.len() < 64 ==> linux_section_of(data) is None,
        is_pe(data, pe, num, opt) && (forall|j: int|
            0 <= j < num && pe + 24 + opt + 40 * j + 8 <= data.len() ==> !named_linux(
                data,
                #[trigger] (pe + 24 + opt + 40 * j),
            )) ==> linux_section_of(data) is None,
{
    if data.len() >= 2 {
        assert(field(data, 0, 2)[0] == data[0] && field(data, 0, 2)[1] == data[1]);
    }
    if is_pe(data, pe, num, opt) && (forall|j: int|
        0 <= j < num && pe + 24 + opt + 40 * j + 8 <= data.len() ==> !named_linux(
            data,
            #[trigger] (pe + 24 + opt + 40 * j),
        )) {
        lemma_pe(data, pe, num, opt);
        lemma_none_named(data, pe + 24 + opt, 0, num);
    }
}

/// `ARMd` is at 56.
pub open spec fn has_armd(data: Seq<u8>) -> bool {
    data.len() >= 60 && data[56] == 0x41 && data[57] == 0x52 && data[58] == 0x4d && data[59] == 0x64
}

/// `zimg` is at 4.
pub open spec fn has_zimg(data: Seq<u8>) -> bool {
    data.len() >= 8 && data[4] == 0x7a && data[5] == 0x69 && data[6] == 0x6d && data[7] == 0x67
}

proof fn lemma_marks(data: Seq<u8>)
    ensures
        has_armd(data) <==> is_arm64_image(data),
        has_zimg(data) <==> is_zboot(data),
{
    if data.len() >= 60 {
        let f = field(data, 56, 4);
        assert(f[0] == data[56] && f[1] == data[57] && f[2] == data[58] && f[3] == data[59]);
        if has_armd(data) {
            assert(f =~= arm64_magic());
        }
    }
    if data.len() >= 8 {
        let f = field(data, 4, 4);
        assert(f[0] == data[4] && f[1] == data[5] && f[2] == data[6] && f[3] == data[7]);
        if has_zimg(data) {
            assert(f =~= zimg_magic());
        }
    }
}

/// How an image is wrapped shows in its bytes: with `ARMd` at 56 it is raw; else
/// with `zimg` at 4 it is a zboot shell; else a gzip member of which a raw image
/// comes out is plain gzip; else a PE file with a `.linux` section is a UKI; and
/// anything else is not wrapped.
pub proof fn law_marks_tell_the_wrapper(data: Seq<u8>)
    ensures
        ({
            let gzip = data.len() >= 2 && data[0] == 0x1f && data[1] == 0x8b && (gunzipped_head(
                data,
                60,
            ) matches Some(h) && has_armd(h));
            if has_armd(data) {
                wrapping(data) is None
            } else if has_zimg(data) {
                wrapping(data) is Some && wrapping(data)->0 is Zboot
            } else if gzip {
                wrapping(data) == Some(Wrapper::Gzip)
            } else if linux_section_of(data) is Some {
                wrapping(data) == Some(Wrapper::Uki)
            } else {
                wrapping(data) is None
            }
        }),
{
    lemma_marks(data);
    if gunzipped_head(data, 60) is Some {
        lemma_marks(gunzipped_head(data, 60)->0);
    }
}

proof fn lemma_until_zero(b: Seq<u8>, n: int)
    requires
        0 <= n <= b.len(),
        forall|i: int| 0 <= i < n ==> #[trigger] b[i] != 0,
        n < b.len() ==> b[n] == 0,
    ensures
        until_zero(b) == b.take(n),
    decreases n,
{
    if n > 0 {
        assert(b[0] != 0);
        let t = b.skip(1);
        assert forall|i: int| 0 <= i < n - 1 implies #[trigger] t[i] != 0 by {
            assert(t[i] == b[i + 1]);
        }
        lemma_until_zero(t, n - 1);
        assert(seq![b[0]] + t.take(n - 1) =~= b.take(n));
    } else {
        assert(b.take(0) =~= Seq::<u8>::empty());
    }
}

/// The codec of a zboot shell is the text at 24, up to the first zero or 32 bytes.
pub proof fn law_zboot_names_its_codec(data: Seq<u8>, n: int)
    requires
        !has_armd(data),
        has_zimg(data),
        data.len() >= 56,
        0 < n <= 32,
        forall|i: int| 24 <= i < 24 + n ==> #[trigger] data[i] != 0,
        n < 32 ==> data[24 + n] == 0,
        valid_utf8(data.subrange(24, 24 + n)),
    ensures
        wrapping(data) == Some(Wrapper::Zboot(decode_utf8(data.subrange(24, 24 + n)))),
{
    lemma_marks(data);
    let raw = field(data, 24, 32);
    assert forall|i: int| 0 <= i < n implies #[trigger] raw[i] != 0 by {
        assert(raw[i] == data[24 + i]);
    }
    lemma_until_zero(raw, n);
    assert(raw.take(n) =~= data.subrange(24, 24 + n));
}

/// A zboot shell unwraps to what its payload decompresses to: as many bytes as 12
/// says, from where 8 says. Its codec decides how; other codecs, and payloads that
/// leave the file, are refused.
pub proof fn law_zboot_unwraps_its_payload(data: Seq<u8>, codec: Seq<char>, depth: nat)
    requires
        data.len() <= usize::MAX,
        data.len() >= 16,
        depth < 3,
        wrapping(data) == Some(Wrapper::Zboot(codec)),
    ensures
        ({
            let off = small32(data, 8);
            let size = small32(data, 12);
            let payload = data.subrange(off, off + size);
            let gzip = codec.len() >= 4 && codec.take(4) == "gzip"@;
            let zstd = codec.len() >= 4 && codec.take(4) == "zstd"@;
            if off + size > data.len() {
                unwrapped(data, depth) is Err
            } else if gzip {
                match gunzipped(payload) {
                    Ok(d) => unwrapped(data, depth) == Ok::<Seq<u8>, ErrorView>(d),
                    Err(e) => unwrapped(data, depth) is Err,
                }
            } else if zstd {
                match unzstded(payload) {
                    Ok(d) => unwrapped(data, depth) == Ok::<Seq<u8>, ErrorView>(d),
                    Err(e) => unwrapped(data, depth) is Err,
                }
            } else {
                unwrapped(data, depth) is Err
            }
        }),
{
    reveal_strlit("gzip");
    reveal_strlit("zstd");
    law_fields_are_numbers(data, 8);
    law_fields_are_numbers(data, 12);
}

/// Plain gzip unwraps to all that it decompresses to.
pub proof fn law_gzip_unwraps_to_its_contents(data: Seq<u8>, depth: nat)
    requires
        data.len() <= usize::MAX,
        depth < 3,
        wrapping(data) == Some(Wrapper::Gzip),
    ensures
        match gunzipped(data) {
            Ok(d) => unwrapped(data, depth) == Ok::<Seq<u8>, ErrorView>(d),
            Err(_) => unwrapped(data, depth) is Err,
        },
{
    assert(data.subrange(0, data.len() as int) =~= data);
}

/// Three wrappers are taken off, no more: what is in a UKI is one wrapper further
/// in, and a section that leaves the file is refused.
pub proof fn law_three_wrappers_at_most(data: Seq<u8>, depth: nat, off: int, size: int)
    requires
        data.len() <= usize::MAX,
        0 <= off,
        0 <= size,
    ensures
        unwrapped(data, 3) is Err,
        depth < 3 && wrapping(data) is None ==> unwrapped(data, depth) == Ok::<Seq<u8>, ErrorView>(
            data,
        ),
        depth < 3 && wrapping(data) == Some(Wrapper::Uki) && linux_section_of(data) == Some(
            (off, size),
        ) ==> if off + size <= data.len() {
            unwrapped(data, depth) == unwrapped(data.subrange(off, off + size), depth + 1)
        } else {
            unwrapped(data, depth) is Err
        },
{
}

/// What is refused is told: the wrappers that are too many, the section or the
/// payload that leaves the file, with its bounds, the codec that is not known,
/// and what a decompressor says, under its name.
pub proof fn law_refusals_are_told(
    data: Seq<u8>,
    codec: Seq<char>,
    off: int,
    size: int,
    depth: nat,
    e: Seq<char>,
)
    requires
        16 <= data.len() <= usize::MAX,
        0 <= off,
        0 <= size,
        off + size <= usize::MAX,
    ensures
        depth >= 3 ==> unwrapped(data, depth) == Err::<Seq<u8>, ErrorView>(
            ErrorView::KernelDecompress("kernel wrappers nested too deep"@),
        ),
        depth < 3 && wrapping(data) == Some(Wrapper::Uki) && linux_section_of(data) == Some(
            (off, size),
        ) && off + size > data.len() ==> unwrapped(data, depth) == Err::<Seq<u8>, ErrorView>(
            ErrorView::KernelDecompress(
                "UKI .linux"@ + " ["@ + dec(off as nat) + ".."@ + dec((off + size) as nat)
                    + "] out of range (file is "@ + dec(data.len()) + " bytes)"@,
            ),
        ),
        depth < 3 && wrapping(data) == Some(Wrapper::Zboot(codec)) && small32(data, 8) == off
            && small32(data, 12) == size ==> {
            &&& off + size > data.len() ==> unwrapped(data, depth) == Err::<Seq<u8>, ErrorView>(
                ErrorView::KernelDecompress(
                    "zboot payload"@ + " ["@ + dec(off as nat) + ".."@ + dec((off + size) as nat)
                        + "] out of range (file is "@ + dec(data.len()) + " bytes)"@,
                ),
            )
            &&& off + size <= data.len() && (codec.len() < 4 || codec.take(4) != "gzip"@ && codec.take(4)
                != "zstd"@) ==> unwrapped(data, depth) == Err::<Seq<u8>, ErrorView>(
                ErrorView::KernelDecompress("unsupported zboot kernel compression: "@ + codec),
            )
        },
        depth < 3 && wrapping(data) == Some(Wrapper::Gzip) && gunzipped(data) == Err::<
            Seq<u8>,
            Seq<char>,
        >(e) ==> unwrapped(data, depth) == Err::<Seq<u8>, ErrorView>(
            ErrorView::KernelDecompress("gzip: "@ + e),
        ),
{
    reveal_strlit("gzip");
    reveal_strlit("zstd");
    reveal_strlit(": ");
    reveal_strlit("gzip: ");
    assert("gzip"@ + ": "@ =~= "gzip: "@);
    law_fields_are_numbers(data, 8);
    law_fields_are_numbers(data, 12);
    assert(data.subrange(0, data.len() as int) =~= data);
}

/// The prefix that is looked at to tell the wrapper is 8192 bytes long, so that a
/// section table in front of that is found.
pub proof fn law_prefix_is_long_enough(data: Seq<u8>, pe: int, num: int, opt: int)
    requires
        data.len() >= 8192,
        is_pe(data, pe, num, opt),
        pe + 24 + opt + 40 * num <= 8192,
    ensures
        SNIFF_LEN == 8192,
        linux_section_of(data.take(8192)) == linux_section_of(data),
{
    let head = data.take(8192);
    assert(is_pe(head, pe, num, opt)) by {
        law_fields_are_numbers(data, pe + 6);
        law_fields_are_numbers(data, pe + 20);
    }
    lemma_pe(data, pe, num, opt);
    lemma_pe(head, pe, num, opt);
    lemma_sections_in_front(data, pe + 24 + opt, 0, num, 8192);
}

} // verus!
