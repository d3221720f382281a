//! Read-only qcow2 (v2/v3) implementation.
//!
//! Supported: standard clusters, sparse (unallocated) clusters, the
//! all-zeroes cluster flag, zlib-compressed clusters, backing files
//! (attached by the opener).
//! Not supported (clean error, not corruption): zstd compression,
//! encryption, external data files, extended L2 entries.

use crate::blockdev::{byte_at, read_of, read_vec, reads, refused, ReadAt};
use crate::bytes::{
    be, be_at, big32, big64, clear, copy_from, field, has_at, law_fields_are_numbers, lemma_be_bound,
    lemma_spans,
};
use crate::disk::inflate::{inflate, inflated};
use crate::error::{Error, ErrorView, Result};
use crate::text::number::{dec, hex, push_dec, push_hex};
use crate::text::{lossy, opt, utf8_lossy};
use std::collections::VecDeque;
use vstd::arithmetic::div_mod::lemma_fundamental_div_mod_converse;
use vstd::arithmetic::power2::{
    lemma2_to64, lemma2_to64_rest, lemma_pow2_adds, lemma_pow2_strictly_increases, pow2,
};
use vstd::bits::lemma_u64_shl_is_mul;
use vstd::prelude::*;
use vstd::rwlock::{RwLock, RwLockPredicate};
use vstd::string::*;

verus! {

broadcast use vstd::seq_lib::group_seq_properties;

/// The first bytes of an image: `QFI\xfb`.
pub open spec fn magic() -> Seq<u8> {
    seq![0x51u8, 0x46u8, 0x49u8, 0xfbu8]
}

/// Whether `b` starts with the magic bytes.
pub fn has_magic(b: &[u8]) -> (r: bool)
    requires
        b@.len() >= 4,
    ensures
        r == (b@.take(4) == magic()),
{
    let pat: [u8; 4] = [0x51, 0x46, 0x49, 0xfb];
    assert(field(b@, 0, 4) =~= b@.take(4));
    assert(pat@ =~= magic());
    has_at(b, 0, pat.as_slice())
}

// Incompatible feature bits (header offset 72, v3 only).
/// Stale refcounts only; harmless for reads.
pub const INCOMPAT_DIRTY: u64 = 1;

pub const INCOMPAT_CORRUPT: u64 = 2;

pub const INCOMPAT_EXTERNAL_DATA: u64 = 4;

/// Set = non-zlib (zstd).
pub const INCOMPAT_COMPRESSION_TYPE: u64 = 8;

pub const INCOMPAT_EXTENDED_L2: u64 = 16;

/// Bits 9 to 55 of an L1 or L2 entry: an offset in the file.
pub const OFFSET_MASK: u64 = 0x00ff_ffff_ffff_fe00;

pub const L2_COMPRESSED: u64 = 0x4000_0000_0000_0000;

/// Standard cluster descriptor bit 0.
pub const L2_ZERO_FLAG: u64 = 1;

/// Decompressed-cluster cache size. Filesystem walks re-read the same
/// metadata clusters constantly; without this every hit re-inflates 64 KiB.
pub const CACHE_CLUSTERS: usize = 32;

// ---------------------------------------------------------------------
// The header
// ---------------------------------------------------------------------

/// What the header of an image says.
pub struct HeaderView {
    pub virtual_size: u64,
    pub cluster_bits: u32,
    pub l1: Seq<u64>,
    pub backing_name: Option<Seq<char>>,
}

/// What opening an image yields.
pub enum Opened {
    Header(HeaderView),
    /// The image is not accepted, for this reason.
    Refused(ErrorView),
    /// A part of the file could not be read.
    Unreadable,
}

/// The number in the bytes `[at, at + n)` of the header.
pub open spec fn header_field(hdr: Seq<u8>, at: int, n: int) -> nat {
    be(field(hdr, at, n))
}

/// Why the incompatible features of an image are refused, if they are.
pub open spec fn feature_error(incompatible: u64) -> Option<ErrorView> {
    if incompatible & INCOMPAT_CORRUPT != 0 {
        Some(ErrorView::Qcow2("image is marked corrupt"@))
    } else if incompatible & INCOMPAT_EXTERNAL_DATA != 0 {
        Some(ErrorView::Qcow2Unsupported("external data file"@))
    } else if incompatible & INCOMPAT_COMPRESSION_TYPE != 0 {
        Some(ErrorView::Qcow2Unsupported("compression type other than zlib (likely zstd)"@))
    } else if incompatible & INCOMPAT_EXTENDED_L2 != 0 {
        Some(ErrorView::Qcow2Unsupported("extended L2 entries"@))
    } else if incompatible & !INCOMPAT_DIRTY != 0 {
        Some(
            ErrorView::Qcow2Unsupported(
                "unknown incompatible features 0x"@ + hex(incompatible as nat),
            ),
        )
    } else {
        None
    }
}

/// Why the fixed part of the header is refused, if it is, once the features
/// are known.
pub open spec fn header_error(hdr: Seq<u8>, incompatible: u64) -> Option<ErrorView> {
    let cluster_bits = header_field(hdr, 20, 4);
    if header_field(hdr, 32, 4) != 0 {
        Some(ErrorView::Qcow2Unsupported("encryption"@))
    } else if feature_error(incompatible) is Some {
        feature_error(incompatible)
    } else if !(9 <= cluster_bits <= 21) {
        Some(ErrorView::Qcow2("implausible cluster_bits "@ + dec(cluster_bits)))
    } else {
        None
    }
}

/// The name of the backing file: none where the header has none, `Some(None)`
/// where it cannot be read.
pub open spec fn backing_field<D: ReadAt>(host: &D, hdr: Seq<u8>) -> Option<Option<Seq<u8>>> {
    let offset = header_field(hdr, 8, 8);
    let size = header_field(hdr, 16, 4);
    if offset != 0 && size > 0 {
        Some(reads(host, offset as int, size))
    } else {
        None
    }
}

/// The table of big-endian entries in `raw`.
pub open spec fn entries_of(raw: Seq<u8>) -> Seq<u64> {
    Seq::new(raw.len() / 8, |i: int| be(field(raw, 8 * i, 8)) as u64)
}

/// The L1 table, read whole.
pub open spec fn with_l1<D: ReadAt>(host: &D, hdr: Seq<u8>, name: Option<Seq<char>>) -> Opened {
    let n = header_field(hdr, 36, 4) * 8;
    if n > usize::MAX {
        Opened::Refused(ErrorView::Qcow2("L1 table does not fit in memory"@))
    } else {
        match reads(host, header_field(hdr, 40, 8) as int, n) {
            None => Opened::Unreadable,
            Some(raw) => Opened::Header(
                HeaderView {
                    virtual_size: header_field(hdr, 24, 8) as u64,
                    cluster_bits: header_field(hdr, 20, 4) as u32,
                    l1: entries_of(raw),
                    backing_name: name,
                },
            ),
        }
    }
}

/// The rest of the header, once the features are known.
pub open spec fn with_features<D: ReadAt>(host: &D, hdr: Seq<u8>, incompatible: u64) -> Opened {
    match header_error(hdr, incompatible) {
        Some(e) => Opened::Refused(e),
        None => match backing_field(host, hdr) {
            None => with_l1(host, hdr, None),
            Some(name) => if header_field(hdr, 16, 4) > 1023 {
                Opened::Refused(ErrorView::Qcow2("implausible backing file name length"@))
            } else {
                match name {
                    None => Opened::Unreadable,
                    Some(b) => with_l1(host, hdr, Some(utf8_lossy(b))),
                }
            },
        },
    }
}

/// What opening the image in `host` yields.
pub open spec fn opened<D: ReadAt>(host: &D) -> Opened {
    match reads(host, 0, 72) {
        None => Opened::Unreadable,
        Some(hdr) => {
            let version = header_field(hdr, 4, 4);
            if hdr.take(4) != magic() {
                Opened::Refused(ErrorView::Qcow2("bad magic"@))
            } else if version != 2 && version != 3 {
                Opened::Refused(ErrorView::Qcow2("unsupported version "@ + dec(version)))
            } else if version == 3 {
                match reads(host, 72, 8) {
                    None => Opened::Unreadable,
                    Some(b) => with_features(host, hdr, be(b) as u64),
                }
            } else {
                with_features(host, hdr, 0)
            }
        },
    }
}

// ---------------------------------------------------------------------
// Clusters
// ---------------------------------------------------------------------

/// Where the data of a guest cluster is.
#[derive(Debug, Clone, Copy)]
pub enum Mapping {
    /// Host file offset of the cluster's data.
    Data(u64),
    /// Reads as zeroes regardless of any backing file.
    Zero,
    /// Not allocated here: defer to the backing file (or zeroes).
    Unallocated,
    /// zlib-compressed cluster at `offset`, `csize` compressed bytes.
    Compressed { offset: u64, csize: u64 },
}

/// Bytes in a cluster.
pub open spec fn cluster_size(bits: u32) -> u64 {
    1u64 << bits
}

/// What an L2 entry says.
///
/// A compressed cluster descriptor (bits 61..0) with x = 62 - (bits - 8) holds
/// the host offset in bits x-1..0, and in bits 61..x how many 512-byte sectors
/// it spans besides the first.
pub open spec fn decode(entry: u64, bits: u32) -> Mapping {
    if entry & L2_COMPRESSED != 0 {
        let m = 1u64 << ((70 - bits) as u32);
        let desc = entry % 0x4000_0000_0000_0000;
        Mapping::Compressed {
            offset: desc % m,
            csize: ((desc / m + 1) * 512 - (desc % m) % 512) as u64,
        }
    } else if entry & L2_ZERO_FLAG != 0 {
        Mapping::Zero
    } else if entry & OFFSET_MASK == 0 {
        Mapping::Unallocated
    } else {
        Mapping::Data(entry & OFFSET_MASK)
    }
}

/// The host offset of the L2 table that covers the guest cluster `index`; 0,
/// if there is none.
pub open spec fn l2_table(l1: Seq<u64>, bits: u32, index: int) -> u64 {
    let i = index / (cluster_size(bits) / 8) as int;
    if i < l1.len() {
        l1[i] & OFFSET_MASK
    } else {
        0
    }
}

/// Where the data of the guest cluster `index` is; nothing, where the table
/// that says so cannot be read.
pub open spec fn mapping<D: ReadAt>(host: &D, l1: Seq<u64>, bits: u32, index: int) -> Option<Mapping> {
    let table = l2_table(l1, bits, index);
    if table == 0 {
        Some(Mapping::Unallocated)
    } else {
        match reads(host, table + index % ((cluster_size(bits) / 8) as int) * 8, 8) {
            Some(b) => Some(decode(be(b) as u64, bits)),
            None => None,
        }
    }
}

/// The compressed bytes of a cluster: `csize` is rounded up to sector
/// granularity and may reach past the end of the file for the last cluster.
pub open spec fn compressed<D: ReadAt>(host: &D, offset: u64, csize: u64) -> Option<Seq<u8>> {
    let size = host.bytes().len();
    let avail = if offset < size {
        size - offset
    } else {
        0
    };
    reads(
        host,
        offset as int,
        if csize < avail {
            csize as nat
        } else {
            avail as nat
        },
    )
}

/// What a compressed cluster inflates to.
pub open spec fn inflated_cluster<D: ReadAt>(host: &D, bits: u32, offset: u64, csize: u64) -> Option<
    Seq<u8>,
> {
    match compressed(host, offset, csize) {
        Some(comp) => match inflated(comp, cluster_size(bits) as nat) {
            Ok(data) => Some(data),
            Err(_) => None,
        },
        None => None,
    }
}

/// The device that an overlay defers to.
pub struct Backing {
    pub dev: Box<dyn ReadAt>,
}

/// The byte `i` of the backing device: zero past its end (an overlay may be
/// larger than its backing image), and where there is none.
pub open spec fn backing_byte(backing: Option<Backing>, i: int) -> Option<u8> {
    match backing {
        Some(b) => if i < b.dev.bytes().len() {
            b.dev.bytes()[i]
        } else {
            Some(0)
        },
        None => Some(0),
    }
}

/// The guest cluster `index` lies on the disk that the header describes.
pub open spec fn on_disk(h: HeaderView, index: int) -> bool {
    0 <= index && index * cluster_size(h.cluster_bits) < h.virtual_size
}

/// `data` is what some cluster of the guest's disk inflates to whose compressed
/// bytes start at `offset`.
pub open spec fn inflates_at<D: ReadAt>(host: &D, h: HeaderView, offset: u64, data: Seq<u8>) -> bool {
    exists|index: int|
        on_disk(h, index) && (#[trigger] mapping(host, h.l1, h.cluster_bits, index) matches Some(
            Mapping::Compressed { offset: o, csize },
        ) && o == offset && inflated_cluster(host, h.cluster_bits, offset, csize) == Some(data))
}

/// Clusters of the guest's disk whose compressed bytes start at the same offset
/// inflate alike, if they inflate at all. They need not where their entries
/// declare different sizes.
pub open spec fn unambiguous<D: ReadAt>(host: &D, h: HeaderView) -> bool {
    forall|i: int, j: int|
        on_disk(h, i) && on_disk(h, j) ==> alike(
            host,
            h.cluster_bits,
            #[trigger] mapping(host, h.l1, h.cluster_bits, i),
            #[trigger] mapping(host, h.l1, h.cluster_bits, j),
        )
}

/// Two clusters do not start at the same offset, or inflate alike.
pub open spec fn alike<D: ReadAt>(host: &D, bits: u32, a: Option<Mapping>, b: Option<Mapping>) -> bool {
    match (a, b) {
        (
            Some(Mapping::Compressed { offset: o, csize: m }),
            Some(Mapping::Compressed { offset: p, csize: n }),
        ) => o == p ==> inflated_cluster(host, bits, o, m) == inflated_cluster(host, bits, p, n),
        _ => true,
    }
}

/// A decompressed cluster, by the host offset of its compressed bytes.
struct CachedCluster {
    offset: u64,
    data: Vec<u8>,
}

/// What a cache may hold: clusters as they inflate from `host`.
struct Inflated<D> {
    host: D,
    header: HeaderView,
}

impl<D: ReadAt> RwLockPredicate<VecDeque<CachedCluster>> for Inflated<D> {
    closed spec fn inv(self, v: VecDeque<CachedCluster>) -> bool {
        &&& v@.len() <= CACHE_CLUSTERS
        &&& forall|i: int|
            0 <= i < v@.len() ==> {
                &&& (#[trigger] v@[i]).data@.len() == cluster_size(self.header.cluster_bits)
                &&& self.host.sound() ==> inflates_at(
                    &self.host,
                    self.header,
                    v@[i].offset,
                    v@[i].data@,
                )
            }
    }
}

/// A qcow2 image in `D`.
pub struct Qcow2<D: ReadAt> {
    host: D,
    virtual_size: u64,
    cluster_bits: u32,
    l1: Vec<u64>,
    backing_name: Option<String>,
    backing: Option<Backing>,
    /// Decompressed clusters; the oldest goes first.
    cache: RwLock<VecDeque<CachedCluster>, Inflated<D>>,
}

impl<D: ReadAt> Qcow2<D> {
    #[verifier::type_invariant]
    closed spec fn wf(&self) -> bool {
        &&& 9 <= self.cluster_bits <= 21
        &&& self.cache.pred() == (Inflated { host: self.host, header: self.header() })
    }

    /// The device that the image is in.
    pub closed spec fn spec_host(&self) -> D {
        self.host
    }

    /// What the header says.
    pub closed spec fn header(&self) -> HeaderView {
        HeaderView {
            virtual_size: self.virtual_size,
            cluster_bits: self.cluster_bits,
            l1: self.l1@,
            backing_name: opt(self.backing_name),
        }
    }

    /// The device behind unallocated clusters.
    pub closed spec fn spec_backing(&self) -> Option<Backing> {
        self.backing
    }

    /// The byte `i` of the guest's disk can read as `b`: as [`Self::guest_byte`]
    /// says, or, in a compressed cluster, as another one has it whose compressed
    /// bytes start at the same offset, if that was read before.
    pub open spec fn can_read_as(&self, i: int, b: u8) -> bool {
        let h = self.header();
        let size = cluster_size(h.cluster_bits) as int;
        match mapping(&self.spec_host(), h.l1, h.cluster_bits, i / size) {
            Some(Mapping::Compressed { offset, .. }) => exists|data: Seq<u8>| #[trigger]
                inflates_at(&self.spec_host(), h, offset, data) && b == data[i % size],
            _ => self.guest_byte(i) == Some(b),
        }
    }

    /// The byte `i` of the guest's disk.
    pub open spec fn guest_byte(&self, i: int) -> Option<u8> {
        let h = self.header();
        let size = cluster_size(h.cluster_bits) as int;
        match mapping(&self.spec_host(), h.l1, h.cluster_bits, i / size) {
            None => None,
            Some(Mapping::Data(offset)) => byte_at(self.spec_host().bytes(), offset + i % size),
            Some(Mapping::Zero) => Some(0),
            Some(Mapping::Unallocated) => backing_byte(self.spec_backing(), i),
            Some(Mapping::Compressed { offset, csize }) => match inflated_cluster(
                &self.spec_host(),
                h.cluster_bits,
                offset,
                csize,
            ) {
                Some(data) => Some(data[i % size]),
                None => None,
            },
        }
    }
}

/// The table of big-endian entries in `raw`.
fn entries(raw: &[u8]) -> (r: Vec<u64>)
    ensures
        r@ == entries_of(raw@),
{
    let n: usize = raw.len() / 8;
    let mut out: Vec<u64> = Vec::new();
    let mut i: usize = 0;
    while i < n
        invariant
            i <= n,
            n == raw@.len() / 8,
            8 * n <= usize::MAX,
            out@ == entries_of(raw@).take(i as int),
        decreases n - i,
    {
        let e: u64 = be_at(raw, 8 * i, 8);
        proof {
            assert(e == entries_of(raw@)[i as int]);
            assert(entries_of(raw@).take(i + 1) =~= entries_of(raw@).take(i as int).push(e));
        }
        out.push(e);
        i = i + 1;
    }
    assert(entries_of(raw@).take(i as int) =~= entries_of(raw@));
    out
}

/// A text followed by a number.
fn numbered(text: &str, n: u64) -> (r: String)
    ensures
        r@ == text@ + dec(n as nat),
{
    let mut out: String = String::new();
    out.append(text);
    push_dec(&mut out, n);
    assert(out@ =~= text@ + dec(n as nat));
    out
}

/// Refuse incompatible features that reading would need.
fn check_features(incompatible: u64) -> (r: Result<()>)
    ensures
        match feature_error(incompatible) {
            Some(e) => r matches Err(x) && x@ == e,
            None => r is Ok,
        },
{
    if incompatible & INCOMPAT_CORRUPT != 0 {
        return Err(Error::Qcow2("image is marked corrupt".to_owned()));
    }
    if incompatible & INCOMPAT_EXTERNAL_DATA != 0 {
        return Err(Error::Qcow2Unsupported("external data file".to_owned()));
    }
    if incompatible & INCOMPAT_COMPRESSION_TYPE != 0 {
        return Err(
            Error::Qcow2Unsupported("compression type other than zlib (likely zstd)".to_owned()),
        );
    }
    if incompatible & INCOMPAT_EXTENDED_L2 != 0 {
        return Err(Error::Qcow2Unsupported("extended L2 entries".to_owned()));
    }
    if incompatible & !INCOMPAT_DIRTY != 0 {
        let mut msg: String = String::new();
        msg.append("unknown incompatible features 0x");
        push_hex(&mut msg, incompatible);
        assert(msg@ =~= "unknown incompatible features 0x"@ + hex(incompatible as nat));
        return Err(Error::Qcow2Unsupported(msg));
    }
    Ok(())
}

/// Refuse what the fixed part of the header asks for, if it is not supported.
fn check_header(hdr: &[u8], incompatible: u64) -> (r: Result<()>)
    requires
        hdr@.len() == 72,
    ensures
        match header_error(hdr@, incompatible) {
            Some(e) => r matches Err(x) && x@ == e,
            None => r is Ok,
        },
{
    if be_at(hdr, 32, 4) != 0 {
        return Err(Error::Qcow2Unsupported("encryption".to_owned()));
    }
    check_features(incompatible)?;
    let cluster_bits: u64 = be_at(hdr, 20, 4);
    if cluster_bits < 9 || cluster_bits > 21 {
        return Err(Error::Qcow2(numbered("implausible cluster_bits ", cluster_bits)));
    }
    Ok(())
}

/// The name of the backing file, if the header has one.
fn read_backing_name<D: ReadAt>(host: &D, hdr: &[u8]) -> (r: Result<Option<String>>)
    requires
        hdr@.len() == 72,
    ensures
        host.sound() ==> match backing_field(host, hdr@) {
            None => r matches Ok(n) && n is None,
            Some(name) => if header_field(hdr@, 16, 4) > 1023 {
                r matches Err(x) && x@ == ErrorView::Qcow2("implausible backing file name length"@)
            } else {
                match name {
                    None => r is Err,
                    Some(b) => r matches Ok(Some(n)) && n@ == utf8_lossy(b),
                }
            },
        },
{
    let offset: u64 = be_at(hdr, 8, 8);
    let size: u64 = be_at(hdr, 16, 4);
    if offset != 0 && size > 0 {
        if size > 1023 {
            return Err(Error::Qcow2("implausible backing file name length".to_owned()));
        }
        let name = read_vec(host, offset, size as usize)?;
        return Ok(Some(lossy(name.as_slice())));
    }
    Ok(None)
}

/// The incompatible features of an image, once its magic and version are
/// accepted.
fn read_features<D: ReadAt>(host: &D, hdr: &[u8]) -> (r: Result<u64>)
    requires
        hdr@.len() == 72,
    ensures
        host.sound() ==> ({
            let version = header_field(hdr@, 4, 4);
            if hdr@.take(4) != magic() {
                r matches Err(x) && x@ == ErrorView::Qcow2("bad magic"@)
            } else if version != 2 && version != 3 {
                r matches Err(x) && x@ == ErrorView::Qcow2("unsupported version "@ + dec(version))
            } else if version == 3 {
                match reads(host, 72, 8) {
                    None => r is Err,
                    Some(b) => r matches Ok(n) && n == be(b),
                }
            } else {
                r matches Ok(n) && n == 0
            }
        }),
{
    if !has_magic(hdr) {
        return Err(Error::Qcow2("bad magic".to_owned()));
    }
    let version: u64 = be_at(hdr, 4, 4);
    if version != 2 && version != 3 {
        return Err(Error::Qcow2(numbered("unsupported version ", version)));
    }
    if version == 3 {
        let b = read_vec(host, 72, 8)?;
        assert(field(b@, 0, 8) =~= b@);
        return Ok(be_at(b.as_slice(), 0, 8));
    }
    Ok(0)
}

impl<D: ReadAt> Qcow2<D> {
    /// Open the image in `host`.
    pub fn open(host: D) -> (r: Result<Qcow2<D>>)
        ensures
            r matches Ok(q) ==> q.spec_host() == host && q.spec_backing() is None,
            host.sound() ==> match opened(&host) {
                Opened::Header(h) => r matches Ok(q) && q.header() == h,
                Opened::Refused(e) => r matches Err(x) && x@ == e,
                Opened::Unreadable => r is Err,
            },
    {
        // v2 header is 72 bytes; v3 extension fields are read separately.
        let hdr = read_vec(&host, 0, 72)?;
        let incompatible: u64 = read_features(&host, hdr.as_slice())?;
        check_header(hdr.as_slice(), incompatible)?;
        let backing_name = read_backing_name(&host, hdr.as_slice())?;
        // The L1 table is small (one entry maps cluster_size/8 * cluster_size
        // bytes; 8 KiB of L1 covers 64 GiB at 64 KiB clusters): load it whole.
        let l1_size: u64 = be_at(hdr.as_slice(), 36, 4);
        proof {
            lemma_spans();
        }
        let l1_bytes: u64 = l1_size * 8;
        if l1_bytes > usize::MAX as u64 {
            return Err(Error::Qcow2("L1 table does not fit in memory".to_owned()));
        }
        let raw = read_vec(&host, be_at(hdr.as_slice(), 40, 8), l1_bytes as usize)?;
        let l1 = entries(raw.as_slice());
        let cluster_bits: u32 = be_at(hdr.as_slice(), 20, 4) as u32;
        let virtual_size: u64 = be_at(hdr.as_slice(), 24, 8);
        let clusters: VecDeque<CachedCluster> = VecDeque::new();
        let ghost header = HeaderView {
            virtual_size,
            cluster_bits,
            l1: l1@,
            backing_name: opt(backing_name),
        };
        let ghost pred = Inflated { host, header };
        let cache = RwLock::<VecDeque<CachedCluster>, Inflated<D>>::new(clusters, Ghost(pred));
        Ok(
            Qcow2 {
                host,
                virtual_size,
                cluster_bits,
                l1,
                backing_name,
                backing: None,
                cache,
            },
        )
    }

    /// Backing file name from the header, exactly as stored (resolution
    /// against the image's directory is the opener's job).
    pub fn backing_file(&self) -> (r: Option<&str>)
        ensures
            crate::boot::opt_str(r) == self.header().backing_name,
    {
        match &self.backing_name {
            Some(n) => Some(n.as_str()),
            None => None,
        }
    }

    /// Attach the device that unallocated clusters defer to.
    pub fn set_backing(&mut self, backing: Backing)
        ensures
            final(self).spec_backing() == Some(backing),
            final(self).header() == old(self).header(),
            final(self).spec_host() == old(self).spec_host(),
    {
        proof {
            use_type_invariant(&*self);
        }
        self.backing = Some(backing);
    }
}

// ---------------------------------------------------------------------
// Reading
// ---------------------------------------------------------------------

proof fn lemma_cluster_size(bits: u32)
    requires
        9 <= bits <= 21,
    ensures
        512 <= cluster_size(bits) <= 0x20_0000,
        cluster_size(bits) / 8 >= 64,
{
    assert(512 <= (1u64 << bits) && (1u64 << bits) <= 0x20_0000) by (bit_vector)
        requires
            9 <= bits <= 21,
    ;
}

/// What an L2 entry says.
fn decode_entry(entry: u64, bits: u32) -> (r: Mapping)
    requires
        9 <= bits <= 21,
    ensures
        r == decode(entry, bits),
        r matches Mapping::Data(h) ==> h <= OFFSET_MASK,
        r matches Mapping::Compressed { csize, .. } ==> csize <= 0x40_0000,
{
    if entry & L2_COMPRESSED != 0 {
        let x: u32 = 70 - bits;
        let m: u64 = 1u64 << x;
        assert(m >= 0x2_0000_0000_0000) by (bit_vector)
            requires
                49 <= x <= 61,
                m == 1u64 << x,
        ;
        let desc: u64 = entry % 0x4000_0000_0000_0000;
        let sectors: u64 = desc / m;
        assert(sectors < 0x2000) by (nonlinear_arith)
            requires
                sectors == desc / m,
                desc < 0x4000_0000_0000_0000,
                m >= 0x2_0000_0000_0000,
        ;
        let offset: u64 = desc % m;
        return Mapping::Compressed { offset, csize: (sectors + 1) * 512 - offset % 512 };
    }
    if entry & L2_ZERO_FLAG != 0 {
        return Mapping::Zero;
    }
    let offset: u64 = entry & OFFSET_MASK;
    assert(offset <= OFFSET_MASK) by (bit_vector)
        requires
            offset == entry & 0x00ff_ffff_ffff_fe00,
    ;
    if offset == 0 {
        Mapping::Unallocated
    } else {
        Mapping::Data(offset)
    }
}

impl<D: ReadAt> Qcow2<D> {
    /// Everything that the image is read from is sound.
    pub open spec fn parts_sound(&self) -> bool {
        self.spec_host().sound() && (self.spec_backing() matches Some(b) ==> b.dev.sound())
    }

    /// Where the data of the guest cluster `index` is.
    fn map_cluster(&self, index: u64) -> (r: Result<Mapping>)
        ensures
            self.host.sound() ==> match mapping(
                &self.host,
                self.l1@,
                self.cluster_bits,
                index as int,
            ) {
                Some(m) => r matches Ok(x) && x == m,
                None => r is Err,
            },
            r matches Ok(Mapping::Data(h)) ==> h <= OFFSET_MASK,
            r matches Ok(Mapping::Compressed { csize, .. }) ==> csize <= 0x40_0000,
    {
        proof {
            use_type_invariant(self);
            lemma_cluster_size(self.cluster_bits);
        }
        let per_table: u64 = (1u64 << self.cluster_bits) / 8;
        let i: u64 = index / per_table;
        let table: u64 = if i < self.l1.len() as u64 {
            self.l1[i as usize] & OFFSET_MASK
        } else {
            0
        };
        if table == 0 {
            return Ok(Mapping::Unallocated);
        }
        let ghost e = self.l1@[i as int];
        assert(table <= OFFSET_MASK) by {
            assert(e & 0x00ff_ffff_ffff_fe00 <= 0x00ff_ffff_ffff_fe00) by (bit_vector);
        }
        let b = read_vec(&self.host, table + (index % per_table) * 8, 8)?;
        assert(field(b@, 0, 8) =~= b@);
        Ok(decode_entry(be_at(b.as_slice(), 0, 8), self.cluster_bits))
    }

    /// Look for a decompressed cluster in the cache; if it is there, copy
    /// its bytes from `within` on, and say so.
    fn from_cache(&self, offset: u64, within: u64, buf: &mut [u8]) -> (r: bool)
        requires
            within + old(buf)@.len() <= cluster_size(self.cluster_bits),
        ensures
            final(buf)@.len() == old(buf)@.len(),
            r && self.host.sound() ==> exists|data: Seq<u8>| #[trigger]
                inflates_at(&self.host, self.header(), offset, data) && data.len() == cluster_size(
                    self.cluster_bits,
                ) && final(buf)@ == data.subrange(within as int, within + old(buf)@.len()),
    {
        proof {
            use_type_invariant(self);
            lemma_cluster_size(self.cluster_bits);
        }
        let n: usize = buf.len();
        let handle = self.cache.acquire_read();
        let clusters = handle.borrow();
        let mut i: usize = 0;
        while i < clusters.len()
            invariant
                i <= clusters@.len(),
                n == buf@.len(),
                n == old(buf)@.len(),
                within + n <= cluster_size(self.cluster_bits) <= 0x20_0000,
                (Inflated { host: self.host, header: self.header() }).inv(*clusters),
            decreases clusters@.len() - i,
        {
            let c = &clusters[i];
            if c.offset == offset {
                copy_from(buf, c.data.as_slice(), within as usize);
                assert(self.host.sound() ==> inflates_at(
                    &self.host,
                    self.header(),
                    offset,
                    c.data@,
                ));
                handle.release_read();
                return true;
            }
            i = i + 1;
        }
        handle.release_read();
        false
    }

    /// Keep a decompressed cluster for later reads.
    fn remember(&self, offset: u64, data: Vec<u8>)
        requires
            data@.len() == cluster_size(self.cluster_bits),
            self.host.sound() ==> inflates_at(&self.host, self.header(), offset, data@),
    {
        proof {
            use_type_invariant(self);
        }
        let (clusters, handle) = self.cache.acquire_write();
        let mut clusters = clusters;
        if clusters.len() >= CACHE_CLUSTERS {
            let _ = clusters.pop_front();
        }
        clusters.push_back(CachedCluster { offset, data });
        handle.release_write(clusters);
    }

    /// Read from the compressed guest cluster `index`, from `within` on. What is
    /// in the cache is found by its offset alone.
    fn read_compressed(
        &self,
        Ghost(index): Ghost<int>,
        offset: u64,
        csize: u64,
        within: u64,
        buf: &mut [u8],
    ) -> (r: Result<()>)
        requires
            within + old(buf)@.len() <= cluster_size(self.cluster_bits),
            csize <= 0x40_0000,
            on_disk(self.header(), index),
            self.host.sound() ==> mapping(&self.host, self.l1@, self.cluster_bits, index) == Some(
                Mapping::Compressed { offset, csize },
            ),
        ensures
            final(buf)@.len() == old(buf)@.len(),
            self.host.sound() && r is Ok ==> exists|data: Seq<u8>| #[trigger]
                inflates_at(&self.host, self.header(), offset, data) && data.len() == cluster_size(
                    self.cluster_bits,
                ) && final(buf)@ == data.subrange(within as int, within + old(buf)@.len()),
            self.host.sound() && inflated_cluster(&self.host, self.cluster_bits, offset, csize) is Some
                ==> r is Ok,
    {
        proof {
            use_type_invariant(self);
            lemma_cluster_size(self.cluster_bits);
        }
        if self.from_cache(offset, within, buf) {
            return Ok(());
        }
        // `csize` is rounded up to sector granularity and may reach past the
        // end of the file for the last cluster; read what exists.
        let host_size: u64 = self.host.size();
        let avail: u64 = if offset < host_size {
            host_size - offset
        } else {
            0
        };
        let n: u64 = if csize < avail {
            csize
        } else {
            avail
        };
        let comp = read_vec(&self.host, offset, n as usize)?;
        let size: usize = (1u64 << self.cluster_bits) as usize;
        let data = inflate(comp.as_slice(), size, offset)?;
        copy_from(buf, data.as_slice(), within as usize);
        assert(self.host.sound() ==> inflates_at(&self.host, self.header(), offset, data@));
        self.remember(offset, data);
        Ok(())
    }

    /// Unallocated range: defer to the backing file, zero-filling past its
    /// end (an overlay may be larger than its backing image).
    fn read_backing(&self, offset: u64, buf: &mut [u8]) -> (r: Result<()>)
        requires
            old(buf)@.len() > 0,
        ensures
            final(buf)@.len() == old(buf)@.len(),
            (self.backing matches Some(b) ==> b.dev.sound()) ==> ({
                let n = old(buf)@.len();
                if forall|i: int|
                    0 <= i < n ==> (#[trigger] backing_byte(self.backing, offset + i)) is Some {
                    r is Ok && final(buf)@ == Seq::new(
                        n,
                        |i: int| backing_byte(self.backing, offset + i)->0,
                    )
                } else {
                    r is Err
                }
            }),
    {
        let room: usize = buf.len();
        match &self.backing {
            None => {
                clear(buf);
                assert(buf@ =~= Seq::new(
                    room as nat,
                    |i: int| backing_byte(self.backing, offset + i)->0,
                ));
                Ok(())
            },
            Some(b) => {
                let size: u64 = b.dev.size();
                let avail: u64 = if offset < size {
                    size - offset
                } else {
                    0
                };
                let n: usize = if (room as u64) < avail {
                    room
                } else {
                    avail as usize
                };
                let (head, tail) = buf.split_at_mut(n);
                if n > 0 {
                    let r = b.dev.read_at(offset, head);
                    proof {
                        if b.dev.sound() {
                            let bytes = b.dev.bytes();
                            assert forall|i: int| 0 <= i < n implies #[trigger] backing_byte(
                                self.backing,
                                offset + i,
                            ) == bytes[offset + i] by {}
                            if r is Err {
                                let j = choose|j: int|
                                    offset <= j < offset + n && !((#[trigger] bytes[j]) is Some);
                                assert(backing_byte(self.backing, offset + (j - offset)) is None);
                            }
                        }
                    }
                    if r.is_err() {
                        return r;
                    }
                }
                clear(tail);
                proof {
                    if b.dev.sound() {
                        let want = Seq::new(
                            room as nat,
                            |i: int| backing_byte(self.backing, offset + i)->0,
                        );
                        assert forall|i: int| 0 <= i < room implies (#[trigger] backing_byte(
                            self.backing,
                            offset + i,
                        )) is Some by {
                            if i < n {
                                assert(b.dev.bytes()[offset + i] is Some);
                            }
                        }
                        assert(buf@ =~= want);
                    }
                }
                Ok(())
            },
        }
    }
}

proof fn lemma_in_cluster(pos: int, k: int, size: int)
    requires
        size > 0,
        0 <= pos,
        0 <= k,
        pos % size + k < size,
    ensures
        (pos + k) / size == pos / size,
        (pos + k) % size == pos % size + k,
{
    vstd::arithmetic::div_mod::lemma_fundamental_div_mod(pos, size);
    assert(size * (pos / size) == (pos / size) * size) by (nonlinear_arith);
    vstd::arithmetic::div_mod::lemma_fundamental_div_mod_converse(
        pos + k,
        size,
        pos / size,
        pos % size + k,
    );
}

/// Reading a run of bytes that lies somewhere in `bytes`.
proof fn lemma_run(bytes: Seq<Option<u8>>, at: int, n: nat)
    requires
        0 <= at,
        n > 0,
    ensures
        forall|empty: bool|
            (#[trigger] read_of(bytes, empty, at, n)) == (if forall|i: int|
                0 <= i < n ==> (#[trigger] byte_at(bytes, at + i)) is Some {
                Some(Seq::new(n, |i: int| byte_at(bytes, at + i)->0))
            } else {
                None
            }),
{
    assert forall|empty: bool| (#[trigger] read_of(bytes, empty, at, n)) == (if forall|i: int|
        0 <= i < n ==> (#[trigger] byte_at(bytes, at + i)) is Some {
        Some(Seq::new(n, |i: int| byte_at(bytes, at + i)->0))
    } else {
        None
    }) by {
        let all = forall|i: int| 0 <= i < n ==> (#[trigger] byte_at(bytes, at + i)) is Some;
        if all {
            assert(byte_at(bytes, at + (n - 1)) is Some);
            assert forall|i: int| at <= i < at + n implies (#[trigger] bytes[i]) is Some by {
                assert(byte_at(bytes, at + (i - at)) is Some);
            }
            assert(read_of(bytes, empty, at, n)->0 =~= Seq::new(
                n,
                |i: int| byte_at(bytes, at + i)->0,
            ));
        } else if at + n <= bytes.len() {
            let i = choose|i: int| 0 <= i < n && !((#[trigger] byte_at(bytes, at + i)) is Some);
            assert(bytes[at + i] is None);
        }
    }
}

impl<D: ReadAt> Qcow2<D> {
    /// Read bytes of one cluster.
    fn read_in_cluster(&self, pos: u64, buf: &mut [u8]) -> (r: Result<()>)
        requires
            old(buf)@.len() > 0,
            pos % cluster_size(self.cluster_bits) + old(buf)@.len() <= cluster_size(
                self.cluster_bits,
            ),
            pos < self.virtual_size,
        ensures
            final(buf)@.len() == old(buf)@.len(),
            self.parts_sound() && r is Ok ==> forall|k: int|
                0 <= k < old(buf)@.len() ==> self.can_read_as(pos + k, #[trigger] final(buf)@[k]),
            self.parts_sound() && r is Err ==> exists|k: int|
                0 <= k < old(buf)@.len() && (#[trigger] self.guest_byte(pos + k)) is None,
    {
        proof {
            use_type_invariant(self);
            lemma_cluster_size(self.cluster_bits);
        }
        let ghost n = buf@.len();
        let size: u64 = 1u64 << self.cluster_bits;
        let within: u64 = pos % size;
        proof {
            assert forall|k: int| 0 <= k < n implies (#[trigger] (pos + k)) / size as int == pos
                as int / size as int && (pos + k) % size as int == within + k by {
                lemma_in_cluster(pos as int, k, size as int);
            }
        }
        proof {
            vstd::arithmetic::div_mod::lemma_fundamental_div_mod(pos as int, size as int);
            assert((pos as int / size as int) * size <= pos) by (nonlinear_arith)
                requires
                    pos as int == size * (pos as int / size as int) + pos as int % size as int,
                    0 <= pos as int % size as int,
            ;
            assert(on_disk(self.header(), pos as int / size as int));
        }
        let ghost at = mapping(
            &self.host,
            self.l1@,
            self.cluster_bits,
            pos as int / size as int,
        );
        let mapped = self.map_cluster(pos / size);
        proof {
            if self.parts_sound() && mapped is Err {
                assert(self.guest_byte(pos + 0) is None);
            }
        }
        match mapped? {
            Mapping::Data(offset) => {
                proof {
                    lemma_run(self.host.bytes(), offset + within, n);
                }
                let r = self.host.read_at(offset + within, buf);
                proof {
                    if self.parts_sound() {
                        assert forall|k: int| 0 <= k < n implies #[trigger] self.guest_byte(pos + k)
                            == byte_at(self.host.bytes(), offset + within + k) by {
                            assert((pos + k) / size as int == pos as int / size as int);
                        }
                        if r is Err {
                            let k = choose|k: int|
                                0 <= k < n && !((#[trigger] byte_at(
                                    self.host.bytes(),
                                    offset + within + k,
                                )) is Some);
                            assert(self.guest_byte(pos + k) is None);
                        } else {
                            assert forall|k: int| 0 <= k < n implies self.can_read_as(
                                pos + k,
                                #[trigger] buf@[k],
                            ) by {
                                assert(byte_at(self.host.bytes(), offset + within + k) is Some);
                                assert(self.guest_byte(pos + k) == Some(buf@[k]));
                            }
                        }
                    }
                }
                r
            },
            Mapping::Zero => {
                clear(buf);
                proof {
                    if self.parts_sound() {
                        assert forall|k: int| 0 <= k < n implies self.can_read_as(
                            pos + k,
                            #[trigger] buf@[k],
                        ) by {
                            assert((pos + k) / size as int == pos as int / size as int);
                            assert(self.guest_byte(pos + k) == Some(0u8));
                        }
                    }
                }
                Ok(())
            },
            Mapping::Unallocated => {
                let r = self.read_backing(pos, buf);
                proof {
                    if self.parts_sound() {
                        assert forall|k: int| 0 <= k < n implies #[trigger] self.guest_byte(pos + k)
                            == backing_byte(self.backing, pos + k) by {
                            assert((pos + k) / size as int == pos as int / size as int);
                        }
                        if r is Err {
                            let k = choose|k: int|
                                0 <= k < n && !((#[trigger] backing_byte(self.backing, pos + k)) is Some);
                            assert(self.guest_byte(pos + k) is None);
                        } else {
                            assert forall|k: int| 0 <= k < n implies self.can_read_as(
                                pos + k,
                                #[trigger] buf@[k],
                            ) by {
                                assert(backing_byte(self.backing, pos + k) is Some);
                                assert(self.guest_byte(pos + k) == Some(buf@[k]));
                            }
                        }
                    }
                }
                r
            },
            Mapping::Compressed { offset, csize } => {
                let r = self.read_compressed(
                    Ghost(pos as int / size as int),
                    offset,
                    csize,
                    within,
                    buf,
                );
                proof {
                    if self.parts_sound() {
                        assert(at == Some(Mapping::Compressed { offset, csize }));
                        if r is Err {
                            assert(self.guest_byte(pos + 0) is None);
                        } else {
                            let data = choose|data: Seq<u8>| #[trigger]
                                inflates_at(&self.host, self.header(), offset, data) && data.len()
                                    == size && buf@ == data.subrange(within as int, within + n);
                            assert forall|k: int| 0 <= k < n implies self.can_read_as(
                                pos + k,
                                #[trigger] buf@[k],
                            ) by {
                                assert((pos + k) / size as int == pos as int / size as int);
                                assert(buf@[k] == data[(pos + k) % size as int]);
                            }
                        }
                    }
                }
                r
            },
        }
    }

    /// Where entries are unambiguous, a byte reads as it is.
    proof fn lemma_reads_as_is(&self, i: int, b: u8)
        requires
            9 <= self.header().cluster_bits <= 21,
            unambiguous(&self.spec_host(), self.header()),
            0 <= i < self.header().virtual_size,
            self.can_read_as(i, b),
        ensures
            self.guest_byte(i) == Some(b),
    {
        let h = self.header();
        let host = self.spec_host();
        let size = cluster_size(h.cluster_bits) as int;
        lemma_cluster_size(h.cluster_bits);
        vstd::arithmetic::div_mod::lemma_fundamental_div_mod(i, size);
        assert((i / size) * size <= i) by (nonlinear_arith)
            requires
                i == size * (i / size) + i % size,
                0 <= i % size,
        ;
        assert(0 <= i / size) by {
            vstd::arithmetic::div_mod::lemma_div_pos_is_pos(i, size);
        }
        let here = mapping(&host, h.l1, h.cluster_bits, i / size);
        if let Some(Mapping::Compressed { offset, csize }) = here {
            let data = choose|data: Seq<u8>| #[trigger]
                inflates_at(&host, h, offset, data) && b == data[i % size];
            let j = choose|j: int|
                on_disk(h, j) && (#[trigger] mapping(&host, h.l1, h.cluster_bits, j) matches Some(
                    Mapping::Compressed { offset: o, csize: n },
                ) && o == offset && inflated_cluster(&host, h.cluster_bits, offset, n) == Some(
                    data,
                ));
            assert(alike(
                &host,
                h.cluster_bits,
                here,
                mapping(&host, h.l1, h.cluster_bits, j),
            ));
        }
    }
}

impl<D: ReadAt> ReadAt for Qcow2<D> {
    open spec fn sound(&self) -> bool {
        self.parts_sound() && unambiguous(&self.spec_host(), self.header())
    }

    open spec fn bytes(&self) -> Seq<Option<u8>> {
        Seq::new(self.header().virtual_size as nat, |i: int| self.guest_byte(i))
    }

    open spec fn empty_read(&self, offset: u64) -> bool {
        offset <= self.header().virtual_size
    }

    /// A read that does not lie on the guest's disk is refused, and the buffer is
    /// left as it was. Any other yields what the bytes can read as, and fails only
    /// where one of them cannot be read; so also where entries are ambiguous, and
    /// what a byte reads as depends on what was read before.
    fn read_at(&self, offset: u64, buf: &mut [u8]) -> (r: Result<()>)
        ensures
            offset + old(buf)@.len() > self.header().virtual_size ==> refused(
                r,
                offset,
                old(buf)@.len(),
                self.header().virtual_size,
            ) && final(buf)@ == old(buf)@,
            self.parts_sound() && r is Ok ==> forall|i: int|
                0 <= i < old(buf)@.len() ==> self.can_read_as(offset + i, #[trigger] final(buf)@[i]),
            self.parts_sound() && offset + old(buf)@.len() <= self.header().virtual_size && r is Err
                ==> exists|i: int|
                0 <= i < old(buf)@.len() && (#[trigger] self.guest_byte(offset + i)) is None,
    {
        let total: usize = buf.len();
        let fits: bool = match offset.checked_add(total as u64) {
            Some(end) => end <= self.virtual_size,
            None => false,
        };
        if !fits {
            return Err(Error::OutOfBounds { offset, len: total, size: self.virtual_size });
        }
        proof {
            use_type_invariant(self);
            lemma_cluster_size(self.cluster_bits);
        }
        let size: u64 = 1u64 << self.cluster_bits;
        let mut done: usize = 0;
        while done < total
            invariant
                done <= total,
                total == buf@.len(),
                total == old(buf)@.len(),
                offset + total <= self.virtual_size,
                size == cluster_size(self.cluster_bits),
                512 <= size <= 0x20_0000,
                self.parts_sound() ==> forall|i: int|
                    0 <= i < done ==> self.can_read_as(offset + i, #[trigger] buf@[i]),
                self.bytes().len() == self.virtual_size,
            decreases total - done,
        {
            let pos: u64 = offset + done as u64;
            let within: u64 = pos % size;
            let left: usize = total - done;
            let chunk: usize = if size - within < left as u64 {
                (size - within) as usize
            } else {
                left
            };
            let (_, rest) = buf.split_at_mut(done);
            let (head, _) = rest.split_at_mut(chunk);
            let r = self.read_in_cluster(pos, head);
            proof {
                if self.parts_sound() {
                    assert(pos == offset + done);
                    if r is Err {
                        let k = choose|k: int|
                            0 <= k < chunk && (#[trigger] self.guest_byte(pos + k)) is None;
                        assert(self.guest_byte(offset + (done + k)) is None);
                        assert(self.bytes()[offset + done + k] is None);
                    } else {
                        assert forall|i: int| 0 <= i < done + chunk implies self.can_read_as(
                            offset + i,
                            #[trigger] buf@[i],
                        ) by {
                            if i >= done {
                                assert(self.can_read_as(pos + (i - done), buf@[i]));
                            }
                        }
                    }
                }
            }
            r?;
            done = done + chunk;
        }
        proof {
            if self.sound() && total > 0 {
                let bytes = self.bytes();
                assert forall|i: int| offset <= i < offset + total implies (#[trigger] bytes[i])
                    == Some(buf@[i - offset]) by {
                    assert(self.can_read_as(offset + (i - offset), buf@[i - offset]));
                    self.lemma_reads_as_is(i, buf@[i - offset]);
                }
                assert(buf@ =~= read_of(bytes, true, offset as int, total as nat)->0);
            }
        }
        Ok(())
    }

    fn size(&self) -> (n: u64)
        ensures
            n == self.header().virtual_size,
    {
        self.virtual_size
    }
}

/// An image whose entries declare one size for each offset of compressed bytes is
/// unambiguous.
pub proof fn law_one_size_is_unambiguous<D: ReadAt>(host: &D, h: HeaderView)
    requires
        forall|i: int, j: int|
            on_disk(h, i) && on_disk(h, j) ==> match (
                #[trigger] mapping(host, h.l1, h.cluster_bits, i),
                #[trigger] mapping(host, h.l1, h.cluster_bits, j),
            ) {
                (
                    Some(Mapping::Compressed { offset: o, csize: m }),
                    Some(Mapping::Compressed { offset: p, csize: n }),
                ) => o == p ==> m == n,
                _ => true,
            },
    ensures
        unambiguous(host, h),
{
}

// ---------------------------------------------------------------------
// Compressed clusters
// ---------------------------------------------------------------------

/// Some entry of the L2 table `raw` is compressed.
pub open spec fn some_compressed(raw: Seq<u8>) -> bool {
    exists|i: int|
        0 <= i < entries_of(raw).len() && (#[trigger] entries_of(raw)[i]) & L2_COMPRESSED != 0
}

/// Whether an allocated cluster is compressed, by the L2 tables in the order
/// of the L1 entries, up to the first that has one; nothing, where a table
/// before it cannot be read.
pub open spec fn compressed_in<D: ReadAt>(host: &D, l1: Seq<u64>, bits: u32) -> Option<bool>
    decreases l1.len(),
{
    if l1.len() == 0 {
        Some(false)
    } else {
        let table = l1[0] & OFFSET_MASK;
        if table == 0 {
            compressed_in(host, l1.drop_first(), bits)
        } else {
            match reads(host, table as int, cluster_size(bits) as nat) {
                None => None,
                Some(raw) => if some_compressed(raw) {
                    Some(true)
                } else {
                    compressed_in(host, l1.drop_first(), bits)
                },
            }
        }
    }
}

/// Whether some entry of an L2 table is compressed.
fn any_compressed(raw: &[u8]) -> (r: bool)
    ensures
        r == some_compressed(raw@),
{
    let n: usize = raw.len() / 8;
    let mut i: usize = 0;
    while i < n
        invariant
            i <= n,
            n == raw@.len() / 8,
            8 * n <= usize::MAX,
            forall|j: int| 0 <= j < i ==> (#[trigger] entries_of(raw@)[j]) & L2_COMPRESSED == 0,
        decreases n - i,
    {
        let e: u64 = be_at(raw, 8 * i, 8);
        assert(e == entries_of(raw@)[i as int]);
        if e & L2_COMPRESSED != 0 {
            return true;
        }
        i = i + 1;
    }
    false
}

impl<D: ReadAt> Qcow2<D> {
    /// Whether any allocated cluster is zlib-compressed. Such clusters are
    /// read fine here, but crosvm's qcow2 reader cannot - it returns I/O
    /// errors to the guest, so the disk shows up with the right size yet no
    /// readable partition table. A caller that direct-boots via crosvm uses
    /// this to convert the image first. Scans only present L2 tables (one
    /// whole-cluster read each) and returns at the first compressed entry -
    /// a compressed cloud image hits cluster 0 immediately. The backing
    /// chain is not scanned (imported images are single-file).
    pub fn has_compressed_clusters(&self) -> (r: Result<bool>)
        ensures
            (forall|i: int|
                0 <= i < self.header().l1.len() ==> (#[trigger] self.header().l1[i]) & OFFSET_MASK
                    == 0) ==> (r matches Ok(x) && !x),
            self.spec_host().sound() ==> match compressed_in(
                &self.spec_host(),
                self.header().l1,
                self.header().cluster_bits,
            ) {
                Some(b) => r matches Ok(x) && x == b,
                None => r is Err,
            },
    {
        proof {
            use_type_invariant(self);
            lemma_cluster_size(self.cluster_bits);
        }
        let size: u64 = 1u64 << self.cluster_bits;
        let ghost want = compressed_in(&self.host, self.l1@, self.cluster_bits);
        let mut i: usize = 0;
        assert(self.l1@.skip(0) =~= self.l1@);
        while i < self.l1.len()
            invariant
                i <= self.l1@.len(),
                size == cluster_size(self.cluster_bits),
                size <= 0x20_0000,
                want == compressed_in(&self.host, self.l1@, self.cluster_bits),
                self.host.sound() ==> want == compressed_in(
                    &self.host,
                    self.l1@.skip(i as int),
                    self.cluster_bits,
                ),
            decreases self.l1@.len() - i,
        {
            proof {
                assert(self.header().l1[i as int] == self.l1@[i as int]);
                assert(self.l1@.skip(i as int)[0] == self.l1@[i as int]);
                assert(self.l1@.skip(i as int).drop_first() =~= self.l1@.skip(i + 1));
            }
            let table: u64 = self.l1[i] & OFFSET_MASK;
            if table != 0 {
                let l2 = read_vec(&self.host, table, size as usize)?;
                if any_compressed(l2.as_slice()) {
                    return Ok(true);
                }
            }
            i = i + 1;
        }
        Ok(false)
    }
}

/// Where no compressed cluster was found, none is ever read.
pub proof fn law_none_compressed<D: ReadAt>(host: &D, l1: Seq<u64>, bits: u32, index: int)
    requires
        9 <= bits <= 21,
        0 <= index,
        compressed_in(host, l1, bits) == Some(false),
    ensures
        !(mapping(host, l1, bits, index) matches Some(Mapping::Compressed { .. })),
{
    lemma_cluster_size(bits);
    let per = (cluster_size(bits) / 8) as int;
    let i = index / per;
    let k = index % per;
    let table = l2_table(l1, bits, index);
    vstd::arithmetic::div_mod::lemma_fundamental_div_mod(index, per);
    vstd::arithmetic::div_mod::lemma_mod_bound(index, per);
    if table != 0 {
        assert(0 <= i) by {
            vstd::arithmetic::div_mod::lemma_div_pos_is_pos(index, per);
        }
        lemma_scanned(host, l1, bits, i);
        let raw = reads(host, table as int, cluster_size(bits) as nat)->0;
        assert(cluster_size(bits) as int == per * 8) by {
            assert((1u64 << bits) % 8 == 0) by (bit_vector)
                requires
                    9 <= bits <= 21,
            ;
        }
        assert(entries_of(raw)[k] & L2_COMPRESSED == 0);
        let bytes = host.bytes();
        assert(reads(host, table + k * 8, 8) == Some(field(raw, 8 * k, 8))) by {
            assert forall|j: int| table + k * 8 <= j < table + k * 8 + 8 implies (#[trigger] bytes[j]) is Some by {}
            assert(reads(host, table + k * 8, 8)->0 =~= field(raw, 8 * k, 8));
        }
        lemma_be_bound(field(raw, 8 * k, 8));
        lemma_spans();
    }
}

proof fn lemma_scanned<D: ReadAt>(host: &D, l1: Seq<u64>, bits: u32, i: int)
    requires
        compressed_in(host, l1, bits) == Some(false),
        0 <= i < l1.len(),
        l1[i] & OFFSET_MASK != 0,
    ensures
        reads(host, (l1[i] & OFFSET_MASK) as int, cluster_size(bits) as nat) matches Some(raw)
            && !some_compressed(raw),
    decreases l1.len(),
{
    if i > 0 {
        assert(l1.drop_first()[i - 1] == l1[i]);
        lemma_scanned(host, l1.drop_first(), bits, i - 1);
    }
}

/// An overlay without clusters of its own reads as its backing device, and as
/// zeroes past its end or without one.
pub proof fn law_empty_overlay_reads_its_backing<D: ReadAt>(q: &Qcow2<D>, i: int)
    requires
        0 <= i < q.header().virtual_size,
        9 <= q.header().cluster_bits <= 21,
        forall|j: int| 0 <= j < q.header().l1.len() ==> (#[trigger] q.header().l1[j]) & OFFSET_MASK == 0,
    ensures
        q.bytes()[i] == backing_byte(q.spec_backing(), i),
{
    let bits = q.header().cluster_bits;
    lemma_cluster_size(bits);
    let index = i / cluster_size(bits) as int;
    let per = (cluster_size(bits) / 8) as int;
    vstd::arithmetic::div_mod::lemma_div_pos_is_pos(i, cluster_size(bits) as int);
    vstd::arithmetic::div_mod::lemma_div_pos_is_pos(index, per);
}

// ---------------------------------------------------------------------
// The format
// ---------------------------------------------------------------------

/// A compressed cluster of an image with clusters of `2^bits` bytes, whose data
/// starts at `offset` and goes on for `extra` sectors behind the first, is found
/// by the entry `2^62 + extra * 2^(70 - bits) + offset`. The topmost bit does not
/// matter.
pub proof fn law_compressed_entry_says_where(bits: u32, offset: int, extra: int, top: int)
    requires
        9 <= bits <= 21,
        0 <= offset < pow2((70 - bits) as nat),
        0 <= extra < pow2((bits - 8) as nat),
        0 <= top <= 1,
    ensures
        decode(
            (top * pow2(63) + pow2(62) + extra * pow2((70 - bits) as nat) + offset) as u64,
            bits,
        ) == (Mapping::Compressed {
            offset: offset as u64,
            csize: ((extra + 1) * 512 - offset % 512) as u64,
        }),
{
    lemma2_to64();
    lemma2_to64_rest();
    let x = (70 - bits) as u32;
    let m = pow2(x as nat) as int;
    let k = pow2((bits - 8) as nat) as int;
    lemma_pow2_adds(x as nat, (bits - 8) as nat);
    lemma_pow2_strictly_increases((bits - 8) as nat, 14);
    lemma_u64_shl_is_mul(1, x as u64);
    assert(1u64 << x == m) by {
        assert(1u64 << x == 1u64 << (x as u64)) by (bit_vector);
    }
    let low = extra * m + offset;
    assert(0 <= low < m * k) by (nonlinear_arith)
        requires
            0 <= offset < m,
            0 <= extra,
            extra + 1 <= k,
            low == extra * m + offset,
    ;
    assert(m * k == 0x4000_0000_0000_0000);
    let e = (top * 0x8000_0000_0000_0000 + 0x4000_0000_0000_0000 + low) as u64;
    assert(0 <= top * 0x8000_0000_0000_0000 <= 0x8000_0000_0000_0000);
    assert(e == top * 0x8000_0000_0000_0000 + 0x4000_0000_0000_0000 + low);
    assert(e % 0x4000_0000_0000_0000 == low);
    assert(e / 0x4000_0000_0000_0000 == top * 2 + 1);
    assert(e & L2_COMPRESSED != 0) by {
        let q = e / 0x4000_0000_0000_0000u64;
        assert(q % 2 == 1);
        assert(e & 0x4000_0000_0000_0000 != 0) by (bit_vector)
            requires
                q == e / 0x4000_0000_0000_0000u64,
                q % 2 == 1,
        ;
    }
    lemma_fundamental_div_mod_converse(low, m, extra, offset);
    assert(extra < 0x4000);
}

/// An entry that is not compressed says that its cluster is at `offset`, or is not
/// there where that is 0; the bits above the offset do not matter. With the lowest
/// bit set the cluster is all zeroes.
pub proof fn law_plain_entry_says_where(bits: u32, offset: int, high: int, top: int)
    requires
        0 <= offset < pow2(56),
        offset % 512 == 0,
        0 <= high < pow2(6),
        0 <= top <= 1,
    ensures
        decode((top * pow2(63) + high * pow2(56) + offset) as u64, bits) == (if offset == 0 {
            Mapping::Unallocated
        } else {
            Mapping::Data(offset as u64)
        }),
        decode((top * pow2(63) + high * pow2(56) + offset + 1) as u64, bits) == Mapping::Zero,
{
    lemma2_to64();
    lemma2_to64_rest();
    let e = (top * 0x8000_0000_0000_0000 + high * 0x100_0000_0000_0000 + offset) as u64;
    assert(0 <= high * 0x100_0000_0000_0000 < 0x4000_0000_0000_0000);
    assert(0 <= top * 0x8000_0000_0000_0000 <= 0x8000_0000_0000_0000);
    assert(e == top * 0x8000_0000_0000_0000 + high * 0x100_0000_0000_0000 + offset);
    assert(e % 0x8000_0000_0000_0000 < 0x4000_0000_0000_0000);
    assert(e % 0x100_0000_0000_0000 == offset);
    assert(e % 512 == 0);
    let f = (e + 1) as u64;
    assert(e & 0x4000_0000_0000_0000 == 0 && e & 1 == 0 && e & 0x00ff_ffff_ffff_fe00 == e
        % 0x100_0000_0000_0000 && f & 0x4000_0000_0000_0000 == 0 && f & 1 == 1) by (bit_vector)
        requires
            e % 0x8000_0000_0000_0000 < 0x4000_0000_0000_0000,
            e % 512 == 0,
            f == e + 1,
    ;
}

/// The L1 entry `i`, with an L2 table at `table`, covers `2^bits / 8` clusters: the
/// cluster `k` of them is where the eight bytes at `table + 8 * k` say.
pub proof fn law_tables_lead_to_the_entry<D: ReadAt>(
    host: &D,
    l1: Seq<u64>,
    bits: u32,
    i: int,
    k: int,
    table: int,
    top: int,
    e: Seq<u8>,
)
    requires
        9 <= bits <= 21,
        0 <= i < l1.len(),
        0 <= 8 * k < pow2(bits as nat),
        0 < table < pow2(56),
        table % 512 == 0,
        0 <= top <= 1,
        l1[i] == top * pow2(63) + table,
        e.len() == 8,
        table + 8 * k + 8 <= host.bytes().len(),
        forall|j: int|
            0 <= j < 8 ==> host.bytes()[table + 8 * k + j] == Some(#[trigger] e[j]),
    ensures
        mapping(host, l1, bits, i * (pow2(bits as nat) as int / 8) + k) == Some(
            decode(big64(e, 0) as u64, bits),
        ),
{
    lemma2_to64();
    lemma2_to64_rest();
    lemma_cluster_size(bits);
    lemma_cluster_size_is(bits);
    law_fields_are_numbers(e, 0);
    assert(field(e, 0, 8) =~= e);
    let per = pow2(bits as nat) as int / 8;
    let index = i * per + k;
    lemma_fundamental_div_mod_converse(index, per, i, k);
    let x = l1[i];
    assert(0 <= top * 0x8000_0000_0000_0000 <= 0x8000_0000_0000_0000);
    assert(x % 0x100_0000_0000_0000 == table);
    assert(x & 0x00ff_ffff_ffff_fe00 == x % 0x100_0000_0000_0000) by (bit_vector)
        requires
            x % 512 == 0,
    ;
    let bytes = host.bytes();
    let at = table + k * 8;
    assert forall|j: int| at <= j < at + 8 implies (#[trigger] bytes[j]) is Some by {
        assert(bytes[table + 8 * k + (j - at)] == Some(e[j - at]));
    }
    assert(reads(host, at, 8)->0 =~= e) by {
        assert forall|j: int| 0 <= j < 8 implies reads(host, at, 8)->0[j] == e[j] by {
            assert(bytes[table + 8 * k + j] == Some(e[j]));
        }
    }
}

/// Where there is no L1 entry, or one without an L2 table, nothing is allocated.
pub proof fn law_no_table_no_cluster<D: ReadAt>(host: &D, l1: Seq<u64>, bits: u32, i: int, k: int)
    requires
        9 <= bits <= 21,
        0 <= i,
        0 <= 8 * k < pow2(bits as nat),
        i < l1.len() ==> l1[i] == 0,
    ensures
        mapping(host, l1, bits, i * (pow2(bits as nat) as int / 8) + k) == Some(
            Mapping::Unallocated,
        ),
{
    lemma_cluster_size(bits);
    lemma_cluster_size_is(bits);
    let per = pow2(bits as nat) as int / 8;
    lemma_fundamental_div_mod_converse(i * per + k, per, i, k);
    assert(0u64 & 0x00ff_ffff_ffff_fe00 == 0) by (bit_vector);
}

proof fn lemma_cluster_size_is(bits: u32)
    requires
        9 <= bits <= 21,
    ensures
        cluster_size(bits) == pow2(bits as nat),
        pow2(bits as nat) % 8 == 0,
{
    lemma2_to64();
    lemma_pow2_strictly_increases(bits as nat, 22);
    lemma_u64_shl_is_mul(1, bits as u64);
    assert(1u64 << bits == 1u64 << (bits as u64)) by (bit_vector);
    lemma_pow2_adds(3, (bits - 3) as nat);
    assert(pow2(bits as nat) % 8 == 0) by (nonlinear_arith)
        requires
            pow2(bits as nat) == 8 * pow2((bits - 3) as nat),
    ;
}

/// The byte `j` of the guest cluster `index` is the byte `j` of what the cluster
/// is mapped to: of the file from there on, of the inflated data, a zero, or the
/// byte of the backing device at the same place of the guest's disk.
pub proof fn law_clusters_are_contiguous<D: ReadAt>(q: &Qcow2<D>, index: int, j: int)
    requires
        9 <= q.header().cluster_bits <= 21,
        0 <= index,
        0 <= j < pow2(q.header().cluster_bits as nat),
    ensures
        ({
            let h = q.header();
            let at = index * pow2(h.cluster_bits as nat) + j;
            let got = q.guest_byte(at);
            match mapping(&q.spec_host(), h.l1, h.cluster_bits, index) {
                None => got is None,
                Some(Mapping::Data(offset)) => if offset + j < q.spec_host().bytes().len() {
                    got == q.spec_host().bytes()[offset + j]
                } else {
                    got is None
                },
                Some(Mapping::Zero) => got == Some(0u8),
                Some(Mapping::Unallocated) => match q.spec_backing() {
                    Some(b) if at < b.dev.bytes().len() => got == b.dev.bytes()[at],
                    _ => got == Some(0u8),
                },
                Some(Mapping::Compressed { offset, csize }) => match inflated_cluster(
                    &q.spec_host(),
                    h.cluster_bits,
                    offset,
                    csize,
                ) {
                    Some(data) => got == Some(data[j]),
                    None => got is None,
                },
            }
        }),
{
    let bits = q.header().cluster_bits;
    lemma_cluster_size_is(bits);
    let size = pow2(bits as nat) as int;
    lemma_fundamental_div_mod_converse(index * size + j, size, index, j);
}

/// A compressed cluster inflates from the `csize` bytes at `offset`, or as many as
/// the file has.
pub proof fn law_compressed_bytes_are_those_of_the_file<D: ReadAt>(
    host: &D,
    bits: u32,
    offset: u64,
    csize: u64,
    comp: Seq<u8>,
)
    requires
        9 <= bits <= 21,
        comp.len() > 0,
        comp.len() <= csize,
        offset + comp.len() <= host.bytes().len(),
        comp.len() < csize ==> offset + comp.len() == host.bytes().len(),
        forall|j: int| 0 <= j < comp.len() ==> host.bytes()[offset + j] == Some(#[trigger] comp[j]),
    ensures
        match inflated(comp, pow2(bits as nat)) {
            Ok(data) => inflated_cluster(host, bits, offset, csize) == Some(data) && data.len()
                == pow2(bits as nat),
            Err(_) => inflated_cluster(host, bits, offset, csize) is None,
        },
{
    lemma_cluster_size_is(bits);
    crate::disk::inflate::law_inflated_has_its_size(comp, pow2(bits as nat));
    let bytes = host.bytes();
    assert forall|j: int| offset <= j < offset + comp.len() implies (#[trigger] bytes[j]) is Some by {
        assert(bytes[offset + (j - offset)] == Some(comp[j - offset]));
    }
    assert(reads(host, offset as int, comp.len())->0 =~= comp) by {
        assert forall|j: int| 0 <= j < comp.len() implies reads(
            host,
            offset as int,
            comp.len(),
        )->0[j] == comp[j] by {
            assert(bytes[offset + j] == Some(comp[j]));
        }
    }
}

/// What an accepted image says stands in its header, big-endian: the version at 4,
/// the name of the backing file at what 8 says with the length at 16, the cluster
/// bits at 20, the size of the disk at 24, and the L1 table at what 40 says with as
/// many entries as 36 says. Encrypted images are not accepted.
pub proof fn law_header_holds_what_is_said<D: ReadAt>(host: &D, hdr: Seq<u8>, h: HeaderView, i: int)
    requires
        reads(host, 0, 72) == Some(hdr),
        opened(host) == Opened::Header(h),
    ensures
        hdr[0] == 0x51 && hdr[1] == 0x46 && hdr[2] == 0x49 && hdr[3] == 0xfb,
        big32(hdr, 4) == 2 || big32(hdr, 4) == 3,
        big32(hdr, 32) == 0,
        9 <= h.cluster_bits <= 21,
        h.cluster_bits == big32(hdr, 20),
        h.virtual_size == big64(hdr, 24),
        h.l1.len() == big32(hdr, 36),
        0 <= i < h.l1.len() ==> (reads(host, big64(hdr, 40) + 8 * i, 8) matches Some(e) && h.l1[i]
            == big64(e, 0)),
        h.backing_name is Some <==> big64(hdr, 8) != 0 && big32(hdr, 16) != 0,
        h.backing_name matches Some(name) ==> (reads(
            host,
            big64(hdr, 8),
            big32(hdr, 16) as nat,
        ) matches Some(b) && name == utf8_lossy(b)),
{
    law_fields_are_numbers(hdr, 4);
    law_fields_are_numbers(hdr, 8);
    law_fields_are_numbers(hdr, 16);
    law_fields_are_numbers(hdr, 20);
    law_fields_are_numbers(hdr, 24);
    law_fields_are_numbers(hdr, 32);
    law_fields_are_numbers(hdr, 36);
    law_fields_are_numbers(hdr, 40);
    assert(hdr.len() == 72);
    assert(hdr.take(4)[0] == hdr[0] && hdr.take(4)[1] == hdr[1] && hdr.take(4)[2] == hdr[2]
        && hdr.take(4)[3] == hdr[3]);
    let n = big32(hdr, 36) * 8;
    let at = big64(hdr, 40);
    let raw = reads(host, at, n as nat)->0;
    assert(h.l1 == entries_of(raw));
    assert(raw.len() == n);
    if 0 <= i < h.l1.len() {
        let e = field(raw, 8 * i, 8);
        let bytes = host.bytes();
        assert forall|j: int| at + 8 * i <= j < at + 8 * i + 8 implies (#[trigger] bytes[j]) is Some by {}
        assert(reads(host, at + 8 * i, 8)->0 =~= e);
        law_fields_are_numbers(e, 0);
        assert(field(e, 0, 8) =~= e);
    }
}

/// An image of version 2 without encryption, without a backing file and with
/// plausible clusters is accepted, if its L1 table can be read.
pub proof fn law_plain_images_are_accepted<D: ReadAt>(host: &D, hdr: Seq<u8>)
    requires
        reads(host, 0, 72) == Some(hdr),
        hdr[0] == 0x51 && hdr[1] == 0x46 && hdr[2] == 0x49 && hdr[3] == 0xfb,
        big32(hdr, 4) == 2,
        big32(hdr, 32) == 0,
        9 <= big32(hdr, 20) <= 21,
        big64(hdr, 8) == 0 || big32(hdr, 16) == 0,
        big32(hdr, 36) * 8 <= usize::MAX,
        reads(host, big64(hdr, 40), (big32(hdr, 36) * 8) as nat) is Some,
    ensures
        opened(host) is Header,
{
    law_fields_are_numbers(hdr, 4);
    law_fields_are_numbers(hdr, 8);
    law_fields_are_numbers(hdr, 16);
    law_fields_are_numbers(hdr, 20);
    law_fields_are_numbers(hdr, 32);
    law_fields_are_numbers(hdr, 36);
    law_fields_are_numbers(hdr, 40);
    assert(hdr.len() == 72);
    assert(hdr.take(4) =~= magic());
    assert(0u64 & 2 == 0 && 0u64 & 4 == 0 && 0u64 & 8 == 0 && 0u64 & 16 == 0 && 0u64 & !1u64 == 0)
        by (bit_vector);
}

} // verus!
