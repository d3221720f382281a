//! Disk image formats. Opening sniffs the format and yields a flat
//! byte-addressable view of the *guest-visible* disk contents; the caller
//! opens the files of a backing chain and attaches them.

pub mod inflate;
pub mod qcow2;
pub mod qcow2_laws;

pub use crate::disk::qcow2::{Backing, Qcow2};

use crate::blockdev::{holds, law_reads_are_the_bytes, read_vec, reads, refused, ReadAt};
use crate::disk::qcow2::{has_magic, magic, opened, Opened};
use crate::error::{Error, ErrorView, Result};
use vstd::prelude::*;
use vstd::string::*;

verus! {

broadcast use vstd::seq_lib::group_seq_properties;

/// How many images may stand behind one another.
pub const MAX_BACKING_DEPTH: u32 = 8;

/// A disk image in a file `F`.
pub enum DiskImage<F: ReadAt> {
    Raw(F),
    Qcow2(Qcow2<F>),
}

/// The format of an image.
pub enum Format {
    Raw,
    Qcow2,
    /// Its first bytes cannot be read.
    Unreadable,
}

/// What the first bytes of `file` say; images shorter than 4 bytes are treated
/// as raw.
pub open spec fn format_of<F: ReadAt>(file: &F) -> Format {
    if file.bytes().len() < 4 {
        Format::Raw
    } else {
        match reads(file, 0, 4) {
            None => Format::Unreadable,
            Some(m) => if m == magic() {
                Format::Qcow2
            } else {
                Format::Raw
            },
        }
    }
}

impl<F: ReadAt> DiskImage<F> {
    /// Sniff the format of `file` and open it. An image with a backing file
    /// still has to get it attached.
    pub fn open(file: F) -> (r: Result<DiskImage<F>>)
        ensures
            r matches Ok(image) ==> match image {
                DiskImage::Raw(f) => f == file,
                DiskImage::Qcow2(q) => q.spec_host() == file && q.spec_backing() is None,
            },
            file.sound() ==> match format_of(&file) {
                Format::Unreadable => r is Err,
                Format::Raw => r matches Ok(DiskImage::Raw(f)) && f == file,
                Format::Qcow2 => match opened(&file) {
                    Opened::Header(h) => r matches Ok(DiskImage::Qcow2(q)) && q.spec_host() == file
                        && q.header() == h && q.spec_backing() is None,
                    Opened::Refused(e) => r matches Err(x) && x@ == e,
                    Opened::Unreadable => r is Err,
                },
            },
    {
        if file.size() < 4 {
            return Ok(DiskImage::Raw(file));
        }
        let m = read_vec(&file, 0, 4)?;
        assert(m@.take(4) =~= m@);
        if !has_magic(m.as_slice()) {
            return Ok(DiskImage::Raw(file));
        }
        Ok(DiskImage::Qcow2(Qcow2::open(file)?))
    }

    /// How the format is called.
    pub fn format(&self) -> (r: &'static str)
        ensures
            r@ == (match *self {
                DiskImage::Raw(_) => "raw"@,
                DiskImage::Qcow2(_) => "qcow2"@,
            }),
    {
        match self {
            DiskImage::Raw(_) => "raw",
            DiskImage::Qcow2(_) => "qcow2",
        }
    }

    /// The name of the backing file, as the image stores it.
    pub fn backing_file(&self) -> (r: Option<&str>)
        ensures
            crate::boot::opt_str(r) == (match *self {
                DiskImage::Raw(_) => None,
                DiskImage::Qcow2(q) => q.header().backing_name,
            }),
    {
        match self {
            DiskImage::Raw(_) => None,
            DiskImage::Qcow2(q) => q.backing_file(),
        }
    }

    /// Attach the backing device of an overlay; a raw image has none.
    pub fn with_backing(self, backing: Backing) -> (r: DiskImage<F>)
        ensures
            match (self, r) {
                (DiskImage::Raw(f), DiskImage::Raw(g)) => f == g,
                (DiskImage::Qcow2(p), DiskImage::Qcow2(q)) => {
                    &&& q.spec_backing() == Some(backing)
                    &&& q.header() == p.header()
                    &&& q.spec_host() == p.spec_host()
                },
                _ => false,
            },
    {
        match self {
            DiskImage::Raw(f) => DiskImage::Raw(f),
            DiskImage::Qcow2(q) => {
                let mut q = q;
                q.set_backing(backing);
                DiskImage::Qcow2(q)
            },
        }
    }
}

impl<F: ReadAt> ReadAt for DiskImage<F> {
    open spec fn sound(&self) -> bool {
        match *self {
            DiskImage::Raw(f) => f.sound(),
            DiskImage::Qcow2(q) => q.sound(),
        }
    }

    open spec fn bytes(&self) -> Seq<Option<u8>> {
        match *self {
            DiskImage::Raw(f) => f.bytes(),
            DiskImage::Qcow2(q) => q.bytes(),
        }
    }

    open spec fn empty_read(&self, offset: u64) -> bool {
        match *self {
            DiskImage::Raw(f) => f.empty_read(offset),
            DiskImage::Qcow2(q) => q.empty_read(offset),
        }
    }

    /// A read that does not lie on the disk of a qcow2 image is refused, and the
    /// buffer is left as it was; a raw image answers for itself.
    fn read_at(&self, offset: u64, buf: &mut [u8]) -> (r: Result<()>)
        ensures
            *self matches DiskImage::Qcow2(q) ==> offset + old(buf)@.len() > q.header().virtual_size
                ==> refused(r, offset, old(buf)@.len(), q.header().virtual_size) && final(buf)@
                == old(buf)@,
            *self matches DiskImage::Qcow2(q) ==> q.parts_sound() && r is Ok ==> forall|i: int|
                0 <= i < old(buf)@.len() ==> q.can_read_as(offset + i, #[trigger] final(buf)@[i]),
            *self matches DiskImage::Qcow2(q) ==> q.parts_sound() && offset + old(buf)@.len()
                <= q.header().virtual_size && r is Err ==> exists|i: int|
                0 <= i < old(buf)@.len() && (#[trigger] q.guest_byte(offset + i)) is None,
    {
        match self {
            DiskImage::Raw(f) => f.read_at(offset, buf),
            DiskImage::Qcow2(q) => q.read_at(offset, buf),
        }
    }

    fn size(&self) -> (n: u64)
        ensures
            *self matches DiskImage::Qcow2(q) ==> n == q.header().virtual_size,
    {
        match self {
            DiskImage::Raw(f) => f.size(),
            DiskImage::Qcow2(q) => q.size(),
        }
    }
}

/// Refuse a backing chain that does not end.
pub fn check_depth(depth: u32) -> (r: Result<()>)
    ensures
        if depth > MAX_BACKING_DEPTH {
            r matches Err(e) && e@ == ErrorView::Qcow2("backing file chain too deep (loop?)"@)
        } else {
            r is Ok
        },
{
    if depth > MAX_BACKING_DEPTH {
        return Err(Error::Qcow2("backing file chain too deep (loop?)".to_owned()));
    }
    Ok(())
}

/// How a failure to open the backing file at `path` is reported.
pub fn backing_error(path: &str, e: &Error) -> (r: Error)
    ensures
        r@ == ErrorView::Qcow2("opening backing file "@ + path@ + ": "@ + e@.message()),
{
    let why = e.message();
    let mut msg: String = String::new();
    msg.append("opening backing file ");
    msg.append(path);
    msg.append(": ");
    msg.append(why.as_str());
    assert(msg@ =~= "opening backing file "@ + path@ + ": "@ + e@.message());
    Error::Qcow2(msg)
}

/// An image that begins with `QFI` and 0xfb is qcow2, and every other one is
/// raw.
pub proof fn law_magic_tells_the_format<F: ReadAt>(file: &F, b: Seq<u8>)
    requires
        holds(file, b),
    ensures
        match format_of(file) {
            Format::Qcow2 => b.len() >= 4 && b[0] == 0x51 && b[1] == 0x46 && b[2] == 0x49 && b[3]
                == 0xfb,
            Format::Raw => !(b.len() >= 4 && b[0] == 0x51 && b[1] == 0x46 && b[2] == 0x49 && b[3]
                == 0xfb),
            Format::Unreadable => false,
        },
        MAX_BACKING_DEPTH == 8,
{
    law_reads_are_the_bytes(file, b, 0, 4);
    if b.len() >= 4 {
        let m = b.subrange(0, 4);
        if b[0] == 0x51 && b[1] == 0x46 && b[2] == 0x49 && b[3] == 0xfb {
            assert(m =~= magic());
        } else if m == magic() {
            assert(m[0] == b[0] && m[1] == b[1] && m[2] == b[2] && m[3] == b[3]);
        }
    }
}

} // verus!
