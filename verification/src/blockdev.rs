//! The byte-addressed read-only device abstraction everything stacks on.

use crate::bytes::copy_from;
use crate::error::{Error, Result};
use std::sync::Arc;
use vstd::prelude::*;

verus! {

broadcast use vstd::seq_lib::group_seq_properties;

/// What reading `len` bytes at `offset` yields on a device that holds
/// `bytes`, where a byte that cannot be read is `None`. `empty` says whether
/// reading nothing at all succeeds there.
pub open spec fn read_of(bytes: Seq<Option<u8>>, empty: bool, offset: int, len: nat) -> Option<
    Seq<u8>,
> {
    if len == 0 {
        if empty {
            Some(seq![])
        } else {
            None
        }
    } else if offset + len <= bytes.len() && forall|i: int|
        offset <= i < offset + len ==> (#[trigger] bytes[i]) is Some {
        Some(Seq::new(len, |i: int| bytes[offset + i]->0))
    } else {
        None
    }
}

/// A read-only device addressable by absolute byte offset.
///
/// `&self` on purpose: implementations must be usable without external
/// synchronization for reads (e.g. `pread(2)` on files), so layers above can
/// share one device.
///
/// The spec functions say what the device holds; `sound` says that every read
/// is answered from that. An implementation whose reads can also fail or
/// change in passing (a file that others write to, a network) leaves `sound`
/// false, and promises no more than that a buffer keeps its length.
pub trait ReadAt {
    /// Every read is answered from what the device holds.
    open spec fn sound(&self) -> bool {
        false
    }

    /// What the device holds; `None` for a byte that cannot be read.
    open spec fn bytes(&self) -> Seq<Option<u8>> {
        seq![]
    }

    /// Reading no bytes at `offset` succeeds.
    open spec fn empty_read(&self, offset: u64) -> bool {
        false
    }

    /// Read exactly `buf.len()` bytes at `offset`. Short reads are errors.
    fn read_at(&self, offset: u64, buf: &mut [u8]) -> (r: Result<()>)
        ensures
            final(buf)@.len() == old(buf)@.len(),
            self.sound() ==> self.bytes().len() <= u64::MAX,
            self.sound() ==> match read_of(
                self.bytes(),
                self.empty_read(offset),
                offset as int,
                old(buf)@.len(),
            ) {
                Some(data) => r is Ok && final(buf)@ == data,
                None => r is Err,
            },
    ;

    /// Total size in bytes.
    fn size(&self) -> (n: u64)
        ensures
            self.sound() ==> n == self.bytes().len(),
    ;

    /// Whether `len` bytes at `offset` lie on the device.
    fn check_bounds(&self, offset: u64, len: usize) -> (r: Result<()>)
        ensures
            self.sound() ==> match r {
                Ok(_) => offset + len <= self.bytes().len(),
                Err(e) => offset + len > self.bytes().len() && e == (Error::OutOfBounds {
                    offset,
                    len,
                    size: self.bytes().len() as u64,
                }),
            },
            r is Err ==> (r->Err_0 matches Error::OutOfBounds { offset: o, len: l, .. } && o
                == offset && l == len),
    {
        let size: u64 = self.size();
        match offset.checked_add(len as u64) {
            Some(end) if end <= size => Ok(()),
            _ => Err(Error::OutOfBounds { offset, len, size }),
        }
    }
}

/// A read of `len` bytes at `offset` is refused, as out of the bounds of a
/// device of `size` bytes.
pub open spec fn refused(r: Result<()>, offset: u64, len: nat, size: u64) -> bool {
    r matches Err(e) && e == (Error::OutOfBounds { offset, len: len as usize, size })
}

/// What reading `len` bytes at `offset` of `dev` yields.
pub open spec fn reads<D: ReadAt + ?Sized>(dev: &D, offset: int, len: nat) -> Option<Seq<u8>> {
    read_of(dev.bytes(), dev.empty_read(offset as u64), offset, len)
}

/// Read `len` bytes at `offset` into a buffer of their own.
pub fn read_vec<D: ReadAt + ?Sized>(dev: &D, offset: u64, len: usize) -> (r: Result<Vec<u8>>)
    ensures
        r matches Ok(v) ==> v@.len() == len,
        dev.sound() ==> match reads(dev, offset as int, len as nat) {
            Some(data) => r matches Ok(v) && v@ == data,
            None => r is Err,
        },
{
    let mut buf: Vec<u8> = vec![0u8;len];
    dev.read_at(offset, buf.as_mut_slice())?;
    Ok(buf)
}

/// Reading in two steps yields what reading at once does.
pub proof fn law_reads_join<D: ReadAt + ?Sized>(dev: &D, offset: int, a: nat, b: nat)
    requires
        0 <= offset,
        a > 0,
        b > 0,
    ensures
        match (reads(dev, offset, a), reads(dev, offset + a, b)) {
            (Some(x), Some(y)) => reads(dev, offset, a + b) == Some(x + y),
            _ => reads(dev, offset, a + b) is None,
        },
{
    let bytes = dev.bytes();
    let whole = reads(dev, offset, a + b);
    let x = reads(dev, offset, a);
    let y = reads(dev, offset + a, b);
    if x is Some && y is Some {
        assert forall|i: int| offset <= i < offset + a + b implies (#[trigger] bytes[i]) is Some by {}
        assert(whole->0 =~= x->0 + y->0);
    } else if whole is Some {
        assert forall|i: int| offset <= i < offset + a implies (#[trigger] bytes[i]) is Some by {}
        assert forall|i: int| offset + a <= i < offset + a + b implies (#[trigger] bytes[i]) is Some by {}
    }
}

impl<T: ReadAt + ?Sized> ReadAt for Box<T> {
    open spec fn sound(&self) -> bool {
        (**self).sound()
    }

    open spec fn bytes(&self) -> Seq<Option<u8>> {
        (**self).bytes()
    }

    open spec fn empty_read(&self, offset: u64) -> bool {
        (**self).empty_read(offset)
    }

    fn read_at(&self, offset: u64, buf: &mut [u8]) -> Result<()> {
        (**self).read_at(offset, buf)
    }

    fn size(&self) -> u64 {
        (**self).size()
    }
}

impl<T: ReadAt + ?Sized> ReadAt for Arc<T> {
    open spec fn sound(&self) -> bool {
        (**self).sound()
    }

    open spec fn bytes(&self) -> Seq<Option<u8>> {
        (**self).bytes()
    }

    open spec fn empty_read(&self, offset: u64) -> bool {
        (**self).empty_read(offset)
    }

    fn read_at(&self, offset: u64, buf: &mut [u8]) -> Result<()> {
        (**self).read_at(offset, buf)
    }

    fn size(&self) -> u64 {
        (**self).size()
    }
}

/// A device in memory.
impl ReadAt for Vec<u8> {
    open spec fn sound(&self) -> bool {
        true
    }

    open spec fn bytes(&self) -> Seq<Option<u8>> {
        Seq::new(self@.len(), |i: int| Some(self@[i]))
    }

    open spec fn empty_read(&self, offset: u64) -> bool {
        offset <= self@.len()
    }

    fn read_at(&self, offset: u64, buf: &mut [u8]) -> (r: Result<()>) {
        let n: usize = buf.len();
        assert(self.len() == self@.len());
        self.check_bounds(offset, n)?;
        copy_from(buf, self.as_slice(), offset as usize);
        proof {
            if n > 0 {
                assert(forall|i: int| 0 <= i < self.bytes().len() ==> (#[trigger] self.bytes()[i]) is Some);
                assert(buf@ =~= read_of(
                    self.bytes(),
                    self.empty_read(offset),
                    offset as int,
                    n as nat,
                )->0);
            }
        }
        Ok(())
    }

    fn size(&self) -> u64 {
        self.len() as u64
    }
}

/// The byte at `i`; none, past the end.
pub open spec fn byte_at(bytes: Seq<Option<u8>>, i: int) -> Option<u8> {
    if 0 <= i < bytes.len() {
        bytes[i]
    } else {
        None
    }
}

/// Where `start + offset` lands in 64 bits.
pub open spec fn wrapped(start: u64, offset: int) -> int {
    (start + offset) % 0x1_0000_0000_0000_0000
}

/// A byte-range window over a parent device. Used to expose one partition
/// as its own device. Offsets into the parent wrap around at 64 bits: a
/// corrupt partition table can ask for anything.
pub struct Slice<D> {
    parent: D,
    start: u64,
    len: u64,
}

impl<D: ReadAt> Slice<D> {
    pub closed spec fn spec_parent(&self) -> D {
        self.parent
    }

    pub closed spec fn spec_start(&self) -> u64 {
        self.start
    }

    pub closed spec fn spec_len(&self) -> u64 {
        self.len
    }

    /// The window of `len` bytes from `start` on.
    pub closed spec fn window(parent: D, start: u64, len: u64) -> Self {
        Slice { parent, start, len }
    }

    pub fn new(parent: D, start: u64, len: u64) -> (r: Self)
        ensures
            r == Slice::window(parent, start, len),
            r.spec_parent() == parent,
            r.spec_start() == start,
            r.spec_len() == len,
    {
        Slice { parent, start, len }
    }
}

proof fn lemma_window(bytes: Seq<Option<u8>>, start: u64, len: u64, offset: u64, n: nat, empty: bool)
    requires
        bytes.len() <= u64::MAX,
        n > 0,
        offset + n <= len,
    ensures
        read_of(bytes, empty, wrapped(start, offset as int), n) == read_of(
            Seq::new(len as nat, |i: int| byte_at(bytes, wrapped(start, i))),
            empty,
            offset as int,
            n,
        ),
{
    let window = Seq::new(len as nat, |i: int| byte_at(bytes, wrapped(start, i)));
    let at = wrapped(start, offset as int);
    let a = read_of(bytes, empty, at, n);
    let b = read_of(window, empty, offset as int, n);
    if at + n <= bytes.len() {
        assert forall|i: int| 0 <= i < n implies #[trigger] window[offset + i] == bytes[at + i] by {
            assert(wrapped(start, offset + i) == at + i);
        }
        if a is Some {
            assert forall|i: int| offset <= i < offset + n implies (#[trigger] window[i]) is Some by {
                assert(window[offset + (i - offset)] == bytes[at + (i - offset)]);
            }
            assert(a->0 =~= b->0);
        } else {
            let i = choose|i: int| at <= i < at + n && !((#[trigger] bytes[i]) is Some);
            assert(window[offset + (i - at)] == bytes[at + (i - at)]);
        }
    } else {
        // Some byte of the range lies past the end of the parent.
        let k = if at >= bytes.len() {
            0
        } else {
            bytes.len() - at
        };
        assert(wrapped(start, offset + k) == at + k);
        assert(window[offset + k] is None);
    }
}

impl<D: ReadAt> ReadAt for Slice<D> {
    open spec fn sound(&self) -> bool {
        self.spec_parent().sound()
    }

    open spec fn bytes(&self) -> Seq<Option<u8>> {
        Seq::new(
            self.spec_len() as nat,
            |i: int| byte_at(self.spec_parent().bytes(), wrapped(self.spec_start(), i)),
        )
    }

    open spec fn empty_read(&self, offset: u64) -> bool {
        offset <= self.spec_len() && self.spec_parent().empty_read(
            wrapped(self.spec_start(), offset as int) as u64,
        )
    }

    /// A read that does not lie in the window is refused, and the buffer is left
    /// as it was.
    fn read_at(&self, offset: u64, buf: &mut [u8]) -> (r: Result<()>)
        ensures
            offset + old(buf)@.len() > self.spec_len() ==> refused(
                r,
                offset,
                old(buf)@.len(),
                self.spec_len(),
            ) && final(buf)@ == old(buf)@,
    {
        let fits: bool = match offset.checked_add(buf.len() as u64) {
            Some(end) => end <= self.len,
            None => false,
        };
        if !fits {
            return Err(Error::OutOfBounds { offset, len: buf.len(), size: self.len });
        }
        let at: u64 = self.start.wrapping_add(offset);
        let n: usize = buf.len();
        let r = self.parent.read_at(at, buf);
        proof {
            assert(at == wrapped(self.start, offset as int));
            if self.sound() && n > 0 {
                lemma_window(
                    self.parent.bytes(),
                    self.start,
                    self.len,
                    offset,
                    n as nat,
                    self.parent.empty_read(at),
                );
            }
        }
        r
    }

    fn size(&self) -> (n: u64)
        ensures
            n == self.spec_len(),
    {
        self.len
    }
}

/// A window that lies on its parent reads what the parent holds there.
pub proof fn law_slice_reads_its_parent<D: ReadAt>(s: &Slice<D>, offset: u64, n: nat)
    requires
        n > 0,
        s.spec_start() + s.spec_len() <= s.spec_parent().bytes().len() <= u64::MAX,
    ensures
        reads(s, offset as int, n) == (if offset + n <= s.spec_len() {
            reads(&s.spec_parent(), s.spec_start() + offset, n)
        } else {
            None
        }),
{
    if offset + n <= s.spec_len() {
        lemma_window(
            s.spec_parent().bytes(),
            s.spec_start(),
            s.spec_len(),
            offset,
            n,
            s.empty_read(offset),
        );
    }
}

/// Where to move to in a stream.
#[derive(Debug, Clone, Copy)]
pub enum SeekTo {
    Start(u64),
    End(i64),
    Current(i64),
}

/// Adapts a `ReadAt` into a stream with a position, for crates that want
/// stream-style I/O (`fatfs`). Writes always fail: this tool is strictly
/// read-only.
pub struct IoAdapter<D> {
    dev: D,
    pos: u64,
}

impl<D: ReadAt> IoAdapter<D> {
    pub closed spec fn device(&self) -> D {
        self.dev
    }

    pub closed spec fn position(&self) -> u64 {
        self.pos
    }

    pub fn new(dev: D) -> (r: Self)
        ensures
            r.device() == dev,
            r.position() == 0,
    {
        IoAdapter { dev, pos: 0 }
    }

    /// How many bytes a read into `room` bytes yields: what is left, at most.
    pub open spec fn available(&self, room: nat) -> nat {
        let size = self.device().bytes().len();
        let left = if self.position() < size {
            (size - self.position()) as nat
        } else {
            0
        };
        if room < left {
            room
        } else {
            left
        }
    }

    /// Read into the front of `buf` what the device holds at the position, and
    /// move past it. At the end of the device nothing is read.
    pub fn read(&mut self, buf: &mut [u8]) -> (r: Result<usize>)
        ensures
            final(self).device() == old(self).device(),
            final(buf)@.len() == old(buf)@.len(),
            match r {
                Ok(got) => {
                    &&& got <= old(buf)@.len()
                    &&& final(buf)@.skip(got as int) == old(buf)@.skip(got as int)
                    &&& final(self).position() == old(self).position() + got
                },
                Err(e) => e@ is Io && final(self).position() == old(self).position(),
            },
            old(self).device().sound() ==> ({
                let n = old(self).available(old(buf)@.len());
                if n == 0 {
                    &&& r matches Ok(got) && got == 0
                    &&& final(buf)@ == old(buf)@
                    &&& final(self).position() == old(self).position()
                } else {
                    match reads(&old(self).device(), old(self).position() as int, n) {
                        Some(data) => {
                            &&& r matches Ok(got) && got == n
                            &&& final(buf)@ == data + old(buf)@.skip(n as int)
                            &&& final(self).position() == old(self).position() + n
                        },
                        None => r is Err && final(self).position() == old(self).position(),
                    }
                }
            }),
    {
        let size: u64 = self.dev.size();
        let remaining: u64 = if self.pos < size {
            size - self.pos
        } else {
            0
        };
        let room: usize = buf.len();
        let n: usize = if (room as u64) < remaining {
            room
        } else {
            remaining as usize
        };
        if n == 0 {
            return Ok(0);
        }
        let ghost rest = buf@.skip(n as int);
        let (head, tail) = buf.split_at_mut(n);
        match self.dev.read_at(self.pos, head) {
            Ok(()) => {},
            Err(e) => {
                return Err(Error::Io(e.message()));
            },
        }
        self.pos = self.pos + n as u64;
        Ok(n)
    }

    /// The position that `to` names, if there is one.
    pub open spec fn sought(&self, to: SeekTo) -> Option<u64> {
        let p = match to {
            SeekTo::Start(o) => o as int,
            SeekTo::End(d) => self.device().bytes().len() + d,
            SeekTo::Current(d) => self.position() + d,
        };
        if 0 <= p <= u64::MAX {
            Some(p as u64)
        } else {
            None
        }
    }

    /// Move the position.
    pub fn seek(&mut self, to: SeekTo) -> (r: Result<u64>)
        ensures
            final(self).device() == old(self).device(),
            match r {
                Ok(p) => final(self).position() == p,
                Err(e) => {
                    &&& e@ == crate::error::ErrorView::Io("seek before start"@)
                    &&& final(self).position() == old(self).position()
                },
            },
            old(self).device().sound() || !(to is End) ==> match old(self).sought(to) {
                Some(p) => r matches Ok(q) && q == p && final(self).position() == p,
                None => {
                    &&& r matches Err(e) && e@ == crate::error::ErrorView::Io("seek before start"@)
                    &&& final(self).position() == old(self).position()
                },
            },
    {
        let target: Option<u64> = match to {
            SeekTo::Start(o) => Some(o),
            SeekTo::End(d) => self.dev.size().checked_add_signed(d),
            SeekTo::Current(d) => self.pos.checked_add_signed(d),
        };
        match target {
            Some(p) => {
                self.pos = p;
                Ok(p)
            },
            None => Err(Error::Io("seek before start".to_owned())),
        }
    }

    /// Refuse to write.
    pub fn write(&mut self, _data: &[u8]) -> (r: Result<usize>)
        ensures
            r matches Err(e) && e@ == crate::error::ErrorView::Io("device is read-only"@),
            *final(self) == *old(self),
    {
        Err(Error::Io("device is read-only".to_owned()))
    }
}

/// The device holds the bytes `b`, and all of them can be read.
pub open spec fn holds<D: ReadAt + ?Sized>(dev: &D, b: Seq<u8>) -> bool {
    &&& dev.bytes().len() == b.len()
    &&& forall|i: int| 0 <= i < b.len() ==> #[trigger] dev.bytes()[i] == Some(b[i])
}

/// A read hands out the bytes that are there, and no read goes past the end.
pub proof fn law_reads_are_the_bytes<D: ReadAt + ?Sized>(dev: &D, b: Seq<u8>, offset: int, len: nat)
    requires
        holds(dev, b),
        0 <= offset,
        len > 0,
    ensures
        reads(dev, offset, len) == (if offset + len <= b.len() {
            Some(b.subrange(offset, offset + len))
        } else {
            None
        }),
{
    if offset + len <= b.len() {
        assert forall|i: int| offset <= i < offset + len implies (#[trigger] dev.bytes()[i]) is Some by {}
        assert(reads(dev, offset, len)->0 =~= b.subrange(offset, offset + len));
    }
}

/// The byte `i` of a window is the byte `start + i` of its parent, counted
/// round at 2^64; past the end of the parent there is none.
pub proof fn law_slice_is_a_window<D: ReadAt>(s: &Slice<D>, i: int)
    requires
        0 <= i < s.spec_len(),
    ensures
        s.bytes().len() == s.spec_len(),
        ({
            let at = if s.spec_start() + i < 0x1_0000_0000_0000_0000 {
                s.spec_start() + i
            } else {
                s.spec_start() + i - 0x1_0000_0000_0000_0000
            };
            s.bytes()[i] == (if at < s.spec_parent().bytes().len() {
                s.spec_parent().bytes()[at]
            } else {
                None
            })
        }),
{
}

/// A stream has what is left behind its position, and no more than there is
/// room for.
pub proof fn law_stream_has_what_is_left<D: ReadAt>(a: &IoAdapter<D>, room: nat)
    ensures
        a.position() >= a.device().bytes().len() ==> a.available(room) == 0,
        a.position() + room <= a.device().bytes().len() ==> a.available(room) == room,
        a.position() < a.device().bytes().len() < a.position() + room ==> a.available(room)
            == a.device().bytes().len() - a.position(),
{
}

/// Moving goes to a place counted from the start, from the end or from where
/// the stream is; nowhere in front of the start.
pub proof fn law_where_seeking_goes<D: ReadAt>(a: &IoAdapter<D>, n: u64, d: i64)
    ensures
        a.sought(SeekTo::Start(n)) == Some(n),
        0 <= a.position() + d <= u64::MAX ==> a.sought(SeekTo::Current(d)) == Some(
            (a.position() + d) as u64,
        ),
        a.position() + d < 0 ==> a.sought(SeekTo::Current(d)) is None,
        0 <= a.device().bytes().len() + d <= u64::MAX ==> a.sought(SeekTo::End(d)) == Some(
            (a.device().bytes().len() + d) as u64,
        ),
        a.device().bytes().len() + d < 0 ==> a.sought(SeekTo::End(d)) is None,
{
}

} // verus!
