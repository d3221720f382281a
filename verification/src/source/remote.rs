//! Lazy, range-based reader for a remote disk image.
//!
//! Probes the URL once for its size and whether it honours HTTP `Range`,
//! then serves [`read_at`](ReadAt::read_at) out of a cache of fixed 4 MiB
//! chunks, fetching a chunk the first time it is touched and blocking until
//! it arrives:
//!
//!   - range supported → fetch exactly the touched chunk (random access);
//!   - range *not* supported → stream forward from byte 0, caching chunks,
//!     until the wanted one is reached (no seeking, so the bytes in front of
//!     it get downloaded too).
//!
//! Chunks stay cached in memory for the reader's lifetime — qcow2 reads are
//! scattered, so a chunk touched once is usually wanted again — and a fetcher
//! may also keep them elsewhere, so that a later run reuses them without
//! downloading them again.

use crate::blockdev::{read_of, refused, IoAdapter, ReadAt};
use crate::bytes::copy_from;
use crate::digest::{md5_digest, md5_hex};
use crate::error::{Error, ErrorView, Result};
use crate::text::join2;
use crate::text::number::{dec, hex_bytes, push_dec};
use vstd::prelude::*;
use vstd::rwlock::{RwLock, RwLockPredicate};
use vstd::string::*;

verus! {

broadcast use vstd::seq_lib::group_seq_properties;

/// Chunk granularity for lazy fetches and the on-disk cache layout.
pub const CHUNK: u64 = 0x40_0000;

/// What probing the remote endpoint told us.
#[derive(Debug, Clone, Copy, PartialEq, Eq, Structural)]
pub struct Probe {
    pub size: u64,
    pub supports_range: bool,
}

/// A forward stream of bytes.
///
/// `reliable` says that every read is answered with the next bytes; a stream
/// whose reads can fail leaves it false, and promises no more than that a read
/// yields no more than was asked for.
pub trait ByteStream {
    /// What is still to come.
    open spec fn rest(&self) -> Seq<u8> {
        seq![]
    }

    /// Every read is answered with what comes next.
    open spec fn reliable(&self) -> bool {
        false
    }

    /// The next bytes, at most `max`; none at all at the end. An error is told
    /// in words.
    fn read(&mut self, max: usize) -> (r: core::result::Result<Vec<u8>, String>)
        ensures
            r matches Ok(data) ==> data@.len() <= max,
            old(self).reliable() ==> {
                &&& final(self).reliable()
                &&& r matches Ok(data)
                &&& data@.is_prefix_of(old(self).rest())
                &&& final(self).rest() == old(self).rest().skip(data@.len() as int)
                &&& data@.len() == 0 ==> max == 0 || old(self).rest().len() == 0
            },
    ;
}

/// What a device holds, where all of it can be read.
pub open spec fn contents(bytes: Seq<Option<u8>>) -> Seq<u8> {
    Seq::new(bytes.len(), |i: int| bytes[i]->0)
}

/// A device, from its position on.
impl<D: ReadAt> ByteStream for IoAdapter<D> {
    open spec fn rest(&self) -> Seq<u8> {
        contents(self.device().bytes()).skip(self.position() as int)
    }

    /// The position is on the device, and all of it can be read.
    open spec fn reliable(&self) -> bool {
        let bytes = self.device().bytes();
        &&& self.device().sound()
        &&& self.position() <= bytes.len()
        &&& forall|i: int| 0 <= i < bytes.len() ==> (#[trigger] bytes[i]) is Some
    }

    fn read(&mut self, max: usize) -> core::result::Result<Vec<u8>, String> {
        let mut buf: Vec<u8> = vec![0u8;max];
        let got = IoAdapter::<D>::read(self, buf.as_mut_slice());
        match got {
            Ok(n) => {
                let ghost full = buf@;
                buf.truncate(n);
                proof {
                    if old(self).reliable() {
                        let rest = old(self).rest();
                        assert(buf@ =~= rest.take(n as int));
                        assert(self.rest() =~= rest.skip(n as int));
                    }
                }
                Ok(buf)
            },
            Err(e) => Err(e.message()),
        }
    }
}

/// What a fetcher reaches, and how far it can be relied on.
pub struct Server {
    /// The remote body.
    pub body: Seq<u8>,
    /// The server honours ranges.
    pub ranged: bool,
    /// The chunks that earlier runs kept.
    pub kept: Map<int, Seq<u8>>,
    /// What comes back is of the body.
    pub truthful: bool,
    /// What was asked for always comes back.
    pub reliable: bool,
    /// Each call is recorded, and what earlier runs kept stays as it is.
    pub recorded: bool,
}

/// A call of a [`RangeFetcher`].
pub enum Call {
    /// A look for the chunk that an earlier run may have kept.
    Load { idx: int },
    /// The bytes `[start, end)`.
    Range { start: int, end: int },
    /// The whole body.
    All,
    /// The chunk was downloaded, as the `done`th of `total`.
    Downloaded { idx: int, done: int, total: int },
}

/// A source of byte ranges over the network. Abstracted from the cache
/// engine so the engine is testable without real sockets.
///
/// The spec functions say what it reaches, and what it was asked for so far.
pub trait RangeFetcher {
    type Stream: ByteStream;

    /// What the fetcher reaches.
    open spec fn server(&self) -> Server {
        Server {
            body: seq![],
            ranged: false,
            kept: Map::empty(),
            truthful: false,
            reliable: false,
            recorded: false,
        }
    }

    /// What it was asked for, in order.
    open spec fn calls(&self) -> Seq<Call> {
        seq![]
    }

    fn probe(&mut self) -> (r: Result<Probe>)
        ensures
            final(self).server() == old(self).server(),
            final(self).calls() == old(self).calls(),
            old(self).server().truthful ==> (r matches Ok(p) ==> p.size == old(
                self,
            ).server().body.len() && p.supports_range == old(self).server().ranged),
            old(self).server().reliable ==> r is Ok,
    ;

    /// Bytes `[start, end)` (end exclusive); only used when ranges work, and
    /// for no more than one chunk of the body.
    fn fetch_range(&mut self, start: u64, end: u64) -> (r: Result<Vec<u8>>)
        requires
            start < end <= start + CHUNK,
            start % CHUNK == 0,
            old(self).server().truthful ==> old(self).server().ranged && end <= old(
                self,
            ).server().body.len(),
        ensures
            final(self).server() == old(self).server(),
            old(self).server().recorded ==> final(self).calls() == old(self).calls().push(
                Call::Range { start: start as int, end: end as int },
            ),
            old(self).server().truthful ==> (r matches Ok(data) ==> data@.len() == end - start
                ==> data@ == old(self).server().body.subrange(start as int, end as int)),
            old(self).server().truthful && old(self).server().reliable ==> (r matches Ok(data)
                && data@.len() == end - start),
    ;

    /// A forward stream of the whole body from byte 0, for no-range servers.
    fn fetch_all(&mut self) -> (r: Result<Self::Stream>)
        requires
            old(self).server().truthful ==> !old(self).server().ranged,
        ensures
            final(self).server() == old(self).server(),
            old(self).server().recorded ==> final(self).calls() == old(self).calls().push(Call::All),
            old(self).server().truthful && old(self).server().reliable ==> (r matches Ok(s)
                && s.reliable() && s.rest() == old(self).server().body),
    ;

    /// Chunk `idx`, if an earlier run kept it.
    fn load(&mut self, idx: usize, expected_len: usize) -> (r: Option<Vec<u8>>)
        ensures
            final(self).server() == old(self).server(),
            old(self).server().recorded ==> {
                &&& final(self).calls() == old(self).calls().push(Call::Load { idx: idx as int })
                &&& match r {
                    Some(data) => old(self).server().kept.contains_key(idx as int) && data@ == old(
                        self,
                    ).server().kept[idx as int],
                    None => !old(self).server().kept.contains_key(idx as int),
                }
            },
            old(self).server().truthful && r is Some && r->0@.len() == expected_len && chunk_start(
                idx as int,
            ) + expected_len <= old(self).server().body.len() ==> r->0@ == old(
                self,
            ).server().body.subrange(
                chunk_start(idx as int),
                chunk_start(idx as int) + expected_len,
            ),
    ;

    /// Chunk `idx` was downloaded, as the `done`th of `total`: the time to
    /// keep it for later runs, and to report progress.
    fn downloaded(&mut self, idx: usize, data: &Vec<u8>, done: usize, total: usize)
        requires
            idx < total,
            1 <= done <= total,
            0 < data@.len() <= CHUNK,
            old(self).server().truthful && (old(self).server().reliable || old(
                self,
            ).server().ranged) ==> {
                &&& total == chunk_count(old(self).server().body.len() as u64)
                &&& data@ == chunk_of(
                    old(self).server().body,
                    old(self).server().body.len() as u64,
                    idx as int,
                )
            },
        ensures
            final(self).server() == old(self).server(),
            old(self).server().recorded ==> final(self).calls() == old(self).calls().push(
                Call::Downloaded { idx: idx as int, done: done as int, total: total as int },
            ),
    ;
}

/// How progress is reported when `done` of `total` chunks were downloaded, so
/// that a caller can show a live count instead of a spinner, and detect a
/// stall by watching it stop changing.
pub fn progress_line(done: usize, total: usize) -> (r: String)
    ensures
        r@ == "progress: "@ + dec(done as nat) + "/"@ + dec(total as nat),
{
    let mut out: String = String::new();
    out.append("progress: ");
    push_dec(&mut out, done as u64);
    out.append("/");
    push_dec(&mut out, total as u64);
    assert(out@ =~= "progress: "@ + dec(done as nat) + "/"@ + dec(total as nat));
    out
}

/// The directory, below the cache directory, that holds the chunks of `url`.
pub fn cache_key(url: &str) -> (r: String)
    ensures
        r@ == hex_bytes(md5_digest(url.spec_bytes())),
{
    md5_hex(url.as_bytes())
}

/// A failure that is told in the words `words`, behind `failed`.
pub open spec fn failure(failed: Seq<char>, words: Seq<char>) -> ErrorView {
    ErrorView::Http(failed + words)
}

/// Read `len` bytes. `ended` is what to say where the stream ends before that,
/// `failed` what to say before the words of an error of the stream.
pub fn read_full<S: ByteStream>(stream: &mut S, len: usize, ended: &str, failed: &str) -> (r: Result<
    Vec<u8>,
>)
    ensures
        r matches Ok(data) ==> data@.len() == len,
        len == 0 ==> r is Ok && *final(stream) == *old(stream),
        r matches Err(e) ==> e@ == ErrorView::Http(ended@) || exists|words: Seq<char>|
            e@ == #[trigger] failure(failed@, words),
        old(stream).reliable() ==> {
            &&& final(stream).reliable()
            &&& match r {
                Ok(data) => len <= old(stream).rest().len() && data@ == old(stream).rest().take(
                    len as int,
                ) && final(stream).rest() == old(stream).rest().skip(len as int),
                Err(e) => len > old(stream).rest().len() && e@ == ErrorView::Http(ended@),
            }
        },
{
    let ghost whole = stream.rest();
    let ghost reliable = stream.reliable();
    let mut data: Vec<u8> = Vec::new();
    assert(whole.take(0) =~= data@);
    assert(whole.skip(0) =~= whole);
    while data.len() < len
        invariant
            data@.len() <= len,
            whole == old(stream).rest(),
            reliable == old(stream).reliable(),
            len == 0 ==> *stream == *old(stream),
            reliable ==> {
                &&& stream.reliable()
                &&& data@.len() <= whole.len()
                &&& data@ == whole.take(data@.len() as int)
                &&& stream.rest() == whole.skip(data@.len() as int)
            },
        decreases len - data@.len(),
    {
        let ghost before = data@;
        let ghost rest = stream.rest();
        match stream.read(len - data.len()) {
            Err(e) => {
                assert(failure(failed@, e@) == ErrorView::Http(failed@ + e@));
                return Err(Error::Http(join2(failed, e.as_str())));
            },
            Ok(piece) => {
                if piece.len() == 0 {
                    return Err(Error::Http(ended.to_owned()));
                }
                let mut piece = piece;
                let ghost got = piece@;
                data.append(&mut piece);
                proof {
                    if reliable {
                        assert(got =~= rest.take(got.len() as int));
                        assert(before + got =~= whole.take((before.len() + got.len()) as int));
                        assert(rest.skip(got.len() as int) =~= whole.skip(
                            (before.len() + got.len()) as int,
                        ));
                    }
                }
            },
        }
    }
    Ok(data)
}

/// Where chunk `idx` starts.
pub open spec fn chunk_start(idx: int) -> int {
    idx * 0x40_0000
}

/// Byte length of chunk `idx` (the last one is short).
pub open spec fn chunk_len(size: u64, idx: int) -> int {
    if size - chunk_start(idx) < 0x40_0000 {
        size - chunk_start(idx)
    } else {
        0x40_0000
    }
}

/// How many chunks there are.
pub open spec fn chunk_count(size: u64) -> int {
    (size + 0x3f_ffff) / 0x40_0000
}

/// The bytes of chunk `idx` of a body.
pub open spec fn chunk_of(body: Seq<u8>, size: u64, idx: int) -> Seq<u8> {
    body.subrange(chunk_start(idx), chunk_start(idx) + chunk_len(size, idx))
}

/// Chunks are not empty, and each ends where the next one starts; the last
/// ends with the image.
pub proof fn law_chunks_tile_the_image(size: u64, idx: int)
    requires
        0 <= idx < chunk_count(size),
    ensures
        0 < chunk_len(size, idx) <= CHUNK,
        chunk_start(0) == 0,
        chunk_start(idx) + chunk_len(size, idx) == (if idx + 1 < chunk_count(size) {
            chunk_start(idx + 1)
        } else {
            size as int
        }),
{
}

/// How many slots a probed image needs. One of no bytes is refused, and one of
/// more chunks than the machine can number.
pub fn slots(probe: &Probe) -> (r: Result<usize>)
    ensures
        if probe.size == 0 {
            r matches Err(e) && e@ == ErrorView::Http("server reported a zero-length image"@)
        } else if chunk_count(probe.size) > usize::MAX {
            r matches Err(e) && e@ == ErrorView::Http("image too large"@)
        } else {
            r matches Ok(n) && n == chunk_count(probe.size)
        },
{
    if probe.size == 0 {
        return Err(Error::Http("server reported a zero-length image".to_owned()));
    }
    let whole: u64 = probe.size / 0x40_0000;
    let count: u64 = if probe.size % 0x40_0000 != 0 {
        whole + 1
    } else {
        whole
    };
    assert(count == chunk_count(probe.size));
    if count > usize::MAX as u64 {
        return Err(Error::Http("image too large".to_owned()));
    }
    Ok(count as usize)
}

/// Whether a range came back whole.
pub fn check_len(expected: usize, got: usize) -> (r: Result<()>)
    ensures
        if got == expected {
            r is Ok
        } else {
            r matches Err(e) && e@ == ErrorView::Http(
                "short range read: wanted "@ + dec(expected as nat) + " got "@ + dec(got as nat),
            )
        },
{
    if got == expected {
        return Ok(());
    }
    let mut msg: String = String::new();
    msg.append("short range read: wanted ");
    push_dec(&mut msg, expected as u64);
    msg.append(" got ");
    push_dec(&mut msg, got as u64);
    assert(msg@ =~= "short range read: wanted "@ + dec(expected as nat) + " got "@ + dec(
        got as nat,
    ));
    Err(Error::Http(msg))
}

/// Reading `len` bytes at `offset` touches chunk `idx`.
pub open spec fn touched(offset: u64, len: nat, idx: int) -> bool {
    &&& chunk_start(idx) < offset + len
    &&& offset < chunk_start(idx) + 0x40_0000
    &&& len > 0
}

/// The first chunk that reading `len` bytes at `offset` touches, and the one
/// behind the last.
pub open spec fn span_of(offset: u64, len: nat) -> (int, int) {
    if len == 0 {
        (0, 0)
    } else {
        (offset as int / 0x40_0000, (offset + len - 1) / 0x40_0000 + 1)
    }
}

/// How far the downloading of an image has come.
#[verifier::ext_equal]
pub struct Progress {
    /// How many chunks were downloaded.
    pub done: int,
    /// The forward stream is open.
    pub open: bool,
    /// How many leading chunks it has produced.
    pub streamed: int,
}

/// The call that fetches chunk `idx`.
pub open spec fn range_call(size: u64, idx: int) -> Call {
    Call::Range { start: chunk_start(idx), end: chunk_start(idx) + chunk_len(size, idx) }
}

/// An earlier run kept chunk `idx`, and it is as long as it should be.
pub open spec fn keeps(server: Server, size: u64, idx: int) -> bool {
    server.kept.contains_key(idx) && server.kept[idx].len() == chunk_len(size, idx)
}

/// The calls that report the chunks from `from` up to `to` as downloaded, where
/// `done` were before.
pub open spec fn reports(size: u64, from: int, to: int, done: int) -> Seq<Call> {
    Seq::new(
        (to - from) as nat,
        |k: int|
            Call::Downloaded { idx: from + k, done: done + k + 1, total: chunk_count(size) },
    )
}

/// The calls that open the stream, where it is not.
pub open spec fn opening(open: bool) -> Seq<Call> {
    if open {
        seq![]
    } else {
        seq![Call::All]
    }
}

/// The calls that chunk `idx` takes, and how far things have come after them: a
/// chunk that is at hand takes none; else it is looked for where earlier runs
/// kept theirs; else it is fetched, once; without ranges, with those in front
/// of it that the stream has not produced yet.
pub open spec fn chunk_calls(
    server: Server,
    size: u64,
    ranged: bool,
    at_hand: bool,
    p: Progress,
    idx: int,
) -> (Seq<Call>, Progress) {
    let load = seq![Call::Load { idx }];
    if at_hand {
        (seq![], p)
    } else if keeps(server, size, idx) {
        (load, p)
    } else if ranged {
        (
            load + seq![range_call(size, idx)] + reports(size, idx, idx + 1, p.done),
            Progress { done: p.done + 1, ..p },
        )
    } else {
        (
            load + opening(p.open) + reports(size, p.streamed, idx + 1, p.done),
            Progress { done: p.done + (idx + 1 - p.streamed), open: true, streamed: idx + 1 },
        )
    }
}

/// The calls that the chunks from `first` up to `end` take, one after the
/// other.
pub open spec fn all_calls(
    server: Server,
    size: u64,
    ranged: bool,
    present: Seq<bool>,
    p: Progress,
    first: int,
    end: int,
) -> (Seq<Call>, Progress)
    decreases end - first,
{
    if end <= first {
        (seq![], p)
    } else {
        let (before, q) = all_calls(server, size, ranged, present, p, first, end - 1);
        let (more, r) = chunk_calls(server, size, ranged, present[end - 1], q, end - 1);
        (before + more, r)
    }
}

/// The calls for a chunk `idx` that fail: it was not kept, and is asked for; of
/// a stream, the chunks up to `to` came.
pub open spec fn failed_calls(size: u64, ranged: bool, p: Progress, idx: int, to: int) -> Seq<Call> {
    let load = seq![Call::Load { idx }];
    if ranged {
        load + seq![range_call(size, idx)]
    } else {
        load + opening(p.open) + reports(size, p.streamed, to, p.done)
    }
}

/// How many are true.
pub open spec fn how_many(s: Seq<bool>) -> nat
    decreases s.len(),
{
    if s.len() == 0 {
        0
    } else {
        how_many(s.drop_last()) + (if s.last() {
            1nat
        } else {
            0nat
        })
    }
}

proof fn lemma_how_many(s: Seq<bool>, i: int)
    requires
        0 <= i < s.len(),
        !s[i],
    ensures
        how_many(s.update(i, true)) == how_many(s) + 1,
        how_many(s) < s.len(),
    decreases s.len(),
{
    lemma_how_many_bound(s.drop_last());
    if i == s.len() - 1 {
        assert(s.update(i, true).drop_last() =~= s.drop_last());
    } else {
        lemma_how_many(s.drop_last(), i);
        assert(s.update(i, true).drop_last() =~= s.drop_last().update(i, true));
    }
}

proof fn lemma_how_many_bound(s: Seq<bool>)
    ensures
        how_many(s) <= s.len(),
    decreases s.len(),
{
    if s.len() > 0 {
        lemma_how_many_bound(s.drop_last());
    }
}

proof fn lemma_none(s: Seq<bool>)
    requires
        forall|i: int| 0 <= i < s.len() ==> !(#[trigger] s[i]),
    ensures
        how_many(s) == 0,
    decreases s.len(),
{
    if s.len() > 0 {
        lemma_none(s.drop_last());
    }
}

/// What is at hand was kept or fetched, chunk by chunk. Where nothing fails,
/// what was fetched is at hand, had not been kept, and was fetched once.
pub open spec fn account(server: Server, size: u64, calls: Seq<Call>, present: Seq<bool>) -> bool {
    &&& !calls.contains(Call::All)
    &&& forall|i: int|
        0 <= i < present.len() && (#[trigger] present[i]) ==> keeps(server, size, i)
            || calls.contains(range_call(size, i))
    &&& server.truthful && server.reliable ==> {
        &&& forall|i: int|
            0 <= i < present.len() && calls.contains(#[trigger] range_call(size, i)) ==> present[i]
                && !keeps(server, size, i)
        &&& forall|a: int, b: int|
            0 <= a < b < calls.len() && (#[trigger] calls[a]) is Range ==> calls[a]
                != #[trigger] calls[b]
    }
}

proof fn lemma_contains_push(calls: Seq<Call>, c: Call)
    ensures
        forall|x: Call| #[trigger] calls.push(c).contains(x) <==> calls.contains(x) || x == c,
{
    assert forall|x: Call| #[trigger] calls.push(c).contains(x) <==> calls.contains(x) || x == c by {
        if calls.contains(x) {
            let i = choose|i: int| 0 <= i < calls.len() && calls[i] == x;
            assert(calls.push(c)[i] == x);
        }
        if x == c {
            assert(calls.push(c)[calls.len() as int] == x);
        }
    }
}

/// A call that fetches nothing changes nothing.
proof fn lemma_account_call(
    server: Server,
    size: u64,
    calls: Seq<Call>,
    present: Seq<bool>,
    c: Call,
)
    requires
        account(server, size, calls, present),
        c is Load || c is Downloaded,
    ensures
        account(server, size, calls.push(c), present),
{
    lemma_contains_push(calls, c);
}

/// A chunk that was kept comes to hand.
proof fn lemma_account_kept(
    server: Server,
    size: u64,
    calls: Seq<Call>,
    present: Seq<bool>,
    idx: int,
)
    requires
        account(server, size, calls, present),
        0 <= idx < present.len(),
        !present[idx],
        keeps(server, size, idx),
    ensures
        account(server, size, calls, present.update(idx, true)),
{
    if server.truthful && server.reliable {
        assert(!calls.contains(range_call(size, idx)));
    }
}

/// A chunk is fetched; it comes to hand, or that failed.
proof fn lemma_account_range(
    server: Server,
    size: u64,
    calls: Seq<Call>,
    present: Seq<bool>,
    idx: int,
)
    requires
        account(server, size, calls, present),
        0 <= idx < present.len(),
        !present[idx],
        !keeps(server, size, idx),
    ensures
        account(server, size, calls.push(range_call(size, idx)), present.update(idx, true)),
        !(server.truthful && server.reliable) ==> account(
            server,
            size,
            calls.push(range_call(size, idx)),
            present,
        ),
{
    let c = range_call(size, idx);
    lemma_contains_push(calls, c);
    if server.truthful && server.reliable {
        assert(!calls.contains(c));
        let more = calls.push(c);
        assert forall|a: int, b: int|
            0 <= a < b < more.len() && (#[trigger] more[a]) is Range implies more[a]
            != #[trigger] more[b] by {
            if b == calls.len() {
                assert(calls.contains(calls[a]));
            }
        }
        assert forall|i: int| 0 <= i < present.len() && more.contains(#[trigger] range_call(size, i)) implies present.update(
            idx,
            true,
        )[i] && !keeps(server, size, i) by {
            if !calls.contains(range_call(size, i)) {
                assert(range_call(size, i) == c);
                assert(i == idx);
            }
        }
    }
}

/// The chunks of a remote image, fetched when they are first touched.
pub struct ChunkCache<F: RangeFetcher> {
    fetcher: F,
    size: u64,
    supports_range: bool,
    /// One slot per chunk index; `None` until fetched.
    chunks: Vec<Option<Vec<u8>>>,
    /// No-range mode: the open forward stream and how many leading chunks it
    /// has already produced.
    stream: Option<F::Stream>,
    streamed: usize,
    /// Chunks actually downloaded this run (cache hits don't count), for the
    /// `progress:` lines.
    downloaded: usize,
    /// How many calls the fetcher had served before.
    earlier: Ghost<nat>,
}

impl<F: RangeFetcher> ChunkCache<F> {
    /// Where the chunks come from.
    pub closed spec fn spec_fetcher(&self) -> F {
        self.fetcher
    }

    /// How long the image is.
    pub closed spec fn spec_size(&self) -> u64 {
        self.size
    }

    /// The server said that it honours ranges.
    pub closed spec fn ranged(&self) -> bool {
        self.supports_range
    }

    /// Which chunks are at hand.
    pub closed spec fn present(&self) -> Seq<bool> {
        Seq::new(self.chunks@.len(), |i: int| self.chunks@[i] is Some)
    }

    /// How far downloading has come.
    pub closed spec fn progress(&self) -> Progress {
        Progress {
            done: self.downloaded as int,
            open: self.stream is Some,
            streamed: self.streamed as int,
        }
    }

    /// The forward stream, once it is open.
    pub closed spec fn spec_stream(&self) -> Option<F::Stream> {
        self.stream
    }

    /// What the fetcher was asked for since the image was opened.
    pub closed spec fn calls(&self) -> Seq<Call> {
        self.fetcher.calls().skip(self.earlier@ as int)
    }

    /// Same image, same source.
    pub open spec fn same_image(&self, other: &ChunkCache<F>) -> bool {
        &&& self.spec_fetcher().server() == other.spec_fetcher().server()
        &&& self.spec_size() == other.spec_size()
        &&& self.ranged() == other.ranged()
    }

    /// What the fetcher reaches.
    pub open spec fn server(&self) -> Server {
        self.spec_fetcher().server()
    }

    /// The calls that the chunks from `first` up to `end` take, and how far
    /// downloading has come after them.
    pub open spec fn calls_for(&self, first: int, end: int) -> (Seq<Call>, Progress) {
        all_calls(
            self.server(),
            self.spec_size(),
            self.ranged(),
            self.present(),
            self.progress(),
            first,
            end,
        )
    }

    /// The calls that are made from `first` on where chunk `k` cannot be had; of
    /// a stream, the chunks up to `to` came.
    pub open spec fn calls_until(&self, first: int, k: int, to: int) -> Seq<Call> {
        let (calls, p) = self.calls_for(first, k);
        calls + failed_calls(self.spec_size(), self.ranged(), p, k, to)
    }

    /// From `self`, reading the chunks from `first` up to `end` got to `after`,
    /// where one that was neither at hand nor kept could not be had.
    pub open spec fn broke_off(&self, after: &ChunkCache<F>, first: int, end: int) -> bool {
        exists|k: int, to: int|
            first <= k < end && !self.present()[k] && !keeps(self.server(), self.spec_size(), k) && to
                <= k && after.calls() == self.calls() + #[trigger] self.calls_until(first, k, to)
    }

    /// Chunks that were fetched are those of the body. A stream that failed in
    /// the middle of a chunk goes on from there, so without ranges this needs
    /// streams that do not fail.
    pub open spec fn faithful(&self) -> bool {
        self.server().truthful && (self.server().reliable || self.ranged())
    }

    /// There is a slot for each chunk; what was fetched is of the right length,
    /// and right; and what was streamed is at hand.
    spec fn holds(&self) -> bool {
        &&& 0 < self.size
        &&& self.chunks@.len() == chunk_count(self.size) <= usize::MAX
        &&& self.server().truthful ==> {
            &&& self.server().body.len() == self.size
            &&& self.server().ranged == self.supports_range
        }
        &&& self.streamed <= self.chunks@.len()
        &&& forall|i: int|
            0 <= i < self.chunks@.len() && (#[trigger] self.chunks@[i]) is Some ==> {
                &&& self.chunks@[i]->0@.len() == chunk_len(self.size, i)
                &&& self.faithful() ==> self.chunks@[i]->0@ == chunk_of(
                    self.server().body,
                    self.size,
                    i,
                )
            }
        &&& forall|i: int| 0 <= i < self.streamed ==> (#[trigger] self.chunks@[i]) is Some
        &&& self.server().recorded ==> self.earlier@ <= self.fetcher.calls().len()
        &&& if self.supports_range {
            self.downloaded <= how_many(self.present())
        } else {
            self.downloaded == self.streamed
        }
    }

    /// The stream stands behind the chunks that it has produced.
    spec fn aligned(&self, stream: F::Stream) -> bool {
        self.server().truthful && self.server().reliable ==> {
            &&& stream.reliable()
            &&& stream.rest() == self.server().body.skip(
                if chunk_start(self.streamed as int) < self.size {
                    chunk_start(self.streamed as int)
                } else {
                    self.size as int
                },
            )
        }
    }

    /// With ranges, every chunk is accounted for, and no stream is open.
    spec fn accounted(&self) -> bool {
        self.server().recorded && self.supports_range ==> {
            &&& self.stream is None
            &&& account(self.server(), self.size, self.calls(), self.present())
        }
    }

    /// What is cached is right.
    pub closed spec fn wf(&self) -> bool {
        &&& self.holds()
        &&& self.accounted()
        &&& match self.stream {
            Some(s) => self.aligned(s),
            None => self.streamed == 0,
        }
    }

    /// Probe a remote image. One of no bytes is refused, and one of more chunks
    /// than the machine can number. No chunk is fetched yet.
    pub fn open(fetcher: F) -> (r: Result<ChunkCache<F>>)
        ensures
            r matches Ok(cache) ==> {
                &&& cache.wf()
                &&& cache.server() == fetcher.server()
                &&& cache.spec_fetcher().calls() == fetcher.calls()
                &&& cache.calls() == Seq::<Call>::empty()
                &&& cache.progress() == (Progress { done: 0, open: false, streamed: 0 })
                &&& cache.spec_size() > 0
                &&& cache.present().len() == chunk_count(cache.spec_size())
                &&& forall|i: int| 0 <= i < cache.present().len() ==> !(#[trigger] cache.present()[i])
                &&& fetcher.server().truthful ==> cache.spec_size() == fetcher.server().body.len()
                    && cache.ranged() == fetcher.server().ranged
            },
            fetcher.server().truthful && fetcher.server().reliable ==> match r {
                Ok(_) => fetcher.server().body.len() > 0,
                Err(e) => {
                    ||| fetcher.server().body.len() == 0 && e@ == ErrorView::Http(
                        "server reported a zero-length image"@,
                    )
                    ||| fetcher.server().body.len() > 0x40_0000 * usize::MAX && e@
                        == ErrorView::Http("image too large"@)
                },
            },
    {
        let mut fetcher = fetcher;
        let probe = fetcher.probe()?;
        let count: usize = slots(&probe)?;
        let mut chunks: Vec<Option<Vec<u8>>> = Vec::new();
        let mut i: usize = 0;
        while i < count
            invariant
                i <= count,
                chunks@.len() == i,
                forall|j: int| 0 <= j < i ==> (#[trigger] chunks@[j]) is None,
            decreases count - i,
        {
            chunks.push(None);
            i = i + 1;
        }
        let ghost served = fetcher.calls().len();
        let cache = ChunkCache {
            fetcher,
            size: probe.size,
            supports_range: probe.supports_range,
            chunks,
            stream: None,
            streamed: 0,
            downloaded: 0,
            earlier: Ghost(served),
        };
        proof {
            assert(cache.calls() =~= Seq::<Call>::empty());
            lemma_none(cache.present());
        }
        Ok(cache)
    }

    /// Byte length of chunk `idx` (the last one is short).
    fn len_of(&self, idx: usize) -> (r: usize)
        requires
            idx < chunk_count(self.size),
        ensures
            r == chunk_len(self.size, idx as int),
            0 < r <= 0x40_0000,
    {
        let left: u64 = self.size - idx as u64 * 0x40_0000;
        if left < 0x40_0000 {
            left as usize
        } else {
            0x40_0000
        }
    }

    /// Place a freshly fetched chunk into memory, and report it.
    fn store(&mut self, idx: usize, data: Vec<u8>)
        requires
            old(self).holds(),
            idx < chunk_count(old(self).size),
            old(self).supports_range ==> old(self).chunks@[idx as int] is None,
            !old(self).supports_range ==> idx == old(self).streamed,
            data@.len() == chunk_len(old(self).size, idx as int),
            old(self).faithful() ==> data@ == chunk_of(
                old(self).server().body,
                old(self).size,
                idx as int,
            ),
        ensures
            final(self).holds(),
            final(self).same_image(&*old(self)),
            final(self).chunks@ == old(self).chunks@.update(idx as int, Some(data)),
            final(self).stream == old(self).stream,
            final(self).earlier == old(self).earlier,
            final(self).downloaded == old(self).downloaded + 1,
            final(self).streamed == (if old(self).supports_range {
                old(self).streamed as int
            } else {
                old(self).streamed + 1
            }),
            old(self).server().recorded ==> final(self).fetcher.calls() == old(
                self,
            ).fetcher.calls() + reports(
                old(self).size,
                idx as int,
                idx + 1,
                old(self).downloaded as int,
            ),
    {
        proof {
            if self.supports_range {
                lemma_how_many(self.present(), idx as int);
            }
        }
        self.downloaded = self.downloaded + 1;
        self.fetcher.downloaded(idx, &data, self.downloaded, self.chunks.len());
        self.chunks.set(idx, Some(data));
        if !self.supports_range {
            self.streamed = idx + 1;
        }
        proof {
            if self.supports_range {
                assert(self.present() =~= old(self).present().update(idx as int, true));
            }
            if self.server().recorded {
                assert(self.fetcher.calls() =~= old(self).fetcher.calls() + reports(
                    old(self).size,
                    idx as int,
                    idx + 1,
                    old(self).downloaded as int,
                ));
            }
        }
    }

    /// A call was made; what was made before stays.
    proof fn lemma_called(calls: Seq<Call>, earlier: nat, c: Call)
        requires
            earlier <= calls.len(),
        ensures
            calls.push(c).skip(earlier as int) == calls.skip(earlier as int).push(c),
    {
        assert(calls.push(c).skip(earlier as int) =~= calls.skip(earlier as int).push(c));
    }

    /// Fetch chunk `idx`, which is not at hand and was not kept.
    fn fetch_chunk(&mut self, idx: usize) -> (r: Result<()>)
        requires
            old(self).wf(),
            old(self).supports_range,
            idx < chunk_count(old(self).size),
            old(self).chunks@[idx as int] is None,
            old(self).server().recorded ==> !keeps(old(self).server(), old(self).size, idx as int),
        ensures
            final(self).wf(),
            final(self).same_image(&*old(self)),
            final(self).earlier == old(self).earlier,
            final(self).stream == old(self).stream,
            final(self).streamed == old(self).streamed,
            final(self).chunks@.len() == old(self).chunks@.len(),
            forall|j: int|
                0 <= j < old(self).chunks@.len() && j != idx ==> (#[trigger] final(self).chunks@[j])
                    == old(self).chunks@[j],
            match r {
                Ok(_) => {
                    &&& final(self).chunks@[idx as int] is Some
                    &&& final(self).downloaded == old(self).downloaded + 1
                    &&& old(self).server().recorded ==> final(self).fetcher.calls() == old(self).fetcher.calls()
                        + (seq![range_call(old(self).size, idx as int)] + reports(
                        old(self).size,
                        idx as int,
                        idx + 1,
                        old(self).downloaded as int,
                    ))
                },
                Err(_) => {
                    &&& final(self).chunks@ == old(self).chunks@
                    &&& final(self).downloaded == old(self).downloaded
                    &&& old(self).server().recorded ==> final(self).fetcher.calls() == old(self).fetcher.calls().push(
                        range_call(old(self).size, idx as int),
                    )
                    &&& !(old(self).server().truthful && old(self).server().reliable)
                },
            },
    {
        let ghost calls0 = self.calls();
        let ghost all0 = self.fetcher.calls();
        let ghost present0 = self.present();
        let expected: usize = self.len_of(idx);
        let start: u64 = idx as u64 * 0x40_0000;
        let got = self.fetcher.fetch_range(start, start + expected as u64);
        proof {
            if self.server().recorded {
                Self::lemma_called(all0, self.earlier@, range_call(self.size, idx as int));
                lemma_account_range(self.server(), self.size, calls0, present0, idx as int);
            }
            assert(self.present() =~= present0);
        }
        let data = got?;
        check_len(expected, data.len())?;
        let ghost all1 = self.fetcher.calls();
        let ghost calls1 = self.calls();
        self.store(idx, data);
        proof {
            assert(self.present() =~= present0.update(idx as int, true));
            if self.server().recorded {
                let c = Call::Downloaded {
                    idx: idx as int,
                    done: old(self).downloaded + 1,
                    total: chunk_count(self.size),
                };
                assert(self.fetcher.calls() =~= all1.push(c));
                Self::lemma_called(all1, self.earlier@, c);
                lemma_account_call(self.server(), self.size, calls1, self.present(), c);
                assert(self.fetcher.calls() =~= all0 + (seq![
                    range_call(old(self).size, idx as int),
                ] + reports(old(self).size, idx as int, idx + 1, old(self).downloaded as int)));
            }
        }
        Ok(())
    }

    /// Stream to chunk `idx`, which is not at hand: read (and cache) every chunk
    /// up to and including it.
    fn stream_to(&mut self, idx: usize) -> (r: Result<()>)
        requires
            old(self).wf(),
            !old(self).supports_range,
            idx < chunk_count(old(self).size),
            old(self).chunks@[idx as int] is None,
        ensures
            final(self).wf(),
            final(self).same_image(&*old(self)),
            final(self).earlier == old(self).earlier,
            final(self).chunks@.len() == old(self).chunks@.len(),
            old(self).streamed <= final(self).streamed <= idx + 1,
            forall|j: int|
                0 <= j < old(self).chunks@.len() && (#[trigger] old(self).chunks@[j]) is Some
                    ==> final(self).chunks@[j] is Some,
            forall|j: int|
                idx < j < old(self).chunks@.len() ==> (#[trigger] final(self).chunks@[j]) == old(
                    self,
                ).chunks@[j],
            r is Ok ==> final(self).streamed == idx + 1 && final(self).stream is Some,
            r is Err ==> final(self).streamed <= idx && !(old(self).server().truthful && old(
                self,
            ).server().reliable),
            old(self).server().recorded ==> final(self).fetcher.calls() == old(self).fetcher.calls()
                + (opening(old(self).stream is Some) + reports(
                old(self).size,
                old(self).streamed as int,
                final(self).streamed as int,
                old(self).downloaded as int,
            )),
    {
        let ghost all0 = self.fetcher.calls();
        let ghost before = old(self).chunks@;
        assert(all0 + (opening(true) + reports(self.size, self.streamed as int, self.streamed as int, self.downloaded as int)) =~= all0);
        assert(all0.push(Call::All) =~= all0 + (opening(false) + reports(self.size, self.streamed as int, self.streamed as int, self.downloaded as int)));
        let mut stream = match self.stream.take() {
            Some(s) => s,
            None => self.fetcher.fetch_all()?,
        };
        proof {
            let body = self.server().body;
            assert(body.skip(0) =~= body);
        }
        while self.streamed <= idx
            invariant
                self.holds(),
                self.stream is None,
                self.aligned(stream),
                self.same_image(&*old(self)),
                self.earlier == old(self).earlier,
                idx < chunk_count(self.size),
                !self.supports_range,
                old(self).streamed <= self.streamed <= idx + 1,
                old(self).downloaded == old(self).streamed,
                before == old(self).chunks@,
                before[idx as int] is None,
                before.len() == self.chunks@.len(),
                all0 == old(self).fetcher.calls(),
                forall|j: int|
                    0 <= j < before.len() && (#[trigger] before[j]) is Some ==> self.chunks@[j] is Some,
                forall|j: int| idx < j < before.len() ==> (#[trigger] self.chunks@[j]) == before[j],
                self.server().recorded ==> self.fetcher.calls() == all0 + (opening(
                    old(self).stream is Some,
                ) + reports(
                    self.size,
                    old(self).streamed as int,
                    self.streamed as int,
                    old(self).downloaded as int,
                )),
            decreases idx + 1 - self.streamed,
        {
            let n: usize = self.streamed;
            let len: usize = self.len_of(n);
            let ghost rest = stream.rest();
            let ghost all1 = self.fetcher.calls();
            match read_full(&mut stream, len, "stream ended before the expected length", "stream read: ") {
                Err(e) => {
                    proof {
                        if self.server().truthful && self.server().reliable {
                            assert(rest.len() >= len);
                        }
                    }
                    self.stream = Some(stream);
                    return Err(e);
                },
                Ok(data) => {
                    proof {
                        let body = self.server().body;
                        if self.server().truthful && self.server().reliable {
                            assert(data@ =~= chunk_of(body, self.size, n as int));
                            assert(rest.skip(len as int) =~= body.skip(chunk_start(n as int) + len));
                        }
                    }
                    self.store(n, data);
                    proof {
                        if self.server().recorded {
                            let from = old(self).streamed as int;
                            let done = old(self).downloaded as int;
                            assert(reports(self.size, from, n + 1, done) =~= reports(
                                self.size,
                                from,
                                n as int,
                                done,
                            ) + reports(self.size, n as int, n + 1, n as int));
                            assert(self.fetcher.calls() =~= all0 + (opening(
                                old(self).stream is Some,
                            ) + reports(self.size, from, n + 1, done)));
                        }
                    }
                },
            }
        }
        self.stream = Some(stream);
        Ok(())
    }

    /// Ensure chunk `idx` is at hand, pulling it from where an earlier run kept
    /// it or the network (and, with no range support, everything in front of
    /// it) if not.
    fn ensure(&mut self, idx: usize) -> (r: Result<()>)
        requires
            old(self).wf(),
            idx < chunk_count(old(self).size),
        ensures
            final(self).wf(),
            final(self).same_image(&*old(self)),
            final(self).earlier == old(self).earlier,
            final(self).chunks@.len() == old(self).chunks@.len(),
            r is Ok ==> final(self).chunks@[idx as int] is Some,
            old(self).chunks@[idx as int] is Some ==> r is Ok && *final(self) == *old(self),
            forall|j: int|
                0 <= j < old(self).chunks@.len() && (#[trigger] old(self).chunks@[j]) is Some
                    ==> final(self).chunks@[j] is Some,
            forall|j: int|
                0 <= j < old(self).chunks@.len() && (if old(self).supports_range {
                    j != idx
                } else {
                    j > idx
                }) ==> (#[trigger] final(self).chunks@[j]) == old(self).chunks@[j],
            old(self).server().truthful && old(self).server().reliable ==> r is Ok,
            old(self).server().recorded ==> match r {
                Ok(_) => {
                    let next = chunk_calls(
                        old(self).server(),
                        old(self).size,
                        old(self).supports_range,
                        old(self).chunks@[idx as int] is Some,
                        old(self).progress(),
                        idx as int,
                    );
                    &&& final(self).fetcher.calls() == old(self).fetcher.calls() + next.0
                    &&& final(self).progress() == next.1
                },
                Err(_) => {
                    &&& !keeps(old(self).server(), old(self).size, idx as int)
                    &&& exists|to: int|
                        old(self).streamed <= to <= idx && final(self).fetcher.calls() == old(
                            self,
                        ).fetcher.calls() + #[trigger] failed_calls(
                            old(self).size,
                            old(self).supports_range,
                            old(self).progress(),
                            idx as int,
                            to,
                        )
                },
            },
    {
        let ghost all0 = self.fetcher.calls();
        let ghost calls0 = self.calls();
        let ghost p = self.progress();
        let ghost load = Call::Load { idx: idx as int };
        assert(all0 + Seq::<Call>::empty() =~= all0);
        if self.chunks[idx].is_some() {
            return Ok(());
        }
        let expected: usize = self.len_of(idx);
        let kept = self.fetcher.load(idx, expected);
        proof {
            assert(self.present() =~= old(self).present());
            if self.server().recorded {
                Self::lemma_called(all0, self.earlier@, load);
                if self.supports_range {
                    lemma_account_call(self.server(), self.size, calls0, self.present(), load);
                }
                assert(all0.push(load) =~= all0 + seq![load]);
            }
        }
        if let Some(data) = kept {
            if data.len() == expected {
                proof {
                    lemma_how_many(self.present(), idx as int);
                    if self.server().recorded && self.supports_range {
                        lemma_account_kept(
                            self.server(),
                            self.size,
                            self.calls(),
                            self.present(),
                            idx as int,
                        );
                    }
                }
                self.chunks.set(idx, Some(data));
                assert(self.present() =~= old(self).present().update(idx as int, true));
                return Ok(());
            }
        }
        let ghost all1 = self.fetcher.calls();
        if self.supports_range {
            let r = self.fetch_chunk(idx);
            proof {
                if self.server().recorded {
                    let range = range_call(old(self).size, idx as int);
                    let done = reports(old(self).size, idx as int, idx + 1, p.done);
                    assert(all1 + (seq![range] + done) =~= all0 + (seq![load] + seq![range] + done));
                    assert(all1.push(range) =~= all0 + (seq![load] + seq![range]));
                    if r is Err {
                        assert(self.fetcher.calls() == all0 + failed_calls(
                            old(self).size,
                            true,
                            p,
                            idx as int,
                            old(self).streamed as int,
                        ));
                    }
                }
            }
            return r;
        }
        let r = self.stream_to(idx);
        proof {
            if self.server().recorded {
                let more = opening(p.open) + reports(
                    old(self).size,
                    p.streamed,
                    self.streamed as int,
                    p.done,
                );
                assert(all1 + more =~= all0 + (seq![load] + opening(p.open) + reports(
                    old(self).size,
                    p.streamed,
                    self.streamed as int,
                    p.done,
                )));
                if r is Err {
                    assert(self.fetcher.calls() == all0 + failed_calls(
                        old(self).size,
                        false,
                        p,
                        idx as int,
                        self.streamed as int,
                    ));
                }
            }
        }
        r
    }

    /// Ensure the chunks from `first` through `last`.
    fn ensure_all(&mut self, first: usize, last: usize) -> (r: Result<()>)
        requires
            old(self).wf(),
            first <= last < chunk_count(old(self).size),
        ensures
            final(self).wf(),
            final(self).same_image(&*old(self)),
            final(self).earlier == old(self).earlier,
            final(self).chunks@.len() == old(self).chunks@.len(),
            r is Ok ==> forall|i: int|
                first <= i <= last ==> (#[trigger] final(self).chunks@[i]) is Some,
            (forall|i: int| first <= i <= last ==> (#[trigger] old(self).chunks@[i]) is Some) ==> r is Ok
                && *final(self) == *old(self),
            forall|j: int|
                0 <= j < old(self).chunks@.len() && (#[trigger] old(self).chunks@[j]) is Some
                    ==> final(self).chunks@[j] is Some,
            forall|j: int|
                0 <= j < old(self).chunks@.len() && (if old(self).supports_range {
                    !(first <= j <= last)
                } else {
                    j > last
                }) ==> (#[trigger] final(self).chunks@[j]) == old(self).chunks@[j],
            old(self).server().truthful && old(self).server().reliable ==> r is Ok,
            old(self).server().recorded ==> match r {
                Ok(_) => {
                    let next = old(self).calls_for(first as int, last + 1);
                    &&& final(self).fetcher.calls() == old(self).fetcher.calls() + next.0
                    &&& final(self).progress() == next.1
                },
                Err(_) => exists|k: int, to: int|
                    first <= k <= last && !old(self).present()[k] && !keeps(
                        old(self).server(),
                        old(self).size,
                        k,
                    ) && to <= k && final(self).fetcher.calls() == old(self).fetcher.calls()
                        + #[trigger] old(self).calls_until(first as int, k, to),
            },
    {
        let mut idx: usize = first;
        let ghost before = old(self).chunks@;
        let ghost all0 = old(self).fetcher.calls();
        assert(all0 + Seq::<Call>::empty() =~= all0);
        loop
            invariant
                self.wf(),
                self.same_image(&*old(self)),
                self.earlier == old(self).earlier,
                first <= idx <= last < chunk_count(self.size),
                before == old(self).chunks@,
                before.len() == self.chunks@.len() == chunk_count(self.size),
                all0 == old(self).fetcher.calls(),
                forall|i: int| first <= i < idx ==> (#[trigger] self.chunks@[i]) is Some,
                (forall|i: int| first <= i <= last ==> (#[trigger] before[i]) is Some) ==> *self
                    == *old(self),
                forall|j: int|
                    0 <= j < before.len() && (#[trigger] before[j]) is Some ==> self.chunks@[j] is Some,
                forall|j: int|
                    0 <= j < before.len() && (if self.supports_range {
                        !(first <= j <= last)
                    } else {
                        j > last
                    }) ==> (#[trigger] self.chunks@[j]) == before[j],
                forall|j: int| idx <= j <= last ==> (#[trigger] self.chunks@[j]) == before[j],
                self.server().recorded ==> {
                    let next = old(self).calls_for(first as int, idx as int);
                    &&& self.fetcher.calls() == all0 + next.0
                    &&& self.progress() == next.1
                },
            decreases last - idx,
        {
            let ghost held = self.chunks@;
            let ghost p = self.progress();
            let ghost all1 = self.fetcher.calls();
            let ghost sofar = old(self).calls_for(first as int, idx as int).0;
            let r = self.ensure(idx);
            proof {
                assert(old(self).present()[idx as int] == (before[idx as int] is Some));
                assert(held[idx as int] == before[idx as int]);
                if self.server().recorded {
                    match r {
                        Ok(_) => {
                            let more = chunk_calls(
                                old(self).server(),
                                old(self).size,
                                old(self).supports_range,
                                old(self).present()[idx as int],
                                p,
                                idx as int,
                            ).0;
                            assert(all1 + more =~= all0 + (sofar + more));
                        },
                        Err(_) => {
                            let to = choose|to: int|
                                to <= idx && self.fetcher.calls() == all1
                                    + #[trigger] failed_calls(
                                    self.size,
                                    self.supports_range,
                                    p,
                                    idx as int,
                                    to,
                                );
                            let more = failed_calls(
                                self.size,
                                self.supports_range,
                                p,
                                idx as int,
                                to,
                            );
                            assert(all1 + more =~= all0 + (sofar + more));
                            assert(self.fetcher.calls() == all0 + old(self).calls_until(
                                first as int,
                                idx as int,
                                to,
                            ));
                        },
                    }
                }
            }
            r?;
            assert forall|i: int| first <= i <= idx implies (#[trigger] self.chunks@[i]) is Some by {
                assert(i == idx || held[i] is Some);
            }
            if idx == last {
                return Ok(());
            }
            idx = idx + 1;
        }
    }

    /// Read exactly `buf.len()` bytes at `offset`. Where ranges work, no chunk
    /// is fetched but those that the read touches; where they do not, none
    /// behind those. A chunk that is at hand stays so, and a read that touches
    /// no other fetches nothing. What is fetched is fetched once, and kept
    /// chunks of the right length are used in its place.
    pub fn read(&mut self, offset: u64, buf: &mut [u8]) -> (r: Result<()>)
        requires
            old(self).wf(),
        ensures
            final(self).wf(),
            final(self).same_image(&*old(self)),
            final(buf)@.len() == old(buf)@.len(),
            final(self).present().len() == old(self).present().len(),
            offset + old(buf)@.len() > old(self).spec_size() ==> {
                &&& refused(r, offset, old(buf)@.len(), old(self).spec_size())
                &&& *final(self) == *old(self)
                &&& final(buf)@ == old(buf)@
            },
            r is Ok ==> forall|i: int|
                touched(offset, old(buf)@.len(), i) && 0 <= i ==> i < final(self).present().len()
                    && #[trigger] final(self).present()[i],
            forall|i: int|
                0 <= i < old(self).present().len() && old(self).present()[i]
                    ==> #[trigger] final(self).present()[i],
            old(self).ranged() ==> forall|i: int|
                0 <= i < old(self).present().len() && (#[trigger] final(self).present()[i])
                    ==> old(self).present()[i] || touched(offset, old(buf)@.len(), i),
            !old(self).ranged() ==> forall|i: int|
                0 <= i < old(self).present().len() && (#[trigger] final(self).present()[i])
                    ==> old(self).present()[i] || chunk_start(i) < offset + old(buf)@.len(),
            offset + old(buf)@.len() <= old(self).spec_size() && (forall|i: int|
                0 <= i < old(self).present().len() && touched(offset, old(buf)@.len(), i)
                    ==> #[trigger] old(self).present()[i]) ==> r is Ok && *final(self) == *old(self),
            old(self).server().recorded && offset + old(buf)@.len() <= old(self).spec_size() ==> {
                let (first, end) = span_of(offset, old(buf)@.len());
                match r {
                    Ok(_) => {
                        &&& final(self).calls() == old(self).calls() + old(self).calls_for(
                            first,
                            end,
                        ).0
                        &&& final(self).progress() == old(self).calls_for(first, end).1
                    },
                    Err(_) => old(self).broke_off(&*final(self), first, end),
                }
            },
            old(self).faithful() && r is Ok ==> final(buf)@ == old(self).server().body.subrange(
                offset as int,
                offset + old(buf)@.len(),
            ),
            old(self).server().truthful && old(self).server().reliable && offset + old(buf)@.len()
                <= old(self).spec_size() ==> r is Ok,
    {
        let total: usize = buf.len();
        let fits: bool = match offset.checked_add(total as u64) {
            Some(end) => end <= self.size,
            None => false,
        };
        if !fits {
            return Err(Error::OutOfBounds { offset, len: total, size: self.size });
        }
        if total == 0 {
            assert(self.server().truthful ==> buf@ =~= self.server().body.subrange(
                offset as int,
                offset as int,
            ));
            assert(self.calls() + Seq::<Call>::empty() =~= self.calls());
            return Ok(());
        }
        let first: usize = (offset / 0x40_0000) as usize;
        let last: usize = ((offset + (total as u64 - 1)) / 0x40_0000) as usize;
        assert(forall|i: int| touched(offset, total as nat, i) <==> first <= i <= last);
        proof {
            let was = old(self).present();
            if forall|i: int| 0 <= i < was.len() && touched(offset, total as nat, i) ==> #[trigger] was[i] {
                assert forall|i: int| first <= i <= last implies (#[trigger] old(self).chunks@[i]) is Some by {
                    assert(was[i]);
                }
            }
        }
        let ghost all0 = self.fetcher.calls();
        let ghost earlier = self.earlier@ as int;
        let r = self.ensure_all(first, last);
        proof {
            if self.server().recorded {
                match r {
                    Ok(_) => {
                        let more = old(self).calls_for(first as int, last + 1).0;
                        assert((all0 + more).skip(earlier) =~= all0.skip(earlier) + more);
                    },
                    Err(_) => {
                        let (k, to) = choose|k: int, to: int|
                            first <= k <= last && !old(self).present()[k] && !keeps(
                                old(self).server(),
                                old(self).size,
                                k,
                            ) && to <= k && self.fetcher.calls() == all0
                                + #[trigger] old(self).calls_until(first as int, k, to);
                        let more = old(self).calls_until(first as int, k, to);
                        assert((all0 + more).skip(earlier) =~= all0.skip(earlier) + more);
                        assert(self.calls() == old(self).calls() + more);
                        assert(old(self).broke_off(&*self, first as int, last + 1));
                    },
                }
            }
        }
        if let Err(e) = r {
            return Err(e);
        }
        let ghost body = self.server().body;
        let ghost after = *self;
        let mut done: usize = 0;
        while done < total
            invariant
                *self == after,
                self.wf(),
                body == self.server().body,
                done <= total,
                total == buf@.len(),
                total == old(buf)@.len(),
                offset + total <= self.size,
                first == offset / 0x40_0000,
                last == (offset + (total - 1)) / 0x40_0000,
                last < chunk_count(self.size),
                forall|i: int| first <= i <= last ==> (#[trigger] self.chunks@[i]) is Some,
                self.faithful() ==> forall|i: int|
                    0 <= i < done ==> body[offset + i] == #[trigger] buf@[i],
            decreases total - done,
        {
            let pos: u64 = offset + done as u64;
            let idx: usize = (pos / 0x40_0000) as usize;
            let within: usize = (pos % 0x40_0000) as usize;
            assert(first <= idx <= last);
            assert(self.chunks@[idx as int] is Some);
            if let Some(chunk) = &self.chunks[idx] {
                let left: usize = total - done;
                let room: usize = chunk.len() - within;
                let n: usize = if room < left {
                    room
                } else {
                    left
                };
                let ghost before = buf@;
                let (_, rest) = buf.split_at_mut(done);
                let (head, _) = rest.split_at_mut(n);
                copy_from(head, chunk.as_slice(), within);
                proof {
                    if self.faithful() {
                        assert forall|i: int| 0 <= i < done + n implies body[offset + i]
                            == #[trigger] buf@[i] by {
                            if i >= done {
                                assert(buf@[i] == chunk@[within + (i - done)]);
                            } else {
                                assert(buf@[i] == before[i]);
                            }
                        }
                    }
                }
                done = done + n;
            }
        }
        assert(self.faithful() ==> buf@ =~= body.subrange(offset as int, offset + total));
        Ok(())
    }
}

/// With ranges, and a server that neither lies nor fails, each chunk is fetched
/// at most once in the life of a cache, whatever is read and however often:
/// exactly once, if it is at hand and had not been kept by an earlier run, and
/// never else. The whole body is never asked for.
pub proof fn law_chunks_are_fetched_once<F: RangeFetcher>(c: &ChunkCache<F>, i: int)
    requires
        c.wf(),
        c.ranged(),
        c.server().recorded,
        c.server().truthful,
        c.server().reliable,
        0 <= i < c.present().len(),
    ensures
        c.calls().contains(range_call(c.spec_size(), i)) <==> c.present()[i] && !keeps(
            c.server(),
            c.spec_size(),
            i,
        ),
        forall|a: int, b: int|
            0 <= a < c.calls().len() && 0 <= b < c.calls().len() && (#[trigger] c.calls()[a])
                == range_call(c.spec_size(), i) && (#[trigger] c.calls()[b]) == range_call(
                c.spec_size(),
                i,
            ) ==> a == b,
        !c.calls().contains(Call::All),
{
    let calls = c.calls();
    assert(account(c.server(), c.spec_size(), calls, c.present()));
    assert forall|a: int, b: int|
        0 <= a < calls.len() && 0 <= b < calls.len() && (#[trigger] calls[a]) == range_call(
            c.spec_size(),
            i,
        ) && (#[trigger] calls[b]) == range_call(c.spec_size(), i) implies a == b by {
        if a < b {
            assert(calls[a] != calls[b]);
        } else if b < a {
            assert(calls[b] != calls[a]);
        }
    }
}

/// Without ranges, and with a server that neither lies nor fails, the stream is
/// read to the end of the last chunk that it was wanted for, and no further.
pub proof fn law_stream_stops_behind_its_chunks<F: RangeFetcher>(c: &ChunkCache<F>)
    requires
        c.wf(),
        c.server().truthful,
        c.server().reliable,
        c.spec_stream() is Some,
    ensures
        c.spec_stream()->0.rest() == c.server().body.skip(
            if chunk_start(c.progress().streamed) < c.spec_size() {
                chunk_start(c.progress().streamed)
            } else {
                c.spec_size() as int
            },
        ),
        forall|i: int| 0 <= i < c.progress().streamed ==> #[trigger] c.present()[i],
{
}

/// What is at hand takes no call, so reading it again fetches nothing.
pub proof fn law_at_hand_takes_no_call(
    server: Server,
    size: u64,
    ranged: bool,
    present: Seq<bool>,
    p: Progress,
    first: int,
    end: int,
)
    requires
        forall|i: int| first <= i < end ==> #[trigger] present[i],
    ensures
        all_calls(server, size, ranged, present, p, first, end) == (Seq::<Call>::empty(), p),
    decreases end - first,
{
    if first < end {
        law_at_hand_takes_no_call(server, size, ranged, present, p, first, end - 1);
        assert(present[end - 1]);
        assert(Seq::<Call>::empty() + Seq::<Call>::empty() =~= Seq::<Call>::empty());
    }
}

/// The cache of a reader stays that of its image.
struct SameImage<F> {
    fetcher: F,
    size: u64,
    supports_range: bool,
}

impl<F: RangeFetcher> RwLockPredicate<ChunkCache<F>> for SameImage<F> {
    closed spec fn inv(self, cache: ChunkCache<F>) -> bool {
        &&& cache.wf()
        &&& cache.server() == self.fetcher.server()
        &&& cache.spec_size() == self.size
        &&& cache.ranged() == self.supports_range
    }
}

/// A remote image, read lazily. The cache is behind a lock, so that readers can
/// share one; what a read does to it is what [`ChunkCache::read`] does.
#[verifier::reject_recursive_types(F)]
pub struct RemoteReader<F: RangeFetcher> {
    size: u64,
    cache: RwLock<ChunkCache<F>, SameImage<F>>,
}

impl<F: RangeFetcher> RemoteReader<F> {
    #[verifier::type_invariant]
    closed spec fn wf(&self) -> bool {
        let same = self.cache.pred();
        &&& 0 < self.size == same.size
        &&& same.fetcher.server().truthful ==> {
            &&& same.fetcher.server().body.len() == self.size
            &&& same.fetcher.server().ranged == same.supports_range
        }
    }

    /// Where the chunks come from.
    pub closed spec fn spec_fetcher(&self) -> F {
        self.cache.pred().fetcher
    }

    /// How long the image is.
    pub closed spec fn spec_size(&self) -> u64 {
        self.size
    }

    /// Probe a remote image, and read it from then on. An image of no bytes is
    /// refused, and one of more chunks than the machine can number.
    pub fn open(fetcher: F) -> (r: Result<RemoteReader<F>>)
        ensures
            r matches Ok(reader) ==> reader.spec_fetcher() == fetcher && reader.spec_size() > 0,
            fetcher.server().truthful ==> (r matches Ok(reader) ==> reader.spec_size()
                == fetcher.server().body.len()),
            fetcher.server().truthful && r is Ok ==> fetcher.server().body.len() > 0,
            fetcher.server().truthful && fetcher.server().reliable ==> match r {
                Ok(_) => fetcher.server().body.len() > 0,
                Err(e) => {
                    ||| fetcher.server().body.len() == 0 && e@ == ErrorView::Http(
                        "server reported a zero-length image"@,
                    )
                    ||| fetcher.server().body.len() > 0x40_0000 * usize::MAX && e@ == ErrorView::Http(
                        "image too large"@,
                    )
                },
            },
    {
        let cache = ChunkCache::open(fetcher)?;
        let size: u64 = cache.size;
        let ghost same = SameImage {
            fetcher,
            size: cache.spec_size(),
            supports_range: cache.ranged(),
        };
        let lock = RwLock::<ChunkCache<F>, SameImage<F>>::new(cache, Ghost(same));
        Ok(RemoteReader { size, cache: lock })
    }
}

impl<F: RangeFetcher> ReadAt for RemoteReader<F> {
    /// The server neither lies nor fails.
    open spec fn sound(&self) -> bool {
        self.spec_fetcher().server().truthful && self.spec_fetcher().server().reliable
    }

    open spec fn bytes(&self) -> Seq<Option<u8>> {
        let body = self.spec_fetcher().server().body;
        Seq::new(body.len(), |i: int| Some(body[i]))
    }

    open spec fn empty_read(&self, offset: u64) -> bool {
        offset <= self.spec_fetcher().server().body.len()
    }

    /// A read that succeeds yields the bytes of the body, also where other
    /// reads fail, provided that ranges work.
    fn read_at(&self, offset: u64, buf: &mut [u8]) -> (r: Result<()>)
        ensures
            offset + old(buf)@.len() > self.spec_size() ==> refused(
                r,
                offset,
                old(buf)@.len(),
                self.spec_size(),
            ) && final(buf)@ == old(buf)@,
            self.spec_fetcher().server().truthful && self.spec_fetcher().server().ranged ==> r is Ok ==> {
                &&& offset + old(buf)@.len() <= self.spec_fetcher().server().body.len()
                &&& final(buf)@ == self.spec_fetcher().server().body.subrange(
                    offset as int,
                    offset + old(buf)@.len(),
                )
            },
    {
        proof {
            use_type_invariant(self);
        }
        let (cache, handle) = self.cache.acquire_write();
        let mut cache = cache;
        let r = cache.read(offset, buf);
        handle.release_write(cache);
        proof {
            if self.sound() && r is Ok {
                assert(buf@ =~= read_of(
                    self.bytes(),
                    self.empty_read(offset),
                    offset as int,
                    buf@.len(),
                )->0);
            }
        }
        r
    }

    fn size(&self) -> (n: u64)
        ensures
            n == self.spec_size(),
    {
        proof {
            use_type_invariant(self);
        }
        self.size
    }
}

} // verus!
