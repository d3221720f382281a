//! Which chunks a read takes, and which calls those take.

use crate::source::remote::{
    chunk_calls, chunk_count, chunk_len, chunk_start, span_of, touched, Call, Progress, Server,
    CHUNK,
};
use vstd::prelude::*;

verus! {

/// A chunk has 4 MiB, counted from the start of the image; the last one has
/// what is left.
pub proof fn law_chunk_bounds(size: u64, idx: int)
    requires
        0 <= idx,
        idx * 4194304 < size,
    ensures
        CHUNK == 4194304,
        chunk_start(idx) == idx * 4194304,
        chunk_start(idx) + chunk_len(size, idx) == (if (idx + 1) * 4194304 <= size {
            (idx + 1) * 4194304
        } else {
            size as int
        }),
        idx < chunk_count(size),
        (chunk_count(size) - 1) * 4194304 < size <= chunk_count(size) * 4194304,
{
}

/// A read takes the chunks that hold one of its bytes, and no others.
pub proof fn law_read_takes_its_chunks(offset: u64, len: nat, idx: int)
    requires
        0 <= idx,
    ensures
        ({
            let holds_a_byte = exists|i: int|
                offset <= i < offset + len && #[trigger] (i / 4194304) == idx;
            &&& holds_a_byte <==> span_of(offset, len).0 <= idx < span_of(offset, len).1
            &&& holds_a_byte <==> touched(offset, len, idx)
        }),
{
    let (a, b) = span_of(offset, len);
    if touched(offset, len, idx) {
        let i = if offset as int > idx * 4194304 {
            offset as int
        } else {
            idx * 4194304
        };
        assert(i / 4194304 == idx);
        assert(offset <= i < offset + len);
    }
    if exists|i: int| offset <= i < offset + len && #[trigger] (i / 4194304) == idx {
        let i = choose|i: int| offset <= i < offset + len && #[trigger] (i / 4194304) == idx;
        assert(idx * 4194304 <= i < (idx + 1) * 4194304);
    }
}

/// A chunk that is at hand takes no call, and one that an earlier run kept
/// whole takes the look for it alone.
pub proof fn law_no_fetch_for_what_is_there(
    server: Server,
    size: u64,
    ranged: bool,
    p: Progress,
    idx: int,
)
    ensures
        chunk_calls(server, size, ranged, true, p, idx) == (Seq::<Call>::empty(), p),
        server.kept.contains_key(idx) && server.kept[idx].len() == chunk_len(size, idx)
            ==> chunk_calls(server, size, ranged, false, p, idx) == (seq![Call::Load { idx }], p),
{
}

/// With ranges, a chunk that is not there is asked for by its own bytes, end
/// excluded, and counted as one download more.
pub proof fn law_ranged_chunk_is_fetched_alone(server: Server, size: u64, p: Progress, idx: int)
    requires
        0 <= idx,
        (idx + 1) * 4194304 <= size,
        !server.kept.contains_key(idx),
    ensures
        chunk_calls(server, size, true, false, p, idx).0 == seq![
            Call::Load { idx },
            Call::Range { start: idx * 4194304, end: (idx + 1) * 4194304 },
            Call::Downloaded { idx, done: p.done + 1, total: chunk_count(size) },
        ],
        chunk_calls(server, size, true, false, p, idx).1 == (Progress { done: p.done + 1, ..p }),
{
    assert(chunk_calls(server, size, true, false, p, idx).0 =~= seq![
        Call::Load { idx },
        Call::Range { start: idx * 4194304, end: (idx + 1) * 4194304 },
        Call::Downloaded { idx, done: p.done + 1, total: chunk_count(size) },
    ]);
}

/// Without ranges, the stream is opened once and goes on to the chunk: those
/// that it passes are counted too.
pub proof fn law_stream_goes_on_to_the_chunk(server: Server, size: u64, p: Progress, idx: int)
    requires
        0 <= p.streamed <= idx,
        !server.kept.contains_key(idx),
    ensures
        ({
            let (calls, after) = chunk_calls(server, size, false, false, p, idx);
            let opened: int = if p.open {
                0
            } else {
                1
            };
            &&& calls.len() == 1 + opened + (idx + 1 - p.streamed)
            &&& calls[0] == Call::Load { idx }
            &&& !p.open ==> calls[1] == Call::All
            &&& forall|k: int|
                0 <= k < idx + 1 - p.streamed ==> calls[1 + opened + k] == #[trigger] downloaded_at(
                    p.streamed + k,
                    p.done + k + 1,
                    chunk_count(size),
                )
            &&& after == (Progress {
                done: p.done + (idx + 1 - p.streamed),
                open: true,
                streamed: idx + 1,
            })
        }),
{
}

/// The call that reports the chunk `idx` as the `done`th download.
pub open spec fn downloaded_at(idx: int, done: int, total: int) -> Call {
    Call::Downloaded { idx, done, total }
}

} // verus!
