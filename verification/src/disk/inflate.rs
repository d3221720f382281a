//! Raw deflate streams, inflated by `flate2`.

use crate::error::{Error, Result};
use crate::text::number::{dec, hex, push_dec, push_hex};
use flate2::Decompress;
use vstd::prelude::*;
use vstd::string::*;

verus! {

broadcast use vstd::seq_lib::group_seq_properties;

/// The decompressor of `flate2`, with what it keeps between calls.
#[verifier::external_type_specification]
#[verifier::external_body]
pub struct ExDecompress(flate2::Decompress);

/// How far a call got.
#[derive(Debug, Clone, Copy, PartialEq, Eq, Structural)]
pub enum InflateStatus {
    Going,
    Stuck,
    StreamEnd,
}

/// What one call of the decompressor yields.
pub struct InflateStep {
    /// The status, or the message of the error.
    pub status: core::result::Result<InflateStatus, Seq<char>>,
    /// How many bytes of the input were taken.
    pub consumed: nat,
    /// What was written to the front of the output.
    pub written: Seq<u8>,
}

/// The calls that a decompressor has served: the input of each, and how much
/// room its output had.
pub uninterp spec fn fed(z: Decompress) -> Seq<(Seq<u8>, nat)>;

/// What the last of the calls `calls` yields, on a decompressor for raw
/// deflate data that has served the others before, every one of them with the
/// `Finish` flush.
pub uninterp spec fn inflate_call(calls: Seq<(Seq<u8>, nat)>) -> InflateStep;

/// How many bytes of input the calls have taken.
pub open spec fn consumed(calls: Seq<(Seq<u8>, nat)>) -> nat
    decreases calls.len(),
{
    if calls.len() == 0 {
        0
    } else {
        consumed(calls.drop_last()) + inflate_call(calls).consumed
    }
}

/// What the calls have written.
pub open spec fn written(calls: Seq<(Seq<u8>, nat)>) -> Seq<u8>
    decreases calls.len(),
{
    if calls.len() == 0 {
        seq![]
    } else {
        written(calls.drop_last()) + inflate_call(calls).written
    }
}

/// `flate2::Decompress::new`, for raw deflate data: a decompressor that has
/// served no call.
#[verifier::external_body]
fn raw_decompressor() -> (z: Decompress)
    ensures
        fed(z) == Seq::<(Seq<u8>, nat)>::empty(),
{
    Decompress::new(false)
}

/// `flate2::Decompress::total_in`: how many bytes of input the calls so far
/// have taken.
#[verifier::external_body]
fn total_in(z: &Decompress) -> (n: u64)
    ensures
        n == consumed(fed(*z)),
{
    z.total_in()
}

/// `flate2::Decompress::total_out`: how many bytes the calls so far have
/// written.
#[verifier::external_body]
fn total_out(z: &Decompress) -> (n: u64)
    ensures
        n == written(fed(*z)).len(),
{
    z.total_out()
}

/// `flate2::Decompress::decompress`, with the `Finish` flush: takes a part of
/// the input, writes to the front of the output, and reports how far it got or
/// what is wrong with the data. What it does depends on nothing but the calls
/// it has served.
#[verifier::external_body]
fn decompress(z: &mut Decompress, input: &[u8], out: &mut [u8]) -> (r: core::result::Result<
    InflateStatus,
    String,
>)
    ensures
        fed(*final(z)) == fed(*old(z)).push((input@, old(out)@.len())),
        final(out)@.len() == old(out)@.len(),
        inflate_call(fed(*final(z))).consumed <= input@.len(),
        inflate_call(fed(*final(z))).written.len() <= old(out)@.len(),
        final(out)@.take(inflate_call(fed(*final(z))).written.len() as int) == inflate_call(
            fed(*final(z)),
        ).written,
        match r {
            Ok(s) => inflate_call(fed(*final(z))).status == Ok::<InflateStatus, Seq<char>>(s),
            Err(e) => inflate_call(fed(*final(z))).status == Err::<InflateStatus, Seq<char>>(e@),
        },
{
    match z.decompress(input, out, flate2::FlushDecompress::Finish) {
        Ok(flate2::Status::Ok) => Ok(InflateStatus::Going),
        Ok(flate2::Status::BufError) => Ok(InflateStatus::Stuck),
        Ok(flate2::Status::StreamEnd) => Ok(InflateStatus::StreamEnd),
        Err(e) => Err(e.to_string()),
    }
}

/// Why data did not inflate to the size it should have.
pub enum InflateError {
    /// The data is corrupt; what the decompressor said.
    Corrupt(Seq<char>),
    /// It inflated to another size.
    Size(nat),
}

/// What `comp` inflates to, if that has exactly `size` bytes, on a
/// decompressor that has served the calls `calls`: it is called again until
/// the output is full, the stream ends, or nothing moves any more.
pub open spec fn inflate_from(comp: Seq<u8>, size: nat, calls: Seq<(Seq<u8>, nat)>) -> core::result::Result<
    Seq<u8>,
    InflateError,
>
    decreases (comp.len() - consumed(calls)) + (size - written(calls).len()),
{
    if written(calls).len() >= size || consumed(calls) > comp.len() {
        finished(size, calls)
    } else {
        let next = calls.push(
            (comp.skip(consumed(calls) as int), (size - written(calls).len()) as nat),
        );
        let step = inflate_call(next);
        match step.status {
            Err(e) => Err(InflateError::Corrupt(e)),
            Ok(s) => {
                let stalled = step.consumed == 0 && step.written.len() == 0;
                proof {
                    assert(next.drop_last() =~= calls);
                }
                if s == InflateStatus::StreamEnd || stalled || step.consumed > comp.len()
                    - consumed(calls) || step.written.len() > size - written(calls).len() {
                    finished(size, next)
                } else {
                    inflate_from(comp, size, next)
                }
            },
        }
    }
}

/// The outcome when no more calls are made.
pub open spec fn finished(size: nat, calls: Seq<(Seq<u8>, nat)>) -> core::result::Result<
    Seq<u8>,
    InflateError,
> {
    if written(calls).len() == size {
        Ok(written(calls))
    } else {
        Err(InflateError::Size(written(calls).len()))
    }
}

/// What `comp` inflates to, if that has exactly `size` bytes.
pub open spec fn inflated(comp: Seq<u8>, size: nat) -> core::result::Result<Seq<u8>, InflateError> {
    inflate_from(comp, size, seq![])
}

/// What inflates has the size that was asked for.
pub proof fn law_inflated_has_its_size(comp: Seq<u8>, size: nat)
    ensures
        inflated(comp, size) matches Ok(data) ==> data.len() == size,
{
    lemma_inflated_size(comp, size, seq![]);
}

proof fn lemma_inflated_size(comp: Seq<u8>, size: nat, calls: Seq<(Seq<u8>, nat)>)
    ensures
        inflate_from(comp, size, calls) matches Ok(data) ==> data.len() == size,
    decreases (comp.len() - consumed(calls)) + (size - written(calls).len()),
{
    if !(written(calls).len() >= size || consumed(calls) > comp.len()) {
        let next = calls.push(
            (comp.skip(consumed(calls) as int), (size - written(calls).len()) as nat),
        );
        assert(next.drop_last() =~= calls);
        let step = inflate_call(next);
        if step.status is Ok && step.status->Ok_0 != InflateStatus::StreamEnd && !(step.consumed
            == 0 && step.written.len() == 0) && step.consumed <= comp.len() - consumed(calls)
            && step.written.len() <= size - written(calls).len() {
            lemma_inflated_size(comp, size, next);
        }
    }
}

/// How a failure to inflate the cluster at `offset` is reported.
pub open spec fn inflate_message(e: InflateError, offset: u64, size: nat) -> Seq<char> {
    match e {
        InflateError::Corrupt(s) => "cluster decompression failed: "@ + s,
        InflateError::Size(n) => "compressed cluster at 0x"@ + hex(offset as nat) + " inflated to "@
            + dec(n) + " bytes, expected "@ + dec(size),
    }
}

/// Inflate the cluster `comp` that stands at `offset`; it must yield exactly
/// `size` bytes.
pub fn inflate(comp: &[u8], size: usize, offset: u64) -> (r: Result<Vec<u8>>)
    ensures
        match inflated(comp@, size as nat) {
            Ok(data) => r matches Ok(v) && v@ == data && v@.len() == size,
            Err(e) => r matches Err(m) && m@ == crate::error::ErrorView::Qcow2(
                inflate_message(e, offset, size as nat),
            ),
        },
{
    let comp_len: usize = comp.len();
    let mut out: Vec<u8> = vec![0u8;size];
    let mut z = raw_decompressor();
    let mut more: bool = true;
    assert(out@.take(0) =~= Seq::<u8>::empty());
    while more && total_out(&z) < size as u64
        invariant
            out@.len() == size,
            comp_len == comp@.len(),
            consumed(fed(z)) <= comp@.len(),
            written(fed(z)).len() <= size,
            out@.take(written(fed(z)).len() as int) == written(fed(z)),
            inflated(comp@, size as nat) == if more {
                inflate_from(comp@, size as nat, fed(z))
            } else {
                finished(size as nat, fed(z))
            },
        decreases
                (comp@.len() - consumed(fed(z))) + (size - written(fed(z)).len()) + (if more {
                    1int
                } else {
                    0int
                }),
    {
        let in_pos: usize = total_in(&z) as usize;
        let out_pos: usize = total_out(&z) as usize;
        let ghost before = fed(z);
        let ghost done = out@.take(out_pos as int);
        let buf = out.as_mut_slice();
        let (_, room) = buf.split_at_mut(out_pos);
        let res = decompress(&mut z, vstd::slice::slice_subrange(comp, in_pos, comp_len), room);
        proof {
            assert(fed(z).drop_last() =~= before);
            assert(comp@.subrange(in_pos as int, comp_len as int) =~= comp@.skip(in_pos as int));
        }
        match res {
            Ok(status) => {
                let stalled: bool = total_in(&z) as usize == in_pos && total_out(&z) as usize
                    == out_pos;
                if status == InflateStatus::StreamEnd || stalled {
                    more = false;
                }
                proof {
                    assert(out@.take(written(fed(z)).len() as int) =~= written(fed(z)));
                }
            },
            Err(e) => {
                let mut msg: String = String::new();
                msg.append("cluster decompression failed: ");
                msg.append(e.as_str());
                assert(msg@ =~= "cluster decompression failed: "@ + e@);
                return Err(Error::Qcow2(msg));
            },
        }
    }
    let got: u64 = total_out(&z);
    if got != size as u64 {
        let mut msg: String = String::new();
        msg.append("compressed cluster at 0x");
        push_hex(&mut msg, offset);
        msg.append(" inflated to ");
        push_dec(&mut msg, got);
        msg.append(" bytes, expected ");
        push_dec(&mut msg, size as u64);
        assert(msg@ =~= inflate_message(InflateError::Size(got as nat), offset, size as nat));
        return Err(Error::Qcow2(msg));
    }
    assert(out@.take(size as int) =~= out@);
    Ok(out)
}

/// Data that the decompressor finishes in one call inflates to what it wrote,
/// if that has the size; a failure of the call is a failure.
pub proof fn law_one_call_may_be_enough(comp: Seq<u8>, size: nat)
    requires
        size > 0,
    ensures
        ({
            let step = inflate_call(seq![(comp, size)]);
            &&& step.status == Ok::<InflateStatus, Seq<char>>(InflateStatus::StreamEnd) ==> inflated(
                comp,
                size,
            ) == (if step.written.len() == size {
                Ok::<Seq<u8>, InflateError>(step.written)
            } else {
                Err(InflateError::Size(step.written.len()))
            })
            &&& step.status matches Err(e) ==> inflated(comp, size) == Err::<Seq<u8>, InflateError>(
                InflateError::Corrupt(e),
            )
        }),
{
    reveal_with_fuel(written, 2);
    reveal_with_fuel(consumed, 2);
    let none = Seq::<(Seq<u8>, nat)>::empty();
    let one = none.push((comp, size));
    assert(one =~= seq![(comp, size)]);
    assert(one.drop_last() =~= none);
    assert(comp.skip(0) =~= comp);
    let step = inflate_call(one);
    assert(written(one) =~= step.written);
}

/// Data that takes two calls is handed on from where the first call stopped,
/// with the room that it left, and inflates to what both wrote.
pub proof fn law_second_call_goes_on(comp: Seq<u8>, size: nat)
    ensures
        ({
            let a = inflate_call(seq![(comp, size)]);
            let b = inflate_call(
                seq![(comp, size), (comp.skip(a.consumed as int), (size - a.written.len()) as nat)],
            );
            a.status == Ok::<InflateStatus, Seq<char>>(InflateStatus::Going) && 0 < a.consumed
                <= comp.len() && a.written.len() < size && b.status == Ok::<InflateStatus, Seq<char>>(
                InflateStatus::StreamEnd,
            ) && a.written.len() + b.written.len() == size ==> inflated(comp, size) == Ok::<
                Seq<u8>,
                InflateError,
            >(a.written + b.written)
        }),
{
    reveal_with_fuel(written, 3);
    reveal_with_fuel(consumed, 3);
    reveal_with_fuel(inflate_from, 2);
    let none = Seq::<(Seq<u8>, nat)>::empty();
    let one = none.push((comp, size));
    assert(one =~= seq![(comp, size)]);
    assert(one.drop_last() =~= none);
    assert(comp.skip(0) =~= comp);
    let a = inflate_call(one);
    assert(written(one) =~= a.written);
    let second = (comp.skip(a.consumed as int), (size - a.written.len()) as nat);
    let two = one.push(second);
    assert(two =~= seq![(comp, size), second]);
    assert(two.drop_last() =~= one);
}

} // verus!
