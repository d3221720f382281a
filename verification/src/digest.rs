//! MD5 digests, as `md5sum` writes them.

use crate::text::number::{hex_bytes, push_hex_bytes};
use vstd::prelude::*;
use vstd::string::*;

verus! {

/// The MD5 digest of `data`.
pub uninterp spec fn md5_digest(data: Seq<u8>) -> Seq<u8>;

/// `md5::compute`: the sixteen bytes of the MD5 digest of `data`.
#[verifier::external_body]
fn compute(data: &[u8]) -> (r: [u8; 16])
    ensures
        r@ == md5_digest(data@),
{
    md5::compute(data).0
}

/// The MD5 digest of `data`, in hexadecimal.
pub fn md5_hex(data: &[u8]) -> (r: String)
    ensures
        r@ == hex_bytes(md5_digest(data@)),
{
    let digest = compute(data);
    let mut out: String = String::new();
    push_hex_bytes(&mut out, digest.as_slice());
    assert(out@ =~= hex_bytes(md5_digest(data@)));
    out
}

/// The digest of a file as `md5sum` prints it, so that the output diffs
/// cleanly against `md5sum` run on an extracted copy.
pub fn md5_line(data: &[u8], path: &str) -> (r: String)
    ensures
        r@ == hex_bytes(md5_digest(data@)) + "  "@ + path@,
{
    let mut out = md5_hex(data);
    out.append("  ");
    out.append(path);
    out
}

} // verus!
