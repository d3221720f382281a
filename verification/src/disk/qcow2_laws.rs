//! Which qcow2 images are refused, and why.

use crate::blockdev::{reads, ReadAt};
use crate::bytes::{be, big32, big64, field, law_fields_are_numbers};
use crate::disk::qcow2::{feature_error, header_field, magic, opened, with_features, Opened};
use crate::error::ErrorView;
use crate::text::number::{dec, hex};
use vstd::prelude::*;
use vstd::string::*;

verus! {

/// A header of 72 bytes that begins with `QFI` and 0xfb.
pub open spec fn has_header<D: ReadAt>(host: &D, hdr: Seq<u8>) -> bool {
    &&& reads(host, 0, 72) == Some(hdr)
    &&& hdr[0] == 0x51 && hdr[1] == 0x46 && hdr[2] == 0x49 && hdr[3] == 0xfb
}

/// The incompatible features of an image are bits: that it was not closed is
/// the lowest and makes no difference; the next ones are a mark for a corrupt
/// image, an external data file, another compression and longer L2 entries.
/// Any other bit is refused as unknown.
pub proof fn law_features_that_are_refused(f: u64)
    ensures
        feature_error(f) is None <==> f == 0 || f == 1,
        f / 2 % 2 == 1 ==> feature_error(f) == Some(ErrorView::Qcow2("image is marked corrupt"@)),
        f / 2 % 2 == 0 && f / 4 % 2 == 1 ==> feature_error(f) == Some(
            ErrorView::Qcow2Unsupported("external data file"@),
        ),
        f / 2 % 4 == 0 && f / 8 % 2 == 1 ==> feature_error(f) == Some(
            ErrorView::Qcow2Unsupported("compression type other than zlib (likely zstd)"@),
        ),
        f / 2 % 8 == 0 && f / 16 % 2 == 1 ==> feature_error(f) == Some(
            ErrorView::Qcow2Unsupported("extended L2 entries"@),
        ),
        f / 2 % 16 == 0 && f > 1 ==> feature_error(f) == Some(
            ErrorView::Qcow2Unsupported("unknown incompatible features 0x"@ + hex(f as nat)),
        ),
{
    assert((f & 2 != 0) == (f / 2 % 2 == 1)) by (bit_vector);
    assert((f & 4 != 0) == (f / 4 % 2 == 1)) by (bit_vector);
    assert((f & 8 != 0) == (f / 8 % 2 == 1)) by (bit_vector);
    assert((f & 16 != 0) == (f / 16 % 2 == 1)) by (bit_vector);
    assert((f & !1u64 != 0) == (f > 1)) by (bit_vector);
}

proof fn lemma_fields(hdr: Seq<u8>)
    requires
        hdr.len() == 72,
    ensures
        header_field(hdr, 4, 4) == big32(hdr, 4),
        header_field(hdr, 8, 8) == big64(hdr, 8),
        header_field(hdr, 16, 4) == big32(hdr, 16),
        header_field(hdr, 20, 4) == big32(hdr, 20),
        header_field(hdr, 32, 4) == big32(hdr, 32),
        header_field(hdr, 36, 4) == big32(hdr, 36),
        header_field(hdr, 40, 8) == big64(hdr, 40),
{
    law_fields_are_numbers(hdr, 4);
    law_fields_are_numbers(hdr, 8);
    law_fields_are_numbers(hdr, 16);
    law_fields_are_numbers(hdr, 20);
    law_fields_are_numbers(hdr, 32);
    law_fields_are_numbers(hdr, 36);
    law_fields_are_numbers(hdr, 40);
}

/// An image of another version than 2 and 3 is refused, and so is an encrypted
/// one, one whose clusters are not of 2^9 to 2^21 bytes, and one whose backing
/// file has a name of more than 1023 bytes.
pub proof fn law_headers_that_are_refused<D: ReadAt>(host: &D, hdr: Seq<u8>)
    requires
        has_header(host, hdr),
    ensures
        big32(hdr, 4) != 2 && big32(hdr, 4) != 3 ==> opened(host) == Opened::Refused(
            ErrorView::Qcow2("unsupported version "@ + dec(big32(hdr, 4) as nat)),
        ),
        big32(hdr, 4) == 2 && big32(hdr, 32) != 0 ==> opened(host) == Opened::Refused(
            ErrorView::Qcow2Unsupported("encryption"@),
        ),
        big32(hdr, 4) == 2 && big32(hdr, 32) == 0 && !(9 <= big32(hdr, 20) <= 21) ==> opened(host)
            == Opened::Refused(
            ErrorView::Qcow2("implausible cluster_bits "@ + dec(big32(hdr, 20) as nat)),
        ),
        big32(hdr, 4) == 2 && big32(hdr, 32) == 0 && 9 <= big32(hdr, 20) <= 21 && big64(hdr, 8) != 0
            && big32(hdr, 16) > 1023 ==> opened(host) == Opened::Refused(
            ErrorView::Qcow2("implausible backing file name length"@),
        ),
{
    assert(hdr.len() == 72);
    lemma_fields(hdr);
    assert(hdr.take(4) =~= magic());
    law_features_that_are_refused(0);
}

/// An image of version 3 says its features in the eight bytes at 72, and is
/// refused for them; without any, or with the lowest alone, it is read as one
/// of version 2.
pub proof fn law_features_are_behind_the_header<D: ReadAt>(host: &D, hdr: Seq<u8>, b: Seq<u8>)
    requires
        has_header(host, hdr),
        big32(hdr, 4) == 3,
        big32(hdr, 32) == 0,
        reads(host, 72, 8) == Some(b),
    ensures
        big64(b, 0) > 1 ==> (feature_error(big64(b, 0) as u64) matches Some(e) && opened(host)
            == Opened::Refused(e)),
        big64(b, 0) <= 1 ==> opened(host) == with_features(host, hdr, 0),
{
    assert(hdr.len() == 72);
    assert(b.len() == 8);
    lemma_fields(hdr);
    law_fields_are_numbers(b, 0);
    assert(field(b, 0, 8) =~= b);
    assert(hdr.take(4) =~= magic());
    let f = be(b) as u64;
    law_features_that_are_refused(f);
    law_features_that_are_refused(0);
}

/// What does not begin with the magic bytes is refused.
pub proof fn law_magic_is_needed<D: ReadAt>(host: &D, hdr: Seq<u8>)
    requires
        reads(host, 0, 72) == Some(hdr),
        !(hdr[0] == 0x51 && hdr[1] == 0x46 && hdr[2] == 0x49 && hdr[3] == 0xfb),
    ensures
        opened(host) == Opened::Refused(ErrorView::Qcow2("bad magic"@)),
{
    let m = hdr.take(4);
    assert(m[0] == hdr[0] && m[1] == hdr[1] && m[2] == hdr[2] && m[3] == hdr[3]);
    assert(magic()[0] == 0x51 && magic()[1] == 0x46 && magic()[2] == 0x49 && magic()[3] == 0xfb);
}

} // verus!
