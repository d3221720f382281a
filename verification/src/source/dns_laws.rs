//! What DNS queries and their answers hold.

use crate::bytes::{field, law_big_endian};
use crate::source::dns::{
    answers, answers_from, comma_char, commas, label_bytes, name_bytes, name_end, query_bytes,
    server_list, LookupView,
};
use crate::text::laws::{law_split, law_trim, plain};
use crate::text::split::split;
use vstd::prelude::*;
use vstd::string::*;
use vstd::utf8::encode_utf8;

verus! {

/// Without a list of servers the public ones are asked, and with one they are
/// asked last.
pub proof fn law_public_servers_come_last(list: Seq<char>)
    ensures
        server_list(None) == seq!["8.8.8.8"@, "1.1.1.1"@, "9.9.9.9"@],
        server_list(Some(list)).len() >= 4,
        server_list(Some(list)).skip(server_list(Some(list)).len() - 3) == server_list(None),
{
    assert(server_list(None) =~= seq!["8.8.8.8"@, "1.1.1.1"@, "9.9.9.9"@]);
    let l = server_list(Some(list));
    assert(l.skip(l.len() - 3) =~= server_list(None));
}

/// The servers of a list are those in front of a comma, a blank, a semicolon
/// or a new line, and then those behind it.
pub proof fn law_separators_part_servers(server: Seq<char>, c: char, rest: Seq<char>)
    requires
        plain(server),
        !server.contains(','),
        !server.contains(';'),
        c == ',' || c == ' ' || c == ';' || c == '\n',
    ensures
        server_list(Some(server + seq![c] + rest)) == seq![server] + server_list(Some(rest)),
        server_list(Some(server)) == seq![server] + server_list(None),
{
    let s = server + seq![c] + rest;
    assert forall|i: int| 0 <= i < server.len() implies comma_char(#[trigger] server[i]) == server[i] by {
        assert(server.contains(server[i]));
    }
    assert(commas(server) =~= server);
    assert(commas(s) =~= server + seq![','] + commas(rest));
    law_split(server, ',', commas(rest));
    assert(server.last() == server[server.len() - 1]);
    law_trim(seq![], server, seq![]);
    assert(Seq::<char>::empty() + server + Seq::<char>::empty() =~= server);
    assert(server_list(Some(s)) =~= seq![server] + server_list(Some(rest)));
    assert(server_list(Some(server)) =~= seq![server] + server_list(None));
}

/// Every server is asked for its IPv4 addresses and then for its IPv6
/// addresses, one server after the other.
pub proof fn law_questions_in_order(l: LookupView, server: nat)
    ensures
        l.asked == 2 * server && server < l.servers ==> l.question() == Some((server, 1u16)),
        l.asked == 2 * server + 1 && server < l.servers ==> l.question() == Some((server, 28u16)),
        l.asked >= 2 * l.servers ==> l.question() is None,
{
}

/// A query is a header with the flag for recursion and one question, the name,
/// and at last the type and the class of the records.
pub proof fn law_query(host: Seq<char>, qtype: u16)
    ensures
        ({
            let q = query_bytes(host, qtype);
            let n = name_bytes(split(host, '.'));
            &&& q.len() == 12 + n.len() + 5
            &&& q.take(12) == seq![0x42u8, 0x42u8, 1u8, 0u8, 0u8, 1u8, 0u8, 0u8, 0u8, 0u8, 0u8, 0u8]
            &&& q.subrange(12, 12int + n.len()) == n
            &&& q[12int + n.len()] == 0
            &&& 256 * q[13int + n.len()] + q[14int + n.len()] == qtype
            &&& q[15int + n.len()] == 0 && q[16int + n.len()] == 1
        }),
{
    let q = query_bytes(host, qtype);
    let n = name_bytes(split(host, '.'));
    assert(q.take(12) =~= seq![0x42u8, 0x42u8, 1u8, 0u8, 0u8, 1u8, 0u8, 0u8, 0u8, 0u8, 0u8, 0u8]);
    assert(q.subrange(12, 12int + n.len()) =~= n);
}

/// Each label of the name is written as its length and its bytes; an empty one
/// is not written.
pub proof fn law_labels_are_written_in_order(labels: Seq<Seq<char>>, label: Seq<char>)
    ensures
        0 < label.len() && encode_utf8(label).len() <= 63 ==> name_bytes(labels.push(label))
            == name_bytes(labels) + seq![encode_utf8(label).len() as u8] + encode_utf8(label),
        name_bytes(labels.push(seq![])) == name_bytes(labels),
        name_bytes(seq![]) == Seq::<u8>::empty(),
{
    let a = labels.push(label);
    let b = labels.push(seq![]);
    assert(a.drop_last() =~= labels);
    assert(b.drop_last() =~= labels);
    if 0 < label.len() && encode_utf8(label).len() <= 63 {
        let e = encode_utf8(label);
        assert(name_bytes(labels) + label_bytes(label) =~= name_bytes(labels) + seq![e.len() as u8] + e);
    }
}

/// An answer whose name is a pointer: its type is two bytes behind, its length
/// ten, and its data twelve. An address of the right length is handed out,
/// anything else skipped.
pub proof fn law_answers_in_order(buf: Seq<u8>, pos: int, n: nat)
    requires
        0 <= pos,
        pos + 12 <= buf.len(),
        buf[pos] >= 0xc0,
    ensures
        ({
            let rtype = 256 * buf[pos + 2] + buf[pos + 3];
            let len = 256 * buf[pos + 10] + buf[pos + 11];
            let all = answers_from(buf, pos, n + 1);
            if pos + 12 + len > buf.len() {
                all == Seq::<Seq<u8>>::empty()
            } else if (rtype == 1 && len == 4) || (rtype == 28 && len == 16) {
                all == seq![buf.subrange(pos + 12, pos + 12 + len)] + answers_from(
                    buf,
                    pos + 12 + len,
                    n,
                )
            } else {
                all == answers_from(buf, pos + 12 + len, n)
            }
        }),
        answers_from(buf, pos, 0) == Seq::<Seq<u8>>::empty(),
{
    let at = pos + 2;
    assert(name_end(buf, pos) == at);
    law_big_endian(field(buf, at, 2));
    law_big_endian(field(buf, at + 8, 2));
}

/// A name ends behind its zero or its pointer, and each label is skipped by
/// its length.
pub proof fn law_names_are_skipped(buf: Seq<u8>, pos: int)
    requires
        0 <= pos < buf.len(),
    ensures
        buf[pos] == 0 ==> name_end(buf, pos) == pos + 1,
        buf[pos] >= 0xc0 ==> name_end(buf, pos) == pos + 2,
        0 < buf[pos] < 0xc0 ==> name_end(buf, pos) == name_end(buf, pos + 1 + buf[pos]),
{
}

/// The answers start behind the question; how many there are is at 6.
pub proof fn law_answers_follow_the_question(buf: Seq<u8>)
    ensures
        buf.len() < 12 ==> answers(buf).len() == 0,
        buf.len() >= 12 ==> answers(buf) == answers_from(
            buf,
            name_end(buf, 12) + 4,
            (256 * buf[6] + buf[7]) as nat,
        ),
{
    if buf.len() >= 12 {
        law_big_endian(field(buf, 6, 2));
    }
}

} // verus!
