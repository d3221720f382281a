//! Hostname resolution that works where the system resolver doesn't.
//!
//! A statically-linked (musl) binary on Android has no `/etc/resolv.conf`
//! and no access to bionic's resolver, so `getaddrinfo` fails with "Try
//! again" - which broke `lbx <https-url>` on the device. So: the caller tries
//! the system resolver first (fine on a normal host), then falls back to tiny
//! DNS-over-UDP queries to, in order, the servers named in `$LBX_DNS` (the
//! host app can pass the device's real resolvers there) and a few well-known
//! public resolvers. Here is what those queries and their answers hold.

use crate::bytes::{be, be_at, field, lemma_spans};
use crate::error::{Error, ErrorView};
use crate::seqs::views;
use crate::text::split::{pieces, split, trim, trimmed};
use crate::text::{chars, opt, string, texts};
use vstd::prelude::*;
use vstd::string::*;
use vstd::utf8::encode_utf8;

verus! {

broadcast use vstd::seq_lib::group_seq_properties;

pub const TYPE_A: u16 = 1;

pub const TYPE_AAAA: u16 = 28;

/// An IP address.
#[derive(Debug, Clone, Copy, PartialEq, Eq)]
pub enum Ip {
    V4([u8; 4]),
    V6([u8; 16]),
}

/// What an [`Ip`] says: its bytes, 4 or 16 of them.
impl View for Ip {
    type V = Seq<u8>;

    open spec fn view(&self) -> Seq<u8> {
        match *self {
            Ip::V4(o) => o@,
            Ip::V6(o) => o@,
        }
    }
}

// ---------------------------------------------------------------------
// Servers
// ---------------------------------------------------------------------

/// `c`, or a comma for a character that separates servers.
pub open spec fn comma_char(c: char) -> char {
    if c == ' ' || c == ';' || c == '\n' {
        ','
    } else {
        c
    }
}

/// `s` with every separator turned into a comma.
pub open spec fn commas(s: Seq<char>) -> Seq<char> {
    Seq::new(s.len(), |i: int| comma_char(s[i]))
}

/// The well-known public resolvers.
pub open spec fn public_servers() -> Seq<Seq<char>> {
    seq!["8.8.8.8"@, "1.1.1.1"@, "9.9.9.9"@]
}

/// The servers to ask: those of `$LBX_DNS` (comma/space/semicolon-separated)
/// first, then the public fallbacks.
pub open spec fn server_list(env: Option<Seq<char>>) -> Seq<Seq<char>> {
    let named = match env {
        Some(e) => Seq::new(split(commas(e), ',').len(), |i: int| trim(split(commas(e), ',')[i])),
        None => seq![],
    };
    named + public_servers()
}

/// The servers to ask, as they are written; what is no address is to be
/// skipped.
pub fn servers(env: Option<&str>) -> (r: Vec<String>)
    ensures
        views(r@) == server_list(crate::boot::opt_str(env)),
{
    let mut out: Vec<String> = Vec::new();
    let ghost mut first: Seq<Seq<char>> = seq![];
    assert(views(out@) =~= first);
    if let Some(e) = env {
        let c = chars(e);
        let mut s: Vec<char> = Vec::new();
        let mut i: usize = 0;
        while i < c.len()
            invariant
                i <= c@.len(),
                s@ == commas(c@.take(i as int)),
            decreases c@.len() - i,
        {
            let x: char = if c[i] == ' ' || c[i] == ';' || c[i] == '\n' {
                ','
            } else {
                c[i]
            };
            s.push(x);
            i = i + 1;
            assert(s@ =~= commas(c@.take(i as int)));
        }
        assert(c@.take(i as int) =~= c@);
        let parts = pieces(s.as_slice(), ',');
        let ghost want = Seq::new(
            split(commas(e@), ',').len(),
            |i: int| trim(split(commas(e@), ',')[i]),
        );
        let mut k: usize = 0;
        assert(views(out@) =~= want.take(0));
        while k < parts.len()
            invariant
                k <= parts@.len(),
                texts(parts@) == split(commas(e@), ','),
                want == Seq::new(
                    split(commas(e@), ',').len(),
                    |i: int| trim(split(commas(e@), ',')[i]),
                ),
                views(out@) == want.take(k as int),
            decreases parts@.len() - k,
        {
            let ghost before = out@;
            let t = string(trimmed(parts[k]));
            proof {
                assert(texts(parts@)[k as int] == parts@[k as int]@);
                assert(t@ == want[k as int]);
                assert(want.take(k + 1) =~= want.take(k as int).push(t@));
            }
            let ghost tv = t@;
            out.push(t);
            assert(views(out@) =~= views(before).push(tv));
            k = k + 1;
        }
        proof {
            assert(want.take(k as int) =~= want);
            first = want;
        }
    }
    let ghost before = out@;
    out.push("8.8.8.8".to_owned());
    out.push("1.1.1.1".to_owned());
    out.push("9.9.9.9".to_owned());
    proof {
        assert(views(before) == first);
        assert forall|j: int| 0 <= j < out@.len() implies views(out@)[j] == (first
            + public_servers())[j] by {
            if j < first.len() {
                assert(out@[j] == before[j]);
                assert(views(before)[j] == first[j]);
            }
        }
        assert(views(out@) =~= first + public_servers());
    }
    out
}

/// How a failure to resolve `host` is reported.
pub fn resolve_error(host: &str, last: Option<&str>) -> (r: Error)
    ensures
        r@ == ErrorView::Http(
            "could not resolve "@ + host@ + (match last {
                Some(e) => " ("@ + e@ + ")"@,
                None => seq![],
            }),
        ),
{
    let mut msg: String = String::new();
    msg.append("could not resolve ");
    msg.append(host);
    match last {
        Some(e) => {
            msg.append(" (");
            msg.append(e);
            msg.append(")");
            assert(msg@ =~= "could not resolve "@ + host@ + (" ("@ + e@ + ")"@));
        },
        None => {
            assert(msg@ =~= "could not resolve "@ + host@ + Seq::<char>::empty());
        },
    }
    Error::Http(msg)
}

/// A lookup in progress: which server is asked next, and for what.
pub struct Lookup {
    servers: usize,
    server: usize,
    /// It was already asked for IPv4 addresses.
    second: bool,
    last: Option<String>,
}

/// How far a [`Lookup`] has come.
#[verifier::ext_equal]
pub struct LookupView {
    /// How many servers there are.
    pub servers: nat,
    /// How many questions were asked: two of each server.
    pub asked: nat,
    /// What went wrong last.
    pub last: Option<Seq<char>>,
}

impl View for Lookup {
    type V = LookupView;

    closed spec fn view(&self) -> LookupView {
        LookupView {
            servers: self.servers as nat,
            asked: 2 * self.server as nat + (if self.second {
                1nat
            } else {
                0nat
            }),
            last: opt(self.last),
        }
    }
}

impl LookupView {
    /// The next question: the server to ask, and the record type. Each server
    /// is asked for IPv4 addresses and then for IPv6 addresses; none, when all
    /// were.
    pub open spec fn question(self) -> Option<(nat, u16)> {
        if self.asked < 2 * self.servers {
            Some(
                (
                    self.asked / 2,
                    if self.asked % 2 == 0 {
                        TYPE_A
                    } else {
                        TYPE_AAAA
                    },
                ),
            )
        } else {
            None
        }
    }
}

impl Lookup {
    /// A lookup that asks this many servers, in order.
    pub fn new(servers: usize) -> (r: Lookup)
        ensures
            r@ == (LookupView { servers: servers as nat, asked: 0, last: None }),
    {
        Lookup { servers, server: 0, second: false, last: None }
    }

    /// The next question, if there is one left.
    pub fn question(&self) -> (r: Option<(usize, u16)>)
        ensures
            match r {
                Some((server, qtype)) => self@.question() == Some((server as nat, qtype)) && server
                    < self@.servers,
                None => self@.question() is None,
            },
    {
        if self.server >= self.servers {
            return None;
        }
        Some(
            (
                self.server,
                if self.second {
                    TYPE_AAAA
                } else {
                    TYPE_A
                },
            ),
        )
    }

    /// Take in the reply to the question: addresses end the lookup; no address,
    /// or a failure, which is remembered, leads to the next question.
    pub fn reply(&mut self, answer: core::result::Result<Vec<Ip>, String>) -> (r: Option<Vec<Ip>>)
        requires
            old(self)@.question() is Some,
        ensures
            final(self)@ == (LookupView {
                asked: old(self)@.asked + 1,
                last: match answer {
                    Ok(_) => old(self)@.last,
                    Err(e) => Some(e@),
                },
                ..old(self)@
            }),
            match answer {
                Ok(ips) => if ips@.len() > 0 {
                    r == Some(ips)
                } else {
                    r is None
                },
                Err(_) => r is None,
            },
    {
        if self.second {
            self.server = self.server + 1;
            self.second = false;
        } else {
            self.second = true;
        }
        match answer {
            Ok(ips) => {
                if ips.len() > 0 {
                    Some(ips)
                } else {
                    None
                }
            },
            Err(e) => {
                self.last = Some(e);
                None
            },
        }
    }

    /// What to say when no server knew the host.
    pub fn give_up(&self, host: &str) -> (r: Error)
        ensures
            r@ == ErrorView::Http(
                "could not resolve "@ + host@ + (match self@.last {
                    Some(e) => " ("@ + e + ")"@,
                    None => seq![],
                }),
            ),
    {
        match &self.last {
            Some(e) => resolve_error(host, Some(e.as_str())),
            None => resolve_error(host, None),
        }
    }
}

// ---------------------------------------------------------------------
// Queries
// ---------------------------------------------------------------------

/// A label of a name: its length, then its bytes. Labels are <=63 bytes;
/// over-long names just won't resolve.
pub open spec fn label_bytes(label: Seq<char>) -> Seq<u8> {
    let b = encode_utf8(label);
    seq![
        (if b.len() < 63 {
            b.len()
        } else {
            63
        }) as u8,
    ] + b
}

/// The labels of a name; empty ones are skipped.
pub open spec fn name_bytes(labels: Seq<Seq<char>>) -> Seq<u8>
    decreases labels.len(),
{
    if labels.len() == 0 {
        seq![]
    } else {
        let before = name_bytes(labels.drop_last());
        if labels.last().len() == 0 {
            before
        } else {
            before + label_bytes(labels.last())
        }
    }
}

/// The header of a query: a fixed id, recursion desired, one question.
pub open spec fn query_header() -> Seq<u8> {
    seq![0x42u8, 0x42u8, 1u8, 0u8, 0u8, 1u8, 0u8, 0u8, 0u8, 0u8, 0u8, 0u8]
}

/// A query for the records of type `qtype` of `host`.
pub open spec fn query_bytes(host: Seq<char>, qtype: u16) -> Seq<u8> {
    query_header() + name_bytes(split(host, '.')) + seq![
        0u8,
        (qtype / 256) as u8,
        (qtype % 256) as u8,
        0u8,
        1u8,
    ]
}

/// A query for the records of type `qtype` of `host`.
pub fn build_query(host: &str, qtype: u16) -> (r: Vec<u8>)
    ensures
        r@ == query_bytes(host@, qtype),
{
    let mut q: Vec<u8> = Vec::new();
    q.push(0x42);
    q.push(0x42);
    q.push(1);
    q.push(0);
    q.push(0);
    q.push(1);
    q.push(0);
    q.push(0);
    q.push(0);
    q.push(0);
    q.push(0);
    q.push(0);
    assert(q@ =~= query_header());
    let c = chars(host);
    let labels = pieces(c.as_slice(), '.');
    let ghost all = texts(labels@);
    let mut i: usize = 0;
    assert(all.take(0) =~= Seq::<Seq<char>>::empty());
    assert(q@ =~= query_header() + name_bytes(all.take(0)));
    while i < labels.len()
        invariant
            i <= labels@.len(),
            all == texts(labels@),
            q@ == query_header() + name_bytes(all.take(i as int)),
        decreases labels@.len() - i,
    {
        let label = labels[i];
        proof {
            assert(all.take(i + 1).drop_last() =~= all.take(i as int));
            assert(all.take(i + 1).last() == label@);
        }
        i = i + 1;
        if label.len() == 0 {
            continue;
        }
        let ghost before = q@;
        let text = string(label);
        let b = text.as_str().as_bytes();
        let n: usize = b.len();
        let len: u8 = if n < 63 {
            n as u8
        } else {
            63
        };
        q.push(len);
        q.extend_from_slice(b);
        assert(q@ =~= query_header() + name_bytes(all.take(i as int)));
    }
    assert(all.take(i as int) =~= all);
    q.push(0);  // root label
    q.push((qtype / 256) as u8);
    q.push((qtype % 256) as u8);
    q.push(0);  // QCLASS IN
    q.push(1);
    assert(q@ =~= query_bytes(host@, qtype));
    q
}

// ---------------------------------------------------------------------
// Answers
// ---------------------------------------------------------------------

/// Where a name that starts at `pos` ends: behind its root label, or behind a
/// compression pointer.
pub open spec fn name_end(buf: Seq<u8>, pos: int) -> int
    decreases
            if pos < buf.len() {
                buf.len() - pos
            } else {
                0
            },
{
    if pos < 0 || pos >= buf.len() {
        pos
    } else if buf[pos] == 0 {
        pos + 1
    } else if buf[pos] >= 0xc0 {
        pos + 2
    } else {
        name_end(buf, pos + 1 + buf[pos])
    }
}

/// The addresses of the `n` answers from `pos` on, up to one that is cut off.
pub open spec fn answers_from(buf: Seq<u8>, pos: int, n: nat) -> Seq<Seq<u8>>
    decreases n,
{
    let at = name_end(buf, pos);
    if n == 0 || at + 10 > buf.len() {
        seq![]
    } else {
        let rtype = be(field(buf, at, 2));
        let rdlen = be(field(buf, at + 8, 2)) as int;
        if at + 10 + rdlen > buf.len() {
            seq![]
        } else {
            let rest = answers_from(buf, at + 10 + rdlen, (n - 1) as nat);
            if (rtype == TYPE_A && rdlen == 4) || (rtype == TYPE_AAAA && rdlen == 16) {
                seq![field(buf, at + 10, rdlen)] + rest
            } else {
                rest
            }
        }
    }
}

/// The addresses that a response holds.
pub open spec fn answers(buf: Seq<u8>) -> Seq<Seq<u8>> {
    if buf.len() < 12 {
        seq![]
    } else {
        answers_from(buf, name_end(buf, 12) + 4, be(field(buf, 6, 2)))
    }
}

/// Advance past a DNS name (label sequence ending in 0, or a compression
/// pointer), returning the offset just after it.
fn skip_name(buf: &[u8], start: usize) -> (r: usize)
    requires
        buf@.len() <= isize::MAX,
        start <= buf@.len() + 0x100,
    ensures
        r == name_end(buf@, start as int),
        r <= buf@.len() + 0xc0 || r == start,
        r >= start,
{
    let mut pos: usize = start;
    while pos < buf.len()
        invariant
            buf@.len() <= isize::MAX,
            start <= pos,
            pos <= buf@.len() + 0xc0 || pos == start,
            name_end(buf@, pos as int) == name_end(buf@, start as int),
        decreases
                if pos < buf@.len() {
                    buf@.len() - pos
                } else {
                    0
                },
    {
        let len: u8 = buf[pos];
        if len == 0 {
            return pos + 1;
        }
        if len >= 0xc0 {
            return pos + 2;  // pointer terminates the name

        }
        pos = pos + 1 + len as usize;
    }
    pos
}

/// The addresses that a response holds. What is cut off is left out.
pub fn parse_answers(buf: &[u8]) -> (r: Vec<Ip>)
    requires
        buf@.len() <= isize::MAX,
    ensures
        views(r@) == answers(buf@),
{
    let mut out: Vec<Ip> = Vec::new();
    assert(views(out@) =~= Seq::<Seq<u8>>::empty());
    let len: usize = buf.len();
    if len < 12 {
        return out;
    }
    proof {
        lemma_spans();
    }
    let ancount: u64 = be_at(buf, 6, 2);
    let mut pos: usize = skip_name(buf, 12) + 4;  // the single question's name, QTYPE + QCLASS
    let mut left: u64 = ancount;
    let ghost want = answers(buf@);
    assert(views(out@) + answers_from(buf@, pos as int, left as nat) =~= want);
    while left > 0
        invariant
            len == buf@.len(),
            len <= isize::MAX,
            pos <= len + 0x100,
            want == answers(buf@),
            views(out@) + answers_from(buf@, pos as int, left as nat) == want,
        decreases left,
    {
        proof {
            lemma_spans();
        }
        let ghost here = answers_from(buf@, pos as int, left as nat);
        let at: usize = skip_name(buf, pos);
        if at + 10 > len {
            assert(here =~= Seq::<Seq<u8>>::empty());
            assert(views(out@) =~= want);
            return out;
        }
        let rtype: u64 = be_at(buf, at, 2);
        let rdlen: usize = be_at(buf, at + 8, 2) as usize;
        let data: usize = at + 10;
        if data + rdlen > len {
            assert(here =~= Seq::<Seq<u8>>::empty());
            assert(views(out@) =~= want);
            return out;
        }
        let ghost before = views(out@);
        let ghost rest = answers_from(buf@, data + rdlen, (left - 1) as nat);
        if rtype == TYPE_A as u64 && rdlen == 4 {
            let ip = Ip::V4([buf[data], buf[data + 1], buf[data + 2], buf[data + 3]]);
            proof {
                assert(ip@ =~= field(buf@, data as int, 4));
            }
            let ghost ov = out@;
            let ghost iv = ip@;
            out.push(ip);
            proof {
                assert(views(out@) =~= before.push(iv));
                assert(views(out@) + rest =~= before + (seq![iv] + rest));
            }
        } else if rtype == TYPE_AAAA as u64 && rdlen == 16 {
            let mut o: [u8; 16] = [0u8;16];
            let mut k: usize = 0;
            while k < 16
                invariant
                    k <= 16,
                    data + 16 <= len,
                    len == buf@.len(),
                    forall|j: int| 0 <= j < k ==> #[trigger] o@[j] == buf@[data + j],
                decreases 16 - k,
            {
                o[k] = buf[data + k];
                k = k + 1;
            }
            let ip = Ip::V6(o);
            proof {
                assert(ip@ =~= field(buf@, data as int, 16));
            }
            let ghost iv = ip@;
            out.push(ip);
            proof {
                assert(views(out@) =~= before.push(iv));
                assert(views(out@) + rest =~= before + (seq![iv] + rest));
            }
        }
        pos = data + rdlen;
        left = left - 1;
    }
    assert(views(out@) =~= want);
    out
}

// ---------------------------------------------------------------------
// What a query holds
// ---------------------------------------------------------------------

/// No label is longer than a name can hold.
pub open spec fn labels_fit(labels: Seq<Seq<char>>) -> bool {
    forall|i: int| 0 <= i < labels.len() ==> encode_utf8(#[trigger] labels[i]).len() <= 63
}

proof fn lemma_name_front(labels: Seq<Seq<char>>)
    requires
        labels.len() > 0,
    ensures
        name_bytes(labels) == (if labels[0].len() == 0 {
            seq![]
        } else {
            label_bytes(labels[0])
        }) + name_bytes(labels.drop_first()),
    decreases labels.len(),
{
    if labels.len() == 1 {
        assert(labels.drop_first() =~= Seq::<Seq<char>>::empty());
        assert(labels.drop_last() =~= Seq::<Seq<char>>::empty());
        reveal_with_fuel(name_bytes, 2);
        assert(name_bytes(labels) =~= (if labels[0].len() == 0 {
            seq![]
        } else {
            label_bytes(labels[0])
        }) + name_bytes(labels.drop_first()));
    } else {
        lemma_name_front(labels.drop_last());
        assert(labels.drop_last().drop_first() =~= labels.drop_first().drop_last());
        assert(labels.drop_first().last() == labels.last());
        assert(labels.drop_last()[0] == labels[0]);
        assert(name_bytes(labels) =~= (if labels[0].len() == 0 {
            seq![]
        } else {
            label_bytes(labels[0])
        }) + name_bytes(labels.drop_first()));
    }
}

proof fn lemma_name_end(buf: Seq<u8>, pos: int, labels: Seq<Seq<char>>)
    requires
        labels_fit(labels),
        0 <= pos,
        pos + name_bytes(labels).len() < buf.len(),
        buf.subrange(pos, pos + name_bytes(labels).len()) == name_bytes(labels),
        buf[pos + name_bytes(labels).len()] == 0,
    ensures
        name_end(buf, pos) == pos + name_bytes(labels).len() + 1,
    decreases labels.len(),
{
    let nb = name_bytes(labels);
    if labels.len() > 0 {
        lemma_name_front(labels);
        let rest = labels.drop_first();
        assert(labels_fit(rest)) by {
            assert forall|i: int| 0 <= i < rest.len() implies encode_utf8(#[trigger] rest[i]).len()
                <= 63 by {
                assert(rest[i] == labels[i + 1]);
            }
        }
        let nr = name_bytes(rest);
        if labels[0].len() == 0 {
            assert(nb =~= nr);
            lemma_name_end(buf, pos, rest);
        } else {
            let b = encode_utf8(labels[0]);
            let n = b.len() as int;
            assert(n > 0) by {
                assert(encode_utf8(labels[0]) == vstd::utf8::encode_scalar(labels[0][0] as u32)
                    + encode_utf8(labels[0].drop_first()));
            }
            assert(n <= 63);
            assert(nb[0] == n);
            assert(buf.subrange(pos, pos + nb.len())[0] == buf[pos]);
            assert(nb.len() == 1 + n + nr.len());
            assert(buf.subrange(pos + 1 + n, pos + 1 + n + nr.len()) =~= nr) by {
                assert forall|i: int| 0 <= i < nr.len() implies buf[pos + 1 + n + i] == nr[i] by {
                    assert(nb[1 + n + i] == nr[i]);
                    assert(buf.subrange(pos, pos + nb.len())[1 + n + i] == buf[pos + 1 + n + i]);
                }
            }
            lemma_name_end(buf, pos + 1 + n, rest);
        }
    }
}

/// The name in a query is read back to its end: what follows it is the type
/// and the class.
pub proof fn law_query_name_is_well_formed(host: Seq<char>, qtype: u16)
    requires
        labels_fit(split(host, '.')),
    ensures
        name_end(query_bytes(host, qtype), 12) == query_bytes(host, qtype).len() - 4,
{
    let q = query_bytes(host, qtype);
    let nb = name_bytes(split(host, '.'));
    assert(query_header().len() == 12);
    assert(q.subrange(12, 12int + nb.len()) =~= nb);
    assert(q[12int + nb.len()] == 0);
    lemma_name_end(q, 12, split(host, '.'));
}

} // verus!
