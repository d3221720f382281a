//! What a small blocking HTTP/1.1 client says and how it reads the answers:
//! just enough to probe an image URL and pull byte ranges from it.
//!
//! Supports `Range` requests (`206` / `Content-Range`), redirects
//! (301/302/303/307/308, capped), and both `Content-Length` and
//! `Transfer-Encoding: chunked` response bodies. Connections are one-shot
//! (no keep-alive): simple, and fine for the handful of fetches an analysis
//! needs. The caller opens them, and moves the bytes.

use crate::error::{Error, ErrorView, Result};
use crate::seqs::{position, position_by, views};
use crate::source::remote::Probe;
use crate::source::{is_url, is_url_spec};
use crate::text::number::{dec, parse_number, parse_unsigned, push_dec};
use crate::text::split::{
    after_last, after_prefix, before_first, begins, cut, head_before, rcut, rsplit_once, split_once,
    starts_char, strip_prefix, tail_after, text_words, trim, trimmed, words,
};
use crate::text::{
    chars, digit, eq_to, first, is_digit, join2, lemma_first_is, lemma_last_end, lossy, lower,
    push_chars, same_but_case, skip, string, take, texts, utf8_lossy,
};
use vstd::prelude::*;
use vstd::string::*;

verus! {

broadcast use vstd::seq_lib::group_seq_properties;

/// How many redirects are followed.
pub const MAX_REDIRECTS: usize = 5;

/// How often a request is tried again. Only the connect+headers phase retries;
/// a chunk's body read fails on its own timeout (no retry), so a stalled
/// download still aborts in ~1x timeout while transient connect blips get a
/// few more tries.
pub const MAX_RETRIES: u64 = 3;

pub const USER_AGENT: &'static str = "lbx/0.1.0";

/// A text in quotes, as Rust writes it for debugging.
pub uninterp spec fn debug_text(s: Seq<char>) -> Seq<char>;

/// `format!("{:?}")` of a text: in quotes, with escapes.
#[verifier::external_body]
fn quoted(s: &str) -> (r: String)
    ensures
        r@ == debug_text(s@),
{
    format!("{s:?}")
}

// ---------------------------------------------------------------------
// URLs
// ---------------------------------------------------------------------

/// An http(s) URL.
#[derive(Debug, Clone)]
pub struct Url {
    pub https: bool,
    pub host: String,
    pub port: u16,
    /// Path plus optional query, always starting with `/`.
    pub path: String,
}

/// What a [`Url`] says.
pub struct UrlView {
    pub https: bool,
    pub host: Seq<char>,
    pub port: u16,
    pub path: Seq<char>,
}

impl View for Url {
    type V = UrlView;

    open spec fn view(&self) -> UrlView {
        UrlView { https: self.https, host: self.host@, port: self.port, path: self.path@ }
    }
}

impl UrlView {
    /// It has a host, and its path starts with `/`.
    pub open spec fn wf(self) -> bool {
        self.host.len() > 0 && starts_char(self.path, '/')
    }

    /// The URL as text.
    pub open spec fn text(self) -> Seq<char> {
        (if self.https {
            "https"@
        } else {
            "http"@
        }) + "://"@ + self.host + ":"@ + dec(self.port as nat) + self.path
    }
}

/// The predicate "ends the authority of a URL".
pub open spec fn authority_ends() -> spec_fn(char) -> bool {
    |c: char| c == '/' || c == '?' || c == '#'
}

/// A non-empty run of decimal digits.
pub open spec fn is_digits(s: Seq<char>) -> bool {
    s.len() > 0 && forall|i: int| 0 <= i < s.len() ==> is_digit(#[trigger] s[i])
}

/// The port that a URL has by default.
pub open spec fn default_port(https: bool) -> u16 {
    if https {
        443
    } else {
        80
    }
}

/// The host and the port of an authority; nothing, where the port is too
/// large.
pub open spec fn host_port(authority: Seq<char>, https: bool) -> Option<(Seq<char>, u16)> {
    match rsplit_once(authority, ':') {
        Some((h, p)) if is_digits(p) => match parse_unsigned(p, 10, 65535) {
            Some(n) => Some((h, n as u16)),
            None => None,
        },
        _ => Some((authority, default_port(https))),
    }
}

/// The path of a URL: what follows the authority, without the fragment, which
/// is never sent to the server.
pub open spec fn url_path(raw: Seq<char>) -> Seq<char> {
    let path = before_first(raw, '#');
    if starts_char(path, '/') {
        path
    } else {
        "/"@ + path
    }
}

/// The URL `s`, of which `rest` follows the scheme.
pub open spec fn url_rest(s: Seq<char>, https: bool, rest: Seq<char>) -> core::result::Result<
    UrlView,
    ErrorView,
> {
    let n = first(rest, authority_ends()) as int;
    // Userinfo is dropped.
    let authority = after_last(rest.take(n), '@');
    match host_port(authority, https) {
        None => Err(ErrorView::Http("bad port in "@ + s)),
        Some((host, port)) => if host.len() == 0 {
            Err(ErrorView::Http("missing host in URL: "@ + s))
        } else {
            Ok(UrlView { https, host, port, path: url_path(rest.skip(n)) })
        },
    }
}

/// The URL that `s` writes.
pub open spec fn url_of(s: Seq<char>) -> core::result::Result<UrlView, ErrorView> {
    match strip_prefix(s, "https://"@) {
        Some(rest) => url_rest(s, true, rest),
        None => match strip_prefix(s, "http://"@) {
            Some(rest) => url_rest(s, false, rest),
            None => Err(ErrorView::Http("not an http(s) URL: "@ + s)),
        },
    }
}

/// The directory of a path, with its slash.
pub open spec fn dir_with_slash(path: Seq<char>) -> Seq<char> {
    match rsplit_once(path, '/') {
        Some((dir, _)) => dir + "/"@,
        None => "/"@,
    }
}

/// Where a `Location` header leads from `base`.
pub open spec fn joined(base: UrlView, location: Seq<char>) -> core::result::Result<UrlView, ErrorView> {
    if is_url_spec(location) {
        url_of(location)
    } else if starts_char(location, '/') {
        Ok(UrlView { path: location, ..base })
    } else {
        Ok(UrlView { path: dir_with_slash(base.path) + location, ..base })
    }
}

/// A URL that was parsed has a host, and a path that starts with `/`.
pub proof fn law_parsed_urls_are_complete(s: Seq<char>)
    ensures
        url_of(s) matches Ok(u) ==> u.wf(),
{
    reveal_strlit("/");
    assert forall|rest: Seq<char>| starts_char(#[trigger] url_path(rest), '/') by {
        let path = before_first(rest, '#');
        if !starts_char(path, '/') {
            assert(("/"@ + path)[0] == '/');
        }
    }
}

/// Redirects lead from one such URL to another.
pub proof fn law_redirects_stay_complete(base: UrlView, location: Seq<char>)
    requires
        base.wf(),
    ensures
        joined(base, location) matches Ok(u) ==> u.wf(),
{
    reveal_strlit("/");
    if is_url_spec(location) {
        law_parsed_urls_are_complete(location);
    } else if !starts_char(location, '/') {
        let p = eq_to('/');
        lemma_last_end(base.path, p);
        let i = crate::text::last_end(base.path, p) as int;
        assert(base.path[0] == '/');
        assert(p(base.path[0]));
        if i == 0 {
            assert(!p(base.path[0]));
        }
        let dir = base.path.take(i - 1) + "/"@;
        assert(dir[0] == '/') by {
            if i == 1 {
                assert(dir =~= "/"@);
            } else {
                assert(dir[0] == base.path[0]);
            }
        }
        assert((dir + location)[0] == dir[0]);
    }
}

/// Whether `s` is a non-empty run of digits.
fn digits(s: &[char]) -> (r: bool)
    ensures
        r == is_digits(s@),
{
    let mut i: usize = 0;
    while i < s.len()
        invariant
            i <= s@.len(),
            forall|j: int| 0 <= j < i ==> is_digit(#[trigger] s@[j]),
        decreases s@.len() - i,
    {
        if !digit(s[i]) {
            return false;
        }
        i = i + 1;
    }
    s.len() > 0
}

fn parse_rest(s: &str, https: bool, rest: &[char]) -> (r: Result<Url>)
    ensures
        match url_rest(s@, https, rest@) {
            Ok(u) => r matches Ok(x) && x@ == u,
            Err(e) => r matches Err(x) && x@ == e,
        },
{
    let mut n: usize = 0;
    while n < rest.len() && rest[n] != '/' && rest[n] != '?' && rest[n] != '#'
        invariant
            n <= rest@.len(),
            forall|j: int| 0 <= j < n ==> !authority_ends()(#[trigger] rest@[j]),
        decreases rest@.len() - n,
    {
        n = n + 1;
    }
    proof {
        lemma_first_is(rest@, authority_ends(), n as int);
    }
    let authority = tail_after(take(rest, n), '@');
    let default: u16 = if https {
        443
    } else {
        80
    };
    let mut host: &[char] = authority;
    let mut port: u16 = default;
    if let Some((h, p)) = rcut(authority, ':') {
        if digits(p) {
            host = h;
            match parse_number(p, 10, 65535) {
                Some(x) => {
                    port = x as u16;
                },
                None => {
                    return Err(Error::Http(join2("bad port in ", s)));
                },
            }
        }
    }
    if host.len() == 0 {
        return Err(Error::Http(join2("missing host in URL: ", s)));
    }
    let path = head_before(skip(rest, n), '#');
    let mut full: String = String::new();
    if !begins(path, '/') {
        full.append("/");
    }
    push_chars(&mut full, path);
    assert(full@ =~= url_path(rest@.skip(n as int)));
    Ok(Url { https, host: string(host), port, path: full })
}

impl Url {
    /// Read a URL.
    pub fn parse(s: &str) -> (r: Result<Url>)
        ensures
            match url_of(s@) {
                Ok(u) => r matches Ok(x) && x@ == u,
                Err(e) => r matches Err(x) && x@ == e,
            },
    {
        let c = chars(s);
        if let Some(rest) = after_prefix(c.as_slice(), "https://") {
            return parse_rest(s, true, rest);
        }
        if let Some(rest) = after_prefix(c.as_slice(), "http://") {
            return parse_rest(s, false, rest);
        }
        Err(Error::Http(join2("not an http(s) URL: ", s)))
    }

    /// A copy.
    pub fn copy(&self) -> (r: Url)
        ensures
            r@ == self@,
    {
        Url {
            https: self.https,
            host: self.host.clone(),
            port: self.port,
            path: self.path.clone(),
        }
    }

    /// Resolve a `Location` header (absolute URL or path) against this URL.
    pub fn join(&self, location: &str) -> (r: Result<Url>)
        ensures
            match joined(self@, location@) {
                Ok(u) => r matches Ok(x) && x@ == u,
                Err(e) => r matches Err(x) && x@ == e,
            },
    {
        if is_url(location) {
            return Url::parse(location);
        }
        let l = chars(location);
        let mut path: String = String::new();
        if !begins(l.as_slice(), '/') {
            let p = chars(self.path.as_str());
            if let Some((dir, _)) = rcut(p.as_slice(), '/') {
                push_chars(&mut path, dir);
            }
            path.append("/");
        }
        path.append(location);
        proof {
            if starts_char(location@, '/') {
                assert(path@ =~= location@);
            } else {
                assert(path@ =~= dir_with_slash(self@.path) + location@);
            }
        }
        let mut next = self.copy();
        next.path = path;
        Ok(next)
    }

    /// The URL as text.
    pub fn display(&self) -> (r: String)
        ensures
            r@ == self@.text(),
    {
        let mut out: String = String::new();
        if self.https {
            out.append("https");
        } else {
            out.append("http");
        }
        out.append("://");
        out.append(self.host.as_str());
        out.append(":");
        push_dec(&mut out, self.port as u64);
        out.append(self.path.as_str());
        assert(out@ =~= self@.text());
        out
    }
}

// ---------------------------------------------------------------------
// Requests
// ---------------------------------------------------------------------

/// The `Range` header of a request.
pub open spec fn range_header(range: Option<(u64, Option<u64>)>) -> Seq<char> {
    match range {
        None => seq![],
        Some((start, Some(end))) => "Range: bytes="@ + dec(start as nat) + "-"@ + dec(end as nat)
            + "\r\n"@,
        Some((start, None)) => "Range: bytes="@ + dec(start as nat) + "-\r\n"@,
    }
}

/// A GET request, optionally ranged.
pub open spec fn request_of(url: UrlView, range: Option<(u64, Option<u64>)>) -> Seq<char> {
    "GET "@ + url.path + " HTTP/1.1\r\nHost: "@ + url.host + "\r\nUser-Agent: "@ + USER_AGENT@
        + "\r\nAccept: */*\r\nConnection: close\r\n"@ + range_header(range) + "\r\n"@
}

/// A GET request, optionally ranged (both ends inclusive).
pub fn request_text(url: &Url, range: Option<(u64, Option<u64>)>) -> (r: String)
    ensures
        r@ == request_of(url@, range),
{
    let mut out: String = String::new();
    out.append("GET ");
    out.append(url.path.as_str());
    out.append(" HTTP/1.1\r\nHost: ");
    out.append(url.host.as_str());
    out.append("\r\nUser-Agent: ");
    out.append(USER_AGENT);
    out.append("\r\nAccept: */*\r\nConnection: close\r\n");
    let ghost head = out@;
    match range {
        None => {
            assert(out@ =~= head + range_header(range));
        },
        Some((start, Some(end))) => {
            out.append("Range: bytes=");
            push_dec(&mut out, start);
            out.append("-");
            push_dec(&mut out, end);
            out.append("\r\n");
            assert(out@ =~= head + range_header(range));
        },
        Some((start, None)) => {
            out.append("Range: bytes=");
            push_dec(&mut out, start);
            out.append("-\r\n");
            assert(out@ =~= head + range_header(range));
        },
    }
    out.append("\r\n");
    out
}

// ---------------------------------------------------------------------
// Heads
// ---------------------------------------------------------------------

/// A response header.
#[derive(Debug, Clone)]
pub struct Header {
    pub name: String,
    pub value: String,
}

/// What a [`Header`] says.
pub struct HeaderView {
    pub name: Seq<char>,
    pub value: Seq<char>,
}

impl View for Header {
    type V = HeaderView;

    open spec fn view(&self) -> HeaderView {
        HeaderView { name: self.name@, value: self.value@ }
    }
}

/// A line without the line end.
pub open spec fn without_line_end(b: Seq<u8>) -> Seq<u8>
    decreases b.len(),
{
    if b.len() > 0 && (b.last() == 10 || b.last() == 13) {
        without_line_end(b.drop_last())
    } else {
        b
    }
}

/// The text of a line, without its line end.
pub fn line_text(raw: &[u8]) -> (r: String)
    ensures
        r@ == utf8_lossy(without_line_end(raw@)),
{
    let mut n: usize = raw.len();
    assert(raw@.take(n as int) =~= raw@);
    while n > 0 && (raw[n - 1] == 10 || raw[n - 1] == 13)
        invariant
            n <= raw@.len(),
            without_line_end(raw@) == without_line_end(raw@.take(n as int)),
        decreases n,
    {
        assert(raw@.take(n as int).drop_last() =~= raw@.take(n - 1));
        n = n - 1;
    }
    proof {
        if n > 0 {
            assert(raw@.take(n as int).last() == raw@[n - 1]);
        }
        assert(raw@.subrange(0, n as int) =~= raw@.take(n as int));
    }
    lossy(vstd::slice::slice_subrange(raw, 0, n))
}

/// A header line as it was read up to its newline. Nothing at all means that
/// the connection was closed.
pub fn head_line(raw: &[u8]) -> (r: Result<String>)
    ensures
        if raw@.len() == 0 {
            r matches Err(e) && e@ == ErrorView::Http("connection closed mid-header"@)
        } else {
            r matches Ok(s) && s@ == utf8_lossy(without_line_end(raw@))
        },
{
    if raw.len() == 0 {
        return Err(Error::Http("connection closed mid-header".to_owned()));
    }
    Ok(line_text(raw))
}

/// The status in a status line: its second word.
pub open spec fn status_in(line: Seq<char>) -> Option<int> {
    if words(line).len() < 2 {
        None
    } else {
        parse_unsigned(words(line)[1], 10, 65535)
    }
}

/// The status of `HTTP/1.1 206 Partial Content`.
pub fn parse_status(line: &str) -> (r: Result<u16>)
    ensures
        match status_in(line@) {
            Some(n) => r matches Ok(s) && s == n,
            None => r matches Err(e) && e@ == ErrorView::Http(
                "bad status line: "@ + debug_text(line@),
            ),
        },
{
    let c = chars(line);
    let ws = text_words(c.as_slice());
    if ws.len() >= 2 {
        assert(texts(ws@)[1] == ws@[1]@);
        if let Some(n) = parse_number(ws[1], 10, 65535) {
            return Ok(n as u16);
        }
    }
    let q = quoted(line);
    Err(Error::Http(join2("bad status line: ", q.as_str())))
}

/// The header in a line, if it is one.
pub open spec fn header_in(line: Seq<char>) -> Option<HeaderView> {
    match split_once(line, ':') {
        Some((k, v)) => Some(HeaderView { name: trim(k), value: trim(v) }),
        None => None,
    }
}

/// Add the header in a line; whether more lines follow. The headers end at an
/// empty line.
pub fn add_header(headers: &mut Vec<Header>, line: &str) -> (more: bool)
    ensures
        more == (line@.len() > 0),
        views(final(headers)@) == (match header_in(line@) {
            Some(h) if line@.len() > 0 => views(old(headers)@).push(h),
            _ => views(old(headers)@),
        }),
{
    let c = chars(line);
    if c.len() == 0 {
        return false;
    }
    if let Some((k, v)) = cut(c.as_slice(), ':') {
        let h = Header { name: string(trimmed(k)), value: string(trimmed(v)) };
        let ghost before = headers@;
        let ghost hv = h@;
        headers.push(h);
        assert(views(headers@) =~= views(before).push(hv));
    }
    true
}

/// The predicate "has this name, whatever the case".
pub open spec fn header_named(name: Seq<char>) -> spec_fn(HeaderView) -> bool {
    |h: HeaderView| lower(h.name) == lower(name)
}

/// The value of the first header of this name.
pub open spec fn header_value(headers: Seq<HeaderView>, name: Seq<char>) -> Option<Seq<char>> {
    match position(headers, header_named(name)) {
        Some(i) => Some(headers[i].value),
        None => None,
    }
}

/// The value of the first header of this name.
pub fn header_of<'a>(headers: &'a Vec<Header>, name: &str) -> (r: Option<&'a str>)
    ensures
        crate::boot::opt_str(r) == header_value(views(headers@), name@),
{
    let test = |h: &Header| -> (b: bool)
        ensures
            b == header_named(name@)(h@)
    { same_but_case(h.name.as_str(), name) };
    match position_by(headers, test, Ghost(header_named(name@))) {
        Some(i) => {
            assert(views(headers@)[i as int] == headers@[i as int]@);
            Some(headers[i].value.as_str())
        },
        None => None,
    }
}

/// How a response body is delimited.
#[derive(Debug, Clone, Copy, PartialEq, Eq, Structural)]
pub enum Framing {
    Length(u64),
    Chunked,
    /// Read until the connection closes (no length, not chunked).
    ToEnd,
}

/// The number in a header value.
pub open spec fn number_in(value: Option<Seq<char>>) -> Option<int> {
    match value {
        Some(v) => parse_unsigned(trim(v), 10, u64::MAX as int),
        None => None,
    }
}

/// How the body of a response is delimited.
pub open spec fn framing(headers: Seq<HeaderView>, status: u16) -> Framing {
    if header_value(headers, "transfer-encoding"@) matches Some(v) && lower(v) == lower(
        "chunked"@,
    ) {
        Framing::Chunked
    } else {
        match number_in(header_value(headers, "content-length"@)) {
            Some(n) => Framing::Length(n as u64),
            None => if status == 204 || status == 304 {
                Framing::Length(0)
            } else {
                Framing::ToEnd
            },
        }
    }
}

/// The number in a header value.
fn header_number(value: Option<&str>) -> (r: Option<u64>)
    ensures
        match r {
            Some(n) => number_in(crate::boot::opt_str(value)) == Some(n as int),
            None => number_in(crate::boot::opt_str(value)) is None,
        },
{
    match value {
        Some(v) => {
            let c = chars(v);
            parse_number(trimmed(c.as_slice()), 10, u64::MAX)
        },
        None => None,
    }
}

/// How the body of a response is delimited.
pub fn framing_of(headers: &Vec<Header>, status: u16) -> (r: Framing)
    ensures
        r == framing(views(headers@), status),
{
    if let Some(v) = header_of(headers, "transfer-encoding") {
        if same_but_case(v, "chunked") {
            return Framing::Chunked;
        }
    }
    match header_number(header_of(headers, "content-length")) {
        Some(n) => Framing::Length(n),
        None => if status == 204 || status == 304 {
            Framing::Length(0)
        } else {
            Framing::ToEnd
        },
    }
}

/// `bytes 0-0/12345` says 12345.
pub open spec fn range_total(value: Seq<char>) -> Option<int> {
    parse_unsigned(trim(after_last(value, '/')), 10, u64::MAX as int)
}

/// `bytes 0-0/12345` says 12345.
pub fn parse_content_range_total(value: &str) -> (r: Option<u64>)
    ensures
        match r {
            Some(n) => range_total(value@) == Some(n as int),
            None => range_total(value@) is None,
        },
{
    let c = chars(value);
    parse_number(trimmed(tail_after(c.as_slice(), '/')), 10, u64::MAX)
}

// ---------------------------------------------------------------------
// Redirects and retries
// ---------------------------------------------------------------------

/// What to do after a response head.
pub enum Hop {
    /// Ask this URL, with the same range, on a new connection.
    Follow(Url),
    /// Read the body.
    Body(Framing),
}

/// A status that sends the client elsewhere.
pub open spec fn is_redirect(status: u16) -> bool {
    status == 301 || status == 302 || status == 303 || status == 307 || status == 308
}

/// What to do after the head of a response from `current`, to a request that
/// started at `start` and was sent elsewhere `hops` times before.
pub fn next_hop(
    start: &Url,
    current: &Url,
    hops: usize,
    status: u16,
    headers: &Vec<Header>,
) -> (r: Result<Hop>)
    ensures
        match header_value(views(headers@), "location"@) {
            Some(location) if is_redirect(status) => match joined(current@, location) {
                Err(e) => r matches Err(x) && x@ == e,
                Ok(u) => if hops >= MAX_REDIRECTS {
                    r matches Err(x) && x@ == ErrorView::Http(
                        "too many redirects from "@ + start@.text(),
                    )
                } else {
                    r matches Ok(Hop::Follow(x)) && x@ == u
                },
            },
            _ => r matches Ok(Hop::Body(f)) && f == framing(views(headers@), status),
        },
{
    let redirect: bool = status == 301 || status == 302 || status == 303 || status == 307 || status
        == 308;
    if redirect {
        if let Some(location) = header_of(headers, "location") {
            let next = current.join(location)?;
            if hops >= MAX_REDIRECTS {
                let from = start.display();
                return Err(Error::Http(join2("too many redirects from ", from.as_str())));
            }
            return Ok(Hop::Follow(next));
        }
    }
    Ok(Hop::Body(framing_of(headers, status)))
}

/// After how many milliseconds a failed request is tried again, when it failed
/// `attempt` times before; nothing, when it is given up.
pub fn retry_delay(attempt: u64) -> (r: Option<u64>)
    ensures
        r == (if attempt < MAX_RETRIES {
            Some((300 * (attempt + 1)) as u64)
        } else {
            None
        }),
{
    if attempt < MAX_RETRIES {
        Some(300 * (attempt + 1))
    } else {
        None
    }
}

// ---------------------------------------------------------------------
// Bodies
// ---------------------------------------------------------------------

/// What a body needs next.
#[derive(Debug, Clone, Copy, PartialEq, Eq, Structural)]
pub enum Want {
    /// Nothing: it has ended.
    End,
    /// The next line, which says how long the next chunk is.
    Line,
    /// At most this many bytes.
    Bytes(usize),
}

/// Decodes a response body per its framing into a plain byte stream: the
/// caller reads what it wants, and tells it what came.
pub struct Body {
    framing: Framing,
    /// Remaining bytes for `Length`.
    left: u64,
    /// Remaining bytes in the current chunk for `Chunked`.
    chunk_left: u64,
    done: bool,
}

/// What a [`Body`] stands at.
pub struct BodyView {
    pub framing: Framing,
    pub left: u64,
    pub chunk_left: u64,
    pub done: bool,
}

/// The smaller of the two.
pub open spec fn at_most(room: nat, left: u64) -> nat {
    if room < left {
        room
    } else {
        left as nat
    }
}

impl BodyView {
    /// The body has ended, or its end shows now.
    pub open spec fn ended(self) -> bool {
        self.done || (self.framing is Length && self.left == 0)
    }

    /// What is needed to fill `room` bytes.
    pub open spec fn want(self, room: nat) -> Want {
        if self.ended() || room == 0 {
            Want::End
        } else {
            match self.framing {
                Framing::Length(_) => Want::Bytes(at_most(room, self.left) as usize),
                Framing::ToEnd => Want::Bytes(room as usize),
                Framing::Chunked => if self.chunk_left == 0 {
                    Want::Line
                } else {
                    Want::Bytes(at_most(room, self.chunk_left) as usize)
                },
            }
        }
    }
}

impl View for Body {
    type V = BodyView;

    closed spec fn view(&self) -> BodyView {
        BodyView {
            framing: self.framing,
            left: self.left,
            chunk_left: self.chunk_left,
            done: self.done,
        }
    }
}

/// The text of a chunk size.
pub open spec fn chunk_size_text(line: Seq<char>) -> Seq<char> {
    trim(before_first(line, ';'))
}

impl Body {
    /// The body of a response.
    pub fn new(framing: Framing) -> (r: Body)
        ensures
            r@ == (BodyView {
                framing,
                left: match framing {
                    Framing::Length(n) => n,
                    _ => 0,
                },
                chunk_left: 0,
                done: false,
            }),
    {
        let left: u64 = match framing {
            Framing::Length(n) => n,
            _ => 0,
        };
        Body { framing, left, chunk_left: 0, done: false }
    }

    /// What is needed to fill `room` bytes.
    pub fn want(&mut self, room: usize) -> (r: Want)
        ensures
            r == old(self)@.want(room as nat),
            final(self)@ == (BodyView {
                done: old(self)@.done || (room > 0 && old(self)@.ended()),
                ..old(self)@
            }),
    {
        if self.done || room == 0 {
            return Want::End;
        }
        match self.framing {
            Framing::Length(_) => {
                if self.left == 0 {
                    self.done = true;
                    return Want::End;
                }
                Want::Bytes(
                    if (room as u64) < self.left {
                        room
                    } else {
                        self.left as usize
                    },
                )
            },
            Framing::ToEnd => Want::Bytes(room),
            Framing::Chunked => {
                if self.chunk_left == 0 {
                    return Want::Line;
                }
                Want::Bytes(
                    if (room as u64) < self.chunk_left {
                        room
                    } else {
                        self.chunk_left as usize
                    },
                )
            },
        }
    }

    /// Take the line that was wanted: the size of the next chunk, or the empty
    /// line behind the one before. A size of 0 ends the body.
    pub fn on_line(&mut self, line: &str) -> (r: core::result::Result<(), String>)
        ensures
            if line@.len() == 0 {
                r is Ok && final(self)@ == old(self)@
            } else {
                match parse_unsigned(chunk_size_text(line@), 16, u64::MAX as int) {
                    None => {
                        &&& r matches Err(e) && e@ == "bad chunk size "@ + debug_text(
                            chunk_size_text(line@),
                        )
                        &&& final(self)@ == old(self)@
                    },
                    Some(n) => {
                        &&& r is Ok
                        &&& final(self)@ == (if n == 0 {
                            BodyView { done: true, ..old(self)@ }
                        } else {
                            BodyView { chunk_left: n as u64, ..old(self)@ }
                        })
                    },
                }
            },
    {
        let c = chars(line);
        if c.len() == 0 {
            return Ok(());
        }
        let size_hex = trimmed(head_before(c.as_slice(), ';'));
        match parse_number(size_hex, 16, u64::MAX) {
            None => {
                let text = string(size_hex);
                let q = quoted(text.as_str());
                Err(join2("bad chunk size ", q.as_str()))
            },
            Some(n) => {
                if n == 0 {
                    self.done = true;
                } else {
                    self.chunk_left = n;
                }
                Ok(())
            },
        }
    }

    /// Take `n` of the bytes that were wanted. None at all ends a body whose
    /// end is not marked otherwise.
    pub fn on_bytes(&mut self, n: usize)
        requires
            old(self)@.framing is Length ==> n <= old(self)@.left,
            old(self)@.framing is Chunked ==> n <= old(self)@.chunk_left,
        ensures
            final(self)@ == (match old(self)@.framing {
                Framing::Length(_) => BodyView {
                    left: (old(self)@.left - n) as u64,
                    done: old(self)@.done || n == 0,
                    ..old(self)@
                },
                Framing::ToEnd => BodyView { done: old(self)@.done || n == 0, ..old(self)@ },
                Framing::Chunked => BodyView {
                    chunk_left: (old(self)@.chunk_left - n) as u64,
                    ..old(self)@
                },
            }),
    {
        match self.framing {
            Framing::Length(_) => {
                if n == 0 {
                    self.done = true;
                }
                self.left = self.left - n as u64;
            },
            Framing::ToEnd => {
                if n == 0 {
                    self.done = true;
                }
            },
            Framing::Chunked => {
                self.chunk_left = self.chunk_left - n as u64;
            },
        }
    }
}

/// A body of a known length never wants more than what is left of it.
pub proof fn law_length_is_a_limit(b: BodyView, room: nat)
    requires
        b.framing is Length,
        room <= usize::MAX,
    ensures
        b.want(room) matches Want::Bytes(n) ==> 0 < n <= b.left && n <= room,
{
}

/// A chunk is read to its end, and never past it, before the next line.
pub proof fn law_chunk_is_a_limit(b: BodyView, room: nat)
    requires
        b.framing is Chunked,
        room <= usize::MAX,
    ensures
        b.want(room) matches Want::Bytes(n) ==> 0 < n <= b.chunk_left && n <= room,
        b.want(room) is Line ==> b.chunk_left == 0,
{
}

// ---------------------------------------------------------------------
// Fetching an image
// ---------------------------------------------------------------------

/// Fetches of one http(s) URL: what is asked, and what the answers mean. Once
/// probing has resolved redirects, fetches start from the final URL.
pub struct HttpFetcher {
    start: Url,
    resolved: Url,
}

impl HttpFetcher {
    /// The URL that was given.
    pub closed spec fn spec_start(&self) -> UrlView {
        self.start@
    }

    /// The URL that fetches start from.
    pub closed spec fn spec_resolved(&self) -> UrlView {
        self.resolved@
    }

    pub fn new(url: &str) -> (r: Result<HttpFetcher>)
        ensures
            match url_of(url@) {
                Ok(u) => r matches Ok(f) && f.spec_start() == u && f.spec_resolved() == u,
                Err(e) => r matches Err(x) && x@ == e,
            },
    {
        let parsed = Url::parse(url)?;
        Ok(HttpFetcher { start: parsed.copy(), resolved: parsed })
    }

    /// The URL to probe. A 1-byte range request distinguishes range support
    /// cleanly: a server that honours it answers 206 + Content-Range/<total>;
    /// one that ignores it answers 200 + Content-Length for the whole body.
    pub fn start(&self) -> (r: &Url)
        ensures
            r@ == self.spec_start(),
    {
        &self.start
    }

    /// The URL to fetch from.
    pub fn resolved(&self) -> (r: &Url)
        ensures
            r@ == self.spec_resolved(),
    {
        &self.resolved
    }

    /// Take the answer to a probe, which came from `final_url`.
    pub fn on_probe(&mut self, final_url: Url, status: u16, headers: &Vec<Header>) -> (r: Result<
        Probe,
    >)
        ensures
            final(self).spec_start() == old(self).spec_start(),
            final(self).spec_resolved() == final_url@,
            match probed(status, views(headers@), old(self).spec_start()) {
                Ok(p) => r matches Ok(x) && x == p,
                Err(e) => r matches Err(x) && x@ == e,
            },
    {
        self.resolved = final_url;
        if status == 206 {
            let total: Option<u64> = match header_of(headers, "content-range") {
                Some(v) => parse_content_range_total(v),
                None => None,
            };
            return match total {
                Some(size) => Ok(Probe { size, supports_range: true }),
                None => Err(Error::Http("206 without a usable Content-Range".to_owned())),
            };
        }
        if status == 200 {
            return match header_number(header_of(headers, "content-length")) {
                Some(size) => Ok(Probe { size, supports_range: false }),
                None => Err(Error::Http("200 without a Content-Length".to_owned())),
            };
        }
        let from = self.start.display();
        let mut msg: String = String::new();
        msg.append("unexpected status ");
        push_dec(&mut msg, status as u64);
        msg.append(" probing ");
        msg.append(from.as_str());
        assert(msg@ =~= "unexpected status "@ + dec(status as nat) + " probing "@
            + self.start@.text());
        Err(Error::Http(msg))
    }
}

/// What the answer to a probe says.
pub open spec fn probed(status: u16, headers: Seq<HeaderView>, start: UrlView) -> core::result::Result<
    Probe,
    ErrorView,
> {
    if status == 206 {
        match header_value(headers, "content-range"@) {
            Some(v) if range_total(v) is Some => Ok(
                Probe { size: range_total(v)->0 as u64, supports_range: true },
            ),
            _ => Err(ErrorView::Http("206 without a usable Content-Range"@)),
        }
    } else if status == 200 {
        match number_in(header_value(headers, "content-length"@)) {
            Some(n) => Ok(Probe { size: n as u64, supports_range: false }),
            None => Err(ErrorView::Http("200 without a Content-Length"@)),
        }
    } else {
        Err(
            ErrorView::Http(
                "unexpected status "@ + dec(status as nat) + " probing "@ + start.text(),
            ),
        )
    }
}

/// Whether the answer to a request for the bytes `[start, end)` holds them.
pub fn check_range_status(status: u16, start: u64, end: u64) -> (r: Result<()>)
    requires
        start < end,
    ensures
        if status == 206 {
            r is Ok
        } else {
            r matches Err(e) && e@ == ErrorView::Http(
                "expected 206 for range "@ + dec(start as nat) + "-"@ + dec((end - 1) as nat)
                    + ", got "@ + dec(status as nat),
            )
        },
{
    if status == 206 {
        return Ok(());
    }
    let mut msg: String = String::new();
    msg.append("expected 206 for range ");
    push_dec(&mut msg, start);
    msg.append("-");
    push_dec(&mut msg, end - 1);
    msg.append(", got ");
    push_dec(&mut msg, status as u64);
    assert(msg@ =~= "expected 206 for range "@ + dec(start as nat) + "-"@ + dec((end - 1) as nat)
        + ", got "@ + dec(status as nat));
    Err(Error::Http(msg))
}

/// Whether the answer to a request for the whole body holds it.
pub fn check_stream_status(status: u16) -> (r: Result<()>)
    ensures
        if status == 200 {
            r is Ok
        } else {
            r matches Err(e) && e@ == ErrorView::Http(
                "expected 200 streaming body, got "@ + dec(status as nat),
            )
        },
{
    if status == 200 {
        return Ok(());
    }
    let mut msg: String = String::new();
    msg.append("expected 200 streaming body, got ");
    push_dec(&mut msg, status as u64);
    assert(msg@ =~= "expected 200 streaming body, got "@ + dec(status as nat));
    Err(Error::Http(msg))
}

/// How a failure to connect is reported.
pub fn connect_error(url: &Url, last: Option<&str>) -> (r: Error)
    ensures
        r@ == ErrorView::Http(
            "connect "@ + url@.host + ":"@ + dec(url@.port as nat) + (match last {
                Some(e) => ": "@ + e@,
                None => seq![],
            }),
        ),
{
    let mut msg: String = String::new();
    msg.append("connect ");
    msg.append(url.host.as_str());
    msg.append(":");
    push_dec(&mut msg, url.port as u64);
    let ghost head = msg@;
    match last {
        Some(e) => {
            msg.append(": ");
            msg.append(e);
            assert(msg@ =~= head + (": "@ + e@));
        },
        None => {
            assert(msg@ =~= head + Seq::<char>::empty());
        },
    }
    Error::Http(msg)
}

} // verus!
