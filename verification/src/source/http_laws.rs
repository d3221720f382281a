//! What URLs, requests and response heads say.

use crate::seqs::lemma_position;
use crate::source::http::{
    authority_ends, chunk_size_text, framing, header_in, header_named, header_value, host_port,
    is_digits, is_redirect, joined, number_in, probed, range_total, request_of, status_in, url_of,
    url_path, url_rest, without_line_end, BodyView, Framing, HeaderView, UrlView, Want,
};
use crate::source::remote::Probe;
use crate::source::{is_url_spec, relative_to};
use crate::text::laws::{
    blank, law_rsplit_once, law_split_once, law_strip_prefix, law_trim, law_word_is_one,
    law_words_follow, plain,
};
use crate::text::number::{dec, lemma_dec_reads_back, parse_unsigned};
use crate::text::split::{after_last, starts_with, trim};
use crate::text::{first, lemma_first_is, lower};
use vstd::prelude::*;
use vstd::string::*;

verus! {

// ---------------------------------------------------------------------
// URLs
// ---------------------------------------------------------------------

/// A host name without anything that has a meaning of its own in a URL.
pub open spec fn plain_host(h: Seq<char>) -> bool {
    plain(h) && !h.contains('/') && !h.contains('?') && !h.contains('#') && !h.contains('@')
        && !h.contains(':')
}

/// A path with its query.
pub open spec fn plain_path(p: Seq<char>) -> bool {
    p.len() > 0 && p[0] == '/' && !p.contains('#')
}

proof fn lemma_url(rest: Seq<char>, user: Seq<char>, authority: Seq<char>, tail: Seq<char>)
    requires
        !user.contains('/') && !user.contains('?') && !user.contains('#'),
        !authority.contains('/') && !authority.contains('?') && !authority.contains('#')
            && !authority.contains('@'),
        tail.len() > 0 ==> tail[0] == '/' || tail[0] == '?' || tail[0] == '#',
        rest == user + seq!['@'] + authority + tail || rest == authority + tail,
    ensures
        ({
            let n = first(rest, authority_ends()) as int;
            after_last(rest.take(n), '@') == authority && rest.skip(n) == tail
        }),
{
    let head = if rest == authority + tail {
        authority
    } else {
        user + seq!['@'] + authority
    };
    assert(rest =~= head + tail);
    let n = head.len() as int;
    assert forall|j: int| 0 <= j < n implies !authority_ends()(#[trigger] rest[j]) by {
        assert(rest[j] == head[j]);
        if head == authority {
            assert(authority.contains(authority[j]));
        } else if j < user.len() {
            assert(head[j] == user[j]);
            assert(user.contains(user[j]));
        } else if j > user.len() {
            assert(head[j] == authority[j - user.len() - 1]);
            assert(authority.contains(authority[j - user.len() - 1]));
        }
    }
    if n < rest.len() {
        assert(rest[n] == tail[0]);
    }
    lemma_first_is(rest, authority_ends(), n);
    assert(rest.take(n) =~= head);
    assert(rest.skip(n) =~= tail);
    law_rsplit_once(user, '@', authority);
}

/// `https://HOST/PATH` is the path at the host, on port 443, and on port 80
/// with `http`; a port behind the host says another one. A user name in front
/// of the host is dropped, and so is a fragment.
pub proof fn law_url_parts(
    user: Seq<char>,
    host: Seq<char>,
    port: u16,
    path: Seq<char>,
    fragment: Seq<char>,
)
    requires
        !user.contains('/') && !user.contains('?') && !user.contains('#'),
        plain_host(host),
        plain_path(path),
    ensures
        url_of("https://"@ + (host + path)) == Ok::<_, crate::error::ErrorView>(
            UrlView { https: true, host, port: 443, path },
        ),
        url_of("http://"@ + (host + path)) == Ok::<_, crate::error::ErrorView>(
            UrlView { https: false, host, port: 80, path },
        ),
        url_of("http://"@ + (host + seq![':'] + dec(port as nat) + path)) == Ok::<
            _,
            crate::error::ErrorView,
        >(UrlView { https: false, host, port, path }),
        url_of("https://"@ + (host + seq![':'] + dec(port as nat) + path)) == Ok::<
            _,
            crate::error::ErrorView,
        >(UrlView { https: true, host, port, path }),
        url_of("https://"@ + (user + seq!['@'] + host + path)) == Ok::<_, crate::error::ErrorView>(
            UrlView { https: true, host, port: 443, path },
        ),
        url_of("https://"@ + (host + (path + seq!['#'] + fragment))) == Ok::<
            _,
            crate::error::ErrorView,
        >(UrlView { https: true, host, port: 443, path }),
{
    lemma_scheme(host + path);
    let numbered = host + seq![':'] + dec(port as nat);
    lemma_scheme(numbered + path);
    lemma_scheme(user + seq!['@'] + host + path);
    lemma_scheme(host + (path + seq!['#'] + fragment));
    lemma_url(host + path, user, host, path);
    lemma_host(host, port);
    lemma_url(numbered + path, user, numbered, path);
    lemma_url(user + seq!['@'] + host + path, user, host, path);
    let tail = path + seq!['#'] + fragment;
    lemma_url(host + tail, user, host, tail);
    law_split_once(path, '#', fragment);
}

proof fn lemma_scheme(rest: Seq<char>)
    ensures
        url_of("https://"@ + rest) == url_rest("https://"@ + rest, true, rest),
        url_of("http://"@ + rest) == url_rest("http://"@ + rest, false, rest),
{
    reveal_strlit("https://");
    reveal_strlit("http://");
    law_strip_prefix("https://"@, rest);
    law_strip_prefix("http://"@, rest);
    let t = "http://"@ + rest;
    assert(t[4] == ':');
    if starts_with(t, "https://"@) {
        assert(t.take(8)[4] == 's');
    }
}

proof fn lemma_host(host: Seq<char>, port: u16)
    requires
        plain_host(host),
    ensures
        host_port(host, true) == Some((host, 443u16)),
        host_port(host, false) == Some((host, 80u16)),
        host_port(host + seq![':'] + dec(port as nat), true) == Some((host, port)),
        host_port(host + seq![':'] + dec(port as nat), false) == Some((host, port)),
        ({
            let a = host + seq![':'] + dec(port as nat);
            !a.contains('/') && !a.contains('?') && !a.contains('#') && !a.contains('@')
        }),
{
    let d = dec(port as nat);
    lemma_dec_reads_back(port as nat);
    if d.contains(':') {
        let i = choose|i: int| 0 <= i < d.len() && d[i] == ':';
        assert('0' <= d[i] <= '9');
    }
    law_rsplit_once(host, ':', d);
    law_rsplit_once(seq![], ':', host);
    assert(is_digits(d));
    let a = host + seq![':'] + d;
    assert forall|c: char| (c == '/' || c == '?' || c == '#' || c == '@') implies !#[trigger] a.contains(
        c,
    ) by {
        if a.contains(c) {
            let i = choose|i: int| 0 <= i < a.len() && a[i] == c;
            if i < host.len() {
                assert(host[i] == c);
            } else if i > host.len() {
                assert(d[i - host.len() - 1] == c);
                assert('0' <= d[i - host.len() - 1] <= '9');
            }
        }
    }
}

/// What a URL is written as reads back as the URL.
pub proof fn law_url_reads_back(u: UrlView)
    requires
        plain_host(u.host),
        plain_path(u.path),
    ensures
        url_of(u.text()) == Ok::<_, crate::error::ErrorView>(u),
{
    reveal_strlit("https");
    reveal_strlit("http");
    reveal_strlit("://");
    reveal_strlit(":");
    reveal_strlit("https://");
    reveal_strlit("http://");
    law_url_parts(seq![], u.host, u.port, u.path, seq![]);
    let rest = u.host + seq![':'] + dec(u.port as nat) + u.path;
    if u.https {
        assert(u.text() =~= "https://"@ + rest);
    } else {
        assert(u.text() =~= "http://"@ + rest);
    }
}

/// A URL without a path asks for `/`, one with a query alone for the query of
/// `/`.
pub proof fn law_path_may_be_missing(host: Seq<char>, query: Seq<char>)
    requires
        plain_host(host),
        !query.contains('#'),
    ensures
        url_of("https://"@ + host) == Ok::<_, crate::error::ErrorView>(
            UrlView { https: true, host, port: 443, path: seq!['/'] },
        ),
        url_of("https://"@ + (host + (seq!['?'] + query))) == Ok::<_, crate::error::ErrorView>(
            UrlView { https: true, host, port: 443, path: seq!['/', '?'] + query },
        ),
{
    reveal_strlit("/");
    lemma_host(host, 0);
    lemma_scheme(host);
    assert(host + Seq::<char>::empty() =~= host);
    lemma_url(host, seq![], host, seq![]);
    let none = Seq::<char>::empty();
    assert(!none.contains('#'));
    law_split_once(none, '#', seq![]);
    assert(url_path(none) =~= seq!['/']);
    let tail = seq!['?'] + query;
    lemma_scheme(host + tail);
    lemma_url(host + tail, seq![], host, tail);
    if tail.contains('#') {
        let i = choose|i: int| 0 <= i < tail.len() && tail[i] == '#';
        assert(query[i - 1] == '#');
    }
    law_split_once(tail, '#', seq![]);
    assert(url_path(tail) =~= seq!['/', '?'] + query);
}

/// A URL needs a host, a port that there is, and one of the two schemes.
pub proof fn law_bad_urls_are_refused(host: Seq<char>, port: nat, path: Seq<char>, other: Seq<char>)
    requires
        plain_host(host),
        plain_path(path),
        port > 65535,
        other.len() < 7 || other.take(7) != "http://"@,
        other.len() < 8 || other.take(8) != "https://"@,
    ensures
        url_of("https://"@ + path) is Err,
        url_of("https://"@ + (host + seq![':'] + dec(port) + path)) is Err,
        url_of(other) is Err,
{
    reveal_strlit("https://");
    reveal_strlit("http://");
    let none = Seq::<char>::empty();
    lemma_scheme(path);
    assert(none + path =~= path);
    lemma_url(path, none, none, path);
    law_rsplit_once(none, ':', none);
    let d = dec(port);
    lemma_dec_reads_back(port);
    let a = host + seq![':'] + d;
    assert forall|c: char| (c == '/' || c == '?' || c == '#' || c == '@') implies !#[trigger] a.contains(
        c,
    ) by {
        if a.contains(c) {
            let i = choose|i: int| 0 <= i < a.len() && a[i] == c;
            if i < host.len() {
                assert(host[i] == c);
            } else if i > host.len() {
                assert(d[i - host.len() - 1] == c);
                assert('0' <= d[i - host.len() - 1] <= '9');
            }
        }
    }
    if d.contains(':') {
        let i = choose|i: int| 0 <= i < d.len() && d[i] == ':';
        assert('0' <= d[i] <= '9');
    }
    assert(d[0] != '+');
    lemma_scheme(a + path);
    lemma_url(a + path, none, a, path);
    law_rsplit_once(host, ':', d);
    assert(is_digits(d));
    assert(parse_unsigned(d, 10, 65535) is None);
}

/// A redirect to a path stays at the host, one without a `/` in front stays in
/// the directory, and one to a URL leads there.
pub proof fn law_redirects(base: UrlView, dir: Seq<char>, name: Seq<char>, location: Seq<char>)
    requires
        base.path == dir + seq!['/'] + name,
        !name.contains('/'),
        location.len() > 0,
    ensures
        location[0] == '/' ==> joined(base, location) == Ok::<_, crate::error::ErrorView>(
            UrlView { path: location, ..base },
        ),
        location[0] != '/' && location[0] != 'h' ==> joined(base, location) == Ok::<
            _,
            crate::error::ErrorView,
        >(UrlView { path: dir + seq!['/'] + location, ..base }),
        joined(base, "https://"@ + location) == url_of("https://"@ + location),
        joined(base, "http://"@ + location) == url_of("http://"@ + location),
{
    reveal_strlit("https://");
    reveal_strlit("http://");
    reveal_strlit("/");
    assert("/"@ =~= seq!['/']);
    law_rsplit_once(dir, '/', name);
    if starts_with(location, "http://"@) {
        assert(location.take(7)[0] == 'h');
    }
    if starts_with(location, "https://"@) {
        assert(location.take(8)[0] == 'h');
    }
    law_strip_prefix("https://"@, location);
    law_strip_prefix("http://"@, location);
}

/// A backing file is looked for beside the image that names it; a URL, or an
/// absolute path of a local image, stands for itself.
pub proof fn law_backing_file_is_a_sibling(dir: Seq<char>, image: Seq<char>, name: Seq<char>)
    requires
        !image.contains('/'),
        name.len() > 0,
        name[0] != 'h',
    ensures
        name[0] != '/' || is_url_spec(dir + seq!['/'] + image) ==> relative_to(
            dir + seq!['/'] + image,
            name,
        ) == dir + seq!['/'] + name,
        name[0] == '/' && !is_url_spec(dir + seq!['/'] + image) ==> relative_to(
            dir + seq!['/'] + image,
            name,
        ) == name,
        relative_to(dir + seq!['/'] + image, "https://"@ + name) == "https://"@ + name,
        relative_to(dir + seq!['/'] + image, "http://"@ + name) == "http://"@ + name,
        name[0] != '/' ==> relative_to(image, name) == name,
{
    reveal_strlit("https://");
    reveal_strlit("http://");
    reveal_strlit("/");
    assert("/"@ =~= seq!['/']);
    law_rsplit_once(dir, '/', image);
    if starts_with(name, "http://"@) {
        assert(name.take(7)[0] == 'h');
    }
    if starts_with(name, "https://"@) {
        assert(name.take(8)[0] == 'h');
    }
    law_strip_prefix("https://"@, name);
    law_strip_prefix("http://"@, name);
}

/// A URL begins with `http://` or `https://`, and nothing else is one.
pub proof fn law_what_is_a_url(s: Seq<char>)
    ensures
        is_url_spec(s) <==> (s.len() >= 7 && s.take(7) == seq!['h', 't', 't', 'p', ':', '/', '/']) || (
        s.len() >= 8 && s.take(8) == seq!['h', 't', 't', 'p', 's', ':', '/', '/']),
{
    reveal_strlit("https://");
    reveal_strlit("http://");
    assert("http://"@ =~= seq!['h', 't', 't', 'p', ':', '/', '/']);
    assert("https://"@ =~= seq!['h', 't', 't', 'p', 's', ':', '/', '/']);
}

// ---------------------------------------------------------------------
// Requests
// ---------------------------------------------------------------------

/// A request asks its host for its path, and for the bytes from the first to
/// the last, both included, or from the first on; it ends with an empty line.
pub proof fn law_request(url: UrlView, start: u64, end: u64)
    ensures
        request_of(url, Some((start, Some(end)))) == "GET "@ + url.path + " HTTP/1.1\r\nHost: "@
            + url.host
            + "\r\nUser-Agent: "@ + "lbx/0.1.0"@ + "\r\nAccept: */*\r\nConnection: close\r\n"@ + (
        "Range: bytes="@ + dec(start as nat) + "-"@ + dec(end as nat) + "\r\n"@) + "\r\n"@,
        request_of(url, Some((start, None))) == "GET "@ + url.path + " HTTP/1.1\r\nHost: "@ + url.host
            + "\r\nUser-Agent: "@ + "lbx/0.1.0"@ + "\r\nAccept: */*\r\nConnection: close\r\n"@ + (
        "Range: bytes="@ + dec(start as nat) + "-\r\n"@) + "\r\n"@,
        request_of(url, None) == "GET "@ + url.path + " HTTP/1.1\r\nHost: "@ + url.host
            + "\r\nUser-Agent: "@ + "lbx/0.1.0"@ + "\r\nAccept: */*\r\nConnection: close\r\n"@
            + "\r\n"@,
{
    assert(request_of(url, None) =~= "GET "@ + url.path + " HTTP/1.1\r\nHost: "@ + url.host
        + "\r\nUser-Agent: "@ + "lbx/0.1.0"@ + "\r\nAccept: */*\r\nConnection: close\r\n"@ + "\r\n"@);
}

// ---------------------------------------------------------------------
// Heads
// ---------------------------------------------------------------------

/// The second word of the status line is the status.
pub proof fn law_status_line(version: Seq<char>, status: u16, reason: Seq<char>)
    requires
        plain(version),
    ensures
        status_in(version + seq![' '] + dec(status as nat)) == Some(status as int),
        status_in(version + seq![' '] + dec(status as nat) + seq![' '] + reason) == Some(
            status as int,
        ),
        status_in(version) is None,
{
    let d = dec(status as nat);
    lemma_dec_reads_back(status as nat);
    assert(plain(d)) by {
        assert forall|i: int| 0 <= i < d.len() implies '!' <= #[trigger] d[i] <= '~' by {
            assert('0' <= d[i] <= '9');
        }
    }
    law_word_is_one(version, seq![]);
    law_word_is_one(d, seq![]);
    let s = version + seq![' '] + d;
    law_words_follow(version, ' ', d);
    law_words_follow(s, ' ', reason);
}

/// A header line is a name and a value with a colon between them; blanks round
/// the value do not count.
pub proof fn law_header_line(name: Seq<char>, gap: Seq<char>, value: Seq<char>)
    requires
        plain(name),
        !name.contains(':'),
        blank(gap),
        value.len() > 0,
        '!' <= value[0] <= '~',
        '!' <= value.last() <= '~',
    ensures
        header_in(name + seq![':'] + (gap + value + gap)) == Some(HeaderView { name, value }),
        header_in(name) is None,
{
    law_split_once(name, ':', gap + value + gap);
    assert(name.last() == name[name.len() - 1]);
    law_trim(seq![], name, seq![]);
    assert(Seq::<char>::empty() + name + Seq::<char>::empty() =~= name);
    law_trim(gap, value, gap);
}

/// The first header with the name counts, in whatever case it is written.
pub proof fn law_header_value(headers: Seq<HeaderView>, name: Seq<char>, i: int)
    ensures
        0 <= i < headers.len() && lower(headers[i].name) == lower(name) && (forall|j: int|
            0 <= j < i ==> lower((#[trigger] headers[j]).name) != lower(name)) ==> header_value(
            headers,
            name,
        ) == Some(headers[i].value),
        (forall|j: int| 0 <= j < headers.len() ==> lower((#[trigger] headers[j]).name) != lower(name))
            ==> header_value(headers, name) is None,
{
    let p = header_named(name);
    lemma_position(headers, p);
    if 0 <= i < headers.len() && lower(headers[i].name) == lower(name) {
        assert(p(headers[i]));
    }
}

/// A body in chunks is told by its `Transfer-Encoding`, before any length;
/// else `Content-Length` says how long it is; a status that has no body is of
/// length 0, and everything else goes on to the end.
pub proof fn law_framing(headers: Seq<HeaderView>, status: u16, n: u64)
    ensures
        (header_value(headers, "transfer-encoding"@) matches Some(v) && lower(v) == seq![
            'c',
            'h',
            'u',
            'n',
            'k',
            'e',
            'd',
        ]) ==> framing(headers, status) == Framing::Chunked,
        header_value(headers, "transfer-encoding"@) is None && header_value(
            headers,
            "content-length"@,
        ) == Some(dec(n as nat)) ==> framing(headers, status) == Framing::Length(n),
        header_value(headers, "transfer-encoding"@) is None && header_value(
            headers,
            "content-length"@,
        ) is None ==> framing(headers, status) == (if status == 204 || status == 304 {
            Framing::Length(0)
        } else {
            Framing::ToEnd
        }),
{
    reveal_strlit("chunked");
    assert(lower("chunked"@) =~= seq!['c', 'h', 'u', 'n', 'k', 'e', 'd']);
    lemma_number(n);
}

proof fn lemma_number(n: u64)
    ensures
        trim(dec(n as nat)) == dec(n as nat),
        number_in(Some(dec(n as nat))) == Some(n as int),
{
    let d = dec(n as nat);
    lemma_dec_reads_back(n as nat);
    assert('0' <= d[0] <= '9');
    assert('0' <= d[d.len() - 1] <= '9');
    law_trim(seq![], d, seq![]);
    assert(Seq::<char>::empty() + d + Seq::<char>::empty() =~= d);
}

/// What follows the slash of a `Content-Range` is how long the whole is.
pub proof fn law_content_range(range: Seq<char>, n: u64)
    ensures
        range_total(range + seq!['/'] + dec(n as nat)) == Some(n as int),
        range_total(range + seq!['/', '*']) is None,
{
    let d = dec(n as nat);
    lemma_number(n);
    lemma_dec_reads_back(n as nat);
    if d.contains('/') {
        let i = choose|i: int| 0 <= i < d.len() && d[i] == '/';
        assert('0' <= d[i] <= '9');
    }
    law_rsplit_once(range, '/', d);
    let star = seq!['*'];
    law_rsplit_once(range, '/', star);
    assert(range + seq!['/', '*'] =~= range + seq!['/'] + star);
    law_trim(seq![], star, seq![]);
    assert(Seq::<char>::empty() + star + Seq::<char>::empty() =~= star);
}

/// A probe that is answered with a part tells the whole size and that ranges
/// work; one that is answered with everything tells the size and that they do
/// not; any other answer fails.
pub proof fn law_probe(headers: Seq<HeaderView>, start: UrlView, range: Seq<char>, n: u64, status: u16)
    ensures
        header_value(headers, "content-range"@) == Some(range + seq!['/'] + dec(n as nat)) ==> probed(
            206,
            headers,
            start,
        ) == Ok::<_, crate::error::ErrorView>(Probe { size: n, supports_range: true }),
        header_value(headers, "content-length"@) == Some(dec(n as nat)) ==> probed(200, headers, start)
            == Ok::<_, crate::error::ErrorView>(Probe { size: n, supports_range: false }),
        header_value(headers, "content-range"@) is None ==> probed(206, headers, start) is Err,
        header_value(headers, "content-length"@) is None ==> probed(200, headers, start) is Err,
        status != 200 && status != 206 ==> probed(status, headers, start) is Err,
{
    law_content_range(range, n);
    lemma_number(n);
}

/// These statuses send the client elsewhere, and no others.
pub proof fn law_redirect_statuses(status: u16)
    ensures
        is_redirect(status) <==> (status == 301 || status == 302 || status == 303 || status == 307
            || status == 308),
        crate::source::http::MAX_REDIRECTS == 5,
        crate::source::http::MAX_RETRIES == 3,
{
}

/// A line end, with or without a carriage return, is not part of the line.
pub proof fn law_line_end_is_dropped(line: Seq<u8>)
    requires
        line.len() > 0 ==> line.last() != 10 && line.last() != 13,
    ensures
        without_line_end(line) == line,
        without_line_end(line + seq![10u8]) == line,
        without_line_end(line + seq![13u8, 10u8]) == line,
{
    reveal_with_fuel(without_line_end, 3);
    let a = line + seq![10u8];
    let b = line + seq![13u8, 10u8];
    assert(a.drop_last() =~= line);
    assert(b.drop_last() =~= line + seq![13u8]);
    assert((line + seq![13u8]).drop_last() =~= line);
}

/// A body wants what is left of it, or of its chunk, as far as there is room;
/// between two chunks it wants a line, and when nothing is left it has ended.
pub proof fn law_body_wants_what_is_left(b: BodyView, room: usize)
    requires
        room > 0,
        !b.done,
    ensures
        b.framing is Length && b.left == 0 ==> b.want(room as nat) == Want::End,
        b.framing is Length && 0 < b.left <= room ==> b.want(room as nat) == Want::Bytes(
            b.left as usize,
        ),
        b.framing is Length && b.left > room ==> b.want(room as nat) == Want::Bytes(room),
        b.framing is Chunked && b.chunk_left == 0 ==> b.want(room as nat) == Want::Line,
        b.framing is Chunked && 0 < b.chunk_left <= room ==> b.want(room as nat) == Want::Bytes(
            b.chunk_left as usize,
        ),
        b.framing is Chunked && b.chunk_left > room ==> b.want(room as nat) == Want::Bytes(room),
        b.framing is ToEnd ==> b.want(room as nat) == Want::Bytes(room),
{
}

/// What follows a semicolon is not part of the size of a chunk.
pub proof fn law_chunk_size(size: Seq<char>, extension: Seq<char>)
    requires
        plain(size),
        !size.contains(';'),
    ensures
        chunk_size_text(size) == size,
        chunk_size_text(size + seq![';'] + extension) == size,
{
    law_split_once(size, ';', extension);
    assert(size.last() == size[size.len() - 1]);
    law_trim(seq![], size, seq![]);
    assert(Seq::<char>::empty() + size + Seq::<char>::empty() =~= size);
}

} // verus!
