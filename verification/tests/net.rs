//! Locators, name queries, and HTTP heads and bodies.

use lbx::source::dns::{
    build_query, parse_answers, resolve_error, servers, Ip, Lookup, TYPE_A, TYPE_AAAA,
};
use lbx::source::http::{
    add_header, check_range_status, check_stream_status, connect_error, framing_of, head_line,
    header_of, line_text, next_hop, parse_content_range_total, parse_status, request_text,
    retry_delay, Body, Framing, Header, Hop, HttpFetcher, Url, Want,
};
use lbx::source::remote::Probe;
use lbx::source::{is_url, resolve_relative, Config};

// --- locators ---

#[test]
fn urls_are_told_from_paths() {
    assert!(is_url("http://x/y"));
    assert!(is_url("https://x/y"));
    assert!(!is_url("/images/http://x"));
    assert!(!is_url("ftp://x/y"));
}

#[test]
fn backing_references_resolve_against_their_image() {
    assert_eq!(resolve_relative("/images/top.qcow2", "base.img"), "/images/base.img");
    assert_eq!(resolve_relative("top.qcow2", "base.img"), "base.img");
    assert_eq!(resolve_relative("/images/top.qcow2", "/abs/base.img"), "/abs/base.img");
    assert_eq!(resolve_relative("http://h/a/top", "base"), "http://h/a/base");
    assert_eq!(resolve_relative("http://h/a/top", "/base"), "http://h/a//base");
    assert_eq!(resolve_relative("/images/top", "https://h/base"), "https://h/base");
}

#[test]
fn settings_are_set_once() {
    let mut c = Config::new();
    assert_eq!(c.cache_dir(), None);
    assert_eq!(c.http_timeout(), 60);
    c.set_http_timeout(None);
    c.set_http_timeout(Some(0));
    assert_eq!(c.http_timeout(), 60);
    c.set_http_timeout(Some(5));
    c.set_http_timeout(Some(7));
    assert_eq!(c.http_timeout(), 5);
    c.set_cache_dir(Some("/tmp/a".into()));
    c.set_cache_dir(Some("/tmp/b".into()));
    assert_eq!(c.cache_dir(), Some("/tmp/a"));
    let mut c = Config::new();
    c.set_cache_dir(None);
    c.set_cache_dir(Some("/tmp/b".into()));
    assert_eq!(c.cache_dir(), None);
}

// --- names ---

#[test]
fn parses_an_a_record_response() {
    // Response to a query for "a.b" with one A record 93.184.216.34.
    let mut r = Vec::new();
    r.extend_from_slice(&0x4242u16.to_be_bytes()); // id
    r.extend_from_slice(&0x8180u16.to_be_bytes()); // flags
    r.extend_from_slice(&1u16.to_be_bytes()); // QD
    r.extend_from_slice(&1u16.to_be_bytes()); // AN
    r.extend_from_slice(&[0, 0, 0, 0]); // NS, AR
    // question: 1 'a' 1 'b' 0, A, IN
    r.extend_from_slice(&[1, b'a', 1, b'b', 0]);
    r.extend_from_slice(&TYPE_A.to_be_bytes());
    r.extend_from_slice(&1u16.to_be_bytes());
    // answer: name pointer to 0x0c, A, IN, ttl, rdlen 4, ip
    r.extend_from_slice(&[0xc0, 0x0c]);
    r.extend_from_slice(&TYPE_A.to_be_bytes());
    r.extend_from_slice(&1u16.to_be_bytes());
    r.extend_from_slice(&60u32.to_be_bytes());
    r.extend_from_slice(&4u16.to_be_bytes());
    r.extend_from_slice(&[93, 184, 216, 34]);
    assert_eq!(parse_answers(&r), vec![Ip::V4([93, 184, 216, 34])]);
    // Cut short, there is no answer.
    assert!(parse_answers(&r[..r.len() - 1]).is_empty());
    assert!(parse_answers(&r[..11]).is_empty());
}

#[test]
fn parses_an_aaaa_record_behind_another() {
    let mut r = vec![0x42, 0x42, 0x81, 0x80, 0, 1, 0, 2, 0, 0, 0, 0];
    r.extend_from_slice(&[1, b'a', 0, 0, 28, 0, 1]);
    r.extend_from_slice(&[0xc0, 0x0c, 0, 5, 0, 1, 0, 0, 0, 60, 0, 2, 1, 2]); // a CNAME
    r.extend_from_slice(&[0xc0, 0x0c, 0, 28, 0, 1, 0, 0, 0, 60, 0, 16]);
    r.extend_from_slice(&[0x20, 1, 0xd, 0xb8, 0, 0, 0, 0, 0, 0, 0, 0, 0, 0, 0, 1]);
    assert_eq!(
        parse_answers(&r),
        vec![Ip::V6([0x20, 1, 0xd, 0xb8, 0, 0, 0, 0, 0, 0, 0, 0, 0, 0, 0, 1])]
    );
}

#[test]
fn queries_ask_for_one_name() {
    let mut q = vec![0x42, 0x42, 1, 0, 0, 1, 0, 0, 0, 0, 0, 0];
    q.extend_from_slice(b"\x03www\x07example\x00");
    q.extend_from_slice(&[0, 28, 0, 1]);
    assert_eq!(build_query("www.example", TYPE_AAAA), q);
    assert_eq!(build_query("www..example.", TYPE_AAAA), q);
}

#[test]
fn resolvers_come_from_the_environment_first() {
    assert_eq!(servers(None), vec!["8.8.8.8", "1.1.1.1", "9.9.9.9"]);
    let from_env = servers(Some("10.0.0.1, 10.0.0.2;10.0.0.3"));
    assert!(from_env.contains(&"10.0.0.2".to_string()));
    assert_eq!(from_env[from_env.len() - 3..], ["8.8.8.8", "1.1.1.1", "9.9.9.9"]);
}

#[test]
fn every_server_is_asked_twice_until_one_answers() {
    let mut l = Lookup::new(2);
    assert_eq!(l.question(), Some((0, TYPE_A)));
    assert_eq!(l.reply(Ok(vec![])), None);
    assert_eq!(l.question(), Some((0, TYPE_AAAA)));
    assert_eq!(l.reply(Err("timed out".into())), None);
    assert_eq!(l.question(), Some((1, TYPE_A)));
    let ip = Ip::V4([1, 2, 3, 4]);
    assert_eq!(l.reply(Ok(vec![ip])), Some(vec![ip]));
    // An empty answer does not take back what went wrong before.
    let mut l = Lookup::new(1);
    assert_eq!(l.reply(Err("refused".into())), None);
    assert_eq!(l.reply(Ok(vec![])), None);
    assert_eq!(l.question(), None);
    assert_eq!(l.give_up("a.example").message(), "http: could not resolve a.example (refused)");
    let l = Lookup::new(0);
    assert_eq!(l.question(), None);
    assert_eq!(l.give_up("a.example").message(), "http: could not resolve a.example");
}

#[test]
fn unresolved_names_say_why() {
    assert_eq!(resolve_error("h", None).message(), "http: could not resolve h");
    assert_eq!(
        resolve_error("h", Some("timed out")).message(),
        "http: could not resolve h (timed out)"
    );
}

// --- URLs ---

#[test]
fn urls_parse() {
    let u = Url::parse("http://example.org/a/b?q=1#frag").unwrap();
    assert!(!u.https);
    assert_eq!((u.host.as_str(), u.port, u.path.as_str()), ("example.org", 80, "/a/b?q=1"));
    let u = Url::parse("https://user:pw@example.org:8443").unwrap();
    assert!(u.https);
    assert_eq!((u.host.as_str(), u.port, u.path.as_str()), ("example.org", 8443, "/"));
    let u = Url::parse("https://h?x").unwrap();
    assert_eq!((u.host.as_str(), u.port, u.path.as_str()), ("h", 443, "/?x"));
    assert_eq!(u.display(), "https://h:443/?x");
    assert_eq!(
        Url::parse("file:///x").unwrap_err().message(),
        "http: not an http(s) URL: file:///x"
    );
    assert_eq!(
        Url::parse("http://h:99999/").unwrap_err().message(),
        "http: bad port in http://h:99999/"
    );
    assert_eq!(
        Url::parse("http:///x").unwrap_err().message(),
        "http: missing host in URL: http:///x"
    );
}

#[test]
fn redirects_resolve_against_the_url() {
    let u = Url::parse("http://h/a/b").unwrap();
    assert_eq!(u.join("c").unwrap().display(), "http://h:80/a/c");
    assert_eq!(u.join("/c").unwrap().display(), "http://h:80/c");
    assert_eq!(u.join("https://g/x").unwrap().display(), "https://g:443/x");
    assert!(u.join("http://").is_err());
}

#[test]
fn requests_are_one_shot() {
    let u = Url::parse("http://h/a").unwrap();
    assert_eq!(
        request_text(&u, None),
        "GET /a HTTP/1.1\r\nHost: h\r\nUser-Agent: lbx/0.1.0\r\nAccept: */*\r\nConnection: close\r\n\r\n"
    );
    assert!(request_text(&u, Some((0, Some(0)))).ends_with("Range: bytes=0-0\r\n\r\n"));
    assert!(request_text(&u, Some((5, None))).ends_with("Range: bytes=5-\r\n\r\n"));
}

// --- heads ---

fn headers(lines: &[&str]) -> Vec<Header> {
    let mut h = Vec::new();
    for l in lines {
        assert!(add_header(&mut h, l));
    }
    assert!(!add_header(&mut h, ""));
    h
}

#[test]
fn heads_are_read_line_by_line() {
    assert_eq!(head_line(b"HTTP/1.1 200 OK\r\n").unwrap(), "HTTP/1.1 200 OK");
    assert_eq!(head_line(b"\r\n").unwrap(), "");
    assert_eq!(head_line(b"").unwrap_err().message(), "http: connection closed mid-header");
    assert_eq!(line_text(b"a\xff\n"), "a\u{fffd}");
    assert_eq!(parse_status("HTTP/1.1 206 Partial Content").unwrap(), 206);
    assert_eq!(
        parse_status("HTTP/1.1 \"x\"").unwrap_err().message(),
        "http: bad status line: \"HTTP/1.1 \\\"x\\\"\""
    );
    let h = headers(&["Content-Length: 12 ", "no colon here", "X: a:b"]);
    assert_eq!(h.len(), 2);
    assert_eq!(header_of(&h, "content-length"), Some("12"));
    assert_eq!(header_of(&h, "x"), Some("a:b"));
    assert_eq!(header_of(&h, "y"), None);
    assert_eq!(parse_content_range_total("bytes 0-0/12345"), Some(12345));
    assert_eq!(parse_content_range_total("bytes 0-0/*"), None);
}

#[test]
fn framing_follows_the_headers() {
    assert_eq!(framing_of(&headers(&["transfer-encoding: Chunked"]), 200), Framing::Chunked);
    assert_eq!(framing_of(&headers(&["content-length: 5"]), 200), Framing::Length(5));
    assert_eq!(framing_of(&headers(&[]), 304), Framing::Length(0));
    assert_eq!(framing_of(&headers(&[]), 200), Framing::ToEnd);
}

#[test]
fn redirects_are_capped() {
    let start = Url::parse("http://h/a").unwrap();
    let h = headers(&["Location: /b"]);
    match next_hop(&start, &start, 0, 302, &h).unwrap() {
        Hop::Follow(u) => assert_eq!(u.display(), "http://h:80/b"),
        Hop::Body(_) => panic!("a redirect is followed"),
    }
    assert_eq!(
        next_hop(&start, &start, 5, 302, &h).err().unwrap().message(),
        "http: too many redirects from http://h:80/a"
    );
    // Without a location, and for other codes, the body is read.
    assert!(matches!(
        next_hop(&start, &start, 0, 302, &headers(&[])),
        Ok(Hop::Body(Framing::ToEnd))
    ));
    assert!(matches!(next_hop(&start, &start, 0, 200, &h), Ok(Hop::Body(Framing::ToEnd))));
}

#[test]
fn failed_requests_are_tried_again() {
    let delays: Vec<Option<u64>> = (0..4).map(retry_delay).collect();
    assert_eq!(delays, vec![Some(300), Some(600), Some(900), None]);
}

// --- bodies ---

#[test]
fn bodies_of_known_length_end_there() {
    let mut b = Body::new(Framing::Length(5));
    assert_eq!(b.want(3), Want::Bytes(3));
    b.on_bytes(3);
    assert_eq!(b.want(3), Want::Bytes(2));
    b.on_bytes(2);
    assert_eq!(b.want(3), Want::End);
    assert_eq!(b.want(3), Want::End);
    // One that is cut short ends too.
    let mut b = Body::new(Framing::Length(5));
    b.on_bytes(0);
    assert_eq!(b.want(3), Want::End);
}

#[test]
fn bodies_come_in_chunks() {
    let mut b = Body::new(Framing::Chunked);
    assert_eq!(b.want(10), Want::Line);
    b.on_line("a;ext=1").unwrap();
    assert_eq!(b.want(4), Want::Bytes(4));
    b.on_bytes(4);
    assert_eq!(b.want(40), Want::Bytes(6));
    b.on_bytes(6);
    assert_eq!(b.want(10), Want::Line);
    b.on_line("").unwrap(); // behind the chunk
    assert_eq!(b.want(10), Want::Line);
    assert_eq!(b.on_line("zz").unwrap_err(), "bad chunk size \"zz\"");
    b.on_line("0").unwrap();
    assert_eq!(b.want(10), Want::End);
}

#[test]
fn other_bodies_end_with_the_connection() {
    let mut b = Body::new(Framing::ToEnd);
    assert_eq!(b.want(10), Want::Bytes(10));
    b.on_bytes(7);
    assert_eq!(b.want(0), Want::End);
    assert_eq!(b.want(10), Want::Bytes(10));
    b.on_bytes(0);
    assert_eq!(b.want(10), Want::End);
}

// --- fetching ---

#[test]
fn probes_tell_size_and_range_support() {
    let mut f = HttpFetcher::new("http://h/a").unwrap();
    let there = Url::parse("http://g/b").unwrap();
    assert_eq!(
        f.on_probe(there.copy(), 206, &headers(&["Content-Range: bytes 0-0/99"])).unwrap(),
        Probe { size: 99, supports_range: true }
    );
    assert_eq!(f.start().display(), "http://h:80/a");
    assert_eq!(f.resolved().display(), "http://g:80/b");
    assert_eq!(
        f.on_probe(there.copy(), 200, &headers(&["Content-Length: 7"])).unwrap(),
        Probe { size: 7, supports_range: false }
    );
    assert_eq!(
        f.on_probe(there.copy(), 206, &headers(&[])).unwrap_err().message(),
        "http: 206 without a usable Content-Range"
    );
    assert_eq!(
        f.on_probe(there.copy(), 200, &headers(&[])).unwrap_err().message(),
        "http: 200 without a Content-Length"
    );
    assert_eq!(
        f.on_probe(there.copy(), 404, &headers(&[])).unwrap_err().message(),
        "http: unexpected status 404 probing http://h:80/a"
    );
    assert!(HttpFetcher::new("h").is_err());
}

#[test]
fn answers_are_checked_by_their_status() {
    assert!(check_range_status(206, 0, 10).is_ok());
    assert_eq!(
        check_range_status(200, 0, 10).unwrap_err().message(),
        "http: expected 206 for range 0-9, got 200"
    );
    assert!(check_stream_status(200).is_ok());
    assert_eq!(
        check_stream_status(500).unwrap_err().message(),
        "http: expected 200 streaming body, got 500"
    );
    let u = Url::parse("http://h/").unwrap();
    assert_eq!(connect_error(&u, None).message(), "http: connect h:80");
    assert_eq!(connect_error(&u, Some("refused")).message(), "http: connect h:80: refused");
}
