//! Lazy reading of a remote image.

use lbx::blockdev::ReadAt;
use lbx::source::remote::{
    cache_key, check_len, progress_line, read_full, slots, ByteStream, Probe, RangeFetcher,
    RemoteReader, CHUNK,
};
use lbx::Result;
use std::collections::BTreeMap;
use std::sync::atomic::{AtomicUsize, Ordering};
use std::sync::{Arc, Mutex};

/// In-memory fetcher over a fixed blob, counting bytes fetched so tests
/// can assert laziness.
struct FakeFetcher {
    data: Vec<u8>,
    supports_range: bool,
    fetched: Arc<AtomicUsize>,
    cache: Option<Arc<Mutex<BTreeMap<usize, Vec<u8>>>>>,
    progress: Arc<Mutex<Vec<String>>>,
}

impl RangeFetcher for FakeFetcher {
    type Stream = CountingReader;

    fn probe(&mut self) -> Result<Probe> {
        Ok(Probe { size: self.data.len() as u64, supports_range: self.supports_range })
    }
    fn fetch_range(&mut self, start: u64, end: u64) -> Result<Vec<u8>> {
        assert!(self.supports_range);
        self.fetched.fetch_add((end - start) as usize, Ordering::SeqCst);
        Ok(self.data[start as usize..end as usize].to_vec())
    }
    fn fetch_all(&mut self) -> Result<CountingReader> {
        // Meter bytes as they're actually read, so the test can observe
        // that streaming stops at the target chunk.
        Ok(CountingReader { data: self.data.clone(), pos: 0, counter: self.fetched.clone() })
    }
    fn load(&mut self, idx: usize, _expected_len: usize) -> Option<Vec<u8>> {
        self.cache.as_ref()?.lock().unwrap().get(&idx).cloned()
    }
    fn downloaded(&mut self, idx: usize, data: &Vec<u8>, done: usize, total: usize) {
        if let Some(cache) = &self.cache {
            cache.lock().unwrap().insert(idx, data.clone());
        }
        self.progress.lock().unwrap().push(progress_line(done, total));
    }
}

struct CountingReader {
    data: Vec<u8>,
    pos: usize,
    counter: Arc<AtomicUsize>,
}

impl ByteStream for CountingReader {
    fn read(&mut self, max: usize) -> std::result::Result<Vec<u8>, String> {
        // In pieces, as a connection yields them.
        let n = max.min(1_000_000).min(self.data.len() - self.pos);
        let piece = self.data[self.pos..self.pos + n].to_vec();
        self.pos += n;
        self.counter.fetch_add(n, Ordering::SeqCst);
        Ok(piece)
    }
}

fn blob(n: usize) -> Vec<u8> {
    (0..n).map(|i| (i % 251) as u8).collect()
}

fn reader(data: Vec<u8>, supports_range: bool) -> (RemoteReader<FakeFetcher>, Arc<AtomicUsize>) {
    let fetched = Arc::new(AtomicUsize::new(0));
    let f = FakeFetcher {
        data,
        supports_range,
        fetched: fetched.clone(),
        cache: None,
        progress: Arc::new(Mutex::new(Vec::new())),
    };
    (RemoteReader::open(f).unwrap(), fetched)
}

#[test]
fn range_fetches_only_touched_chunks() {
    let data = blob((CHUNK * 3 + 1000) as usize);
    let (r, fetched) = reader(data.clone(), true);
    // Read 10 bytes inside chunk 2 only.
    let mut buf = [0u8; 10];
    let off = CHUNK * 2 + 5;
    r.read_at(off, &mut buf).unwrap();
    assert_eq!(buf, data[off as usize..off as usize + 10]);
    // Only chunk 2 (a full CHUNK) was downloaded, not chunks 0/1/3.
    assert_eq!(fetched.load(Ordering::SeqCst), CHUNK as usize);
}

#[test]
fn range_spanning_two_chunks() {
    let data = blob((CHUNK * 2 + 50) as usize);
    let (r, fetched) = reader(data.clone(), true);
    let off = CHUNK - 5;
    let mut buf = [0u8; 10]; // straddles chunk 0/1 boundary
    r.read_at(off, &mut buf).unwrap();
    assert_eq!(buf, data[off as usize..off as usize + 10]);
    assert_eq!(fetched.load(Ordering::SeqCst), (CHUNK * 2) as usize);
}

#[test]
fn no_range_streams_up_to_target() {
    let data = blob((CHUNK * 3 + 7) as usize);
    let (r, fetched) = reader(data.clone(), false);
    let off = CHUNK * 2 + 1;
    let mut buf = [0u8; 4];
    r.read_at(off, &mut buf).unwrap();
    assert_eq!(buf, data[off as usize..off as usize + 4]);
    // Streamed chunks 0,1,2 (everything up to the target); not chunk 3.
    assert_eq!(fetched.load(Ordering::SeqCst), (CHUNK * 3) as usize);
    // A second read of an already-streamed chunk fetches nothing more.
    r.read_at(0, &mut buf).unwrap();
    assert_eq!(buf, data[0..4]);
    assert_eq!(fetched.load(Ordering::SeqCst), (CHUNK * 3) as usize);
}

#[test]
fn kept_chunks_are_reused() {
    let data = blob((CHUNK * 2 + 3) as usize);
    let off = CHUNK + 10;
    let mut buf = [0u8; 8];
    let cache = Arc::new(Mutex::new(BTreeMap::new()));
    let fetched = Arc::new(AtomicUsize::new(0));
    let progress = Arc::new(Mutex::new(Vec::new()));
    let make = || FakeFetcher {
        data: data.clone(),
        supports_range: true,
        fetched: fetched.clone(),
        cache: Some(cache.clone()),
        progress: progress.clone(),
    };
    // First reader downloads chunk 1 and keeps it.
    let r = RemoteReader::open(make()).unwrap();
    r.read_at(off, &mut buf).unwrap();
    assert_eq!(fetched.load(Ordering::SeqCst), CHUNK as usize);
    assert!(cache.lock().unwrap().contains_key(&1));
    assert_eq!(*progress.lock().unwrap(), vec!["progress: 1/3".to_string()]);
    // A fresh reader serves the same chunk from there, fetching nothing.
    let r = RemoteReader::open(make()).unwrap();
    let mut buf2 = [0u8; 8];
    r.read_at(off, &mut buf2).unwrap();
    assert_eq!(buf2, data[off as usize..off as usize + 8]);
    assert_eq!(fetched.load(Ordering::SeqCst), CHUNK as usize);
    // One of the wrong length is not served.
    cache.lock().unwrap().insert(1, vec![1, 2, 3]);
    let r = RemoteReader::open(make()).unwrap();
    r.read_at(off, &mut buf2).unwrap();
    assert_eq!(buf2, data[off as usize..off as usize + 8]);
    assert_eq!(fetched.load(Ordering::SeqCst), (CHUNK * 2) as usize);
}

#[test]
fn reads_stay_on_the_image() {
    let data = blob(100);
    let (r, fetched) = reader(data.clone(), true);
    assert_eq!(r.size(), 100);
    let mut buf = [0u8; 10];
    let e = r.read_at(95, &mut buf).unwrap_err();
    assert_eq!(e.message(), "read out of bounds: offset 95 + len 10 > size 100");
    assert!(r.read_at(u64::MAX, &mut buf).is_err());
    assert!(r.read_at(100, &mut []).is_ok());
    assert!(r.read_at(101, &mut []).is_err());
    assert_eq!(fetched.load(Ordering::SeqCst), 0);
    r.read_at(90, &mut buf).unwrap();
    assert_eq!(buf, data[90..]);
}

#[test]
fn an_empty_image_is_refused() {
    let e = slots(&Probe { size: 0, supports_range: true }).unwrap_err();
    assert_eq!(e.message(), "http: server reported a zero-length image");
    assert_eq!(slots(&Probe { size: 1, supports_range: true }).unwrap(), 1);
    assert_eq!(slots(&Probe { size: CHUNK, supports_range: true }).unwrap(), 1);
    assert_eq!(slots(&Probe { size: CHUNK + 1, supports_range: true }).unwrap(), 2);
}

#[test]
fn short_ranges_are_refused() {
    assert!(check_len(4, 4).is_ok());
    assert_eq!(
        check_len(4, 3).unwrap_err().message(),
        "http: short range read: wanted 4 got 3"
    );
}

struct Failing(Vec<std::result::Result<Vec<u8>, String>>);

impl ByteStream for Failing {
    fn read(&mut self, _max: usize) -> std::result::Result<Vec<u8>, String> {
        self.0.remove(0)
    }
}

#[test]
fn streams_are_read_in_full_or_not_at_all() {
    let mut s = Failing(vec![Ok(vec![1, 2]), Ok(vec![3])]);
    assert_eq!(read_full(&mut s, 3, "ended", "failed: ").unwrap(), vec![1, 2, 3]);
    let mut s = Failing(vec![Ok(vec![1, 2]), Ok(vec![])]);
    assert_eq!(read_full(&mut s, 3, "ended", "failed: ").unwrap_err().message(), "http: ended");
    let mut s = Failing(vec![Ok(vec![1, 2]), Err("reset".into())]);
    assert_eq!(
        read_full(&mut s, 3, "ended", "failed: ").unwrap_err().message(),
        "http: failed: reset"
    );
}

#[test]
fn chunks_are_kept_by_digest_of_the_url() {
    assert_eq!(cache_key(""), "d41d8cd98f00b204e9800998ecf8427e");
    assert_eq!(cache_key("abc"), "900150983cd24fb0d6963f7d28e17f72");
}

/// A fetcher that writes down what it is asked for.
struct Recorder {
    data: Vec<u8>,
    ranged: bool,
    calls: Arc<Mutex<Vec<String>>>,
}

impl RangeFetcher for Recorder {
    type Stream = CountingReader;

    fn probe(&mut self) -> Result<Probe> {
        Ok(Probe { size: self.data.len() as u64, supports_range: self.ranged })
    }
    fn fetch_range(&mut self, start: u64, end: u64) -> Result<Vec<u8>> {
        self.calls.lock().unwrap().push(format!("range {start}..{end}"));
        Ok(self.data[start as usize..end as usize].to_vec())
    }
    fn fetch_all(&mut self) -> Result<CountingReader> {
        self.calls.lock().unwrap().push("all".into());
        let counter = Arc::new(AtomicUsize::new(0));
        Ok(CountingReader { data: self.data.clone(), pos: 0, counter })
    }
    fn load(&mut self, idx: usize, _expected_len: usize) -> Option<Vec<u8>> {
        self.calls.lock().unwrap().push(format!("load {idx}"));
        None
    }
    fn downloaded(&mut self, idx: usize, data: &Vec<u8>, done: usize, total: usize) {
        let at = idx * CHUNK as usize;
        assert_eq!(*data, self.data[at..at + data.len()]);
        self.calls.lock().unwrap().push(format!("downloaded {idx} {done}/{total}"));
    }
}

#[test]
fn touched_chunks_are_fetched_once() {
    let data = blob((CHUNK * 3 + 9) as usize);
    let calls = Arc::new(Mutex::new(Vec::new()));
    let r = RemoteReader::open(Recorder { data: data.clone(), ranged: true, calls: calls.clone() })
        .unwrap();
    let mut buf = [0u8; 8];
    // The last chunk, which is short, then two chunks at a border, then again.
    for off in [CHUNK * 3, CHUNK - 4, CHUNK * 3 + 1, 0, CHUNK * 2 - 8] {
        r.read_at(off, &mut buf).unwrap();
        assert_eq!(buf, data[off as usize..off as usize + 8]);
    }
    let c = CHUNK;
    assert_eq!(
        *calls.lock().unwrap(),
        vec![
            "load 3".to_string(),
            format!("range {}..{}", 3 * c, 3 * c + 9),
            "downloaded 3 1/4".into(),
            "load 0".into(),
            format!("range 0..{c}"),
            "downloaded 0 2/4".into(),
            "load 1".into(),
            format!("range {c}..{}", 2 * c),
            "downloaded 1 3/4".into(),
        ]
    );
}

#[test]
fn a_stream_is_opened_once() {
    let data = blob((CHUNK * 2 + 9) as usize);
    let calls = Arc::new(Mutex::new(Vec::new()));
    let r = RemoteReader::open(Recorder { data: data.clone(), ranged: false, calls: calls.clone() })
        .unwrap();
    let mut buf = [0u8; 4];
    for off in [CHUNK, 5, CHUNK * 2] {
        r.read_at(off, &mut buf).unwrap();
        assert_eq!(buf, data[off as usize..off as usize + 4]);
    }
    let calls = calls.lock().unwrap();
    assert_eq!(calls.iter().filter(|c| *c == "all").count(), 1);
    assert!(!calls.iter().any(|c| c.starts_with("range")));
    let fetched: Vec<&String> = calls.iter().filter(|c| c.starts_with("downloaded")).collect();
    assert_eq!(fetched, ["downloaded 0 1/3", "downloaded 1 2/3", "downloaded 2 3/3"]);
}
