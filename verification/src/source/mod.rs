//! Where the bytes of a disk image come from. The whole tool reads through
//! the [`ReadAt`](crate::blockdev::ReadAt) seam; this module only decides
//! what backs it:
//!
//!   - a local path: random-access reads of a file; never written - the tool
//!     is strictly read-only;
//!   - an `http(s)` URL: a lazy 4 MiB-chunk reader that downloads only the
//!     ranges the upper layers actually touch ("cloud analysis").
//!
//! qcow2/raw sniffing and partition/fs parsing don't care which backs them,
//! so a 2 GB cloud image is analysed by pulling a few dozen MB of metadata
//! plus the kernel/initrd clusters - never the whole file.

pub mod dns;
pub mod dns_laws;
pub mod http;
pub mod http_laws;
pub mod remote;
pub mod remote_laws;

use crate::text::split::{begins, has_prefix, rcut, rsplit_once, starts_char, starts_with};
use crate::text::{chars, opt, push_chars};
use vstd::prelude::*;
use vstd::string::*;

verus! {

broadcast use vstd::seq_lib::group_seq_properties;

/// Seconds a connection may stall, unless set otherwise.
pub const DEFAULT_TIMEOUT: u64 = 60;

/// How images are fetched. Each setting is set once; a later one is ignored.
pub struct Config {
    cache_dir: Option<Option<String>>,
    timeout: Option<u64>,
}

/// What a [`Config`] says.
pub struct ConfigView {
    /// The directory, once it is set.
    pub cache_dir: Option<Option<Seq<char>>>,
    /// Seconds, once they are set.
    pub timeout: Option<u64>,
}

impl View for Config {
    type V = ConfigView;

    closed spec fn view(&self) -> ConfigView {
        ConfigView {
            cache_dir: match self.cache_dir {
                Some(d) => Some(opt(d)),
                None => None,
            },
            timeout: self.timeout,
        }
    }
}

impl Config {
    /// Nothing set.
    pub fn new() -> (r: Config)
        ensures
            r@ == (ConfigView { cache_dir: None, timeout: None }),
    {
        Config { cache_dir: None, timeout: None }
    }

    /// Set the chunk cache directory (no-op if already set).
    pub fn set_cache_dir(&mut self, dir: Option<String>)
        ensures
            final(self)@ == (ConfigView {
                cache_dir: match old(self)@.cache_dir {
                    Some(d) => Some(d),
                    None => Some(opt(dir)),
                },
                ..old(self)@
            }),
    {
        if self.cache_dir.is_none() {
            self.cache_dir = Some(dir);
        }
    }

    /// The chunk cache directory, if there is one.
    pub fn cache_dir(&self) -> (r: Option<&str>)
        ensures
            crate::boot::opt_str(r) == (match self@.cache_dir {
                Some(d) => d,
                None => None,
            }),
    {
        match &self.cache_dir {
            Some(Some(d)) => Some(d.as_str()),
            _ => None,
        }
    }

    /// Set the network timeout in seconds (no-op if already set, or if `secs`
    /// is `None`/0 - keeping the default). Each chunk uses a fresh connection,
    /// so this bounds every chunk independently: a connect or read that stalls
    /// this long fails.
    pub fn set_http_timeout(&mut self, secs: Option<u64>)
        ensures
            final(self)@ == (ConfigView {
                timeout: match (old(self)@.timeout, secs) {
                    (Some(t), _) => Some(t),
                    (None, Some(s)) if s > 0 => Some(s),
                    _ => None,
                },
                ..old(self)@
            }),
    {
        if self.timeout.is_none() {
            if let Some(s) = secs {
                if s > 0 {
                    self.timeout = Some(s);
                }
            }
        }
    }

    /// The network timeout in seconds.
    pub fn http_timeout(&self) -> (r: u64)
        ensures
            r == (match self@.timeout {
                Some(t) => t,
                None => DEFAULT_TIMEOUT,
            }),
    {
        match self.timeout {
            Some(t) => t,
            None => DEFAULT_TIMEOUT,
        }
    }
}

/// An http(s) URL rather than a filesystem path.
pub open spec fn is_url_spec(locator: Seq<char>) -> bool {
    starts_with(locator, "http://"@) || starts_with(locator, "https://"@)
}

/// Whether `locator` is an http(s) URL rather than a filesystem path.
pub fn is_url(locator: &str) -> (r: bool)
    ensures
        r == is_url_spec(locator@),
{
    let c = chars(locator);
    has_prefix(c.as_slice(), "http://") || has_prefix(c.as_slice(), "https://")
}

/// Where the backing file `name` of the image at `base` is.
pub open spec fn relative_to(base: Seq<char>, name: Seq<char>) -> Seq<char> {
    if is_url_spec(name) || (starts_char(name, '/') && !is_url_spec(base)) {
        name
    } else {
        match rsplit_once(base, '/') {
            Some((dir, _)) => dir + "/"@ + name,
            None => name,
        }
    }
}

/// Resolve a qcow2 backing-file reference `name` against the `base` locator
/// it was found in: a sibling under the same directory (local path or URL),
/// a full URL, or an absolute local path.
pub fn resolve_relative(base: &str, name: &str) -> (r: String)
    ensures
        r@ == relative_to(base@, name@),
{
    let b = chars(base);
    let n = chars(name);
    // A full URL, or an absolute path on a local base, stands on its own.
    if is_url(name) || (begins(n.as_slice(), '/') && !is_url(base)) {
        return name.to_owned();
    }
    match rcut(b.as_slice(), '/') {
        Some((dir, _)) => {
            let mut out: String = String::new();
            push_chars(&mut out, dir);
            out.append("/");
            out.append(name);
            assert(out@ =~= dir@ + "/"@ + name@);
            out
        },
        None => name.to_owned(),
    }
}

} // verus!
