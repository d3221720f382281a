//! Locate kernel / initramfs / boot configuration inside a filesystem.
//!
//! Strategy, in order of fidelity:
//! 1. GRUB (`grub.cfg` + `grubenv` for the saved default entry); a
//!    `blscfg` shim redirects to BLS.
//! 2. BLS `/loader/entries/*.conf` (Fedora/RHEL, systemd-boot), default
//!    from grubenv `saved_entry` or loader.conf, else newest by version.
//! 3. extlinux/syslinux configs (Alpine, cloud images).
//! 4. Fallback: pair vmlinuz-*/initramfs-* by version string - no cmdline.
//!
//! Note on paths: a /boot that is its own partition has kernels at
//! /vmlinuz-*, a combined root partition at /boot/vmlinuz-*. Configs and
//! the files they reference live on the same filesystem either way, so
//! all paths stay filesystem-absolute.

pub mod bls;
pub mod bls_laws;
pub mod expand;
pub mod expand_laws;
pub mod extlinux;
pub mod extlinux_laws;
pub mod fallback;
pub mod fallback_laws;
pub mod grub;
pub mod grub_laws;
pub mod grubenv;
pub mod newest;
pub mod scan_laws;
pub mod stale;
pub mod vercmp;

use crate::boot::bls::{bls_scan, conf_paths, BlsScan, BlsView};
use crate::boot::extlinux::{dir_of, extlinux_scan, ExtlinuxScan, ExtlinuxView};
use crate::boot::fallback::{fallback_default, fallback_entries, fallback_scan};
use crate::boot::grub::{grub_scan, GrubScan, GrubView};
use crate::boot::grubenv::{env_of, Env};
use crate::boot::stale::{drop_stale_entries, fresh};
use crate::error::Result;
use crate::fsys::FileSystem;
use crate::seqs::{index, views};
use crate::text::split::{
    after_prefix, lines, strip_prefix, text_lines, trim, trim_end_str, trimmed, trimmed_end_str,
};
use crate::text::{chars, lossy, opt, string, texts, utf8_lossy};
use vstd::prelude::*;
use vstd::string::*;

pub use crate::boot::expand::expand;
pub use crate::boot::stale::retain;

verus! {

broadcast use vstd::seq_lib::group_seq_properties;

/// Where a boot entry was found.
#[derive(Debug, Clone, Copy, PartialEq, Eq, Structural)]
pub enum Source {
    Grub,
    Bls,
    Extlinux,
    Windows,
    Fallback,
}

impl Source {
    /// How the source is called in output.
    pub open spec fn name(self) -> Seq<char> {
        match self {
            Source::Grub => "grub"@,
            Source::Bls => "bls"@,
            Source::Extlinux => "extlinux"@,
            Source::Windows => "windows"@,
            Source::Fallback => "fallback"@,
        }
    }

    /// How the source is called in output.
    pub fn label(&self) -> (r: &'static str)
        ensures
            r@ == self.name(),
    {
        match self {
            Source::Grub => "grub",
            Source::Bls => "bls",
            Source::Extlinux => "extlinux",
            Source::Windows => "windows",
            Source::Fallback => "fallback",
        }
    }
}

/// The firmware that starts a Windows install.
#[derive(Debug, Clone, Copy, PartialEq, Eq, Structural)]
pub enum Firmware {
    Uefi,
    Bios,
    Both,
}

impl Firmware {
    /// How the firmware is called in output.
    pub open spec fn name(self) -> Seq<char> {
        match self {
            Firmware::Uefi => "uefi"@,
            Firmware::Bios => "bios"@,
            Firmware::Both => "both"@,
        }
    }

    /// How the firmware is called in output.
    pub fn label(&self) -> (r: &'static str)
        ensures
            r@ == self.name(),
    {
        match self {
            Firmware::Uefi => "uefi",
            Firmware::Bios => "bios",
            Firmware::Both => "both",
        }
    }
}

/// What starting a Windows entry takes, in place of a kernel.
#[derive(Debug, Clone)]
pub struct WindowsBoot {
    pub firmware: Firmware,
    /// Architecture of the boot manager, where there is one to read.
    pub arch: Option<&'static str>,
    /// URI of the UEFI boot manager.
    pub loader: Option<String>,
}

/// What a [`WindowsBoot`] says.
pub struct WindowsBootView {
    pub firmware: Firmware,
    pub arch: Option<Seq<char>>,
    pub loader: Option<Seq<char>>,
}

/// What an optional string slice holds.
pub open spec fn opt_str(s: Option<&str>) -> Option<Seq<char>> {
    match s {
        Some(t) => Some(t@),
        None => None,
    }
}

impl View for WindowsBoot {
    type V = WindowsBootView;

    open spec fn view(&self) -> WindowsBootView {
        WindowsBootView { firmware: self.firmware, arch: opt_str(self.arch), loader: opt(self.loader) }
    }
}

/// One bootable configuration, resolved as far as we can.
/// Paths are filesystem-absolute (see module note about /boot prefixes).
#[derive(Debug, Clone)]
pub struct BootEntry {
    pub title: Option<String>,
    /// Stable identifier: GRUB --id, BLS filename stem, extlinux label.
    pub id: Option<String>,
    pub kernel: Option<String>,
    /// Multiple initrds are real (microcode early-cpio + initramfs);
    /// concatenate in order for direct boot.
    pub initrd: Vec<String>,
    pub cmdline: Option<String>,
    pub version: Option<String>,
    pub source: Source,
    /// What a GRUB `chainloader` item hands over to.
    pub chainloader: Option<String>,
    /// How to start it, for a Windows entry.
    pub windows: Option<WindowsBoot>,
}

/// What a [`BootEntry`] says.
pub struct EntryView {
    pub title: Option<Seq<char>>,
    pub id: Option<Seq<char>>,
    pub kernel: Option<Seq<char>>,
    pub initrd: Seq<Seq<char>>,
    pub cmdline: Option<Seq<char>>,
    pub version: Option<Seq<char>>,
    pub source: Source,
    pub chainloader: Option<Seq<char>>,
    pub windows: Option<WindowsBootView>,
}

impl View for BootEntry {
    type V = EntryView;

    open spec fn view(&self) -> EntryView {
        EntryView {
            title: opt(self.title),
            id: opt(self.id),
            kernel: opt(self.kernel),
            initrd: views(self.initrd@),
            cmdline: opt(self.cmdline),
            version: opt(self.version),
            source: self.source,
            chainloader: opt(self.chainloader),
            windows: match self.windows {
                Some(w) => Some(w@),
                None => None,
            },
        }
    }
}

/// An entry about which only its source is known.
pub open spec fn blank_entry(source: Source) -> EntryView {
    EntryView {
        title: None,
        id: None,
        kernel: None,
        initrd: seq![],
        cmdline: None,
        version: None,
        source,
        chainloader: None,
        windows: None,
    }
}

impl BootEntry {
    /// An entry about which only its source is known.
    pub fn blank(source: Source) -> (r: BootEntry)
        ensures
            r@ == blank_entry(source),
    {
        let r = BootEntry {
            title: None,
            id: None,
            kernel: None,
            initrd: Vec::new(),
            cmdline: None,
            version: None,
            source,
            chainloader: None,
            windows: None,
        };
        assert(r@.initrd =~= Seq::<Seq<char>>::empty());
        r
    }
}

impl Default for BootEntry {
    fn default() -> (r: BootEntry)
        ensures
            r@ == blank_entry(Source::Fallback),
    {
        BootEntry::blank(Source::Fallback)
    }
}

/// Everything we found on one filesystem.
#[derive(Debug)]
pub struct BootScan {
    pub entries: Vec<BootEntry>,
    /// Index into `entries` of what the bootloader would boot.
    pub default: Option<usize>,
    /// Config files found (paths on this filesystem), for `extract`.
    pub configs: Vec<String>,
}

/// What a [`BootScan`] says.
#[verifier::ext_equal]
pub struct ScanView {
    pub entries: Seq<EntryView>,
    pub default: Option<int>,
    pub configs: Seq<Seq<char>>,
}

impl View for BootScan {
    type V = ScanView;

    open spec fn view(&self) -> ScanView {
        ScanView {
            entries: views(self.entries@),
            default: index(self.default),
            configs: views(self.configs@),
        }
    }
}

/// All entries were found in the same kind of place.
pub open spec fn all_from(s: Seq<EntryView>, source: Source) -> bool {
    forall|i: int| 0 <= i < s.len() ==> (#[trigger] s[i]).source == source
}

/// No two entries were found in different kinds of places.
pub open spec fn one_source(s: Seq<EntryView>) -> bool {
    forall|i: int, j: int|
        0 <= i < s.len() && 0 <= j < s.len() ==> (#[trigger] s[i]).source == (#[trigger] s[j]).source
}

/// Nothing found.
pub open spec fn empty_scan() -> ScanView {
    ScanView { entries: seq![], default: None, configs: seq![] }
}

impl Default for BootScan {
    fn default() -> (r: BootScan)
        ensures
            r@ == empty_scan(),
            r.entries@.len() == 0,
            r.default is None,
    {
        let r = BootScan { entries: Vec::new(), default: None, configs: Vec::new() };
        assert(r@ =~= empty_scan());
        r
    }
}

impl ScanView {
    /// What the bootloader would boot: the default, else the first entry.
    pub open spec fn default_entry(self) -> Option<EntryView> {
        let i = match self.default {
            Some(i) => i,
            None => 0,
        };
        if 0 <= i < self.entries.len() {
            Some(self.entries[i])
        } else {
            None
        }
    }
}

impl BootScan {
    /// The entry that the bootloader would boot.
    pub fn default_entry(&self) -> (r: Option<&BootEntry>)
        ensures
            match r {
                Some(e) => self@.default_entry() == Some(e@),
                None => self@.default_entry() is None,
            },
    {
        let i: usize = match self.default {
            Some(i) => i,
            None => 0,
        };
        if i < self.entries.len() {
            Some(&self.entries[i])
        } else {
            None
        }
    }
}

// ---------------------------------------------------------------------
// What the configs declare
// ---------------------------------------------------------------------

/// What was found of each kind of config.
struct Found {
    configs: Vec<String>,
    uses_bls: bool,
    grub: Option<GrubScan>,
    bls: Option<BlsScan>,
    ext: Option<ExtlinuxScan>,
}

/// What a survey of the configs found.
#[verifier::ext_equal]
pub struct FoundView {
    pub configs: Seq<Seq<char>>,
    /// Some grub.cfg says that the entries are in BLS files.
    pub uses_bls: bool,
    /// The first grub.cfg with entries.
    pub grub: Option<GrubView>,
    /// The first entries directory with entries.
    pub bls: Option<BlsView>,
    /// The first extlinux config with entries.
    pub ext: Option<ExtlinuxView>,
}

impl View for Found {
    type V = FoundView;

    closed spec fn view(&self) -> FoundView {
        FoundView {
            configs: views(self.configs@),
            uses_bls: self.uses_bls,
            grub: match self.grub {
                Some(g) => Some(g@),
                None => None,
            },
            bls: match self.bls {
                Some(b) => Some(b@),
                None => None,
            },
            ext: match self.ext {
                Some(e) => Some(e@),
                None => None,
            },
        }
    }
}

impl Found {
    /// Each scan's default is one of its entries, and it has entries, all of its
    /// own kind.
    closed spec fn wf(&self) -> bool {
        &&& self.grub matches Some(g) ==> (g.default matches Some(d) && d < g.entries@.len())
            && all_from(g@.entries, Source::Grub)
        &&& self.bls matches Some(b) ==> (b.default matches Some(d) && d < b.entries@.len())
            && all_from(b@.entries, Source::Bls)
        &&& self.ext matches Some(e) ==> (e.default matches Some(d) && d < e.entries@.len())
            && all_from(e@.entries, Source::Extlinux)
    }
}

/// Reading the grub.cfg at `path`.
pub open spec fn with_grub<F: FileSystem + ?Sized>(
    fs: &F,
    env: Map<Seq<char>, Seq<char>>,
    st: FoundView,
    path: Seq<char>,
) -> FoundView {
    if !fs.present(path) {
        st
    } else {
        let configs = st.configs.push(path);
        match fs.file(path) {
            None => FoundView { configs, ..st },
            Some(data) => {
                let g = grub_scan(utf8_lossy(data), env);
                FoundView {
                    configs,
                    uses_bls: st.uses_bls || g.uses_bls,
                    grub: if g.entries.len() > 0 && st.grub is None {
                        Some(g)
                    } else {
                        st.grub
                    },
                    ..st
                }
            },
        }
    }
}

/// The `default` of a loader.conf with the lines `l`.
pub open spec fn conf_default(l: Seq<Seq<char>>) -> Option<Seq<char>>
    decreases l.len(),
{
    if l.len() == 0 {
        None
    } else {
        match strip_prefix(trim(l[0]), "default"@) {
            Some(rest) if trim(rest).len() > 0 => Some(trim_end_str(trim(rest), ".conf"@)),
            _ => conf_default(l.drop_first()),
        }
    }
}

/// Reading the loader.conf at `path`, unless a default was found.
pub open spec fn with_loader_conf<F: FileSystem + ?Sized>(
    fs: &F,
    st: (FoundView, Option<Seq<char>>),
    path: Seq<char>,
) -> (FoundView, Option<Seq<char>>) {
    if st.1 is Some {
        st
    } else {
        match fs.file(path) {
            None => st,
            Some(data) => (
                FoundView { configs: st.0.configs.push(path), ..st.0 },
                conf_default(lines(utf8_lossy(data))),
            ),
        }
    }
}

/// Reading the entries directory `dir`, unless entries were found.
pub open spec fn with_bls<F: FileSystem + ?Sized>(
    fs: &F,
    env: Map<Seq<char>, Seq<char>>,
    sd_default: Option<Seq<char>>,
    st: FoundView,
    dir: Seq<char>,
) -> FoundView {
    if st.bls is Some || !fs.present(dir) {
        st
    } else {
        match fs.listing(dir) {
            None => st,
            Some(l) => {
                let b = bls_scan(fs, dir, l, env, sd_default);
                FoundView {
                    configs: st.configs + conf_paths(fs, dir, l),
                    bls: if b.entries.len() > 0 {
                        Some(b)
                    } else {
                        None
                    },
                    ..st
                }
            },
        }
    }
}

/// Reading the extlinux config at `path`.
pub open spec fn with_extlinux<F: FileSystem + ?Sized>(
    fs: &F,
    st: FoundView,
    path: Seq<char>,
) -> FoundView {
    if !fs.present(path) {
        st
    } else {
        let configs = st.configs.push(path);
        match fs.file(path) {
            Some(data) if st.ext is None && extlinux_scan(
                utf8_lossy(data),
                dir_of(path),
            ).entries.len() > 0 => FoundView {
                configs,
                ext: Some(extlinux_scan(utf8_lossy(data), dir_of(path))),
                ..st
            },
            _ => FoundView { configs, ..st },
        }
    }
}

/// What the GRUB configs of the filesystem say.
pub open spec fn grub_found<F: FileSystem + ?Sized>(fs: &F) -> FoundView {
    let env = env_of(fs);
    let st = FoundView { configs: seq![], uses_bls: false, grub: None, bls: None, ext: None };
    let st = with_grub(fs, env, st, "/grub/grub.cfg"@);
    let st = with_grub(fs, env, st, "/grub2/grub.cfg"@);
    let st = with_grub(fs, env, st, "/boot/grub/grub.cfg"@);
    with_grub(fs, env, st, "/boot/grub2/grub.cfg"@)
}

/// What the BLS files say, on top of the GRUB configs.
pub open spec fn bls_found<F: FileSystem + ?Sized>(fs: &F) -> FoundView {
    let st = (grub_found(fs), None);
    let st = with_loader_conf(fs, st, "/loader/loader.conf"@);
    let (st, sd_default) = with_loader_conf(fs, st, "/boot/loader/loader.conf"@);
    let st = with_bls(fs, env_of(fs), sd_default, st, "/loader/entries"@);
    with_bls(fs, env_of(fs), sd_default, st, "/boot/loader/entries"@)
}

/// What all configs of the filesystem say.
pub open spec fn found<F: FileSystem + ?Sized>(fs: &F) -> FoundView {
    let st = bls_found(fs);
    let st = with_extlinux(fs, st, "/extlinux/extlinux.conf"@);
    let st = with_extlinux(fs, st, "/extlinux.conf"@);
    let st = with_extlinux(fs, st, "/syslinux/syslinux.cfg"@);
    let st = with_extlinux(fs, st, "/syslinux/extlinux.conf"@);
    let st = with_extlinux(fs, st, "/boot/extlinux/extlinux.conf"@);
    let st = with_extlinux(fs, st, "/boot/extlinux.conf"@);
    let st = with_extlinux(fs, st, "/boot/syslinux/syslinux.cfg"@);
    with_extlinux(fs, st, "/boot/syslinux/extlinux.conf"@)
}

/// The authoritative entries. `blscfg` in grub.cfg means the grub entries (if
/// any) are leftovers and BLS is the truth.
pub open spec fn authoritative<F: FileSystem + ?Sized>(fs: &F, st: FoundView) -> (
    Seq<EntryView>,
    Option<int>,
) {
    if st.uses_bls && st.bls is Some {
        (st.bls->0.entries, st.bls->0.default)
    } else if st.grub is Some {
        (st.grub->0.entries, st.grub->0.default)
    } else if st.bls is Some {
        (st.bls->0.entries, st.bls->0.default)
    } else if st.ext is Some {
        (st.ext->0.entries, st.ext->0.default)
    } else {
        (fallback_entries(fs), fallback_default(fs, fallback_entries(fs)))
    }
}

/// Everything that boots on the filesystem.
#[verifier::opaque]
pub open spec fn scan_of<F: FileSystem + ?Sized>(fs: &F) -> ScanView {
    let (entries, default) = authoritative(fs, found(fs));
    let (left, new_default) = fresh(fs, entries, default);
    ScanView { entries: left, default: new_default, configs: found(fs).configs }
}

/// Append a path to a list of paths.
fn note(configs: &mut Vec<String>, path: &str)
    ensures
        views(final(configs)@) == views(old(configs)@).push(path@),
{
    let ghost before = configs@;
    configs.push(path.to_owned());
    assert(views(configs@) =~= views(before).push(path@));
}

fn read_grub<F: FileSystem + ?Sized>(fs: &F, env: &Env, found: &mut Found, path: &str)
    requires
        old(found).wf(),
    ensures
        fs.stable() ==> final(found)@ == with_grub(fs, env@, old(found)@, path@),
        final(found).wf(),
{
    if !fs.has(path) {
        return ;
    }
    note(&mut found.configs, path);
    if let Ok(g) = grub::parse(fs, path, env) {
        if g.uses_bls {
            found.uses_bls = true;
        }
        if g.entries.len() > 0 && found.grub.is_none() {
            found.grub = Some(g);
        }
    }
}

/// The `default` of a loader.conf.
fn default_in(text: &str) -> (r: Option<String>)
    ensures
        opt(r) == conf_default(lines(text@)),
{
    let t = chars(text);
    let l = text_lines(t.as_slice());
    let ghost all = texts(l@);
    let mut i: usize = 0;
    assert(all.skip(0) =~= all);
    while i < l.len()
        invariant
            i <= l@.len(),
            all == texts(l@),
            all == lines(text@),
            conf_default(all) == conf_default(all.skip(i as int)),
        decreases l@.len() - i,
    {
        proof {
            assert(all.skip(i as int)[0] == l@[i as int]@);
            assert(all.skip(i as int).drop_first() =~= all.skip(i + 1));
        }
        if let Some(rest) = after_prefix(trimmed(l[i]), "default") {
            let v = trimmed(rest);
            if v.len() > 0 {
                return Some(string(trimmed_end_str(v, ".conf")));
            }
        }
        i = i + 1;
    }
    None
}

/// systemd-boot loader.conf `default` glob, if present.
fn loader_conf_default<F: FileSystem + ?Sized>(
    fs: &F,
    found: &mut Found,
    sd_default: Option<String>,
    path: &str,
) -> (r: Option<String>)
    requires
        old(found).wf(),
    ensures
        fs.stable() ==> (final(found)@, opt(r)) == with_loader_conf(
            fs,
            (old(found)@, opt(sd_default)),
            path@,
        ),
        final(found).wf(),
{
    if sd_default.is_some() {
        return sd_default;
    }
    match fs.read_file(path) {
        Ok(data) => {
            note(&mut found.configs, path);
            let text = lossy(data.as_slice());
            default_in(text.as_str())
        },
        Err(_) => None,
    }
}

fn read_bls<F: FileSystem + ?Sized>(
    fs: &F,
    env: &Env,
    sd_default: Option<&str>,
    found: &mut Found,
    dir: &str,
)
    requires
        old(found).wf(),
    ensures
        fs.stable() ==> final(found)@ == with_bls(
            fs,
            env@,
            opt_str(sd_default),
            old(found)@,
            dir@,
        ),
        final(found).wf(),
{
    if found.bls.is_some() || !fs.has(dir) {
        return ;
    }
    if let Ok(b) = bls::parse_dir(fs, dir, env, sd_default, &mut found.configs) {
        if b.entries.len() > 0 {
            found.bls = Some(b);
        }
    }
}

fn read_extlinux<F: FileSystem + ?Sized>(fs: &F, found: &mut Found, path: &str)
    requires
        old(found).wf(),
    ensures
        fs.stable() ==> final(found)@ == with_extlinux(fs, old(found)@, path@),
        final(found).wf(),
{
    if !fs.has(path) {
        return ;
    }
    note(&mut found.configs, path);
    if found.ext.is_none() {
        if let Ok(e) = extlinux::parse(fs, path) {
            if e.entries.len() > 0 {
                found.ext = Some(e);
            }
        }
    }
}

/// Read every config of the filesystem.
fn survey<F: FileSystem + ?Sized>(fs: &F) -> (r: Found)
    ensures
        fs.stable() ==> r@ == found(fs),
        r.wf(),
{
    let env = grubenv::load(fs);
    let mut st = Found { configs: Vec::new(), uses_bls: false, grub: None, bls: None, ext: None };
    assert(st@.configs =~= Seq::<Seq<char>>::empty());
    // GRUB
    read_grub(fs, &env, &mut st, "/grub/grub.cfg");
    read_grub(fs, &env, &mut st, "/grub2/grub.cfg");
    read_grub(fs, &env, &mut st, "/boot/grub/grub.cfg");
    read_grub(fs, &env, &mut st, "/boot/grub2/grub.cfg");
    // BLS
    let sd_default = loader_conf_default(fs, &mut st, None, "/loader/loader.conf");
    let sd_default = loader_conf_default(fs, &mut st, sd_default, "/boot/loader/loader.conf");
    let pattern = match &sd_default {
        Some(d) => Some(d.as_str()),
        None => None,
    };
    read_bls(fs, &env, pattern, &mut st, "/loader/entries");
    read_bls(fs, &env, pattern, &mut st, "/boot/loader/entries");
    // extlinux / syslinux
    read_extlinux(fs, &mut st, "/extlinux/extlinux.conf");
    read_extlinux(fs, &mut st, "/extlinux.conf");
    read_extlinux(fs, &mut st, "/syslinux/syslinux.cfg");
    read_extlinux(fs, &mut st, "/syslinux/extlinux.conf");
    read_extlinux(fs, &mut st, "/boot/extlinux/extlinux.conf");
    read_extlinux(fs, &mut st, "/boot/extlinux.conf");
    read_extlinux(fs, &mut st, "/boot/syslinux/syslinux.cfg");
    read_extlinux(fs, &mut st, "/boot/syslinux/extlinux.conf");
    st
}

/// Pick the authoritative source.
fn pick<F: FileSystem + ?Sized>(
    fs: &F,
    uses_bls: bool,
    grub: Option<GrubScan>,
    bls: Option<BlsScan>,
    ext: Option<ExtlinuxScan>,
    Ghost(st): Ghost<FoundView>,
) -> (r: (Vec<BootEntry>, Option<usize>))
    requires
        st.uses_bls == uses_bls,
        match grub {
            Some(g) => st.grub == Some(g@) && (g.default matches Some(d) && d < g.entries@.len())
                && all_from(g@.entries, Source::Grub),
            None => st.grub is None,
        },
        match bls {
            Some(b) => st.bls == Some(b@) && (b.default matches Some(d) && d < b.entries@.len())
                && all_from(b@.entries, Source::Bls),
            None => st.bls is None,
        },
        match ext {
            Some(e) => st.ext == Some(e@) && (e.default matches Some(d) && d < e.entries@.len())
                && all_from(e@.entries, Source::Extlinux),
            None => st.ext is None,
        },
    ensures
        fs.stable() ==> (views(r.0@), index(r.1)) == authoritative(fs, st),
        match r.1 {
            Some(d) => d < r.0@.len(),
            None => r.0@.len() == 0,
        },
        exists|source: Source| all_from(views(r.0@), source),
{
    if uses_bls {
        if let Some(b) = bls {
            return (b.entries, b.default);
        }
        return match grub {
            Some(g) => (g.entries, g.default),
            None => match ext {
                Some(e) => (e.entries, e.default),
                None => fallback_scan(fs),
            },
        };
    }
    match grub {
        Some(g) => (g.entries, g.default),
        None => match bls {
            Some(b) => (b.entries, b.default),
            None => match ext {
                Some(e) => (e.entries, e.default),
                None => fallback_scan(fs),
            },
        },
    }
}

/// Find everything that boots on a filesystem, and which entry the
/// bootloader would pick. All entries have the same source.
pub fn scan<F: FileSystem + ?Sized>(fs: &F) -> (r: Result<BootScan>)
    ensures
        r is Ok,
        fs.stable() ==> r->Ok_0@ == scan_of(fs),
        match r->Ok_0.default {
            Some(d) => d < r->Ok_0.entries@.len(),
            None => r->Ok_0.entries@.len() == 0,
        },
        one_source(r->Ok_0@.entries),
{
    reveal(scan_of);
    let st = survey(fs);
    let ghost sv = st@;
    let Found { configs, uses_bls, grub, bls, ext } = st;
    let (entries, default) = pick(fs, uses_bls, grub, bls, ext, Ghost(sv));
    let ghost source = choose|source: Source| all_from(views(entries@), source);
    let (entries, default) = drop_stale_entries(fs, entries, default);
    assert(all_from(views(entries@), source));
    Ok(BootScan { entries, default, configs })
}

/// Whatever the filesystem holds, the default is one of the entries, and
/// there is a default wherever there is an entry.
pub proof fn law_default_is_an_entry<F: FileSystem + ?Sized>(fs: &F)
    ensures
        match scan_of(fs).default {
            Some(d) => 0 <= d < scan_of(fs).entries.len(),
            None => scan_of(fs).entries.len() == 0,
        },
        scan_of(fs).default_entry() is Some <==> scan_of(fs).entries.len() > 0,
{
    reveal(scan_of);
    let st = found(fs);
    let (entries, default) = authoritative(fs, st);
    lemma_found_in_range(fs);
    fallback::lemma_default_in_range(fs, fallback_entries(fs));
    stale::lemma_fresh_in_range(fs, entries, default);
}

/// Whatever the filesystem holds, all entries come from one kind of place: the
/// one that is authoritative.
pub proof fn law_entries_have_one_source<F: FileSystem + ?Sized>(fs: &F)
    ensures
        one_source(scan_of(fs).entries),
{
    reveal(scan_of);
    let st = found(fs);
    let (entries, default) = authoritative(fs, st);
    lemma_found_in_range(fs);
    fallback::lemma_source(fs);
    let source = if st.uses_bls && st.bls is Some {
        Source::Bls
    } else if st.grub is Some {
        Source::Grub
    } else if st.bls is Some {
        Source::Bls
    } else if st.ext is Some {
        Source::Extlinux
    } else {
        Source::Fallback
    };
    assert(all_from(entries, source));
    stale::lemma_kept_source(entries, stale::starting(fs, entries), source);
    assert(all_from(scan_of(fs).entries, source));
}

spec fn in_range(entries: Seq<EntryView>, default: Option<int>) -> bool {
    match default {
        Some(d) => 0 <= d < entries.len(),
        None => entries.len() == 0,
    }
}

/// Each scan's default is one of its entries, all of which are of its own kind.
spec fn ranged(st: FoundView) -> bool {
    &&& st.grub matches Some(g) ==> in_range(g.entries, g.default) && all_from(
        g.entries,
        Source::Grub,
    )
    &&& st.bls matches Some(b) ==> in_range(b.entries, b.default) && all_from(
        b.entries,
        Source::Bls,
    )
    &&& st.ext matches Some(e) ==> in_range(e.entries, e.default) && all_from(
        e.entries,
        Source::Extlinux,
    )
}

proof fn lemma_grub_ranged<F: FileSystem + ?Sized>(fs: &F, st: FoundView, path: Seq<char>)
    requires
        ranged(st),
    ensures
        ranged(with_grub(fs, env_of(fs), st, path)),
{
    if fs.file(path) is Some {
        grub::lemma_scan_in_range(utf8_lossy(fs.file(path)->0), env_of(fs));
        grub::lemma_source(utf8_lossy(fs.file(path)->0), env_of(fs));
    }
}

proof fn lemma_bls_ranged<F: FileSystem + ?Sized>(
    fs: &F,
    sd_default: Option<Seq<char>>,
    st: FoundView,
    dir: Seq<char>,
)
    requires
        ranged(st),
    ensures
        ranged(with_bls(fs, env_of(fs), sd_default, st, dir)),
{
    if fs.listing(dir) is Some {
        let b = bls_scan(fs, dir, fs.listing(dir)->0, env_of(fs), sd_default);
        bls::lemma_default_in_range(b.entries, env_of(fs), sd_default);
        bls::lemma_source(fs, dir, fs.listing(dir)->0, env_of(fs), sd_default);
    }
}

proof fn lemma_extlinux_ranged<F: FileSystem + ?Sized>(fs: &F, st: FoundView, path: Seq<char>)
    requires
        ranged(st),
    ensures
        ranged(with_extlinux(fs, st, path)),
{
    if fs.file(path) is Some {
        let text = utf8_lossy(fs.file(path)->0);
        extlinux::lemma_default_in_range(
            extlinux_scan(text, dir_of(path)).entries,
            extlinux::conf_lines(lines(text), dir_of(path)).default_label,
        );
        extlinux::lemma_source(text, dir_of(path));
    }
}

proof fn lemma_grub_found_ranged<F: FileSystem + ?Sized>(fs: &F)
    ensures
        ranged(grub_found(fs)),
{
    let env = env_of(fs);
    let st = FoundView { configs: seq![], uses_bls: false, grub: None, bls: None, ext: None };
    lemma_grub_ranged(fs, st, "/grub/grub.cfg"@);
    let st = with_grub(fs, env, st, "/grub/grub.cfg"@);
    lemma_grub_ranged(fs, st, "/grub2/grub.cfg"@);
    let st = with_grub(fs, env, st, "/grub2/grub.cfg"@);
    lemma_grub_ranged(fs, st, "/boot/grub/grub.cfg"@);
    let st = with_grub(fs, env, st, "/boot/grub/grub.cfg"@);
    lemma_grub_ranged(fs, st, "/boot/grub2/grub.cfg"@);
}

proof fn lemma_bls_found_ranged<F: FileSystem + ?Sized>(fs: &F)
    ensures
        ranged(bls_found(fs)),
{
    lemma_grub_found_ranged(fs);
    let st = (grub_found(fs), None);
    let st = with_loader_conf(fs, st, "/loader/loader.conf"@);
    let (st, sd_default) = with_loader_conf(fs, st, "/boot/loader/loader.conf"@);
    lemma_bls_ranged(fs, sd_default, st, "/loader/entries"@);
    let st = with_bls(fs, env_of(fs), sd_default, st, "/loader/entries"@);
    lemma_bls_ranged(fs, sd_default, st, "/boot/loader/entries"@);
}

proof fn lemma_found_in_range<F: FileSystem + ?Sized>(fs: &F)
    ensures
        ranged(found(fs)),
{
    lemma_bls_found_ranged(fs);
    assert forall|st: FoundView, path: Seq<char>| ranged(st) implies ranged(
        #[trigger] with_extlinux(fs, st, path),
    ) by {
        lemma_extlinux_ranged(fs, st, path);
    }
}

} // verus!
