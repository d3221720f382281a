//! Which of the configs of a filesystem counts.

use crate::boot::bls::bls_scan;
use crate::boot::extlinux::{dir_of, extlinux_scan};
use crate::boot::fallback::{fallback_default, fallback_entries};
use crate::boot::grub::grub_scan;
use crate::boot::grubenv::env_of;
use crate::boot::stale::fresh;
use crate::boot::{
    bls_found, conf_default, found, grub_found, scan_of, with_bls, with_extlinux, with_grub,
    with_loader_conf, FoundView,
};
use crate::fsys::FileSystem;
use crate::text::laws::{law_strip_prefix, law_trim, plain};
use crate::text::split::{lines, starts_with, trim_end_str};
use crate::text::utf8_lossy;
use vstd::prelude::*;
use vstd::string::*;

verus! {

/// The entries are those of BLS files where a grub.cfg says so and there are
/// any, else those of grub.cfg, of BLS files, of extlinux, and at last the
/// kernels themselves; entries whose kernel is gone are dropped.
pub proof fn law_which_entries_count<F: FileSystem + ?Sized>(fs: &F)
    ensures
        ({
            let st = found(fs);
            let (entries, default) = if st.bls is Some && (st.uses_bls || st.grub is None) {
                (st.bls->0.entries, st.bls->0.default)
            } else if st.grub is Some {
                (st.grub->0.entries, st.grub->0.default)
            } else if st.ext is Some {
                (st.ext->0.entries, st.ext->0.default)
            } else {
                (fallback_entries(fs), fallback_default(fs, fallback_entries(fs)))
            };
            &&& scan_of(fs).entries == fresh(fs, entries, default).0
            &&& scan_of(fs).default == fresh(fs, entries, default).1
            &&& scan_of(fs).configs == st.configs
        }),
{
    reveal(scan_of);
}

/// A grub.cfg that is there is noted. Its entries count unless one before it
/// had some, and what it says of `blscfg` counts in any case.
pub proof fn law_first_grub_with_entries_counts<F: FileSystem + ?Sized>(
    fs: &F,
    env: Map<Seq<char>, Seq<char>>,
    st: FoundView,
    path: Seq<char>,
)
    ensures
        ({
            let after = with_grub(fs, env, st, path);
            &&& !fs.present(path) ==> after == st
            &&& fs.present(path) ==> after.configs == st.configs.push(path)
            &&& after.bls == st.bls && after.ext == st.ext
            &&& st.grub is Some ==> after.grub == st.grub
            &&& st.uses_bls ==> after.uses_bls
            &&& fs.present(path) ==> (fs.file(path) matches Some(data) ==> ({
                let g = grub_scan(utf8_lossy(data), env);
                &&& g.uses_bls ==> after.uses_bls
                &&& !g.uses_bls && !st.uses_bls ==> !after.uses_bls
                &&& st.grub is None && g.entries.len() > 0 ==> after.grub == Some(g)
                &&& st.grub is None && g.entries.len() == 0 ==> after.grub is None
            }))
            &&& fs.present(path) && fs.file(path) is None ==> after.grub == st.grub && after.uses_bls
                == st.uses_bls
        }),
{
}

/// The places where a grub.cfg is looked for, in order.
pub proof fn law_places_of_grub<F: FileSystem + ?Sized>(fs: &F)
    ensures
        ({
            let nothing = FoundView {
                configs: seq![],
                uses_bls: false,
                grub: None,
                bls: None,
                ext: None,
            };
            let a = with_grub(fs, env_of(fs), nothing, "/grub/grub.cfg"@);
            let b = with_grub(fs, env_of(fs), a, "/grub2/grub.cfg"@);
            let c = with_grub(fs, env_of(fs), b, "/boot/grub/grub.cfg"@);
            grub_found(fs) == with_grub(fs, env_of(fs), c, "/boot/grub2/grub.cfg"@)
        }),
{
}

/// An entries directory that is there and can be listed gives the BLS entries,
/// unless one before it had some.
pub proof fn law_first_directory_with_entries_counts<F: FileSystem + ?Sized>(
    fs: &F,
    env: Map<Seq<char>, Seq<char>>,
    pattern: Option<Seq<char>>,
    st: FoundView,
    dir: Seq<char>,
)
    ensures
        ({
            let after = with_bls(fs, env, pattern, st, dir);
            &&& st.bls is Some ==> after == st
            &&& !fs.present(dir) || fs.listing(dir) is None ==> after == st
            &&& st.bls is None && fs.present(dir) ==> (fs.listing(dir) matches Some(l) ==> ({
                let b = bls_scan(fs, dir, l, env, pattern);
                after.bls == (if b.entries.len() > 0 {
                    Some(b)
                } else {
                    None
                })
            }))
            &&& after.grub == st.grub && after.uses_bls == st.uses_bls && after.ext == st.ext
        }),
{
}

/// An extlinux config that is there is noted; its entries count unless one
/// before it had some.
pub proof fn law_first_extlinux_with_entries_counts<F: FileSystem + ?Sized>(
    fs: &F,
    st: FoundView,
    path: Seq<char>,
)
    ensures
        ({
            let after = with_extlinux(fs, st, path);
            &&& !fs.present(path) ==> after == st
            &&& fs.present(path) ==> after.configs == st.configs.push(path)
            &&& st.ext is Some ==> after.ext == st.ext
            &&& fs.present(path) && st.ext is None ==> (fs.file(path) matches Some(data) ==> ({
                let e = extlinux_scan(utf8_lossy(data), dir_of(path));
                after.ext == (if e.entries.len() > 0 {
                    Some(e)
                } else {
                    None
                })
            }))
            &&& after.grub == st.grub && after.uses_bls == st.uses_bls && after.bls == st.bls
        }),
{
}

/// A line `default NAME` of loader.conf gives the pattern of the default,
/// without `.conf` behind it; the first such line counts.
pub proof fn law_first_default_of_loader_conf_counts(
    name: Seq<char>,
    line: Seq<char>,
    rest: Seq<Seq<char>>,
)
    requires
        plain(name),
        plain(line),
        line[0] != 'd',
    ensures
        conf_default(seq!["default "@ + name] + rest) == Some(trim_end_str(name, ".conf"@)),
        conf_default(seq![line] + rest) == conf_default(rest),
        conf_default(seq![]) is None,
{
    reveal_strlit("default");
    reveal_strlit("default ");
    let l = "default "@ + name;
    let all = seq![l] + rest;
    assert(all.drop_first() =~= rest);
    assert(l.last() == name.last());
    assert(name.last() == name[name.len() - 1]);
    law_trim(seq![], l, seq![]);
    assert(Seq::<char>::empty() + l + Seq::<char>::empty() =~= l);
    assert(l =~= "default"@ + (seq![' '] + name));
    law_strip_prefix("default"@, seq![' '] + name);
    law_trim(seq![' '], name, seq![]);
    assert(seq![' '] + name + Seq::<char>::empty() =~= seq![' '] + name);
    let other = seq![line] + rest;
    assert(other.drop_first() =~= rest);
    assert(line.last() == line[line.len() - 1]);
    law_trim(seq![], line, seq![]);
    assert(Seq::<char>::empty() + line + Seq::<char>::empty() =~= line);
    if starts_with(line, "default"@) {
        assert(line.take(7)[0] == 'd');
    }
}

/// The places where loader.conf and BLS files are looked for, in order; the
/// second loader.conf is read only where the first gave no default.
pub proof fn law_places_of_bls<F: FileSystem + ?Sized>(fs: &F)
    ensures
        ({
            let (a, one) = with_loader_conf(fs, (grub_found(fs), None), "/loader/loader.conf"@);
            let (b, two) = with_loader_conf(fs, (a, one), "/boot/loader/loader.conf"@);
            let c = with_bls(fs, env_of(fs), two, b, "/loader/entries"@);
            &&& one is Some ==> two == one && b == a
            &&& one is None ==> two == (match fs.file("/boot/loader/loader.conf"@) {
                Some(d) => conf_default(lines(utf8_lossy(d))),
                None => None,
            })
            &&& one == (match fs.file("/loader/loader.conf"@) {
                Some(d) => conf_default(lines(utf8_lossy(d))),
                None => None,
            })
            &&& bls_found(fs) == with_bls(fs, env_of(fs), two, c, "/boot/loader/entries"@)
        }),
{
}

/// The places where an extlinux config is looked for, in order.
pub proof fn law_places_of_extlinux<F: FileSystem + ?Sized>(fs: &F)
    ensures
        ({
            let a = with_extlinux(fs, bls_found(fs), "/extlinux/extlinux.conf"@);
            let b = with_extlinux(fs, a, "/extlinux.conf"@);
            let c = with_extlinux(fs, b, "/syslinux/syslinux.cfg"@);
            let d = with_extlinux(fs, c, "/syslinux/extlinux.conf"@);
            let e = with_extlinux(fs, d, "/boot/extlinux/extlinux.conf"@);
            let f = with_extlinux(fs, e, "/boot/extlinux.conf"@);
            let g = with_extlinux(fs, f, "/boot/syslinux/syslinux.cfg"@);
            found(fs) == with_extlinux(fs, g, "/boot/syslinux/extlinux.conf"@)
        }),
{
}

} // verus!
