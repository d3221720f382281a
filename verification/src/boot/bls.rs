//! Boot Loader Specification entries (`/loader/entries/*.conf`),
//! used by Fedora/RHEL GRUB (`blscfg`) and by systemd-boot.
//!
//! Line format is `key value`: title / version / linux / initrd / options.
//! `options` may reference grubenv variables (`$kernelopts`,
//! `$tuned_params`) on Fedora/RHEL - expanded here.

use crate::boot::expand::{expand, expand_spec};
use crate::boot::grubenv::Env;
use crate::boot::newest::{
    add_newest, is_newest_first, law_newest_first_sorts, lemma_insert_from, lemma_sorted_from,
    newest_first,
};
use crate::boot::{all_from, blank_entry, opt_str, BootEntry, EntryView, Source};
use crate::error::Result;
use crate::fsys::{may_list, DirEntryView, FileKind, FileSystem};
use crate::seqs::{index, lemma_position, or, position, position_by, views};
use crate::text::laws::{
    law_line_is_added, law_split_once, law_trim_end_str, law_words_follow, lemma_key_and_value,
    lemma_key_line, lemma_words_of_trim, plain, whole_lines,
};
use crate::text::split::{
    before_first, begins, cut_white, ends_with, has_suffix, head_before, join, join_parts, lines,
    split_once_white, starts_char, text_lines, text_words, trim, trim_end_str, trimmed,
    trimmed_end_str, words,
};
use crate::text::{chars, eq, is_str, lossy, string, texts, utf8_lossy};
use vstd::prelude::*;
use vstd::string::*;
use vstd::utf8::encode_utf8;

verus! {

broadcast use vstd::seq_lib::group_seq_properties;

pub struct BlsScan {
    /// Sorted newest-first (BLS-style version sort).
    pub entries: Vec<BootEntry>,
    pub default: Option<usize>,
}

/// What a [`BlsScan`] says.
pub struct BlsView {
    pub entries: Seq<EntryView>,
    pub default: Option<int>,
}

impl View for BlsScan {
    type V = BlsView;

    open spec fn view(&self) -> BlsView {
        BlsView { entries: views(self.entries@), default: index(self.default) }
    }
}

// ---------------------------------------------------------------------
// One file
// ---------------------------------------------------------------------

/// `p` made absolute.
pub open spec fn absolute_spec(p: Seq<char>) -> Seq<char> {
    if starts_char(p, '/') {
        p
    } else {
        seq!['/'] + p
    }
}

fn absolute(p: &[char]) -> (r: String)
    ensures
        r@ == absolute_spec(p@),
{
    let mut out: String = String::new();
    if !begins(p, '/') {
        out.push('/');
    }
    crate::text::push_chars(&mut out, p);
    assert(out@ =~= absolute_spec(p@));
    out
}

/// The words of an `initrd` line, made absolute.
pub open spec fn initrd_paths(value: Seq<char>) -> Seq<Seq<char>> {
    Seq::new(words(value).len(), |i: int| absolute_spec(words(value)[i]))
}

/// What a line makes of the entry, and of the `options` lines so far.
pub open spec fn conf_line(
    st: (EntryView, Seq<Seq<char>>),
    raw_line: Seq<char>,
    env: Map<Seq<char>, Seq<char>>,
) -> (EntryView, Seq<Seq<char>>) {
    let line = trim(raw_line);
    let e = st.0;
    if line.len() == 0 || starts_char(line, '#') {
        st
    } else {
        match split_once_white(line) {
            None => st,
            Some((key, rest)) => {
                let value = trim(rest);
                if key == "title"@ {
                    (EntryView { title: Some(value), ..e }, st.1)
                } else if key == "version"@ {
                    (EntryView { version: Some(value), ..e }, st.1)
                } else if key == "linux"@ {
                    (EntryView { kernel: Some(absolute_spec(value)), ..e }, st.1)
                } else if key == "initrd"@ {
                    (EntryView { initrd: e.initrd + initrd_paths(value), ..e }, st.1)
                } else if key == "options"@ {
                    (e, st.1.push(expand_spec(value, env)))
                } else {
                    st
                }
            },
        }
    }
}

/// The entry and the `options` lines after the lines `l` of the file `stem`.
pub open spec fn conf_lines(
    stem: Seq<char>,
    l: Seq<Seq<char>>,
    env: Map<Seq<char>, Seq<char>>,
) -> (EntryView, Seq<Seq<char>>)
    decreases l.len(),
{
    if l.len() == 0 {
        (EntryView { id: Some(stem), ..blank_entry(Source::Bls) }, seq![])
    } else {
        conf_line(conf_lines(stem, l.drop_last(), env), l.last(), env)
    }
}

/// The entry that the file `stem` with the text `text` declares.
pub open spec fn bls_entry(stem: Seq<char>, text: Seq<char>, env: Map<Seq<char>, Seq<char>>) -> EntryView {
    let (e, options) = conf_lines(stem, lines(text), env);
    let cmdline = trim(join(options, " "@));
    EntryView {
        cmdline: if cmdline.len() > 0 {
            Some(cmdline)
        } else {
            None
        },
        ..e
    }
}

/// Append the words of `value`, made absolute.
fn add_initrds(list: &mut Vec<String>, value: &[char])
    ensures
        views(final(list)@) == views(old(list)@) + initrd_paths(value@),
{
    let ws = text_words(value);
    let ghost v0 = views(list@);
    let ghost paths = initrd_paths(value@);
    let mut i: usize = 0;
    assert(v0 + paths.take(0) =~= v0);
    while i < ws.len()
        invariant
            i <= ws@.len(),
            texts(ws@) == words(value@),
            paths == initrd_paths(value@),
            views(list@) == v0 + paths.take(i as int),
        decreases ws@.len() - i,
    {
        let ghost before = list@;
        list.push(absolute(ws[i]));
        proof {
            assert(texts(ws@)[i as int] == ws@[i as int]@);
            assert(paths.take(i + 1) =~= paths.take(i as int).push(paths[i as int]));
            assert(views(list@) =~= views(before).push(paths[i as int]));
            assert(views(list@) =~= v0 + paths.take(i + 1));
        }
        i = i + 1;
    }
    assert(paths.take(i as int) =~= paths);
}

/// Join strings with spaces.
fn join_strings(list: &Vec<String>) -> (r: Vec<char>)
    ensures
        r@ == join(views(list@), " "@),
{
    let mut copies: Vec<Vec<char>> = Vec::new();
    let mut i: usize = 0;
    while i < list.len()
        invariant
            i <= list@.len(),
            copies@.len() == i,
            forall|j: int| 0 <= j < i ==> (#[trigger] copies@[j])@ == list@[j]@,
        decreases list@.len() - i,
    {
        copies.push(chars(list[i].as_str()));
        i = i + 1;
    }
    let mut parts: Vec<&[char]> = Vec::new();
    i = 0;
    while i < copies.len()
        invariant
            i <= copies@.len(),
            parts@.len() == i,
            forall|j: int| 0 <= j < i ==> (#[trigger] parts@[j])@ == copies@[j]@,
        decreases copies@.len() - i,
    {
        parts.push(copies[i].as_slice());
        i = i + 1;
    }
    assert(texts(parts@) =~= views(list@));
    join_parts(&parts, " ")
}

/// Read one entry file.
pub fn parse_entry(stem: &str, text: &str, env: &Env) -> (r: BootEntry)
    ensures
        r@ == bls_entry(stem@, text@, env@),
        r@.source == Source::Bls,
{
    let t = chars(text);
    let l = text_lines(t.as_slice());
    let mut entry = BootEntry::blank(Source::Bls);
    entry.id = Some(stem.to_owned());
    let mut options: Vec<String> = Vec::new();
    let mut i: usize = 0;
    proof {
        assert(texts(l@).take(0) =~= Seq::<Seq<char>>::empty());
        assert(views(options@) =~= Seq::<Seq<char>>::empty());
    }
    while i < l.len()
        invariant
            i <= l@.len(),
            (entry@, views(options@)) == conf_lines(stem@, texts(l@).take(i as int), env@),
        decreases l@.len() - i,
    {
        proof {
            assert(texts(l@).take(i + 1).drop_last() =~= texts(l@).take(i as int));
            assert(texts(l@).take(i + 1).last() == l@[i as int]@);
        }
        let line = trimmed(l[i]);
        i = i + 1;
        if line.len() == 0 || begins(line, '#') {
            continue;
        }
        match cut_white(line) {
            None => {},
            Some((key, rest)) => {
                let value = trimmed(rest);
                if is_str(key, "title") {
                    entry.title = Some(string(value));
                } else if is_str(key, "version") {
                    entry.version = Some(string(value));
                } else if is_str(key, "linux") {
                    entry.kernel = Some(absolute(value));
                } else if is_str(key, "initrd") {
                    add_initrds(&mut entry.initrd, value);
                } else if is_str(key, "options") {
                    let ghost before = options@;
                    let value = expand(value, env);
                    let ghost vv = value@;
                    options.push(value);
                    assert(views(options@) =~= views(before).push(vv));
                }
            },
        }
    }
    assert(texts(l@).take(i as int) =~= texts(l@));
    let joined = join_strings(&options);
    let cmdline = trimmed(joined.as_slice());
    if cmdline.len() > 0 {
        entry.cmdline = Some(string(cmdline));
    }
    proof {
        lemma_no_cmdline(stem@, lines(text@), env@);
    }
    entry
}

proof fn lemma_no_cmdline(stem: Seq<char>, l: Seq<Seq<char>>, env: Map<Seq<char>, Seq<char>>)
    ensures
        conf_lines(stem, l, env).0.cmdline is None,
        conf_lines(stem, l, env).0.id == Some(stem),
        conf_lines(stem, l, env).0.source == Source::Bls,
    decreases l.len(),
{
    if l.len() > 0 {
        lemma_no_cmdline(stem, l.drop_last(), env);
    }
}

// ---------------------------------------------------------------------
// The directory
// ---------------------------------------------------------------------

/// The file name without `.conf`.
pub open spec fn stem_of(name: Seq<char>) -> Seq<char> {
    trim_end_str(name, ".conf"@)
}

/// A file that may declare an entry.
pub open spec fn is_conf(f: DirEntryView) -> bool {
    f.kind != FileKind::Dir && ends_with(f.name, ".conf"@)
}

/// The path of `name` in the directory `dir`.
pub open spec fn path_in(dir: Seq<char>, name: Seq<char>) -> Seq<char> {
    dir + "/"@ + name
}

/// The entries that the readable files of `listing` declare, in its order.
pub open spec fn conf_entries<F: FileSystem + ?Sized>(
    fs: &F,
    dir: Seq<char>,
    listing: Seq<DirEntryView>,
    env: Map<Seq<char>, Seq<char>>,
) -> Seq<EntryView>
    decreases listing.len(),
{
    if listing.len() == 0 {
        seq![]
    } else {
        let before = conf_entries(fs, dir, listing.drop_last(), env);
        let f = listing.last();
        if is_conf(f) && fs.file(path_in(dir, f.name)) is Some {
            before.push(
                bls_entry(stem_of(f.name), utf8_lossy(fs.file(path_in(dir, f.name))->0), env),
            )
        } else {
            before
        }
    }
}

/// The paths of those files.
pub open spec fn conf_paths<F: FileSystem + ?Sized>(
    fs: &F,
    dir: Seq<char>,
    listing: Seq<DirEntryView>,
) -> Seq<Seq<char>>
    decreases listing.len(),
{
    if listing.len() == 0 {
        seq![]
    } else {
        let before = conf_paths(fs, dir, listing.drop_last());
        let f = listing.last();
        if is_conf(f) && fs.file(path_in(dir, f.name)) is Some {
            before.push(path_in(dir, f.name))
        } else {
            before
        }
    }
}

/// The predicate "is the entry that grubenv saved"; the boot counter of a
/// file name (`+TRIES` or `+TRIES-DONE`) may be left out.
pub open spec fn saved_as(saved: Seq<char>) -> spec_fn(EntryView) -> bool {
    |e: EntryView|
        e.id matches Some(stem) && (saved == stem || saved == before_first(stem, '+'))
}

/// The predicate "matches the `default` pattern of loader.conf".
pub open spec fn matches_pattern(pat: Seq<char>) -> spec_fn(EntryView) -> bool {
    |e: EntryView|
        e.id matches Some(stem) && (glob_text(pat, stem) || glob_text(pat, stem + ".conf"@)
            || glob_text(pat, before_first(stem, '+')))
}

/// The default among the sorted entries: what grubenv saved, else what
/// loader.conf names, else the newest.
pub open spec fn bls_default(
    entries: Seq<EntryView>,
    env: Map<Seq<char>, Seq<char>>,
    sd_default: Option<Seq<char>>,
) -> Option<int> {
    let saved = if env.contains_key("saved_entry"@) {
        position(entries, saved_as(env["saved_entry"@]))
    } else {
        None
    };
    let pinned = match sd_default {
        Some(pat) => position(entries, matches_pattern(pat)),
        None => None,
    };
    or(
        or(saved, pinned),
        if entries.len() == 0 {
            None
        } else {
            Some(0)
        },
    )
}

/// What the entries directory `dir` declares.
pub open spec fn bls_scan<F: FileSystem + ?Sized>(
    fs: &F,
    dir: Seq<char>,
    listing: Seq<DirEntryView>,
    env: Map<Seq<char>, Seq<char>>,
    sd_default: Option<Seq<char>>,
) -> BlsView {
    let entries = newest_first(conf_entries(fs, dir, listing, env));
    BlsView { entries, default: bls_default(entries, env, sd_default) }
}

/// Every entry of a directory is a BLS entry.
pub proof fn lemma_source<F: FileSystem + ?Sized>(
    fs: &F,
    dir: Seq<char>,
    listing: Seq<DirEntryView>,
    env: Map<Seq<char>, Seq<char>>,
    sd_default: Option<Seq<char>>,
)
    ensures
        all_from(bls_scan(fs, dir, listing, env, sd_default).entries, Source::Bls),
{
    lemma_conf_source(fs, dir, listing, env);
    lemma_sorted_from(conf_entries(fs, dir, listing, env), Source::Bls);
}

proof fn lemma_conf_source<F: FileSystem + ?Sized>(
    fs: &F,
    dir: Seq<char>,
    listing: Seq<DirEntryView>,
    env: Map<Seq<char>, Seq<char>>,
)
    ensures
        all_from(conf_entries(fs, dir, listing, env), Source::Bls),
    decreases listing.len(),
{
    if listing.len() > 0 {
        lemma_conf_source(fs, dir, listing.drop_last(), env);
        let f = listing.last();
        if fs.file(path_in(dir, f.name)) is Some {
            let text = utf8_lossy(fs.file(path_in(dir, f.name))->0);
            lemma_no_cmdline(stem_of(f.name), lines(text), env);
        }
    }
}

/// The default is one of the entries; there is none only where there is no
/// entry at all.
pub proof fn lemma_default_in_range(
    entries: Seq<EntryView>,
    env: Map<Seq<char>, Seq<char>>,
    sd_default: Option<Seq<char>>,
)
    ensures
        match bls_default(entries, env, sd_default) {
            Some(i) => 0 <= i < entries.len(),
            None => entries.len() == 0,
        },
{
    assert forall|p: spec_fn(EntryView) -> bool|
        #![trigger position(entries, p)]
        position(entries, p) matches Some(i) ==> 0 <= i < entries.len() by {
        lemma_position(entries, p);
    }
}

/// The entry that the bootloader would pick.
fn pick_default(entries: &Vec<BootEntry>, env: &Env, sd_default: Option<&str>) -> (r: Option<usize>)
    ensures
        index(r) == bls_default(views(entries@), env@, opt_str(sd_default)),
{
    let saved: Option<usize> = match env.get("saved_entry") {
        Some(s) => {
            let saved = s.as_str();
            let test = |e: &BootEntry| -> (b: bool)
                ensures
                    b == saved_as(saved@)(e@)
            { is_saved(e, saved) };
            position_by(entries, test, Ghost(saved_as(saved@)))
        },
        None => None,
    };
    if saved.is_some() {
        return saved;
    }
    let pinned: Option<usize> = match sd_default {
        Some(pat) => {
            let test = |e: &BootEntry| -> (b: bool)
                ensures
                    b == matches_pattern(pat@)(e@)
            { is_pinned(e, pat) };
            position_by(entries, test, Ghost(matches_pattern(pat@)))
        },
        None => None,
    };
    if pinned.is_some() {
        return pinned;
    }
    if entries.len() == 0 {
        None
    } else {
        Some(0)
    }
}

/// Whether `e` is the entry that grubenv saved.
fn is_saved(e: &BootEntry, saved: &str) -> (r: bool)
    ensures
        r == saved_as(saved@)(e@),
{
    match &e.id {
        Some(stem) => {
            let c = chars(stem.as_str());
            eq(saved, stem.as_str()) || is_str(strip_boot_counter(c.as_slice()), saved)
        },
        None => false,
    }
}

/// Whether `e` matches the `default` pattern of loader.conf.
fn is_pinned(e: &BootEntry, pat: &str) -> (r: bool)
    ensures
        r == matches_pattern(pat@)(e@),
{
    match &e.id {
        Some(stem) => {
            let c = chars(stem.as_str());
            let bare = string(strip_boot_counter(c.as_slice()));
            let full = crate::text::join2(stem.as_str(), ".conf");
            glob_match(pat, stem.as_str()) || glob_match(pat, full.as_str()) || glob_match(
                pat,
                bare.as_str(),
            )
        },
        None => false,
    }
}

/// systemd-boot boot counting appends `+TRIES` or `+TRIES-DONE` to the stem.
fn strip_boot_counter(stem: &[char]) -> (r: &[char])
    ensures
        r@ == before_first(stem@, '+'),
{
    head_before(stem, '+')
}

/// `sd_default` is the `default` glob from systemd-boot's loader.conf,
/// if one exists; grubenv `saved_entry` (matched against the entry
/// filename) takes precedence, per GRUB's blscfg behavior. The files that
/// were read are appended to `configs`.
pub fn parse_dir<F: FileSystem + ?Sized>(
    fs: &F,
    entries_dir: &str,
    env: &Env,
    sd_default: Option<&str>,
    configs: &mut Vec<String>,
) -> (r: Result<BlsScan>)
    ensures
        fs.stable() ==> match fs.listing(entries_dir@) {
            Some(l) => {
                &&& r matches Ok(b)
                &&& b@ == bls_scan(fs, entries_dir@, l, env@, opt_str(sd_default))
                &&& views(final(configs)@) == views(old(configs)@) + conf_paths(fs, entries_dir@, l)
            },
            None => r matches Err(e) && e@ == fs.listing_error(entries_dir@),
        },
        r matches Err(e) ==> may_list(fs, entries_dir@, Err(e)) && final(configs)@ == old(configs)@,
        views(old(configs)@).is_prefix_of(views(final(configs)@)),
        r matches Ok(b) ==> match b.default {
            Some(d) => d < b.entries@.len(),
            None => b.entries@.len() == 0,
        },
        r matches Ok(b) ==> all_from(b@.entries, Source::Bls),
{
    let listed = fs.read_dir(entries_dir);
    assert(may_list(fs, entries_dir@, listed));
    let listing = listed?;
    let mut items: Vec<BootEntry> = Vec::new();
    let ghost all = views(listing@);
    let ghost c0 = views(configs@);
    let mut i: usize = 0;
    proof {
        assert(all.take(0) =~= Seq::<DirEntryView>::empty());
        assert(views(items@) =~= Seq::<EntryView>::empty());
        assert(c0 + Seq::<Seq<char>>::empty() =~= c0);
    }
    while i < listing.len()
        invariant
            i <= listing@.len(),
            all == views(listing@),
            all_from(views(items@), Source::Bls),
            c0.is_prefix_of(views(configs@)),
            fs.stable() ==> views(items@) == newest_first(
                conf_entries(fs, entries_dir@, all.take(i as int), env@),
            ),
            fs.stable() ==> views(configs@) == c0 + conf_paths(
                fs,
                entries_dir@,
                all.take(i as int),
            ),
        decreases listing@.len() - i,
    {
        let f = &listing[i];
        let ghost fv = f@;
        let ghost old_entries = conf_entries(fs, entries_dir@, all.take(i as int), env@);
        proof {
            assert(all[i as int] == fv);
            assert(all.take(i + 1).drop_last() =~= all.take(i as int));
            assert(all.take(i + 1).last() == fv);
        }
        i = i + 1;
        let name = chars(f.name.as_str());
        let is_dir: bool = match f.kind {
            FileKind::Dir => true,
            _ => false,
        };
        if is_dir || !has_suffix(name.as_slice(), ".conf") {
            continue;
        }
        let mut path: String = String::new();
        path.append(entries_dir);
        path.append("/");
        path.append(f.name.as_str());
        assert(path@ =~= path_in(entries_dir@, fv.name));
        let data = match fs.read_file(path.as_str()) {
            Ok(d) => d,
            Err(_) => {
                continue;
            },
        };
        let ghost pv = path@;
        let ghost before = configs@;
        configs.push(path);
        assert(views(configs@) =~= views(before).push(pv));
        let text = lossy(data.as_slice());
        let stem = string(trimmed_end_str(name.as_slice(), ".conf"));
        let entry = parse_entry(stem.as_str(), text.as_str(), env);
        let ghost ev = entry@;
        let ghost sorted = views(items@);
        add_newest(&mut items, entry);
        proof {
            lemma_insert_from(sorted, ev, Source::Bls);
            assert(old_entries.push(ev).drop_last() =~= old_entries);
            if fs.stable() {
                assert(views(configs@) =~= c0 + conf_paths(fs, entries_dir@, all.take(i as int)));
            }
        }
    }
    assert(all.take(i as int) =~= all);
    let default = pick_default(&items, env, sd_default);
    proof {
        lemma_default_in_range(views(items@), env@, opt_str(sd_default));
    }
    Ok(BlsScan { entries: items, default })
}

// ---------------------------------------------------------------------
// Patterns
// ---------------------------------------------------------------------

/// `s` matches the pattern `p`, in which `*` stands for any bytes and `?` for
/// one.
pub open spec fn glob(p: Seq<u8>, s: Seq<u8>) -> bool
    decreases p.len() + s.len(),
{
    if p.len() == 0 {
        s.len() == 0
    } else if p[0] == 42 {
        glob(p.skip(1), s) || (s.len() > 0 && glob(p, s.skip(1)))
    } else if p[0] == 63 {
        s.len() > 0 && glob(p.skip(1), s.skip(1))
    } else {
        s.len() > 0 && s[0] == p[0] && glob(p.skip(1), s.skip(1))
    }
}

/// The text `s` matches the pattern `p`, byte by byte.
pub open spec fn glob_text(p: Seq<char>, s: Seq<char>) -> bool {
    glob(encode_utf8(p), encode_utf8(s))
}

fn glob_from(p: &[u8], pi: usize, s: &[u8], si: usize) -> (r: bool)
    requires
        pi <= p@.len(),
        si <= s@.len(),
    ensures
        r == glob(p@.skip(pi as int), s@.skip(si as int)),
    decreases (p@.len() - pi) + (s@.len() - si),
{
    if pi == p.len() {
        return si == s.len();
    }
    proof {
        assert(p@.skip(pi as int)[0] == p@[pi as int]);
        assert(p@.skip(pi as int).skip(1) =~= p@.skip(pi + 1));
        if si < s@.len() {
            assert(s@.skip(si as int)[0] == s@[si as int]);
            assert(s@.skip(si as int).skip(1) =~= s@.skip(si + 1));
        }
    }
    if p[pi] == 42 {
        glob_from(p, pi + 1, s, si) || (si < s.len() && glob_from(p, pi, s, si + 1))
    } else if p[pi] == 63 {
        si < s.len() && glob_from(p, pi + 1, s, si + 1)
    } else {
        si < s.len() && s[si] == p[pi] && glob_from(p, pi + 1, s, si + 1)
    }
}

/// Minimal `*`/`?` glob, enough for loader.conf `default` patterns.
pub fn glob_match(pattern: &str, s: &str) -> (r: bool)
    ensures
        r == glob_text(pattern@, s@),
{
    let p = pattern.as_bytes();
    let b = s.as_bytes();
    proof {
        assert(p@.skip(0) =~= p@);
        assert(b@.skip(0) =~= b@);
    }
    glob_from(p, 0, b, 0)
}

/// A lone `*` matches everything.
pub proof fn law_star_matches_all(s: Seq<u8>)
    ensures
        glob(seq![42u8], s),
    decreases s.len(),
{
    reveal_with_fuel(glob, 2);
    assert(seq![42u8].skip(1) =~= Seq::<u8>::empty());
    if s.len() > 0 {
        law_star_matches_all(s.skip(1));
    }
}

/// A pattern without `*` and `?` matches itself and nothing else.
pub proof fn law_plain_pattern_is_equality(p: Seq<u8>, s: Seq<u8>)
    requires
        !p.contains(42u8),
        !p.contains(63u8),
    ensures
        glob(p, s) <==> p == s,
    decreases p.len(),
{
    if p.len() > 0 {
        assert(p[0] != 42 && p[0] != 63);
        if s.len() > 0 {
            let q = p.skip(1);
            assert(!q.contains(42u8)) by {
                if q.contains(42u8) {
                    let i = choose|i: int| 0 <= i < q.len() && q[i] == 42u8;
                    assert(p[i + 1] == 42u8);
                }
            }
            assert(!q.contains(63u8)) by {
                if q.contains(63u8) {
                    let i = choose|i: int| 0 <= i < q.len() && q[i] == 63u8;
                    assert(p[i + 1] == 63u8);
                }
            }
            law_plain_pattern_is_equality(q, s.skip(1));
            if p[0] == s[0] && q == s.skip(1) {
                assert(p =~= seq![p[0]] + q);
                assert(s =~= seq![s[0]] + s.skip(1));
            }
        }
    } else {
        assert(s.len() == 0 ==> s =~= p);
    }
}

/// The entries of a directory are sorted, newest first.
pub proof fn law_entries_are_newest_first<F: FileSystem + ?Sized>(
    fs: &F,
    dir: Seq<char>,
    listing: Seq<DirEntryView>,
    env: Map<Seq<char>, Seq<char>>,
    sd_default: Option<Seq<char>>,
)
    ensures
        is_newest_first(bls_scan(fs, dir, listing, env, sd_default).entries),
        bls_scan(fs, dir, listing, env, sd_default).entries.to_multiset() == conf_entries(
            fs,
            dir,
            listing,
            env,
        ).to_multiset(),
{
    law_newest_first_sorts(conf_entries(fs, dir, listing, env));
}

/// The entry that grubenv saved is the default, whatever loader.conf says.
pub proof fn law_saved_entry_wins(
    entries: Seq<EntryView>,
    env: Map<Seq<char>, Seq<char>>,
    sd_default: Option<Seq<char>>,
    i: int,
)
    requires
        env.contains_key("saved_entry"@),
        0 <= i < entries.len(),
        saved_as(env["saved_entry"@])(entries[i]),
    ensures
        bls_default(entries, env, sd_default) matches Some(d) && 0 <= d <= i && saved_as(
            env["saved_entry"@],
        )(entries[d]),
{
    lemma_position(entries, saved_as(env["saved_entry"@]));
}

proof fn lemma_line_is_read(
    stem: Seq<char>,
    t: Seq<char>,
    l: Seq<char>,
    env: Map<Seq<char>, Seq<char>>,
)
    requires
        whole_lines(t),
        !l.contains('\n'),
        l.len() > 0 ==> l.last() != '\r',
    ensures
        conf_lines(stem, lines(t + l + seq!['\n']), env) == conf_line(
            conf_lines(stem, lines(t), env),
            l,
            env,
        ),
{
    law_line_is_added(t, l);
    let all = lines(t).push(l);
    assert(all.drop_last() =~= lines(t));
    assert(all.last() == l);
}

/// A text without lines declares an entry that is named after its file and
/// has nothing else.
pub proof fn law_empty_file(stem: Seq<char>, env: Map<Seq<char>, Seq<char>>)
    ensures
        bls_entry(stem, seq![], env) == (EntryView {
            id: Some(stem),
            title: None,
            version: None,
            kernel: None,
            initrd: seq![],
            cmdline: None,
            chainloader: None,
            windows: None,
            source: Source::Bls,
        }),
{
    law_line_is_added(seq![], seq![]);
    assert(join(Seq::<Seq<char>>::empty(), " "@) =~= Seq::<char>::empty());
    lemma_trim_nothing();
}

proof fn lemma_trim_nothing()
    ensures
        trim(seq![]) == Seq::<char>::empty(),
        words(seq![]) == Seq::<Seq<char>>::empty(),
{
    assert(trim(seq![]) =~= Seq::<char>::empty());
}

/// The `initrd` lines of an entry add up: one more keeps the list that was
/// there and adds its words behind it, in order and as absolute paths. It
/// changes nothing else.
pub proof fn law_initrd_lines_add_up(
    stem: Seq<char>,
    t: Seq<char>,
    c: char,
    value: Seq<char>,
    env: Map<Seq<char>, Seq<char>>,
)
    requires
        whole_lines(t),
        c == ' ' || c == '\t',
        !value.contains('\n'),
        value.len() > 0 ==> value.last() != '\r',
    ensures
        ({
            let before = bls_entry(stem, t, env);
            let after = bls_entry(stem, t + ("initrd"@ + seq![c] + value) + seq!['\n'], env);
            let added = words(value);
            &&& after.initrd.len() == before.initrd.len() + added.len()
            &&& forall|i: int|
                0 <= i < before.initrd.len() ==> #[trigger] after.initrd[i] == before.initrd[i]
            &&& forall|i: int|
                0 <= i < added.len() ==> after.initrd[before.initrd.len() + i] == (if (
                #[trigger] added[i]).len() > 0 && added[i][0] == '/' {
                    added[i]
                } else {
                    seq!['/'] + added[i]
                })
            &&& after == EntryView { initrd: after.initrd, ..before }
        }),
{
    reveal_strlit("initrd");
    reveal_strlit("title");
    reveal_strlit("version");
    reveal_strlit("linux");
    let l = "initrd"@ + seq![c] + value;
    assert(plain("initrd"@));
    lemma_key_line("initrd"@, c, value);
    lemma_line_is_read(stem, t, l, env);
    lemma_key_and_value("initrd"@, c, value);
    lemma_words_of_trim(value);
    lemma_trim_nothing();
    let st = conf_lines(stem, lines(t), env);
    let after = bls_entry(stem, t + l + seq!['\n'], env);
    if trim(value).len() == 0 {
        assert(trim(value) =~= Seq::<char>::empty());
        assert(conf_line(st, l, env) == st);
    } else {
        let rest = (split_once_white(trim(l))->0).1;
        assert(initrd_paths(trim(rest)) == initrd_paths(trim(value)));
        assert(after.initrd == st.0.initrd + initrd_paths(trim(value)));
    }
}

/// A `title` line says what the title is, whatever an earlier line said, and
/// changes nothing else.
pub proof fn law_last_title_wins(
    stem: Seq<char>,
    t: Seq<char>,
    c: char,
    value: Seq<char>,
    env: Map<Seq<char>, Seq<char>>,
)
    requires
        whole_lines(t),
        c == ' ' || c == '\t',
        !value.contains('\n'),
        value.len() > 0 ==> value.last() != '\r',
        trim(value).len() > 0,
    ensures
        bls_entry(stem, t + ("title"@ + seq![c] + value) + seq!['\n'], env) == (EntryView {
            title: Some(trim(value)),
            ..bls_entry(stem, t, env)
        }),
{
    reveal_strlit("title");
    assert("title"@[0] == 't');
    assert(plain("title"@));
    lemma_key_line("title"@, c, value);
    lemma_line_is_read(stem, t, "title"@ + seq![c] + value, env);
    lemma_key_and_value("title"@, c, value);
}

/// A `version` line says what the version is, whatever an earlier line said,
/// and changes nothing else.
pub proof fn law_last_version_wins(
    stem: Seq<char>,
    t: Seq<char>,
    c: char,
    value: Seq<char>,
    env: Map<Seq<char>, Seq<char>>,
)
    requires
        whole_lines(t),
        c == ' ' || c == '\t',
        !value.contains('\n'),
        value.len() > 0 ==> value.last() != '\r',
        trim(value).len() > 0,
    ensures
        bls_entry(stem, t + ("version"@ + seq![c] + value) + seq!['\n'], env) == (EntryView {
            version: Some(trim(value)),
            ..bls_entry(stem, t, env)
        }),
{
    reveal_strlit("title");
    reveal_strlit("version");
    assert("title"@[0] == 't');
    assert("version"@[0] == 'v');
    assert(plain("version"@));
    lemma_key_line("version"@, c, value);
    lemma_line_is_read(stem, t, "version"@ + seq![c] + value, env);
    lemma_key_and_value("version"@, c, value);
}

/// A `linux` line says where the kernel is, as an absolute path, whatever an
/// earlier line said, and changes nothing else.
pub proof fn law_last_kernel_wins(
    stem: Seq<char>,
    t: Seq<char>,
    c: char,
    value: Seq<char>,
    env: Map<Seq<char>, Seq<char>>,
)
    requires
        whole_lines(t),
        c == ' ' || c == '\t',
        !value.contains('\n'),
        value.len() > 0 ==> value.last() != '\r',
        trim(value).len() > 0,
    ensures
        bls_entry(stem, t + ("linux"@ + seq![c] + value) + seq!['\n'], env) == (EntryView {
            kernel: Some(
                if trim(value)[0] == '/' {
                    trim(value)
                } else {
                    seq!['/'] + trim(value)
                },
            ),
            ..bls_entry(stem, t, env)
        }),
{
    reveal_strlit("title");
    reveal_strlit("version");
    reveal_strlit("linux");
    assert("title"@[0] == 't');
    assert("version"@[0] == 'v');
    assert("linux"@[0] == 'l');
    assert(plain("linux"@));
    lemma_key_line("linux"@, c, value);
    lemma_line_is_read(stem, t, "linux"@ + seq![c] + value, env);
    lemma_key_and_value("linux"@, c, value);
}

/// The `options` lines of an entry make up its command line: one more adds
/// its words behind those that were there, with the variables in it expanded.
/// It changes nothing else.
pub proof fn law_options_lines_add_up(
    stem: Seq<char>,
    t: Seq<char>,
    c: char,
    value: Seq<char>,
    env: Map<Seq<char>, Seq<char>>,
)
    requires
        whole_lines(t),
        c == ' ' || c == '\t',
        !value.contains('\n'),
        value.len() > 0 ==> value.last() != '\r',
        trim(value).len() > 0,
    ensures
        ({
            let before = bls_entry(stem, t, env);
            let after = bls_entry(stem, t + ("options"@ + seq![c] + value) + seq!['\n'], env);
            &&& words(cmdline_text(after)) == words(cmdline_text(before)) + words(
                expand_spec(trim(value), env),
            )
            &&& after.cmdline matches Some(l) ==> l.len() > 0
            &&& after == EntryView { cmdline: after.cmdline, ..before }
        }),
{
    reveal_strlit("initrd");
    reveal_strlit("title");
    reveal_strlit("version");
    reveal_strlit("linux");
    reveal_strlit("options");
    reveal_strlit(" ");
    let st = conf_lines(stem, lines(t), env);
    let l = "options"@ + seq![c] + value;
    assert(plain("options"@));
    assert("options"@.len() == 7 && "options"@[0] == 'o');
    assert("version"@[0] == 'v');
    assert("title"@.len() == 5 && "linux"@.len() == 5 && "initrd"@.len() == 6);
    lemma_key_line("options"@, c, value);
    lemma_line_is_read(stem, t, l, env);
    lemma_key_and_value("options"@, c, value);
    let e = expand_spec(trim(value), env);
    let (e2, options) = conf_line(st, l, env);
    assert(options == st.1.push(e) && e2 == st.0);
    let a = join(st.1, " "@);
    let b = join(options, " "@);
    lemma_words_of_trim(a);
    lemma_words_of_trim(b);
    lemma_trim_nothing();
    assert(" "@ =~= seq![' ']);
    assert(options.drop_last() =~= st.1);
    if st.1.len() > 0 {
        law_words_follow(a, ' ', e);
    } else {
        assert(a =~= Seq::<char>::empty());
        assert(b == e);
        assert(words(a) + words(e) =~= words(e));
    }
    if trim(a).len() == 0 {
        assert(trim(a) =~= Seq::<char>::empty());
    }
    if trim(b).len() == 0 {
        assert(trim(b) =~= Seq::<char>::empty());
    }
}

/// The command line of an entry; the empty one, where it has none.
pub open spec fn cmdline_text(e: EntryView) -> Seq<char> {
    match e.cmdline {
        Some(l) => l,
        None => seq![],
    }
}

/// Lines with another key, and comments, change nothing.
pub proof fn law_other_lines_are_skipped(
    stem: Seq<char>,
    t: Seq<char>,
    key: Seq<char>,
    c: char,
    value: Seq<char>,
    env: Map<Seq<char>, Seq<char>>,
)
    requires
        whole_lines(t),
        plain(key),
        key[0] == '#' || (key != "title"@ && key != "version"@ && key != "linux"@ && key
            != "initrd"@ && key != "options"@),
        c == ' ' || c == '\t',
        !value.contains('\n'),
        value.len() > 0 ==> value.last() != '\r',
    ensures
        bls_entry(stem, t + (key + seq![c] + value) + seq!['\n'], env) == bls_entry(stem, t, env),
{
    lemma_key_line(key, c, value);
    lemma_line_is_read(stem, t, key + seq![c] + value, env);
    lemma_key_and_value(key, c, value);
}

/// A readable file `NAME.conf` of the directory adds the entry that its text
/// declares, with the id `NAME`, behind those of the files before it; a
/// directory adds none, and neither does a file with another name.
pub proof fn law_conf_file_adds_its_entry<F: FileSystem + ?Sized>(
    fs: &F,
    dir: Seq<char>,
    listing: Seq<DirEntryView>,
    f: DirEntryView,
    stem: Seq<char>,
    env: Map<Seq<char>, Seq<char>>,
)
    requires
        f.name == stem + seq!['.', 'c', 'o', 'n', 'f'],
        stem.len() < 5 || stem.skip(stem.len() - 5) != seq!['.', 'c', 'o', 'n', 'f'],
    ensures
        ({
            let before = conf_entries(fs, dir, listing, env);
            let after = conf_entries(fs, dir, listing.push(f), env);
            match fs.file(dir + seq!['/'] + f.name) {
                Some(data) if f.kind != FileKind::Dir => after == before.push(
                    bls_entry(stem, utf8_lossy(data), env),
                ) && after.last().id == Some(stem),
                _ => after == before,
            }
        }),
{
    reveal_strlit(".conf");
    reveal_strlit("/");
    assert(".conf"@ =~= seq!['.', 'c', 'o', 'n', 'f']);
    assert("/"@ =~= seq!['/']);
    law_trim_end_str(stem, ".conf"@);
    let all = listing.push(f);
    assert(all.drop_last() =~= listing);
    assert(all.last() == f);
    assert(f.name.skip(f.name.len() - 5) =~= ".conf"@);
    if fs.file(dir + seq!['/'] + f.name) is Some {
        lemma_no_cmdline(stem, lines(utf8_lossy(fs.file(dir + seq!['/'] + f.name)->0)), env);
    }
}

/// The entry that grubenv saved, by its id or by its id without the boot
/// counter, is the default, whatever loader.conf says; without one the first
/// entry that matches the pattern of loader.conf, and without that the first.
pub proof fn law_which_entry_is_default(
    entries: Seq<EntryView>,
    env: Map<Seq<char>, Seq<char>>,
    sd_default: Option<Seq<char>>,
    i: int,
    name: Seq<char>,
    counter: Seq<char>,
)
    requires
        0 <= i < entries.len(),
        !name.contains('+'),
        entries[i].id == Some(name) || entries[i].id == Some(name + seq!['+'] + counter),
    ensures
        env.contains_key("saved_entry"@) && env["saved_entry"@] == name && (forall|j: int|
            0 <= j < i ==> ((#[trigger] entries[j]).id matches Some(id) ==> id != name
                && before_first(id, '+') != name)) ==> bls_default(entries, env, sd_default) == Some(i),
        !env.contains_key("saved_entry"@) && sd_default is None ==> bls_default(
            entries,
            env,
            sd_default,
        ) == Some(0int),
        !env.contains_key("saved_entry"@) && sd_default is Some && glob_text(sd_default->0, name) ==> (
        bls_default(entries, env, sd_default) matches Some(d) && 0 <= d <= i),
{
    law_split_once(name, '+', counter);
    if env.contains_key("saved_entry"@) {
        lemma_position(entries, saved_as(env["saved_entry"@]));
        if env["saved_entry"@] == name {
            assert(saved_as(name)(entries[i]));
        }
    }
    if sd_default is Some {
        lemma_position(entries, matches_pattern(sd_default->0));
        if glob_text(sd_default->0, name) {
            assert(matches_pattern(sd_default->0)(entries[i]));
        }
    }
}

/// Where the parts of a pattern match the parts of a text, the whole matches
/// the whole.
pub proof fn law_patterns_join(p: Seq<u8>, q: Seq<u8>, a: Seq<u8>, b: Seq<u8>)
    requires
        glob(p, a),
        glob(q, b),
    ensures
        glob(p + q, a + b),
    decreases p.len() + a.len(),
{
    let pq = p + q;
    let ab = a + b;
    if p.len() == 0 {
        assert(pq =~= q);
        assert(ab =~= b);
    } else {
        assert(pq[0] == p[0]);
        assert(pq.skip(1) =~= p.skip(1) + q);
        if a.len() > 0 {
            assert(ab[0] == a[0]);
            assert(ab.skip(1) =~= a.skip(1) + b);
        }
        if p[0] == 42 {
            if glob(p.skip(1), a) {
                law_patterns_join(p.skip(1), q, a, b);
            } else {
                law_patterns_join(p, q, a.skip(1), b);
            }
        } else {
            law_patterns_join(p.skip(1), q, a.skip(1), b);
        }
    }
}

/// A `?` takes the place of one byte, and a text in front of a `*` is a
/// prefix.
pub proof fn law_question_mark_and_prefix(p: Seq<u8>, s: Seq<u8>)
    requires
        !p.contains(42u8),
        !p.contains(63u8),
    ensures
        glob(seq![63u8], s) <==> s.len() == 1,
        glob(p + seq![42u8], s) <==> (p.len() <= s.len() && s.take(p.len() as int) == p),
    decreases p.len(),
{
    reveal_with_fuel(glob, 2);
    assert(seq![63u8].skip(1) =~= Seq::<u8>::empty());
    let ps = p + seq![42u8];
    if p.len() == 0 {
        law_star_matches_all(s);
        assert(ps =~= seq![42u8]);
        assert(s.take(0) =~= p);
    } else {
        assert(ps[0] == p[0]);
        assert(p.contains(p[0]));
        assert(ps.skip(1) =~= p.skip(1) + seq![42u8]);
        let q = p.skip(1);
        assert forall|x: u8| #[trigger] q.contains(x) implies p.contains(x) by {
            let i = choose|i: int| 0 <= i < q.len() && q[i] == x;
            assert(p[i + 1] == x);
        }
        if s.len() > 0 {
            law_question_mark_and_prefix(q, s.skip(1));
            if p.len() <= s.len() {
                assert(s.take(p.len() as int).skip(1) =~= s.skip(1).take(q.len() as int));
                if s[0] == p[0] && s.skip(1).take(q.len() as int) == q {
                    assert(s.take(p.len() as int) =~= seq![s[0]] + s.skip(1).take(q.len() as int));
                    assert(p =~= seq![p[0]] + q);
                }
            }
        }
    }
}

} // verus!
