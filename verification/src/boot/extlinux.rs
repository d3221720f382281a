//! extlinux/syslinux config parsing (Alpine and many cloud images).
//!
//! Line-oriented, case-insensitive keywords: `default`, `label`,
//! `kernel`/`linux`, `initrd` (comma-separated), `append`. Alpine puts the
//! initrd in `append initrd=/boot/...`, which we lift into the initrd list.
//! Relative paths are resolved against the config file's directory.

use crate::boot::{all_from, blank_entry, BootEntry, EntryView, Source};
use crate::error::Result;
use crate::fsys::{may_read, FileSystem};
use crate::seqs::{index, lemma_position, or, position, position_by, views};
use crate::text::split::{
    after_prefix, begins, cut_white, join, join_parts, lines, pieces, rcut, rsplit_once, split,
    split_once_white, starts_char, starts_with, strip_prefix, text_lines, text_words, trim, trimmed, words,
};
use crate::text::{
    chars, is_str, lossy, lower, opt, opt_is, string, texts, to_lower, utf8_lossy,
};
use vstd::prelude::*;
use vstd::string::*;

verus! {

broadcast use vstd::seq_lib::group_seq_properties;

pub struct ExtlinuxScan {
    pub entries: Vec<BootEntry>,
    pub default: Option<usize>,
}

/// What an [`ExtlinuxScan`] says.
pub struct ExtlinuxView {
    pub entries: Seq<EntryView>,
    pub default: Option<int>,
}

impl View for ExtlinuxScan {
    type V = ExtlinuxView;

    open spec fn view(&self) -> ExtlinuxView {
        ExtlinuxView { entries: views(self.entries@), default: index(self.default) }
    }
}

// ---------------------------------------------------------------------
// Paths
// ---------------------------------------------------------------------

/// `p`, taken as relative to the directory `base`.
pub open spec fn resolve_spec(base: Seq<char>, p: Seq<char>) -> Seq<char> {
    if starts_char(p, '/') {
        p
    } else {
        base + "/"@ + p
    }
}

fn resolve(base_dir: &str, p: &[char]) -> (r: String)
    ensures
        r@ == resolve_spec(base_dir@, p@),
{
    let mut out: String = String::new();
    if !begins(p, '/') {
        out.append(base_dir);
        out.append("/");
    }
    crate::text::push_chars(&mut out, p);
    assert(out@ =~= resolve_spec(base_dir@, p@));
    out
}

/// The pieces of a comma-separated list, trimmed and resolved.
pub open spec fn path_list(base: Seq<char>, list: Seq<char>) -> Seq<Seq<char>> {
    Seq::new(split(list, ',').len(), |i: int| resolve_spec(base, trim(split(list, ',')[i])))
}

/// The pieces of a comma-separated list, resolved as they stand.
pub open spec fn word_list(base: Seq<char>, list: Seq<char>) -> Seq<Seq<char>> {
    Seq::new(split(list, ',').len(), |i: int| resolve_spec(base, split(list, ',')[i]))
}

/// Append the paths of a comma-separated list, trimmed where `trimming`.
fn add_paths(out: &mut Vec<String>, base_dir: &str, list: &[char], trimming: bool)
    ensures
        views(final(out)@) == views(old(out)@) + (if trimming {
            path_list(base_dir@, list@)
        } else {
            word_list(base_dir@, list@)
        }),
{
    let parts = pieces(list, ',');
    let ghost v0 = views(out@);
    let ghost paths = if trimming {
        path_list(base_dir@, list@)
    } else {
        word_list(base_dir@, list@)
    };
    let mut i: usize = 0;
    assert(v0 + paths.take(0) =~= v0);
    while i < parts.len()
        invariant
            i <= parts@.len(),
            texts(parts@) == split(list@, ','),
            paths == (if trimming {
                path_list(base_dir@, list@)
            } else {
                word_list(base_dir@, list@)
            }),
            views(out@) == v0 + paths.take(i as int),
        decreases parts@.len() - i,
    {
        let ghost before = out@;
        let p = if trimming {
            trimmed(parts[i])
        } else {
            parts[i]
        };
        out.push(resolve(base_dir, p));
        proof {
            assert(texts(parts@)[i as int] == parts@[i as int]@);
            assert(paths.take(i + 1) =~= paths.take(i as int).push(paths[i as int]));
            assert(views(out@) =~= views(before).push(paths[i as int]));
            assert(views(out@) =~= v0 + paths.take(i + 1));
        }
        i = i + 1;
    }
    assert(paths.take(i as int) =~= paths);
}

// ---------------------------------------------------------------------
// `append`
// ---------------------------------------------------------------------

/// The words of an `append` line that go to the kernel: all but `initrd=`.
pub open spec fn kernel_words(ws: Seq<Seq<char>>) -> Seq<Seq<char>>
    decreases ws.len(),
{
    if ws.len() == 0 {
        seq![]
    } else if strip_prefix(ws.last(), "initrd="@) is Some {
        kernel_words(ws.drop_last())
    } else {
        kernel_words(ws.drop_last()).push(ws.last())
    }
}

/// The paths that the `initrd=` words of an `append` line name.
pub open spec fn lifted_initrds(base: Seq<char>, ws: Seq<Seq<char>>) -> Seq<Seq<char>>
    decreases ws.len(),
{
    if ws.len() == 0 {
        seq![]
    } else {
        let before = lifted_initrds(base, ws.drop_last());
        match strip_prefix(ws.last(), "initrd="@) {
            Some(list) => before + word_list(base, list),
            None => before,
        }
    }
}

/// The kernel itself ignores `initrd=`; it is a directive to the bootloader.
/// Lift it out for direct boot, and return what is left.
fn lift_initrds<'a>(out: &mut Vec<String>, base_dir: &str, rest: &'a [char]) -> (r: Vec<&'a [char]>)
    ensures
        texts(r@) == kernel_words(words(rest@)),
        views(final(out)@) == views(old(out)@) + lifted_initrds(base_dir@, words(rest@)),
{
    let ws = text_words(rest);
    let mut left: Vec<&'a [char]> = Vec::new();
    let ghost all = texts(ws@);
    let ghost v0 = views(out@);
    let mut i: usize = 0;
    proof {
        assert(all.take(0) =~= Seq::<Seq<char>>::empty());
        assert(texts(left@) =~= Seq::<Seq<char>>::empty());
        assert(v0 + Seq::<Seq<char>>::empty() =~= v0);
    }
    while i < ws.len()
        invariant
            i <= ws@.len(),
            all == texts(ws@),
            texts(left@) == kernel_words(all.take(i as int)),
            views(out@) == v0 + lifted_initrds(base_dir@, all.take(i as int)),
        decreases ws@.len() - i,
    {
        let word = ws[i];
        proof {
            assert(all.take(i + 1).drop_last() =~= all.take(i as int));
            assert(all.take(i + 1).last() == word@);
        }
        match after_prefix(word, "initrd=") {
            Some(paths) => {
                let ghost before = views(out@);
                add_paths(out, base_dir, paths, false);
                assert(views(out@) =~= v0 + lifted_initrds(base_dir@, all.take(i + 1)));
            },
            None => {
                let ghost before = left@;
                left.push(word);
                assert(texts(left@) =~= texts(before).push(word@));
            },
        }
        i = i + 1;
    }
    assert(all.take(i as int) =~= all);
    left
}

// ---------------------------------------------------------------------
// The config
// ---------------------------------------------------------------------

/// A config read up to some line.
pub struct ConfState {
    pub entries: Seq<EntryView>,
    pub default_label: Option<Seq<char>>,
    /// The entry whose `label` came last.
    pub current: Option<EntryView>,
}

/// A keyword and what follows it, trimmed.
pub open spec fn keyword(line: Seq<char>) -> Option<(Seq<char>, Seq<char>)> {
    match split_once_white(line) {
        Some((kw, rest)) => Some((kw, trim(rest))),
        None => None,
    }
}

/// The entry `e` after an `append` line.
pub open spec fn appended(e: EntryView, rest: Seq<char>, base: Seq<char>) -> EntryView {
    let left = kernel_words(words(rest));
    EntryView {
        initrd: e.initrd + lifted_initrds(base, words(rest)),
        cmdline: if left.len() > 0 {
            Some(join(left, " "@))
        } else {
            e.cmdline
        },
        ..e
    }
}

/// `done` with the entry under construction, if there is one.
pub open spec fn closed(done: Seq<EntryView>, current: Option<EntryView>) -> Seq<EntryView> {
    match current {
        Some(e) => done.push(e),
        None => done,
    }
}

/// What a line makes of the state.
pub open spec fn conf_line(st: ConfState, raw_line: Seq<char>, base: Seq<char>) -> ConfState {
    let line = trim(raw_line);
    if line.len() == 0 || starts_char(line, '#') {
        st
    } else {
        match keyword(line) {
            None => st,
            Some((kw, rest)) => {
                let k = lower(kw);
                if k == "default"@ {
                    ConfState { default_label: Some(rest), ..st }
                } else if k == "label"@ {
                    ConfState {
                        entries: closed(st.entries, st.current),
                        current: Some(
                            EntryView {
                                title: Some(rest),
                                id: Some(rest),
                                ..blank_entry(Source::Extlinux)
                            },
                        ),
                        ..st
                    }
                } else {
                    match st.current {
                        None => st,
                        Some(e) => {
                            if k == "kernel"@ || k == "linux"@ {
                                ConfState {
                                    current: Some(
                                        EntryView { kernel: Some(resolve_spec(base, rest)), ..e },
                                    ),
                                    ..st
                                }
                            } else if k == "initrd"@ {
                                ConfState {
                                    current: Some(
                                        EntryView { initrd: e.initrd + path_list(base, rest), ..e },
                                    ),
                                    ..st
                                }
                            } else if k == "append"@ {
                                ConfState { current: Some(appended(e, rest, base)), ..st }
                            } else {
                                st
                            }
                        },
                    }
                }
            },
        }
    }
}

/// The state after the lines `l`.
pub open spec fn conf_lines(l: Seq<Seq<char>>, base: Seq<char>) -> ConfState
    decreases l.len(),
{
    if l.len() == 0 {
        ConfState { entries: seq![], default_label: None, current: None }
    } else {
        conf_line(conf_lines(l.drop_last(), base), l.last(), base)
    }
}

/// The predicate "has the label `d`".
pub open spec fn labelled(d: Seq<char>) -> spec_fn(EntryView) -> bool {
    |e: EntryView| e.id == Some(d)
}

/// The entry that `DEFAULT` names, else the first.
pub open spec fn label_default(entries: Seq<EntryView>, label: Option<Seq<char>>) -> Option<int> {
    or(
        match label {
            Some(d) => position(entries, labelled(d)),
            None => None,
        },
        if entries.len() == 0 {
            None
        } else {
            Some(0)
        },
    )
}

/// What a config in the directory `base` declares.
pub open spec fn extlinux_scan(text: Seq<char>, base: Seq<char>) -> ExtlinuxView {
    let st = conf_lines(lines(text), base);
    let entries = closed(st.entries, st.current);
    ExtlinuxView { entries, default: label_default(entries, st.default_label) }
}

/// The default is one of the entries; there is none only where there is no
/// entry at all.
pub proof fn lemma_default_in_range(entries: Seq<EntryView>, label: Option<Seq<char>>)
    ensures
        match label_default(entries, label) {
            Some(i) => 0 <= i < entries.len(),
            None => entries.len() == 0,
        },
{
    if label is Some {
        lemma_position(entries, labelled(label->0));
    }
}

proof fn lemma_lines_source(l: Seq<Seq<char>>, base: Seq<char>)
    ensures
        all_from(conf_lines(l, base).entries, Source::Extlinux),
        conf_lines(l, base).current matches Some(e) ==> e.source == Source::Extlinux,
    decreases l.len(),
{
    if l.len() > 0 {
        lemma_lines_source(l.drop_last(), base);
    }
}

/// Every entry of a config is an extlinux entry.
pub proof fn lemma_source(text: Seq<char>, base: Seq<char>)
    ensures
        all_from(extlinux_scan(text, base).entries, Source::Extlinux),
{
    lemma_lines_source(lines(text), base);
}

/// The directory of the file at `path`.
pub open spec fn dir_of(path: Seq<char>) -> Seq<char> {
    match rsplit_once(path, '/') {
        Some((d, _)) => d,
        None => seq![],
    }
}

fn split_keyword(line: &[char]) -> (r: Option<(&[char], &[char])>)
    ensures
        match r {
            Some((a, b)) => keyword(line@) == Some((a@, b@)),
            None => keyword(line@) is None,
        },
{
    match cut_white(line) {
        Some((kw, rest)) => Some((kw, trimmed(rest))),
        None => None,
    }
}

/// Append the entry under construction.
fn close_current(entries: &mut Vec<BootEntry>, current: Option<BootEntry>)
    ensures
        views(final(entries)@) == closed(
            views(old(entries)@),
            match current {
                Some(e) => Some(e@),
                None => None,
            },
        ),
{
    match current {
        Some(e) => {
            let ghost before = entries@;
            let ghost ev = e@;
            entries.push(e);
            assert(views(entries@) =~= views(before).push(ev));
        },
        None => {},
    }
}

/// What a line other than `default` and `label` does to an entry.
fn entry_line(e: &mut BootEntry, kw: &[char], rest: &[char], base_dir: &str)
    ensures
        final(e)@ == (if kw@ == "kernel"@ || kw@ == "linux"@ {
            EntryView { kernel: Some(resolve_spec(base_dir@, rest@)), ..old(e)@ }
        } else if kw@ == "initrd"@ {
            EntryView { initrd: old(e)@.initrd + path_list(base_dir@, rest@), ..old(e)@ }
        } else if kw@ == "append"@ {
            appended(old(e)@, rest@, base_dir@)
        } else {
            old(e)@
        }),
{
    if is_str(kw, "kernel") || is_str(kw, "linux") {
        e.kernel = Some(resolve(base_dir, rest));
    } else if is_str(kw, "initrd") {
        add_paths(&mut e.initrd, base_dir, rest, true);
    } else if is_str(kw, "append") {
        let left = lift_initrds(&mut e.initrd, base_dir, rest);
        if left.len() > 0 {
            let joined = join_parts(&left, " ");
            e.cmdline = Some(string(joined.as_slice()));
        }
    }
    // timeout, prompt, menu *, say, serial, ...

}

/// Read a config whose relative paths start at `base_dir`.
pub fn parse_str(text: &str, base_dir: &str) -> (r: ExtlinuxScan)
    ensures
        r@ == extlinux_scan(text@, base_dir@),
        match r.default {
            Some(d) => d < r.entries@.len(),
            None => r.entries@.len() == 0,
        },
        all_from(r@.entries, Source::Extlinux),
{
    proof {
        lemma_source(text@, base_dir@);
    }
    let t = chars(text);
    let l = text_lines(t.as_slice());
    let mut entries: Vec<BootEntry> = Vec::new();
    let mut default_label: Option<String> = None;
    let mut current: Option<BootEntry> = None;
    let ghost base = base_dir@;
    let mut i: usize = 0;
    proof {
        assert(texts(l@).take(0) =~= Seq::<Seq<char>>::empty());
        assert(views(entries@) =~= Seq::<EntryView>::empty());
    }
    while i < l.len()
        invariant
            i <= l@.len(),
            base == base_dir@,
            views(entries@) == conf_lines(texts(l@).take(i as int), base).entries,
            opt(default_label) == conf_lines(texts(l@).take(i as int), base).default_label,
            match current {
                Some(e) => conf_lines(texts(l@).take(i as int), base).current == Some(e@),
                None => conf_lines(texts(l@).take(i as int), base).current is None,
            },
        decreases l@.len() - i,
    {
        proof {
            assert(texts(l@).take(i + 1).drop_last() =~= texts(l@).take(i as int));
            assert(texts(l@).take(i + 1).last() == l@[i as int]@);
        }
        let line = trimmed(l[i]);
        i = i + 1;
        if line.len() == 0 || begins(line, '#') {
            continue;
        }
        match split_keyword(line) {
            None => {},
            Some((kw, rest)) => {
                let kw = to_lower(kw);
                if is_str(kw.as_slice(), "default") {
                    default_label = Some(string(rest));
                } else if is_str(kw.as_slice(), "label") {
                    close_current(&mut entries, current);
                    let mut e = BootEntry::blank(Source::Extlinux);
                    e.title = Some(string(rest));
                    e.id = Some(string(rest));
                    current = Some(e);
                } else {
                    match current {
                        Some(e) => {
                            let mut e = e;
                            entry_line(&mut e, kw.as_slice(), rest, base_dir);
                            current = Some(e);
                        },
                        None => {
                            current = None;
                        },
                    }
                }
            },
        }
    }
    assert(texts(l@).take(i as int) =~= texts(l@));
    close_current(&mut entries, current);
    let named: Option<usize> = match &default_label {
        Some(d) => {
            let c = chars(d.as_str());
            let name = c.as_slice();
            let test = |e: &BootEntry| -> (b: bool)
                ensures
                    b == labelled(name@)(e@)
            { opt_is(&e.id, name) };
            position_by(&entries, test, Ghost(labelled(name@)))
        },
        None => None,
    };
    let default: Option<usize> = match named {
        Some(d) => Some(d),
        None => if entries.len() == 0 {
            None
        } else {
            Some(0)
        },
    };
    ExtlinuxScan { entries, default }
}

/// Read the config at `cfg_path`.
pub fn parse<F: FileSystem + ?Sized>(fs: &F, cfg_path: &str) -> (r: Result<ExtlinuxScan>)
    ensures
        fs.stable() ==> match fs.file(cfg_path@) {
            Some(d) => r matches Ok(x) && x@ == extlinux_scan(utf8_lossy(d), dir_of(cfg_path@)),
            None => r matches Err(e) && e@ == fs.file_error(cfg_path@),
        },
        match r {
            Ok(x) => exists|d: Vec<u8>| #[trigger]
                may_read(fs, cfg_path@, Ok(d)) && x@ == extlinux_scan(
                    utf8_lossy(d@),
                    dir_of(cfg_path@),
                ),
            Err(e) => may_read(fs, cfg_path@, Err(e)),
        },
        r matches Ok(x) ==> match x.default {
            Some(d) => d < x.entries@.len(),
            None => x.entries@.len() == 0,
        },
        r matches Ok(x) ==> all_from(x@.entries, Source::Extlinux),
{
    let read = fs.read_file(cfg_path);
    assert(may_read(fs, cfg_path@, read));
    let data = read?;
    let c = chars(cfg_path);
    let base = match rcut(c.as_slice(), '/') {
        Some((d, _)) => string(d),
        None => String::new(),
    };
    assert(base@ =~= dir_of(cfg_path@));
    let text = lossy(data.as_slice());
    Ok(parse_str(text.as_str(), base.as_str()))
}

/// `DEFAULT` picks the entry with that label: of several, the first.
pub proof fn law_default_label_names_its_entry(entries: Seq<EntryView>, label: Seq<char>, i: int)
    requires
        0 <= i < entries.len(),
        entries[i].id == Some(label),
        forall|j: int| 0 <= j < i ==> (#[trigger] entries[j]).id != Some(label),
    ensures
        label_default(entries, Some(label)) == Some(i),
{
    lemma_position(entries, labelled(label));
    assert(labelled(label)(entries[i]));
}

/// Keywords mean the same in upper and lower case.
pub proof fn law_keywords_ignore_case(
    st: ConfState,
    a: Seq<char>,
    b: Seq<char>,
    base: Seq<char>,
)
    requires
        trim(a).len() > 0 && trim(b).len() > 0,
        !starts_char(trim(a), '#') && !starts_char(trim(b), '#'),
        keyword(trim(a)) is Some && keyword(trim(b)) is Some,
        lower((keyword(trim(a))->0).0) == lower((keyword(trim(b))->0).0),
        (keyword(trim(a))->0).1 == (keyword(trim(b))->0).1,
    ensures
        conf_line(st, a, base) == conf_line(st, b, base),
{
}

/// Paths are absolute, whatever a config in an absolute directory (or in the
/// root, whose name is empty here) writes.
pub proof fn law_paths_are_absolute(base: Seq<char>, p: Seq<char>)
    requires
        base.len() == 0 || starts_char(base, '/'),
    ensures
        starts_char(resolve_spec(base, p), '/'),
{
    reveal_strlit("/");
}

/// No `initrd=` word reaches the kernel's command line.
pub proof fn law_no_initrd_word_left(ws: Seq<Seq<char>>, i: int)
    requires
        0 <= i < kernel_words(ws).len(),
    ensures
        !starts_with(kernel_words(ws)[i], "initrd="@),
        ws.contains(kernel_words(ws)[i]),
    decreases ws.len(),
{
    let before = kernel_words(ws.drop_last());
    if i < before.len() {
        law_no_initrd_word_left(ws.drop_last(), i);
        let j = choose|j: int| 0 <= j < ws.drop_last().len() && ws.drop_last()[j] == before[i];
        assert(ws[j] == kernel_words(ws)[i]);
    } else {
        assert(ws[ws.len() - 1] == kernel_words(ws)[i]);
    }
}

} // verus!
