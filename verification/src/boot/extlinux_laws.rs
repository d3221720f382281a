//! What an extlinux config says, line by line.

use crate::boot::extlinux::{
    conf_line, conf_lines, dir_of, extlinux_scan, kernel_words, label_default, labelled,
    lifted_initrds, path_list, resolve_spec, word_list,
};
use crate::boot::{EntryView, Source};
use crate::seqs::lemma_position;
use crate::text::laws::{
    law_line_is_added, law_rsplit_once, law_strip_prefix, lemma_key_and_value, lemma_key_line,
    lemma_words_of_trim, plain, whole_lines,
};
use crate::text::lower;
use crate::text::split::{join, lines, split, starts_with, trim, words};
use vstd::prelude::*;
use vstd::string::*;

verus! {

/// A line that is the keyword `key`, a blank or a tab, and a value.
pub open spec fn is_line(key: Seq<char>, c: char, value: Seq<char>) -> bool {
    &&& plain(key)
    &&& key[0] != '#'
    &&& (c == ' ' || c == '\t')
    &&& !value.contains('\n')
    &&& value.len() > 0
    &&& value.last() != '\r'
    &&& trim(value).len() > 0
}

/// The text `t` with that line behind it.
pub open spec fn with_line(t: Seq<char>, key: Seq<char>, c: char, value: Seq<char>) -> Seq<char> {
    t + (key + seq![c] + value) + seq!['\n']
}

/// `p`, or the file `p` of the directory `base`.
pub open spec fn file_of(base: Seq<char>, p: Seq<char>) -> Seq<char> {
    if p.len() > 0 && p[0] == '/' {
        p
    } else {
        base + seq!['/'] + p
    }
}

proof fn lemma_file_of(base: Seq<char>, p: Seq<char>)
    ensures
        resolve_spec(base, p) == file_of(base, p),
{
    reveal_strlit("/");
    assert("/"@ =~= seq!['/']);
}

proof fn lemma_line_is_read(t: Seq<char>, key: Seq<char>, c: char, value: Seq<char>, base: Seq<char>)
    requires
        whole_lines(t),
        is_line(key, c, value),
    ensures
        conf_lines(lines(with_line(t, key, c, value)), base) == conf_line(
            conf_lines(lines(t), base),
            key + seq![c] + value,
            base,
        ),
        crate::boot::extlinux::keyword(trim(key + seq![c] + value)) == Some((key, trim(value))),
        trim(key + seq![c] + value).len() > 0,
        trim(key + seq![c] + value)[0] != '#',
{
    let l = key + seq![c] + value;
    lemma_key_line(key, c, value);
    lemma_key_and_value(key, c, value);
    law_line_is_added(t, l);
    let all = lines(t).push(l);
    assert(all.drop_last() =~= lines(t));
    assert(all.last() == l);
}

proof fn lemma_no_label_yet(l: Seq<Seq<char>>, base: Seq<char>)
    ensures
        conf_lines(l, base).current is None ==> conf_lines(l, base).entries.len() == 0,
    decreases l.len(),
{
    if l.len() > 0 {
        lemma_no_label_yet(l.drop_last(), base);
    }
}

/// Where the labels are the same, the default is the same.
proof fn lemma_same_labels(a: Seq<EntryView>, b: Seq<EntryView>, label: Option<Seq<char>>)
    requires
        a.len() == b.len(),
        forall|i: int| 0 <= i < a.len() ==> (#[trigger] a[i]).id == b[i].id,
    ensures
        label_default(a, label) == label_default(b, label),
{
    if label is Some {
        let p = labelled(label->0);
        lemma_position(a, p);
        lemma_position(b, p);
        assert forall|i: int| 0 <= i < a.len() implies p(a[i]) == #[trigger] p(b[i]) by {
            assert(a[i].id == b[i].id);
        }
        let x = crate::seqs::position(a, p);
        let y = crate::seqs::position(b, p);
        if x is Some && y is Some {
            assert(p(a[x->0]) && p(b[y->0]));
            assert(p(b[x->0]));
            assert(p(a[y->0]));
        } else if x is Some {
            assert(p(b[x->0]));
        } else if y is Some {
            assert(p(b[y->0]));
            assert(p(a[y->0]));
        }
    }
}

/// `label NAME` begins an entry with that name, behind the others.
pub proof fn law_label_begins_an_entry(
    t: Seq<char>,
    key: Seq<char>,
    c: char,
    value: Seq<char>,
    base: Seq<char>,
)
    requires
        whole_lines(t),
        is_line(key, c, value),
        lower(key) == "label"@,
    ensures
        extlinux_scan(with_line(t, key, c, value), base).entries == extlinux_scan(
            t,
            base,
        ).entries.push(
            EntryView {
                title: Some(trim(value)),
                id: Some(trim(value)),
                kernel: None,
                initrd: seq![],
                cmdline: None,
                version: None,
                source: Source::Extlinux,
                chainloader: None,
                windows: None,
            },
        ),
{
    reveal_strlit("label");
    reveal_strlit("default");
    assert("label"@[0] == 'l' && "default"@[0] == 'd');
    lemma_line_is_read(t, key, c, value, base);
}

/// `default NAME` makes the entry with that label the default, whatever was
/// said before; the first entry, where none has it.
pub proof fn law_last_default_wins(
    t: Seq<char>,
    key: Seq<char>,
    c: char,
    value: Seq<char>,
    base: Seq<char>,
    i: int,
)
    requires
        whole_lines(t),
        is_line(key, c, value),
        lower(key) == "default"@,
    ensures
        ({
            let before = extlinux_scan(t, base);
            let after = extlinux_scan(with_line(t, key, c, value), base);
            &&& after.entries == before.entries
            &&& 0 <= i < before.entries.len() && before.entries[i].id == Some(trim(value)) && (forall|
                j: int,
            |
                0 <= j < i ==> (#[trigger] before.entries[j]).id != Some(trim(value)))
                ==> after.default == Some(i)
            &&& before.entries.len() > 0 && (forall|j: int|
                0 <= j < before.entries.len() ==> (#[trigger] before.entries[j]).id != Some(
                    trim(value),
                )) ==> after.default == Some(0int)
        }),
{
    lemma_line_is_read(t, key, c, value, base);
    let e = extlinux_scan(t, base).entries;
    let p = labelled(trim(value));
    lemma_position(e, p);
    if 0 <= i < e.len() && e[i].id == Some(trim(value)) {
        assert(p(e[i]));
    }
}

/// The kernel of the entry whose label came last; the other entries stay as
/// they are, and so does the default.
pub proof fn law_kernel_line(
    t: Seq<char>,
    key: Seq<char>,
    c: char,
    value: Seq<char>,
    base: Seq<char>,
)
    requires
        whole_lines(t),
        is_line(key, c, value),
        lower(key) == "kernel"@ || lower(key) == "linux"@,
        extlinux_scan(t, base).entries.len() > 0,
    ensures
        ({
            let before = extlinux_scan(t, base);
            let after = extlinux_scan(with_line(t, key, c, value), base);
            &&& after.entries == before.entries.drop_last().push(
                EntryView { kernel: Some(file_of(base, trim(value))), ..before.entries.last() },
            )
            &&& after.default == before.default
        }),
{
    reveal_strlit("label");
    reveal_strlit("default");
    reveal_strlit("kernel");
    reveal_strlit("linux");
    assert("label"@[1] == 'a' && "default"@[0] == 'd' && "kernel"@[0] == 'k' && "linux"@[1] == 'i');
    assert("kernel"@.len() == 6 && "label"@.len() == 5 && "linux"@.len() == 5);
    lemma_line_is_read(t, key, c, value, base);
    lemma_no_label_yet(lines(t), base);
    lemma_file_of(base, trim(value));
    let st = conf_lines(lines(t), base);
    let before = extlinux_scan(t, base);
    let after = extlinux_scan(with_line(t, key, c, value), base);
    assert(before.entries.drop_last() =~= st.entries);
    lemma_same_labels(before.entries, after.entries, st.default_label);
}

/// The `initrd` lines of an entry add up: one more keeps what was there and
/// adds each piece of its comma-separated list behind it.
pub proof fn law_initrd_lines_add_up(
    t: Seq<char>,
    key: Seq<char>,
    c: char,
    value: Seq<char>,
    base: Seq<char>,
)
    requires
        whole_lines(t),
        is_line(key, c, value),
        lower(key) == "initrd"@,
        extlinux_scan(t, base).entries.len() > 0,
    ensures
        ({
            let before = extlinux_scan(t, base);
            let after = extlinux_scan(with_line(t, key, c, value), base);
            let pieces = split(trim(value), ',');
            &&& after.entries == before.entries.drop_last().push(
                EntryView {
                    initrd: before.entries.last().initrd + Seq::new(
                        pieces.len(),
                        |i: int| file_of(base, trim(pieces[i])),
                    ),
                    ..before.entries.last()
                },
            )
            &&& after.default == before.default
        }),
{
    reveal_strlit("label");
    reveal_strlit("default");
    reveal_strlit("kernel");
    reveal_strlit("linux");
    reveal_strlit("initrd");
    assert("label"@[0] == 'l' && "default"@[0] == 'd' && "kernel"@[0] == 'k' && "linux"@[0] == 'l');
    assert("initrd"@[0] == 'i');
    lemma_line_is_read(t, key, c, value, base);
    lemma_no_label_yet(lines(t), base);
    let st = conf_lines(lines(t), base);
    let before = extlinux_scan(t, base);
    let after = extlinux_scan(with_line(t, key, c, value), base);
    let pieces = split(trim(value), ',');
    assert(before.entries.drop_last() =~= st.entries);
    assert forall|i: int| 0 <= i < pieces.len() implies #[trigger] resolve_spec(base, trim(pieces[i]))
        == file_of(base, trim(pieces[i])) by {
        lemma_file_of(base, trim(pieces[i]));
    }
    assert(path_list(base, trim(value)) =~= Seq::new(
        pieces.len(),
        |i: int| file_of(base, trim(pieces[i])),
    ));
    lemma_same_labels(before.entries, after.entries, st.default_label);
}

/// An `append` line gives the command line: its words in order, without those
/// that name an initrd, which are added to the list of initrds.
pub proof fn law_append_line(
    t: Seq<char>,
    key: Seq<char>,
    c: char,
    value: Seq<char>,
    base: Seq<char>,
)
    requires
        whole_lines(t),
        is_line(key, c, value),
        lower(key) == "append"@,
        extlinux_scan(t, base).entries.len() > 0,
    ensures
        ({
            let before = extlinux_scan(t, base);
            let after = extlinux_scan(with_line(t, key, c, value), base);
            let kept = words(value).filter(|w: Seq<char>| !starts_with(w, "initrd="@));
            &&& after.entries == before.entries.drop_last().push(
                EntryView {
                    initrd: before.entries.last().initrd + lifted_initrds(base, words(value)),
                    cmdline: if kept.len() > 0 {
                        Some(join(kept, seq![' ']))
                    } else {
                        before.entries.last().cmdline
                    },
                    ..before.entries.last()
                },
            )
            &&& after.default == before.default
        }),
{
    reveal_strlit("label");
    reveal_strlit("default");
    reveal_strlit("kernel");
    reveal_strlit("linux");
    reveal_strlit("initrd");
    reveal_strlit("append");
    reveal_strlit(" ");
    assert(" "@ =~= seq![' ']);
    assert("label"@[0] == 'l' && "default"@[0] == 'd' && "kernel"@[0] == 'k' && "linux"@[0] == 'l');
    assert("initrd"@[0] == 'i' && "append"@[0] == 'a');
    lemma_line_is_read(t, key, c, value, base);
    lemma_no_label_yet(lines(t), base);
    lemma_words_of_trim(value);
    lemma_kernel_words(words(value));
    let st = conf_lines(lines(t), base);
    let before = extlinux_scan(t, base);
    let after = extlinux_scan(with_line(t, key, c, value), base);
    assert(before.entries.drop_last() =~= st.entries);
    lemma_same_labels(before.entries, after.entries, st.default_label);
}

proof fn lemma_kernel_words(ws: Seq<Seq<char>>)
    ensures
        kernel_words(ws) == ws.filter(|w: Seq<char>| !starts_with(w, "initrd="@)),
    decreases ws.len(),
{
    reveal(Seq::filter);
    if ws.len() > 0 {
        lemma_kernel_words(ws.drop_last());
    } else {
        assert(kernel_words(ws) =~= Seq::<Seq<char>>::empty());
    }
}

/// The initrds of an `append` line are those of its `initrd=` words, in order:
/// a word `initrd=LIST` adds the files of its comma-separated list, and any
/// other word none.
pub proof fn law_initrd_words_add_up(
    base: Seq<char>,
    ws: Seq<Seq<char>>,
    w: Seq<char>,
    list: Seq<char>,
)
    requires
        w.len() < 7 || w.take(7) != seq!['i', 'n', 'i', 't', 'r', 'd', '='],
    ensures
        lifted_initrds(base, ws.push(w)) == lifted_initrds(base, ws),
        lifted_initrds(base, ws.push(seq!['i', 'n', 'i', 't', 'r', 'd', '='] + list))
            == lifted_initrds(base, ws) + Seq::new(
            split(list, ',').len(),
            |i: int| file_of(base, split(list, ',')[i]),
        ),
        lifted_initrds(base, seq![]) == Seq::<Seq<char>>::empty(),
{
    reveal_strlit("initrd=");
    let p = seq!['i', 'n', 'i', 't', 'r', 'd', '='];
    assert("initrd="@ =~= p);
    let a = ws.push(w);
    let b = ws.push(p + list);
    assert(a.drop_last() =~= ws);
    assert(b.drop_last() =~= ws);
    law_strip_prefix(p, list);
    assert forall|i: int| 0 <= i < split(list, ',').len() implies #[trigger] resolve_spec(
        base,
        split(list, ',')[i],
    ) == file_of(base, split(list, ',')[i]) by {
        lemma_file_of(base, split(list, ',')[i]);
    }
    assert(word_list(base, list) =~= Seq::new(
        split(list, ',').len(),
        |i: int| file_of(base, split(list, ',')[i]),
    ));
}

/// Before the first label, and with another keyword, a line changes nothing
/// but the default.
pub proof fn law_other_lines_are_skipped(
    t: Seq<char>,
    key: Seq<char>,
    c: char,
    value: Seq<char>,
    base: Seq<char>,
)
    requires
        whole_lines(t),
        is_line(key, c, value),
        lower(key) != "label"@,
        lower(key) != "default"@,
        extlinux_scan(t, base).entries.len() == 0 || (lower(key) != "kernel"@ && lower(key)
            != "linux"@ && lower(key) != "initrd"@ && lower(key) != "append"@),
    ensures
        extlinux_scan(with_line(t, key, c, value), base) == extlinux_scan(t, base),
{
    lemma_line_is_read(t, key, c, value, base);
}

/// Relative paths start at the directory that holds the config.
pub proof fn law_directory_of_the_config(dir: Seq<char>, name: Seq<char>)
    requires
        !name.contains('/'),
    ensures
        dir_of(dir + seq!['/'] + name) == dir,
        dir_of(name) == Seq::<char>::empty(),
{
    law_rsplit_once(dir, '/', name);
}

} // verus!
