//! What the commands choose and how they write it.

use crate::boot::{EntryView, ScanView, Source};
use crate::cli::json::{
    json_body, json_bool, json_char, json_entry, json_opt, json_opt_bool, json_size, json_sizes,
    json_string, json_uris, FactsView,
};
use crate::cli::listing::{before, by_name, law_listing_is_sorted, left, listing_line, right};
use crate::cli::report::{entry_notes, entry_text, headline, label_of, scan_text};
use crate::cli::select::{best, file_in, has_config, has_entry, listings_from, uri_target};
use crate::cli::shell::{
    asked, located, numbers, place_of, used, with_newline, OutcomeView, RequestView, ShellView,
};
use crate::fsys::{DirEntryView, FileKind, FileSystem};
use crate::guest::uri_of;
use crate::part::Partition;
use crate::seqs::lemma_position;
use crate::text::laws::{law_split_once, law_strip_prefix};
use crate::text::number::{dec, hex_digit, hex_pad, law_hex_reads_back, lemma_dec_reads_back};
use crate::text::split::{join, starts_with, trim_start_char};
use crate::text::{lemma_first_is, not_eq_to};
use vstd::prelude::*;
use vstd::string::*;

verus! {

// ---------------------------------------------------------------------
// Choosing
// ---------------------------------------------------------------------

/// The first partition with an entry of a config is the one to boot from, and
/// without any the first with an entry.
pub proof fn law_first_config_counts(scans: Seq<ScanView>, i: int, k: int)
    requires
        0 <= i < scans.len(),
    ensures
        0 <= k < scans[i].entries.len() && scans[i].entries[k].source != Source::Fallback && (forall|
            j: int,
            m: int,
        |
            0 <= j < i && 0 <= m < (#[trigger] scans[j]).entries.len()
                ==> (#[trigger] scans[j].entries[m]).source == Source::Fallback) ==> best(scans)
            == Some(i),
        scans[i].entries.len() > 0 && (forall|j: int|
            0 <= j < i ==> (#[trigger] scans[j]).entries.len() == 0) && (forall|j: int, m: int|
            0 <= j < scans.len() && 0 <= m < (#[trigger] scans[j]).entries.len()
                ==> (#[trigger] scans[j].entries[m]).source == Source::Fallback) ==> best(scans)
            == Some(i),
{
    let c = has_config();
    let e = has_entry();
    lemma_position(scans, c);
    lemma_position(scans, e);
    if 0 <= k < scans[i].entries.len() && scans[i].entries[k].source != Source::Fallback {
        assert(c(scans[i]));
    }
    if scans[i].entries.len() > 0 {
        assert(e(scans[i]));
    }
}

/// A file is read from the first filesystem that has it.
pub proof fn law_first_file_counts<F: FileSystem>(
    fss: Seq<(Partition, F)>,
    p: (Partition, F),
    path: Seq<char>,
)
    ensures
        file_in(seq![p] + fss, path) == (match p.1.file(path) {
            Some(d) => Some(d),
            None => file_in(fss, path),
        }),
        file_in::<F>(seq![], path) is None,
{
    let all = seq![p] + fss;
    assert(all.drop_first() =~= fss);
    assert(all[0] == p);
}

/// A directory is listed where it can be: on the first filesystem, or on every
/// one of them.
pub proof fn law_listings_in_order<F: FileSystem>(
    fss: Seq<(Partition, F)>,
    i: int,
    path: Seq<char>,
)
    requires
        0 <= i < fss.len(),
    ensures
        fss[i].1.listing(path) is None ==> listings_from(fss, i, path, true) == listings_from(
            fss,
            i + 1,
            path,
            true,
        ) && listings_from(fss, i, path, false) == listings_from(fss, i + 1, path, false),
        fss[i].1.listing(path) matches Some(l) ==> listings_from(fss, i, path, true) == seq![(i, l)]
            && listings_from(fss, i, path, false) == seq![(i, l)] + listings_from(
            fss,
            i + 1,
            path,
            false,
        ),
        listings_from(fss, fss.len() as int, path, true).len() == 0,
{
}

/// `pN:PATH` is a path of partition N, made absolute; what has no such number
/// is a path on its own.
pub proof fn law_uri_parts(n: nat, path: Seq<char>, bare: Seq<char>)
    requires
        n <= usize::MAX,
        bare.len() == 0 || bare[0] != 'p' || !bare.contains(':'),
    ensures
        uri_target(seq!['p'] + dec(n) + seq![':'] + path) == (
            Some(n as int),
            if path.len() > 0 && path[0] == '/' {
                path
            } else {
                seq!['/'] + path
            },
        ),
        uri_target(bare) == (None::<int>, bare),
{
    reveal_strlit("p");
    reveal_strlit("/");
    assert("p"@ =~= seq!['p']);
    assert("/"@ =~= seq!['/']);
    let d = dec(n);
    lemma_dec_reads_back(n);
    if d.contains(':') {
        let i = choose|i: int| 0 <= i < d.len() && d[i] == ':';
        assert('0' <= d[i] <= '9');
    }
    let rest = d + seq![':'] + path;
    law_strip_prefix("p"@, rest);
    assert(seq!['p'] + d + seq![':'] + path =~= seq!['p'] + rest);
    law_split_once(d, ':', path);
    if starts_with(bare, "p"@) {
        assert(bare.take(1)[0] == 'p');
        let r = bare.skip(1);
        if r.contains(':') {
            let i = choose|i: int| 0 <= i < r.len() && r[i] == ':';
            assert(bare[i + 1] == ':');
        }
        law_split_once(r, ':', seq![]);
    }
}

// ---------------------------------------------------------------------
// Listings
// ---------------------------------------------------------------------

/// Names go by their first characters that differ, and a name that another one
/// begins with comes before it.
pub proof fn law_names_go_by_the_dictionary(
    p: Seq<char>,
    x: char,
    y: char,
    s: Seq<char>,
    t: Seq<char>,
)
    requires
        x as u32 != y as u32,
    ensures
        before(p + seq![x] + s, p + seq![y] + t) <==> (x as u32) < (y as u32),
        before(p, p + seq![x] + s),
        !before(p + seq![x] + s, p),
    decreases p.len(),
{
    reveal(before);
    let a = p + seq![x] + s;
    let b = p + seq![y] + t;
    if p.len() > 0 {
        let q = p.drop_first();
        law_names_go_by_the_dictionary(q, x, y, s, t);
        assert(a.drop_first() =~= q + seq![x] + s);
        assert(b.drop_first() =~= q + seq![y] + t);
        assert(a[0] == p[0] && b[0] == p[0]);
    } else {
        assert(a[0] == x && b[0] == y);
    }
}

/// An entry that comes before none of the others goes last, also where another
/// one has its name.
pub proof fn law_same_names_stay_in_order(s: Seq<DirEntryView>, e: DirEntryView)
    requires
        forall|i: int| 0 <= i < s.len() ==> !before(e.name, (#[trigger] s[i]).name),
    ensures
        by_name(s.push(e)) == by_name(s).push(e),
{
    law_listing_is_sorted(s);
    let r = by_name(s);
    let all = s.push(e);
    assert(all.drop_last() =~= s);
    assert(all.last() == e);
    if r.len() > 0 {
        let last = r.last();
        r.to_multiset_ensures();
        s.to_multiset_ensures();
        assert(r.contains(r[r.len() - 1]));
        assert(s.to_multiset().count(last) > 0);
        assert(s.contains(last));
        let i = choose|i: int| 0 <= i < s.len() && s[i] == last;
        assert(!before(e.name, s[i].name));
    }
}

/// A column is filled with blanks up to its width, in front of the text or
/// behind it, and a text that is wider is not cut.
pub proof fn law_columns(s: Seq<char>, width: nat)
    ensures
        right(s, width).len() == (if s.len() < width {
            width
        } else {
            s.len()
        }),
        left(s, width).len() == right(s, width).len(),
        right(s, width).skip(right(s, width).len() - s.len()) == s,
        left(s, width).take(s.len() as int) == s,
        forall|i: int|
            0 <= i < right(s, width).len() - s.len() ==> #[trigger] right(s, width)[i] == ' ',
        forall|i: int| s.len() <= i < left(s, width).len() ==> #[trigger] left(s, width)[i] == ' ',
{
    assert(right(s, width).skip(right(s, width).len() - s.len()) =~= s);
    assert(left(s, width).take(s.len() as int) =~= s);
}

/// A line of a listing is the size in twelve columns, two blanks, the name,
/// and a mark for a directory or a link.
pub proof fn law_listing_line(e: DirEntryView)
    ensures
        listing_line(e) == right(dec(e.size as nat), 12) + seq![' ', ' '] + e.name + (match e.kind {
            FileKind::Dir => seq!['/'],
            FileKind::Symlink => seq!['@'],
            _ => seq![],
        }),
{
    reveal_strlit("  ");
    reveal_strlit("/");
    reveal_strlit("@");
    reveal_strlit("");
    assert("  "@ =~= seq![' ', ' ']);
    assert("/"@ =~= seq!['/']);
    assert("@"@ =~= seq!['@']);
    assert(""@ =~= Seq::<char>::empty());
}

// ---------------------------------------------------------------------
// Reports
// ---------------------------------------------------------------------

/// An entry is called by its title, else by its version, else by its id.
pub proof fn law_what_an_entry_is_called(e: EntryView)
    ensures
        e.title matches Some(t) ==> label_of(e) == t,
        e.title is None ==> (e.version matches Some(v) ==> label_of(e) == v),
        e.title is None && e.version is None ==> (e.id matches Some(i) ==> label_of(e) == i),
        e.title is None && e.version is None && e.id is None ==> label_of(e) == "(untitled)"@,
{
}

/// An entry is headed by its number from 1 on, what it is called and where it
/// comes from; the default has a star in front.
pub proof fn law_headline(i: nat, e: EntryView)
    ensures
        headline(i, true, e) == "* ["@ + dec(i + 1) + "] "@ + label_of(e) + " ("@ + e.source.name()
            + ")"@,
        headline(i, false, e) == "  ["@ + dec(i + 1) + "] "@ + label_of(e) + " ("@ + e.source.name()
            + ")"@,
{
}

/// The lines of an entry: the kernel, the initrds in order, the command line
/// and its rewritten form.
pub proof fn law_lines_of_an_entry(part: nat, e: EntryView, fixed: Seq<char>)
    ensures
        ({
            let text = entry_text(part, e, Some(fixed));
            let k: int = if e.kernel is Some {
                1
            } else {
                0
            };
            let n = e.initrd.len() as int;
            &&& e.kernel matches Some(p) ==> text[0] == "      kernel:  "@ + uri_of(part, p)
            &&& forall|i: int|
                0 <= i < n ==> text[k + i] == "      initrd:  "@ + uri_of(part, #[trigger] e.initrd[i])
            &&& e.cmdline matches Some(c) ==> text.len() == k + n + 2 && text[k + n]
                == "      cmdline: "@ + c && text[k + n + 1] == "      vdafix:  "@ + fixed
            &&& e.cmdline is None ==> text.len() == k + n
        }),
{
}

/// The entries of a partition are written in order, and the one that is the
/// default is marked.
pub proof fn law_entries_in_order(part: nat, s: ScanView, n: nat)
    ensures
        scan_text(part, s, n + 1) == scan_text(part, s, n) + (seq![
            headline(n, s.default == Some(n as int), s.entries[n as int]),
        ] + entry_text(part, s.entries[n as int], None)),
        scan_text(part, s, 0) == Seq::<Seq<char>>::empty(),
{
    let e = s.entries[n as int];
    let head = seq![headline(n, s.default == Some(n as int), e)];
    assert(entry_notes(None, None) =~= Seq::<Seq<char>>::empty());
    assert(head + entry_text(part, e, None) + Seq::<Seq<char>>::empty() =~= head + entry_text(
        part,
        e,
        None,
    ));
}

/// A kernel that cannot do virtio in a protected VM, and one that is wrapped,
/// are noted; where neither is known there is no note.
pub proof fn law_notes()
    ensures
        entry_notes(None, None).len() == 0,
        entry_notes(None, Some(true)).len() == 0,
        entry_notes(None, Some(false)) == seq![
            "      note: kernel lacks CONFIG_DMA_RESTRICTED_POOL; virtio fails under a protected VM"@,
        ],
{
    assert(entry_notes(None, Some(false)) =~= seq![
        "      note: kernel lacks CONFIG_DMA_RESTRICTED_POOL; virtio fails under a protected VM"@,
    ]);
}

// ---------------------------------------------------------------------
// JSON
// ---------------------------------------------------------------------

/// Quotes, backslashes and control characters are escaped; every other
/// character stands for itself.
pub proof fn law_json_characters(c: char)
    ensures
        json_char('"') == seq!['\\', '"'],
        json_char('\\') == seq!['\\', '\\'],
        json_char('\n') == seq!['\\', 'n'],
        json_char('\r') == seq!['\\', 'r'],
        json_char('\t') == seq!['\\', 't'],
        (c as u32) < 32 && c != '\n' && c != '\r' && c != '\t' ==> json_char(c) == seq![
            '\\',
            'u',
            '0',
            '0',
            hex_digit((c as u32 / 16) as int),
            hex_digit((c as u32 % 16) as int),
        ],
        (c as u32) >= 32 && c != '"' && c != '\\' ==> json_char(c) == seq![c],
{
    if (c as u32) < 32 && c != '\n' && c != '\r' && c != '\t' {
        let n = c as nat;
        law_hex_reads_back(n);
        law_hex_reads_back(n / 16);
        assert(hex_pad(n, 4) =~= seq!['0', '0', hex_digit((n / 16) as int), hex_digit((n % 16) as int)]);
        assert(json_char(c) =~= seq![
            '\\',
            'u',
            '0',
            '0',
            hex_digit((c as u32 / 16) as int),
            hex_digit((c as u32 % 16) as int),
        ]);
    }
}

/// A text is written character by character, between quotes; what is missing
/// is `null`.
pub proof fn law_json_text(c: char, s: Seq<char>)
    ensures
        json_body(seq![c] + s) == json_char(c) + json_body(s),
        json_body(seq![]) == Seq::<char>::empty(),
        json_opt(Some(s)) == seq!['"'] + json_body(s) + seq!['"'],
        json_opt(None) == "null"@,
        json_bool(true) == "true"@,
        json_bool(false) == "false"@,
        json_opt_bool(None) == "null"@,
        json_size(None) == "null"@,
{
    let t = seq![c] + s;
    assert(t.drop_first() =~= s);
}

/// An entry is an object with these keys, in this order.
pub proof fn law_json_entry(
    part: nat,
    is_default: bool,
    e: EntryView,
    fixed: Option<Seq<char>>,
    f: FactsView,
)
    requires
        f.kernel_compression is None,
    ensures
        json_entry(part, is_default, e, fixed, f) == "{\"partition\":"@ + dec(part) + ",\"default\":"@ + (
        if is_default {
            "true"@
        } else {
            "false"@
        }) + ",\"source\":"@ + json_string(e.source.name()) + ",\"title\":"@ + json_opt(e.title)
            + ",\"version\":"@ + json_opt(e.version) + ",\"id\":"@ + json_opt(e.id) + ",\"kernel\":"@ + (
        match e.kernel {
            Some(k) => json_string(uri_of(part, k)),
            None => "null"@,
        }) + ",\"kernel_size\":"@ + json_size(f.kernel_size) + ",\"initrd\":["@ + join(
            Seq::new(e.initrd.len(), |i: int| json_string(uri_of(part, e.initrd[i]))),
            ","@,
        ) + "],\"initrd_size\":["@ + join(
            Seq::new(f.initrd_size.len(), |i: int| json_size(f.initrd_size[i])),
            ","@,
        ) + "],\"cmdline\":"@ + json_opt(e.cmdline) + ",\"cmdline_fixed\":"@ + json_opt(fixed)
            + ",\"dma_restricted_pool\":"@ + (match f.dma_restricted_pool {
            Some(true) => "true"@,
            Some(false) => "false"@,
            None => "null"@,
        }) + ",\"kernel_compression\":"@ + "null"@ + "}"@,
{
    assert(json_uris(part, e.initrd) =~= Seq::new(
        e.initrd.len(),
        |i: int| json_string(uri_of(part, e.initrd[i])),
    ));
    assert(json_sizes(f.initrd_size) =~= Seq::new(
        f.initrd_size.len(),
        |i: int| json_size(f.initrd_size[i]),
    ));
}

// ---------------------------------------------------------------------
// The shell
// ---------------------------------------------------------------------

/// What the commands are called, and what they take.
pub proof fn law_commands(a: Seq<char>, b: Seq<char>)
    ensures
        asked(seq![]) == RequestView::Nothing,
        asked(seq!["help"@]) == RequestView::Help,
        asked(seq!["?"@]) == RequestView::Help,
        asked(seq!["exit"@]) == RequestView::Quit,
        asked(seq!["quit"@]) == RequestView::Quit,
        asked(seq!["q"@]) == RequestView::Quit,
        asked(seq!["parts"@]) == RequestView::Parts,
        asked(seq!["pwd"@]) == RequestView::Pwd,
        asked(seq!["boot"@]) == RequestView::Boot,
        asked(seq!["entries"@]) == RequestView::Boot,
        asked(seq!["use"@, a]) == RequestView::Use(a),
        asked(seq!["cd"@, a]) == RequestView::Cd(a),
        asked(seq!["cd"@]) == RequestView::Cd("/"@),
        asked(seq!["ls"@, a]) == RequestView::Ls(a),
        asked(seq!["ls"@]) == RequestView::Ls("."@),
        asked(seq!["cat"@, a]) == RequestView::Cat(a),
        asked(seq!["cp"@, a, b]) == RequestView::Cp(a, b),
        asked(seq!["use"@]) is Usage,
        asked(seq!["cat"@]) is Usage,
        asked(seq!["cp"@, a]) is Usage,
{
    reveal_strlit("help");
    reveal_strlit("?");
    reveal_strlit("exit");
    reveal_strlit("quit");
    reveal_strlit("q");
    reveal_strlit("parts");
    reveal_strlit("use");
    reveal_strlit("pwd");
    reveal_strlit("cd");
    reveal_strlit("ls");
    reveal_strlit("cat");
    reveal_strlit("cp");
    reveal_strlit("boot");
    reveal_strlit("entries");
    assert("help"@[0] == 'h' && "?"@[0] == '?' && "exit"@[0] == 'e' && "quit"@[0] == 'q' && "q"@.len() == 1);
    assert("parts"@[0] == 'p' && "parts"@[1] == 'a' && "use"@[0] == 'u' && "pwd"@[0] == 'p' && "pwd"@[1]
        == 'w');
    assert("cd"@[0] == 'c' && "cd"@[1] == 'd' && "ls"@[0] == 'l' && "cat"@[1] == 'a' && "cat"@[0] == 'c'
        && "cp"@[0] == 'c' && "cp"@[1] == 'p');
    assert("boot"@[0] == 'b' && "entries"@[0] == 'e' && "entries"@[1] == 'n' && "exit"@[1] == 'x');
    assert("quit"@.len() == 4 && "help"@.len() == 4);
}

/// A path with a partition leads there, and one without stays on the current
/// partition and starts at the current directory.
pub proof fn law_where_a_path_leads<F>(
    fss: Seq<(Partition, F)>,
    st: ShellView,
    n: nat,
    path: Seq<char>,
    bare: Seq<char>,
    i: int,
)
    requires
        n <= usize::MAX,
        path.len() > 0,
        path[0] == '/',
        bare.len() == 0 || bare[0] != 'p' || !bare.contains(':'),
    ensures
        0 <= i < fss.len() && fss[i].0.index == n && (forall|j: int|
            0 <= j < i ==> (#[trigger] fss[j]).0.index != n) ==> located(
            fss,
            st,
            seq!['p'] + dec(n) + seq![':'] + path,
        ) == Ok::<_, Seq<char>>((i, crate::cli::paths::resolved("/"@, path))),
        (forall|j: int| 0 <= j < fss.len() ==> (#[trigger] fss[j]).0.index != n) ==> located(
            fss,
            st,
            seq!['p'] + dec(n) + seq![':'] + path,
        ) is Err,
        located(fss, st, bare) == Ok::<_, Seq<char>>(
            (st.current, crate::cli::paths::resolved(st.cwd, bare)),
        ),
{
    law_uri_parts(n, path, bare);
    lemma_place(fss, n as int, i);
}

proof fn lemma_place<F>(fss: Seq<(Partition, F)>, n: int, i: int)
    ensures
        0 <= i < fss.len() && fss[i].0.index == n && (forall|j: int|
            0 <= j < i ==> (#[trigger] fss[j]).0.index != n) ==> place_of(fss, n) == Some(i),
        (forall|j: int| 0 <= j < fss.len() ==> (#[trigger] fss[j]).0.index != n) ==> place_of(fss, n)
            is None,
{
    let ns = numbers(fss);
    let p = crate::cli::shell::is_number(n);
    lemma_position(ns, p);
    if 0 <= i < fss.len() && fss[i].0.index == n {
        assert(p(ns[i]));
        assert forall|j: int| 0 <= j < i && (forall|j: int|
            0 <= j < i ==> (#[trigger] fss[j]).0.index != n) implies !p(#[trigger] ns[j]) by {
            assert(fss[j].0.index != n);
        }
    }
    if forall|j: int| 0 <= j < fss.len() ==> (#[trigger] fss[j]).0.index != n {
        assert forall|j: int| 0 <= j < ns.len() implies !p(#[trigger] ns[j]) by {
            assert(fss[j].0.index != n);
        }
    }
}

/// `use N` and `use pN` go to the root of partition N, where it can be read.
pub proof fn law_use<F>(fss: Seq<(Partition, F)>, st: ShellView, n: nat, i: int)
    requires
        n <= usize::MAX,
    ensures
        used(fss, st, seq!['p'] + dec(n)) == used(fss, st, dec(n)),
        0 <= i < fss.len() && fss[i].0.index == n && (forall|j: int|
            0 <= j < i ==> (#[trigger] fss[j]).0.index != n) ==> used(fss, st, dec(n)) == (
            ShellView { current: i, cwd: "/"@ },
            OutcomeView::Silent,
        ),
        (forall|j: int| 0 <= j < fss.len() ==> (#[trigger] fss[j]).0.index != n) ==> used(
            fss,
            st,
            dec(n),
        ).0 == st,
{
    let d = dec(n);
    lemma_dec_reads_back(n);
    assert('0' <= d[0] <= '9');
    lemma_first_is(d, not_eq_to('p'), 0);
    assert(trim_start_char(d, 'p') =~= d);
    let t = seq!['p'] + d;
    assert(t[1] == d[0]);
    lemma_first_is(t, not_eq_to('p'), 1);
    assert(trim_start_char(t, 'p') =~= d);
    lemma_place(fss, n as int, i);
}

/// What is shown of a file ends in a newline, and is else as it was.
pub proof fn law_shown_with_a_newline(b: Seq<u8>)
    ensures
        with_newline(b + seq![10u8]) == b + seq![10u8],
        b.len() == 0 || b.last() != 10 ==> with_newline(b) == b + seq![10u8],
{
    assert((b + seq![10u8]).last() == 10);
    assert(b.push(10) =~= b + seq![10u8]);
}

} // verus!
