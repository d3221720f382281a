//! grub.cfg parsing.
//!
//! Not a GRUB shell interpreter - we extract the literal structure that
//! grub-mkconfig emits: `menuentry`/`submenu` blocks, `linux*`/`initrd*`
//! lines, `set default=`, and the `blscfg` marker (Fedora/RHEL: entries
//! live in BLS files, grub.cfg is a shim). The only variables expanded
//! are the grubenv ones (`saved_entry`, `kernelopts`, `tuned_params`, ...);
//! unknown variables expand to empty.

use crate::boot::grubenv::Env;
use crate::boot::expand::{expand, expand_spec};
use crate::boot::{all_from, blank_entry, BootEntry, EntryView, Source};
use crate::error::Result;
use crate::fsys::{may_read, FileSystem};
use crate::seqs::{index, lemma_position, or, position, position_by, views};
use crate::text::number::{parse_unsigned, parse_usize};
use crate::text::split::{
    after_prefix, begins, cut, ends, ends_char, join, lines, pieces, split, split_once, starts_char,
    strip_prefix, text_lines, trim, trimmed,
};
use crate::text::{
    chars, is_str, is_white, lossy, opt, opt_is, skip, string, texts, utf8_lossy, white,
};
use vstd::prelude::*;
use vstd::string::*;

verus! {

broadcast use vstd::seq_lib::group_seq_properties;

pub struct GrubScan {
    pub entries: Vec<BootEntry>,
    /// Index into `entries` of the default menu entry.
    pub default: Option<usize>,
    /// `blscfg` seen: the real entries are in /loader/entries.
    pub uses_bls: bool,
}

/// What a [`GrubScan`] says.
pub struct GrubView {
    pub entries: Seq<EntryView>,
    pub default: Option<int>,
    pub uses_bls: bool,
}

impl View for GrubScan {
    type V = GrubView;

    open spec fn view(&self) -> GrubView {
        GrubView {
            entries: views(self.entries@),
            default: index(self.default),
            uses_bls: self.uses_bls,
        }
    }
}

/// A menu entry with its place in the menu.
struct RawEntry {
    entry: BootEntry,
    /// Position among top-level menu items (submenu counts as one item).
    top: usize,
    /// Position inside its submenu, if any.
    sub: Option<usize>,
}

/// What a menu entry with its place in the menu says.
pub struct RawView {
    pub entry: EntryView,
    pub top: int,
    pub sub: Option<int>,
}

impl View for RawEntry {
    type V = RawView;

    closed spec fn view(&self) -> RawView {
        RawView { entry: self.entry@, top: self.top as int, sub: index(self.sub) }
    }
}

/// A `submenu` block, so a `default` path can name it by id or title.
struct RawSubmenu {
    top: usize,
    id: Option<String>,
    title: Option<String>,
}

/// What is known of a `submenu` block.
pub struct SubmenuView {
    pub top: int,
    pub id: Option<Seq<char>>,
    pub title: Option<Seq<char>>,
}

impl View for RawSubmenu {
    type V = SubmenuView;

    closed spec fn view(&self) -> SubmenuView {
        SubmenuView { top: self.top as int, id: opt(self.id), title: opt(self.title) }
    }
}

// ---------------------------------------------------------------------
// Words and paths
// ---------------------------------------------------------------------

/// The words still to come: `cur` has been read of the current one, and the
/// two flags say inside which quotes `s` begins.
pub open spec fn quoted_words(s: Seq<char>, cur: Seq<char>, single: bool, double: bool) -> Seq<
    Seq<char>,
>
    decreases s.len(),
{
    if s.len() == 0 {
        if cur.len() > 0 {
            seq![cur]
        } else {
            seq![]
        }
    } else if s[0] == '\'' && !double {
        quoted_words(s.skip(1), cur, !single, double)
    } else if s[0] == '"' && !single {
        quoted_words(s.skip(1), cur, single, !double)
    } else if is_white(s[0]) && !single && !double {
        if cur.len() > 0 {
            seq![cur] + quoted_words(s.skip(1), seq![], single, double)
        } else {
            quoted_words(s.skip(1), seq![], single, double)
        }
    } else {
        quoted_words(s.skip(1), cur.push(s[0]), single, double)
    }
}

/// Shell-ish word split honoring single/double quotes (quotes stripped).
fn split_words(line: &[char]) -> (r: Vec<Vec<char>>)
    ensures
        views(r@) == quoted_words(line@, seq![], false, false),
{
    let mut out: Vec<Vec<char>> = Vec::new();
    let mut cur: Vec<char> = Vec::new();
    let mut single: bool = false;
    let mut double: bool = false;
    let mut i: usize = 0;
    let ghost all = quoted_words(line@, seq![], false, false);
    proof {
        assert(line@.skip(0) =~= line@);
        assert(cur@ =~= Seq::<char>::empty());
        assert(views(out@) + all =~= all);
    }
    while i < line.len()
        invariant
            i <= line@.len(),
            views(out@) + quoted_words(line@.skip(i as int), cur@, single, double) == all,
        decreases line@.len() - i,
    {
        let c: char = line[i];
        let ghost before = out@;
        let ghost cur0 = cur@;
        assert(line@.skip(i as int)[0] == c);
        assert(line@.skip(i as int).skip(1) =~= line@.skip(i + 1));
        if c == '\'' && !double {
            single = !single;
        } else if c == '"' && !single {
            double = !double;
        } else if white(c) && !single && !double {
            if cur.len() > 0 {
                let word = cur;
                cur = Vec::new();
                out.push(word);
                proof {
                    assert(cur@ =~= Seq::<char>::empty());
                    assert(views(out@) =~= views(before).push(cur0));
                    assert(views(before) + (seq![cur0] + quoted_words(
                        line@.skip(i + 1),
                        seq![],
                        single,
                        double,
                    )) =~= views(out@) + quoted_words(line@.skip(i + 1), seq![], single, double));
                }
            } else {
                assert(cur@ =~= Seq::<char>::empty());
            }
        } else {
            cur.push(c);
        }
        i = i + 1;
    }
    let ghost before = out@;
    let ghost cur0 = cur@;
    assert(line@.skip(i as int).len() == 0);
    if cur.len() > 0 {
        out.push(cur);
        assert(views(out@) =~= views(before) + seq![cur0]);
    } else {
        assert(views(out@) =~= views(before) + Seq::<Seq<char>>::empty());
    }
    out
}

/// `p` without a `(device)` in front, made absolute.
pub open spec fn clean_path_spec(p: Seq<char>) -> Seq<char> {
    let q = if starts_char(p, '(') {
        match split_once(p.skip(1), ')') {
            Some((_, path)) => path,
            None => p.skip(1),
        }
    } else {
        p
    };
    if starts_char(q, '/') {
        q
    } else {
        seq!['/'] + q
    }
}

/// Strip a `(hd0,gpt2)` / `($root)` device prefix and force `/`-absolute.
fn clean_path(p: &[char]) -> (r: String)
    ensures
        r@ == clean_path_spec(p@),
{
    let q = if begins(p, '(') {
        let rest = skip(p, 1);
        match cut(rest, ')') {
            Some((_, path)) => path,
            None => rest,
        }
    } else {
        p
    };
    let mut out: String = String::new();
    if !begins(q, '/') {
        out.push('/');
    }
    crate::text::push_chars(&mut out, q);
    assert(out@ =~= clean_path_spec(p@));
    out
}

// ---------------------------------------------------------------------
// The menu
// ---------------------------------------------------------------------

/// How far a menu has been read.
pub struct MenuView {
    pub raw: Seq<RawView>,
    pub submenus: Seq<SubmenuView>,
    pub default_spec: Option<Seq<char>>,
    pub uses_bls: bool,
    /// How many blocks are open.
    pub depth: int,
    pub top_count: int,
    /// (depth at which the submenu opened, its top index, next child index)
    pub submenu: Option<(int, int, int)>,
    /// (depth at which the menuentry opened, entry under construction)
    pub current: Option<(int, RawView)>,
}

/// Before the first line.
pub open spec fn empty_menu() -> MenuView {
    MenuView {
        raw: seq![],
        submenus: seq![],
        default_spec: None,
        uses_bls: false,
        depth: 0,
        top_count: 0,
        submenu: None,
        current: None,
    }
}

/// The predicate "is the word `w`".
pub open spec fn is_word(w: Seq<char>) -> spec_fn(Seq<char>) -> bool {
    |x: Seq<char>| x == w
}

/// The predicate "does not begin with a dash".
pub open spec fn no_option() -> spec_fn(Seq<char>) -> bool {
    |x: Seq<char>| !starts_char(x, '-')
}

/// The `i`th word, if there is one.
pub open spec fn word_at(words: Seq<Seq<char>>, i: int) -> Option<Seq<char>> {
    if 0 <= i < words.len() {
        Some(words[i])
    } else {
        None
    }
}

/// The predicate "says that an id follows": `--id`, or the variable that
/// grub-mkconfig writes for it.
pub open spec fn names_id() -> spec_fn(Seq<char>) -> bool {
    |x: Seq<char>| x == "$menuentry_id_option"@ || x == "--id"@
}

/// The id that a `menuentry` or `submenu` line gives.
pub open spec fn menu_id(words: Seq<Seq<char>>) -> Option<Seq<char>> {
    match position(words, names_id()) {
        Some(i) => word_at(words, i + 1),
        None => None,
    }
}

/// What a line inside a menuentry makes of the entry.
pub open spec fn body_line(
    e: EntryView,
    words: Seq<Seq<char>>,
    env: Map<Seq<char>, Seq<char>>,
) -> EntryView {
    let kw = words[0];
    if (kw == "linux"@ || kw == "linux16"@ || kw == "linuxefi"@) && words.len() >= 2 {
        let cmdline = trim(expand_spec(join(words.skip(2), " "@), env));
        EntryView {
            kernel: Some(clean_path_spec(words[1])),
            cmdline: if cmdline.len() > 0 {
                Some(cmdline)
            } else {
                e.cmdline
            },
            ..e
        }
    } else if kw == "initrd"@ || kw == "initrd16"@ || kw == "initrdefi"@ {
        EntryView {
            initrd: Seq::new((words.len() - 1) as nat, |i: int| clean_path_spec(words[i + 1])),
            ..e
        }
    } else if kw == "chainloader"@ {
        EntryView {
            chainloader: match position(words.skip(1), no_option()) {
                Some(i) => Some(
                    if starts_char(words[i + 1], '+') {
                        words[i + 1]
                    } else {
                        clean_path_spec(words[i + 1])
                    },
                ),
                None => None,
            },
            ..e
        }
    } else {
        e
    }
}

/// What a line outside any menuentry makes of the menu.
pub open spec fn menu_line(
    st: MenuView,
    words: Seq<Seq<char>>,
    opens: bool,
    env: Map<Seq<char>, Seq<char>>,
) -> MenuView {
    let kw = words[0];
    let uses_bls = st.uses_bls || words.contains("blscfg"@);
    if kw == "menuentry"@ && opens {
        let entry = EntryView {
            title: word_at(words, 1),
            id: menu_id(words),
            ..blank_entry(Source::Grub)
        };
        match st.submenu {
            Some((open, top, next)) => MenuView {
                uses_bls,
                submenu: Some((open, top, next + 1)),
                current: Some((st.depth, RawView { entry, top, sub: Some(next) })),
                ..st
            },
            None => MenuView {
                uses_bls,
                top_count: st.top_count + 1,
                current: Some((st.depth, RawView { entry, top: st.top_count, sub: None })),
                ..st
            },
        }
    } else if kw == "submenu"@ && opens {
        MenuView {
            uses_bls,
            submenus: st.submenus.push(
                SubmenuView { top: st.top_count, id: menu_id(words), title: word_at(words, 1) },
            ),
            submenu: Some((st.depth, st.top_count, 0)),
            top_count: st.top_count + 1,
            ..st
        }
    } else if kw == "set"@ && words.len() >= 2 && strip_prefix(words[1], "default="@) is Some {
        MenuView {
            uses_bls,
            default_spec: Some(expand_spec(strip_prefix(words[1], "default="@)->0, env)),
            ..st
        }
    } else {
        MenuView { uses_bls, ..st }
    }
}

/// Brace bookkeeping. grub-mkconfig output opens blocks at line end and
/// closes them with a lone `}`.
pub open spec fn braces(st: MenuView, line: Seq<char>) -> MenuView {
    if ends_char(line, '{') {
        MenuView { depth: st.depth + 1, ..st }
    } else if line == "}"@ {
        let depth = st.depth - 1;
        match st.current {
            Some((open, entry)) if depth == open => MenuView {
                depth,
                raw: st.raw.push(entry),
                current: None,
                ..st
            },
            _ => match st.submenu {
                Some((open, _, _)) if depth == open => MenuView { depth, submenu: None, ..st },
                _ => MenuView { depth, ..st },
            },
        }
    } else {
        st
    }
}

/// What a line makes of the menu.
pub open spec fn step(st: MenuView, raw_line: Seq<char>, env: Map<Seq<char>, Seq<char>>) -> MenuView {
    let line = trim(raw_line);
    let words = quoted_words(line, seq![], false, false);
    if line.len() == 0 || starts_char(line, '#') || words.len() == 0 {
        st
    } else {
        let st1 = match st.current {
            Some((open, r)) => MenuView {
                current: Some((open, RawView { entry: body_line(r.entry, words, env), ..r })),
                ..st
            },
            None => menu_line(st, words, ends_char(line, '{'), env),
        };
        braces(st1, line)
    }
}

/// The menu after the lines `l`.
pub open spec fn steps(l: Seq<Seq<char>>, env: Map<Seq<char>, Seq<char>>) -> MenuView
    decreases l.len(),
{
    if l.len() == 0 {
        empty_menu()
    } else {
        step(steps(l.drop_last(), env), l.last(), env)
    }
}

/// All entries of a menu; one whose block is not closed counts too.
pub open spec fn all_entries(st: MenuView) -> Seq<RawView> {
    match st.current {
        Some((_, entry)) => st.raw.push(entry),
        None => st.raw,
    }
}

/// What a grub.cfg declares.
pub open spec fn grub_scan(text: Seq<char>, env: Map<Seq<char>, Seq<char>>) -> GrubView {
    let st = steps(lines(text), env);
    let all = all_entries(st);
    GrubView {
        entries: Seq::new(all.len(), |i: int| all[i].entry),
        default: default_of(
            all,
            st.submenus,
            match st.default_spec {
                Some(s) => s,
                None => "0"@,
            },
        ),
        uses_bls: st.uses_bls,
    }
}

/// How far a menu has been read.
struct Menu {
    raw: Vec<RawEntry>,
    submenus: Vec<RawSubmenu>,
    default_spec: Option<String>,
    uses_bls: bool,
    depth: i128,
    top_count: usize,
    submenu: Option<(i128, usize, usize)>,
    current: Option<(i128, RawEntry)>,
}

impl View for Menu {
    type V = MenuView;

    closed spec fn view(&self) -> MenuView {
        MenuView {
            raw: views(self.raw@),
            submenus: views(self.submenus@),
            default_spec: opt(self.default_spec),
            uses_bls: self.uses_bls,
            depth: self.depth as int,
            top_count: self.top_count as int,
            submenu: match self.submenu {
                Some((open, top, next)) => Some((open as int, top as int, next as int)),
                None => None,
            },
            current: match self.current {
                Some((open, entry)) => Some((open as int, entry@)),
                None => None,
            },
        }
    }
}

/// A copy of the `i`th word.
fn word(words: &Vec<Vec<char>>, i: usize) -> (r: Option<String>)
    ensures
        opt(r) == word_at(views(words@), i as int),
{
    if i < words.len() {
        Some(string(words[i].as_slice()))
    } else {
        None
    }
}

/// The first word that is `w`.
fn find_word(words: &Vec<Vec<char>>, w: &str) -> (r: Option<usize>)
    ensures
        index(r) == position(views(words@), is_word(w@)),
        r matches Some(i) ==> i < words@.len(),
{
    let test = |x: &Vec<char>| -> (b: bool)
        ensures
            b == is_word(w@)(x@)
    { is_str(x.as_slice(), w) };
    position_by(words, test, Ghost(is_word(w@)))
}

/// The id that a `menuentry` or `submenu` line gives.
fn id_of(words: &Vec<Vec<char>>) -> (r: Option<String>)
    ensures
        opt(r) == menu_id(views(words@)),
{
    let n: usize = words.len();
    let test = |x: &Vec<char>| -> (b: bool)
        ensures
            b == names_id()(x@)
    { is_str(x.as_slice(), "$menuentry_id_option") || is_str(x.as_slice(), "--id") };
    match position_by(words, test, Ghost(names_id())) {
        Some(i) => if i < n - 1 {
            word(words, i + 1)
        } else {
            None
        },
        None => None,
    }
}

/// The words from the `from`th on, joined by spaces.
fn join_from(words: &Vec<Vec<char>>, from: usize) -> (r: Vec<char>)
    requires
        from <= words@.len(),
    ensures
        r@ == join(views(words@).skip(from as int), " "@),
{
    let mut parts: Vec<&[char]> = Vec::new();
    let mut i: usize = from;
    while i < words.len()
        invariant
            from <= i <= words@.len(),
            parts@.len() == i - from,
            forall|j: int| 0 <= j < parts@.len() ==> (#[trigger] parts@[j])@ == words@[from + j]@,
        decreases words@.len() - i,
    {
        parts.push(words[i].as_slice());
        i = i + 1;
    }
    assert(texts(parts@) =~= views(words@).skip(from as int));
    crate::text::split::join_parts(&parts, " ")
}

/// Take in a line inside a menuentry.
fn read_body(entry: BootEntry, words: &Vec<Vec<char>>, env: &Env) -> (r: BootEntry)
    requires
        words@.len() > 0,
    ensures
        r@ == body_line(entry@, views(words@), env@),
{
    let mut e = entry;
    let kw = words[0].as_slice();
    let ghost ws = views(words@);
    assert(ws[0] == kw@);
    if (is_str(kw, "linux") || is_str(kw, "linux16") || is_str(kw, "linuxefi")) && words.len() >= 2 {
        e.kernel = Some(clean_path(words[1].as_slice()));
        let args = join_from(words, 2);
        let full = expand(args.as_slice(), env);
        let full_chars = chars(full.as_str());
        let cmdline = trimmed(full_chars.as_slice());
        if cmdline.len() > 0 {
            e.cmdline = Some(string(cmdline));
        }
    } else if is_str(kw, "initrd") || is_str(kw, "initrd16") || is_str(kw, "initrdefi") {
        let mut list: Vec<String> = Vec::new();
        let mut i: usize = 1;
        while i < words.len()
            invariant
                1 <= i <= words@.len(),
                list@.len() == i - 1,
                forall|j: int|
                    0 <= j < list@.len() ==> (#[trigger] list@[j])@ == clean_path_spec(
                        words@[j + 1]@,
                    ),
            decreases words@.len() - i,
        {
            list.push(clean_path(words[i].as_slice()));
            i = i + 1;
        }
        e.initrd = list;
        assert(e@.initrd =~= Seq::new((ws.len() - 1) as nat, |i: int| clean_path_spec(ws[i + 1])));
    } else if is_str(kw, "chainloader") {
        let mut i: usize = 1;
        while i < words.len() && begins(words[i].as_slice(), '-')
            invariant
                1 <= i <= words@.len(),
                ws == views(words@),
                forall|j: int| 1 <= j < i ==> starts_char(#[trigger] ws[j], '-'),
            decreases words@.len() - i,
        {
            assert(ws[i as int] == words@[i as int]@);
            i = i + 1;
        }
        proof {
            let tail = ws.skip(1);
            lemma_position(tail, no_option());
            match position(tail, no_option()) {
                Some(k) => {
                    assert(tail[k] == ws[k + 1]);
                    if k + 1 > i {
                        assert(tail[i - 1] == ws[i as int]);
                    }
                    assert(k + 1 == i);
                },
                None => {
                    if i < ws.len() {
                        assert(tail[i - 1] == ws[i as int]);
                    }
                },
            }
        }
        if i < words.len() {
            let w = words[i].as_slice();
            assert(ws[i as int] == w@);
            e.chainloader = Some(
                if begins(w, '+') {
                    string(w)
                } else {
                    clean_path(w)
                },
            );
        } else {
            e.chainloader = None;
        }
    }
    e
}

impl Menu {
    /// Small enough for `n` more lines.
    spec fn fits(&self, n: int) -> bool {
        &&& -n <= self.depth <= n
        &&& self.top_count <= n
        &&& self.submenu matches Some((_, _, next)) ==> next <= n
    }

    /// Take in a line outside any menuentry.
    fn menu_line(&mut self, words: &Vec<Vec<char>>, opens: bool, env: &Env)
        requires
            words@.len() > 0,
            old(self).current is None,
            old(self).top_count < usize::MAX,
            old(self).submenu matches Some((_, _, next)) ==> next < usize::MAX,
        ensures
            final(self)@ == menu_line(old(self)@, views(words@), opens, env@),
            final(self).depth == old(self).depth,
            final(self).top_count <= old(self).top_count + 1,
            final(self).submenu matches Some((_, _, next)) ==> next == 0 || (old(
                self,
            ).submenu matches Some((_, _, n0)) && next <= n0 + 1),
    {
        let ghost ws = views(words@);
        let kw = words[0].as_slice();
        assert(ws[0] == kw@);
        if is_str(kw, "menuentry") && opens {
            let mut entry = BootEntry::blank(Source::Grub);
            entry.title = word(words, 1);
            entry.id = id_of(words);
            match self.submenu {
                Some((open, top, next)) => {
                    self.submenu = Some((open, top, next + 1));
                    self.current = Some((self.depth, RawEntry { entry, top, sub: Some(next) }));
                },
                None => {
                    let top: usize = self.top_count;
                    self.top_count = top + 1;
                    self.current = Some((self.depth, RawEntry { entry, top, sub: None }));
                },
            }
        } else if is_str(kw, "submenu") && opens {
            let ghost subs = self.submenus@;
            let sub = RawSubmenu { top: self.top_count, id: id_of(words), title: word(words, 1) };
            let ghost subv = sub@;
            self.submenus.push(sub);
            assert(views(self.submenus@) =~= views(subs).push(subv));
            self.submenu = Some((self.depth, self.top_count, 0));
            self.top_count = self.top_count + 1;
        } else if is_str(kw, "set") && words.len() >= 2 {
            assert(ws[1] == words@[1]@);
            match after_prefix(words[1].as_slice(), "default=") {
                Some(value) => {
                    self.default_spec = Some(expand(value, env));
                },
                None => {},
            }
        }
        let found = find_word(words, "blscfg");
        proof {
            lemma_position(ws, is_word("blscfg"@));
            match position(ws, is_word("blscfg"@)) {
                Some(i) => {
                    assert(ws[i] == "blscfg"@);
                    assert(ws.contains("blscfg"@));
                },
                None => {
                    if ws.contains("blscfg"@) {
                        let j = choose|j: int| 0 <= j < ws.len() && ws[j] == "blscfg"@;
                        assert(is_word("blscfg"@)(ws[j]));
                    }
                },
            }
        }
        if found.is_some() {
            self.uses_bls = true;
        }
    }

    /// Take in the braces of a line.
    fn braces(&mut self, line: &[char])
        requires
            i128::MIN < old(self).depth < i128::MAX,
        ensures
            final(self)@ == braces(old(self)@, line@),
            old(self).depth - 1 <= final(self).depth <= old(self).depth + 1,
            final(self).top_count == old(self).top_count,
            final(self).submenu == old(self).submenu || final(self).submenu is None,
    {
        if ends(line, '{') {
            self.depth = self.depth + 1;
        } else if is_str(line, "}") {
            self.depth = self.depth - 1;
            let closes: bool = match &self.current {
                Some((open, _)) => *open == self.depth,
                None => false,
            };
            if closes {
                let ghost raw0 = self.raw@;
                match self.current.take() {
                    Some((_, entry)) => {
                        let ghost ev = entry@;
                        self.raw.push(entry);
                        assert(views(self.raw@) =~= views(raw0).push(ev));
                    },
                    None => {},
                }
            } else {
                let ends_submenu: bool = match self.submenu {
                    Some((open, _, _)) => open == self.depth,
                    None => false,
                };
                if ends_submenu {
                    self.submenu = None;
                }
            }
        }
    }

    /// Take in a line.
    fn step(&mut self, raw_line: &[char], env: &Env, n: Ghost<int>)
        requires
            0 <= n@ < usize::MAX,
            old(self).fits(n@),
        ensures
            final(self)@ == step(old(self)@, raw_line@, env@),
            final(self).fits(n@ + 1),
    {
        let line = trimmed(raw_line);
        if line.len() == 0 || begins(line, '#') {
            return;
        }
        let words = split_words(line);
        if words.len() == 0 {
            return;
        }
        match self.current.take() {
            Some((open, r)) => {
                let entry = read_body(r.entry, &words, env);
                self.current = Some((open, RawEntry { entry, top: r.top, sub: r.sub }));
            },
            None => {
                self.menu_line(&words, ends(line, '{'), env);
            },
        }
        self.braces(line);
    }
}

/// Read a grub.cfg.
pub fn parse_str(text: &str, env: &Env) -> (r: GrubScan)
    ensures
        r@ == grub_scan(text@, env@),
        r.default matches Some(d) ==> d < r.entries@.len(),
        r.default is None <==> r.entries@.len() == 0,
        all_from(r@.entries, Source::Grub),
{
    let t = chars(text);
    let l = text_lines(t.as_slice());
    let mut menu = Menu {
        raw: Vec::new(),
        submenus: Vec::new(),
        default_spec: None,
        uses_bls: false,
        depth: 0,
        top_count: 0,
        submenu: None,
        current: None,
    };
    let mut i: usize = 0;
    proof {
        assert(texts(l@).take(0) =~= Seq::<Seq<char>>::empty());
        assert(menu@.raw =~= Seq::<RawView>::empty());
        assert(menu@.submenus =~= Seq::<SubmenuView>::empty());
    }
    while i < l.len()
        invariant
            i <= l@.len(),
            menu@ == steps(texts(l@).take(i as int), env@),
            menu.fits(i as int),
        decreases l@.len() - i,
    {
        proof {
            assert(texts(l@).take(i + 1).drop_last() =~= texts(l@).take(i as int));
            assert(texts(l@).take(i + 1).last() == l@[i as int]@);
        }
        menu.step(l[i], env, Ghost(i as int));
        i = i + 1;
    }
    assert(texts(l@).take(i as int) =~= texts(l@));
    let ghost st = menu@;
    let mut raw = menu.raw;
    let ghost raw0 = raw@;
    match menu.current {
        Some((_, entry)) => {
            let ghost ev = entry@;
            raw.push(entry);  // unterminated block: salvage what we parsed
            assert(views(raw@) =~= views(raw0).push(ev));
        },
        None => {},
    }
    let ghost all = all_entries(st);
    assert(views(raw@) == all);
    let default = match &menu.default_spec {
        Some(s) => resolve_default(&raw, &menu.submenus, s.as_str()),
        None => resolve_default(&raw, &menu.submenus, "0"),
    };
    proof {
        lemma_default_in_range(
            all,
            st.submenus,
            match st.default_spec {
                Some(s) => s,
                None => "0"@,
            },
        );
    }
    let mut entries: Vec<BootEntry> = Vec::new();
    let ghost rawv = raw@;
    while raw.len() > 0
        invariant
            raw@.len() <= rawv.len(),
            entries@.len() + raw@.len() == rawv.len(),
            raw@ == rawv.skip(entries@.len() as int),
            forall|j: int| 0 <= j < entries@.len() ==> (#[trigger] entries@[j])@ == rawv[j]@.entry,
        decreases raw@.len(),
    {
        let r = raw.remove(0);
        entries.push(r.entry);
        assert(raw@ =~= rawv.skip(entries@.len() as int));
    }
    assert(views(entries@) =~= Seq::new(all.len(), |i: int| all[i].entry)) by {
        assert forall|j: int| 0 <= j < rawv.len() implies rawv[j]@ == #[trigger] all[j] by {
            assert(views(rawv)[j] == all[j]);
        }
    }
    proof {
        lemma_source(text@, env@);
    }
    GrubScan { entries, default, uses_bls: menu.uses_bls }
}

/// Read the grub.cfg at `cfg_path`.
pub fn parse<F: FileSystem + ?Sized>(fs: &F, cfg_path: &str, env: &Env) -> (r: Result<GrubScan>)
    ensures
        fs.stable() ==> match fs.file(cfg_path@) {
            Some(d) => r matches Ok(g) && g@ == grub_scan(utf8_lossy(d), env@),
            None => r matches Err(e) && e@ == fs.file_error(cfg_path@),
        },
        match r {
            Ok(g) => exists|d: Vec<u8>| #[trigger]
                may_read(fs, cfg_path@, Ok(d)) && g@ == grub_scan(utf8_lossy(d@), env@),
            Err(e) => may_read(fs, cfg_path@, Err(e)),
        },
        r matches Ok(g) ==> (g.default matches Some(d) ==> d < g.entries@.len()) && (g.default is None
            <==> g.entries@.len() == 0) && all_from(g@.entries, Source::Grub),
{
    let read = fs.read_file(cfg_path);
    assert(may_read(fs, cfg_path@, read));
    let data = read?;
    let text = lossy(data.as_slice());
    Ok(parse_str(text.as_str(), env))
}

// ---------------------------------------------------------------------
// The default entry
// ---------------------------------------------------------------------

pub open spec fn has_id(name: Seq<char>) -> spec_fn(RawView) -> bool {
    |e: RawView| e.entry.id == Some(name)
}

pub open spec fn has_title(name: Seq<char>) -> spec_fn(RawView) -> bool {
    |e: RawView| e.entry.title == Some(name)
}

pub open spec fn leaf_at(top: int) -> spec_fn(RawView) -> bool {
    |e: RawView| e.top == top && e.sub is None
}

pub open spec fn under(top: int) -> spec_fn(RawView) -> bool {
    |e: RawView| e.top == top
}

pub open spec fn leaf_named(name: Seq<char>) -> spec_fn(RawView) -> bool {
    |e: RawView| e.sub is None && (e.entry.id == Some(name) || e.entry.title == Some(name))
}

pub open spec fn child_at(top: int, sub: int) -> spec_fn(RawView) -> bool {
    |e: RawView| e.top == top && e.sub == Some(sub)
}

pub open spec fn child_named(top: int, name: Seq<char>) -> spec_fn(RawView) -> bool {
    |e: RawView|
        e.top == top && e.sub is Some && (e.entry.id == Some(name) || e.entry.title == Some(name))
}

pub open spec fn submenu_named(name: Seq<char>) -> spec_fn(SubmenuView) -> bool {
    |s: SubmenuView| s.id == Some(name) || s.title == Some(name)
}

/// Any entry, at any level, by id then title.
pub open spec fn flat_match(entries: Seq<RawView>, name: Seq<char>) -> Option<int> {
    or(position(entries, has_id(name)), position(entries, has_title(name)))
}

/// First entry of a top-level item: the item itself, or - when it is a
/// submenu - its first child, which is what GRUB boots.
pub open spec fn first_of_top(entries: Seq<RawView>, top: int) -> Option<int> {
    or(position(entries, leaf_at(top)), position(entries, under(top)))
}

/// The number that a component of a `default` path writes.
pub open spec fn menu_number(s: Seq<char>) -> Option<int> {
    parse_unsigned(s, 10, usize::MAX as int)
}

/// The entry that a `default` of one component names.
pub open spec fn single_match(
    entries: Seq<RawView>,
    submenus: Seq<SubmenuView>,
    head: Seq<char>,
) -> Option<int> {
    match menu_number(head) {
        Some(top) => first_of_top(entries, top),
        None => or(
            flat_match(entries, head),
            match position(submenus, submenu_named(head)) {
                Some(i) => first_of_top(entries, submenus[i].top),
                None => None,
            },
        ),
    }
}

/// The top-level item that the head of a `default` path names.
pub open spec fn head_top(entries: Seq<RawView>, submenus: Seq<SubmenuView>, head: Seq<char>) -> Option<
    int,
> {
    match menu_number(head) {
        Some(top) => Some(top),
        None => match position(entries, leaf_named(head)) {
            Some(i) => Some(entries[i].top),
            None => match position(submenus, submenu_named(head)) {
                Some(i) => Some(submenus[i].top),
                None => None,
            },
        },
    }
}

/// The entry of the item `top` that the next component of the path names.
pub open spec fn child_match(entries: Seq<RawView>, top: int, child: Seq<char>) -> Option<int> {
    match menu_number(child) {
        Some(sub) => position(entries, child_at(top, sub)),
        None => position(entries, child_named(top, child)),
    }
}

/// The components of a `default` path; an empty path means the first item.
pub open spec fn components(spec: Seq<char>) -> Seq<Seq<char>> {
    let parts = split(
        if spec.len() == 0 {
            "0"@
        } else {
            spec
        },
        '>',
    );
    Seq::new(parts.len(), |i: int| trim(parts[i]))
}

/// The entry that a `default` names: a numeric index, an entry id, an entry
/// title, or a `>`-separated path into a submenu whose components are any of
/// those. The first entry, where nothing matches.
pub open spec fn default_of(
    entries: Seq<RawView>,
    submenus: Seq<SubmenuView>,
    spec: Seq<char>,
) -> Option<int> {
    let comps = components(spec);
    if entries.len() == 0 {
        None
    } else if comps.len() == 1 {
        or(single_match(entries, submenus, comps[0]), Some(0))
    } else {
        match head_top(entries, submenus, comps[0]) {
            None => or(flat_match(entries, comps.last()), Some(0)),
            Some(top) => or(
                or(child_match(entries, top, comps[1]), first_of_top(entries, top)),
                Some(0),
            ),
        }
    }
}

/// The default is one of the entries; there is none only where there is no
/// entry at all.
pub proof fn lemma_default_in_range(
    entries: Seq<RawView>,
    submenus: Seq<SubmenuView>,
    spec: Seq<char>,
)
    ensures
        match default_of(entries, submenus, spec) {
            Some(i) => 0 <= i < entries.len(),
            None => entries.len() == 0,
        },
{
    let comps = components(spec);
    assert forall|p: spec_fn(RawView) -> bool|
        #![trigger position(entries, p)]
        position(entries, p) matches Some(i) ==> 0 <= i < entries.len() by {
        lemma_position(entries, p);
    }
}

/// The default of a config is one of its entries.
pub proof fn lemma_scan_in_range(text: Seq<char>, env: Map<Seq<char>, Seq<char>>)
    ensures
        match grub_scan(text, env).default {
            Some(i) => 0 <= i < grub_scan(text, env).entries.len(),
            None => grub_scan(text, env).entries.len() == 0,
        },
{
    let st = steps(lines(text), env);
    lemma_default_in_range(
        all_entries(st),
        st.submenus,
        match st.default_spec {
            Some(s) => s,
            None => "0"@,
        },
    );
}

/// What was read so far comes from GRUB.
spec fn from_grub(st: MenuView) -> bool {
    &&& forall|i: int| 0 <= i < st.raw.len() ==> (#[trigger] st.raw[i]).entry.source == Source::Grub
    &&& st.current matches Some((_, r)) ==> r.entry.source == Source::Grub
}

proof fn lemma_steps_from_grub(l: Seq<Seq<char>>, env: Map<Seq<char>, Seq<char>>)
    ensures
        from_grub(steps(l, env)),
    decreases l.len(),
{
    if l.len() > 0 {
        lemma_steps_from_grub(l.drop_last(), env);
    }
}

/// Every entry of a config is a GRUB entry.
pub proof fn lemma_source(text: Seq<char>, env: Map<Seq<char>, Seq<char>>)
    ensures
        all_from(grub_scan(text, env).entries, Source::Grub),
{
    lemma_steps_from_grub(lines(text), env);
}

/// A `default` that is the id of an entry names it, at whatever level it is:
/// one of several with that id, the first.
pub proof fn law_id_names_its_entry(
    entries: Seq<RawView>,
    submenus: Seq<SubmenuView>,
    name: Seq<char>,
    i: int,
)
    requires
        components(name) == seq![name],
        menu_number(name) is None,
        0 <= i < entries.len(),
        entries[i].entry.id == Some(name),
        forall|j: int| 0 <= j < i ==> (#[trigger] entries[j]).entry.id != Some(name),
    ensures
        default_of(entries, submenus, name) == Some(i),
{
    lemma_position(entries, has_id(name));
    assert(has_id(name)(entries[i]));
}

/// A `default` that is a path picks an entry of the item that its head names,
/// wherever that item has one: a child that is not there does not lead to
/// another item.
pub proof fn law_paths_stay_in_their_item(
    entries: Seq<RawView>,
    submenus: Seq<SubmenuView>,
    spec: Seq<char>,
    top: int,
    j: int,
)
    requires
        components(spec).len() > 1,
        head_top(entries, submenus, components(spec)[0]) == Some(top),
        0 <= j < entries.len(),
        entries[j].top == top,
    ensures
        default_of(entries, submenus, spec) matches Some(i) && 0 <= i < entries.len()
            && entries[i].top == top,
{
    let child = components(spec)[1];
    lemma_position(entries, child_named(top, child));
    match menu_number(child) {
        Some(sub) => {
            lemma_position(entries, child_at(top, sub));
        },
        None => {},
    }
    lemma_position(entries, leaf_at(top));
    lemma_position(entries, under(top));
    assert(under(top)(entries[j]));
}

/// A `default` that names a submenu alone, by its number, picks its first child.
pub proof fn law_submenu_alone_picks_its_first_child(
    entries: Seq<RawView>,
    submenus: Seq<SubmenuView>,
    spec: Seq<char>,
    top: int,
    i: int,
)
    requires
        components(spec).len() == 1,
        menu_number(components(spec)[0]) == Some(top),
        0 <= i < entries.len(),
        entries[i].top == top,
        forall|j: int|
            0 <= j < entries.len() && (#[trigger] entries[j]).top == top ==> entries[j].sub is Some
                && i <= j,
    ensures
        default_of(entries, submenus, spec) == Some(i),
{
    lemma_position(entries, leaf_at(top));
    lemma_position(entries, under(top));
    assert(under(top)(entries[i]));
}

fn by_id(entries: &Vec<RawEntry>, name: &[char]) -> (r: Option<usize>)
    ensures
        index(r) == position(views(entries@), has_id(name@)),
{
    let test = |e: &RawEntry| -> (b: bool)
        ensures
            b == has_id(name@)(e@)
    { opt_is(&e.entry.id, name) };
    position_by(entries, test, Ghost(has_id(name@)))
}

fn by_title(entries: &Vec<RawEntry>, name: &[char]) -> (r: Option<usize>)
    ensures
        index(r) == position(views(entries@), has_title(name@)),
{
    let test = |e: &RawEntry| -> (b: bool)
        ensures
            b == has_title(name@)(e@)
    { opt_is(&e.entry.title, name) };
    position_by(entries, test, Ghost(has_title(name@)))
}

fn flat(entries: &Vec<RawEntry>, name: &[char]) -> (r: Option<usize>)
    ensures
        index(r) == flat_match(views(entries@), name@),
{
    match by_id(entries, name) {
        Some(i) => Some(i),
        None => by_title(entries, name),
    }
}

fn first_at(entries: &Vec<RawEntry>, top: usize) -> (r: Option<usize>)
    ensures
        index(r) == first_of_top(views(entries@), top as int),
{
    let is_leaf = |e: &RawEntry| -> (b: bool)
        ensures
            b == leaf_at(top as int)(e@)
    { e.top == top && e.sub.is_none() };
    match position_by(entries, is_leaf, Ghost(leaf_at(top as int))) {
        Some(i) => Some(i),
        None => {
            let is_under = |e: &RawEntry| -> (b: bool)
                ensures
                    b == under(top as int)(e@)
            { e.top == top };
            position_by(entries, is_under, Ghost(under(top as int)))
        },
    }
}

fn find_submenu(submenus: &Vec<RawSubmenu>, name: &[char]) -> (r: Option<usize>)
    ensures
        index(r) == position(views(submenus@), submenu_named(name@)),
        r matches Some(i) ==> i < submenus@.len(),
{
    let test = |s: &RawSubmenu| -> (b: bool)
        ensures
            b == submenu_named(name@)(s@)
    { opt_is(&s.id, name) || opt_is(&s.title, name) };
    position_by(submenus, test, Ghost(submenu_named(name@)))
}

fn single(entries: &Vec<RawEntry>, submenus: &Vec<RawSubmenu>, head: &[char]) -> (r: Option<usize>)
    ensures
        index(r) == single_match(views(entries@), views(submenus@), head@),
{
    match parse_usize(head) {
        Some(top) => first_at(entries, top),
        None => match flat(entries, head) {
            Some(i) => Some(i),
            None => match find_submenu(submenus, head) {
                Some(i) => {
                    assert(views(submenus@)[i as int] == submenus@[i as int]@);
                    first_at(entries, submenus[i].top)
                },
                None => None,
            },
        },
    }
}

fn top_of(entries: &Vec<RawEntry>, submenus: &Vec<RawSubmenu>, head: &[char]) -> (r: Option<usize>)
    ensures
        index(r) == head_top(views(entries@), views(submenus@), head@),
{
    match parse_usize(head) {
        Some(top) => Some(top),
        None => {
            let test = |e: &RawEntry| -> (b: bool)
                ensures
                    b == leaf_named(head@)(e@)
            { e.sub.is_none() && (opt_is(&e.entry.id, head) || opt_is(&e.entry.title, head)) };
            match position_by(entries, test, Ghost(leaf_named(head@))) {
                Some(i) => {
                    assert(views(entries@)[i as int] == entries@[i as int]@);
                    Some(entries[i].top)
                },
                None => match find_submenu(submenus, head) {
                    Some(i) => {
                        assert(views(submenus@)[i as int] == submenus@[i as int]@);
                        Some(submenus[i].top)
                    },
                    None => None,
                },
            }
        },
    }
}

fn child(entries: &Vec<RawEntry>, top: usize, name: &[char]) -> (r: Option<usize>)
    ensures
        index(r) == child_match(views(entries@), top as int, name@),
{
    match parse_usize(name) {
        Some(sub) => {
            let test = |e: &RawEntry| -> (b: bool)
                ensures
                    b == child_at(top as int, sub as int)(e@)
            {
                e.top == top && match e.sub {
                    Some(s) => s == sub,
                    None => false,
                }
            };
            position_by(entries, test, Ghost(child_at(top as int, sub as int)))
        },
        None => {
            let test = |e: &RawEntry| -> (b: bool)
                ensures
                    b == child_named(top as int, name@)(e@)
            {
                e.top == top && e.sub.is_some() && (opt_is(&e.entry.id, name) || opt_is(
                    &e.entry.title,
                    name,
                ))
            };
            position_by(entries, test, Ghost(child_named(top as int, name@)))
        },
    }
}

/// Resolve a GRUB `default` spec.
///
/// GRUB resolves a path one menu level at a time, so each component has to be
/// matched within its own level - `parentId>childId` is what grub-mkconfig
/// writes for a GRUB_DEFAULT inside a submenu, and what grub-set-default /
/// grub-reboot store.
fn resolve_default(entries: &Vec<RawEntry>, submenus: &Vec<RawSubmenu>, spec: &str) -> (r: Option<
    usize,
>)
    ensures
        index(r) == default_of(views(entries@), views(submenus@), spec@),
{
    if entries.len() == 0 {
        return None;
    }
    let spec_chars = if spec.is_empty() {
        chars("0")
    } else {
        chars(spec)
    };
    let parts = pieces(spec_chars.as_slice(), '>');
    let mut comps: Vec<&[char]> = Vec::new();
    let mut i: usize = 0;
    while i < parts.len()
        invariant
            i <= parts@.len(),
            comps@.len() == i,
            forall|j: int| 0 <= j < i ==> (#[trigger] comps@[j])@ == trim(parts@[j]@),
        decreases parts@.len() - i,
    {
        comps.push(trimmed(parts[i]));
        i = i + 1;
    }
    assert(texts(comps@) =~= components(spec@)) by {
        assert forall|j: int| 0 <= j < parts@.len() implies texts(parts@)[j]
            == #[trigger] parts@[j]@ by {}
    }
    proof {
        lemma_split_nonempty(spec_chars@, '>');
    }
    if comps.len() == 1 {
        assert(texts(comps@)[0] == comps@[0]@);
        return match single(entries, submenus, comps[0]) {
            Some(i) => Some(i),
            None => Some(0),
        };
    }
    assert(texts(comps@)[0] == comps@[0]@);
    assert(texts(comps@)[1] == comps@[1]@);
    assert(texts(comps@).last() == comps@[comps@.len() - 1]@);
    match top_of(entries, submenus, comps[0]) {
        None => match flat(entries, comps[comps.len() - 1]) {
            Some(i) => Some(i),
            None => Some(0),
        },
        Some(top) => match child(entries, top, comps[1]) {
            Some(i) => Some(i),
            None => match first_at(entries, top) {
                Some(i) => Some(i),
                None => Some(0),
            },
        },
    }
}

proof fn lemma_split_nonempty(s: Seq<char>, c: char)
    ensures
        split(s, c).len() >= 1,
{
}

} // verus!
