//! What a grub.cfg says, line by line and block by block.

use crate::boot::expand::{expand_spec, law_plain_text_is_kept};
use crate::boot::grub::{
    all_entries, child_at, child_named, clean_path_spec, components, default_of, grub_scan, has_id,
    has_title, leaf_at, leaf_named, menu_id, menu_number, names_id, no_option, quoted_words, step, steps, submenu_named, under, MenuView,
    RawView, SubmenuView,
};
use crate::boot::{EntryView, Source};
use crate::seqs::{lemma_position, position};
use crate::text::is_white;
use crate::text::laws::{
    law_line_is_added, law_split, law_split_once, law_strip_prefix, law_trim, lemma_join_front,
    plain, whole_lines,
};
use crate::text::number::{dec, lemma_dec_reads_back};
use crate::text::split::{join, lines, trim};
use vstd::prelude::*;
use vstd::string::*;

verus! {

/// A word of visible ASCII characters, none of them a quote.
pub open spec fn unquoted(w: Seq<char>) -> bool {
    plain(w) && !w.contains('\'') && !w.contains('"')
}

/// Words of visible ASCII characters, none of them a quote.
pub open spec fn all_unquoted(ws: Seq<Seq<char>>) -> bool {
    forall|i: int| 0 <= i < ws.len() ==> unquoted(#[trigger] ws[i])
}

/// The words `ws` with a blank between each two.
pub open spec fn spaced(ws: Seq<Seq<char>>) -> Seq<char> {
    join(ws, seq![' '])
}

/// Every character of `w` is part of a word, inside these quotes.
spec fn stays(w: Seq<char>, single: bool, double: bool) -> bool {
    forall|i: int|
        0 <= i < w.len() ==> !(#[trigger] w[i] == '\'' && !double) && !(w[i] == '"' && !single) && !(
        is_white(w[i]) && !single && !double)
}

proof fn lemma_read_on(w: Seq<char>, s: Seq<char>, cur: Seq<char>, single: bool, double: bool)
    requires
        stays(w, single, double),
    ensures
        quoted_words(w + s, cur, single, double) == quoted_words(s, cur + w, single, double),
    decreases w.len(),
{
    if w.len() == 0 {
        assert(w + s =~= s);
        assert(cur + w =~= cur);
    } else {
        let ws = w + s;
        let t = w.skip(1);
        assert(ws[0] == w[0]);
        assert(ws.skip(1) =~= t + s);
        assert forall|i: int| 0 <= i < t.len() implies !(#[trigger] t[i] == '\'' && !double) && !(t[i]
            == '"' && !single) && !(is_white(t[i]) && !single && !double) by {
            assert(t[i] == w[i + 1]);
        }
        lemma_read_on(t, s, cur.push(w[0]), single, double);
        assert(cur.push(w[0]) + t =~= cur + w);
    }
}

proof fn lemma_unquoted_stays(w: Seq<char>)
    requires
        unquoted(w),
    ensures
        stays(w, false, false),
{
    assert forall|i: int| 0 <= i < w.len() implies w[i] != '\'' && w[i] != '"' && !is_white(
        #[trigger] w[i],
    ) by {
        assert(w.contains(w[i]));
    }
}

/// A word in quotes is read without them, and blanks do not part it.
pub proof fn law_quotes_hold_a_word_together(w: Seq<char>, s: Seq<char>, cur: Seq<char>)
    ensures
        !w.contains('\'') ==> quoted_words(seq!['\''] + w + seq!['\''] + s, cur, false, false)
            == quoted_words(s, cur + w, false, false),
        !w.contains('"') ==> quoted_words(seq!['"'] + w + seq!['"'] + s, cur, false, false)
            == quoted_words(s, cur + w, false, false),
{
    let a = seq!['\''] + w + seq!['\''] + s;
    let b = seq!['"'] + w + seq!['"'] + s;
    let a1 = seq!['\''] + s;
    let b1 = seq!['"'] + s;
    assert(a.skip(1) =~= w + a1);
    assert(b.skip(1) =~= w + b1);
    assert(a1.skip(1) =~= s);
    assert(b1.skip(1) =~= s);
    if !w.contains('\'') {
        assert forall|i: int| 0 <= i < w.len() implies #[trigger] w[i] != '\'' by {
            assert(w.contains(w[i]));
        }
        lemma_read_on(w, a1, cur, true, false);
    }
    if !w.contains('"') {
        assert forall|i: int| 0 <= i < w.len() implies #[trigger] w[i] != '"' by {
            assert(w.contains(w[i]));
        }
        lemma_read_on(w, b1, cur, false, true);
    }
}

/// Words without quotes are parted by the blanks between them.
pub proof fn law_blanks_part_words(ws: Seq<Seq<char>>)
    requires
        all_unquoted(ws),
    ensures
        quoted_words(spaced(ws), seq![], false, false) == ws,
    decreases ws.len(),
{
    if ws.len() == 0 {
        assert(spaced(ws) =~= Seq::<char>::empty());
        assert(ws =~= Seq::<Seq<char>>::empty());
    } else {
        let h = ws[0];
        lemma_unquoted_stays(h);
        assert(Seq::<char>::empty() + h =~= h);
        if ws.len() == 1 {
            assert(h + Seq::<char>::empty() =~= h);
            lemma_read_on(h, seq![], seq![], false, false);
            assert(ws =~= seq![h]);
        } else {
            let rest = ws.skip(1);
            assert(ws =~= seq![h] + rest);
            lemma_join_front(h, rest, seq![' ']);
            law_blanks_part_words(rest);
            let tail = seq![' '] + spaced(rest);
            assert(spaced(ws) =~= h + tail);
            lemma_read_on(h, tail, seq![], false, false);
            assert(tail.skip(1) =~= spaced(rest));
        }
    }
}

/// What a line of such words is.
proof fn lemma_spaced(ws: Seq<Seq<char>>)
    requires
        all_unquoted(ws),
        ws.len() > 0,
    ensures
        trim(spaced(ws)) == spaced(ws),
        spaced(ws).len() > 0,
        spaced(ws)[0] == ws[0][0],
        spaced(ws).last() == ws.last().last(),
        !spaced(ws).contains('\n'),
        spaced(ws).last() != '\r',
        ws.len() > 1 ==> spaced(ws).len() > 1,
        quoted_words(spaced(ws), seq![], false, false) == ws,
{
    law_blanks_part_words(ws);
    lemma_spaced_ends(ws);
    let l = spaced(ws);
    law_trim(seq![], l, seq![]);
    assert(Seq::<char>::empty() + l + Seq::<char>::empty() =~= l);
}

proof fn lemma_spaced_ends(ws: Seq<Seq<char>>)
    requires
        all_unquoted(ws),
        ws.len() > 0,
    ensures
        spaced(ws).len() >= ws.len(),
        spaced(ws)[0] == ws[0][0],
        spaced(ws).last() == ws.last().last(),
        '!' <= ws[0][0] <= '~',
        '!' <= ws.last().last() <= '~',
        !spaced(ws).contains('\n'),
    decreases ws.len(),
{
    let e = ws.last();
    assert(plain(e));
    assert('!' <= e[e.len() - 1] <= '~');
    assert(plain(ws[0]));
    let l = spaced(ws);
    if ws.len() > 1 {
        let d = ws.drop_last();
        assert forall|i: int| 0 <= i < d.len() implies unquoted(#[trigger] d[i]) by {
            assert(d[i] == ws[i]);
        }
        lemma_spaced_ends(d);
        assert(l == spaced(d) + seq![' '] + e);
        if l.contains('\n') {
            let i = choose|i: int| 0 <= i < l.len() && l[i] == '\n';
            if i < spaced(d).len() {
                assert(spaced(d)[i] == '\n');
            } else if i > spaced(d).len() {
                assert(e[i - spaced(d).len() - 1] == '\n');
            }
        }
    } else {
        assert(l == ws[0]);
        if l.contains('\n') {
            let i = choose|i: int| 0 <= i < l.len() && l[i] == '\n';
            assert(e[i] == '\n');
        }
    }
}

/// A character that is in no word and is no blank is not between them either.
proof fn lemma_spaced_lacks(ws: Seq<Seq<char>>, c: char)
    requires
        c != ' ',
        forall|i: int| 0 <= i < ws.len() ==> !(#[trigger] ws[i]).contains(c),
    ensures
        !spaced(ws).contains(c),
    decreases ws.len(),
{
    let l = spaced(ws);
    if ws.len() > 1 {
        let d = ws.drop_last();
        assert forall|i: int| 0 <= i < d.len() implies !(#[trigger] d[i]).contains(c) by {
            assert(d[i] == ws[i]);
        }
        lemma_spaced_lacks(d, c);
        if l.contains(c) {
            let i = choose|i: int| 0 <= i < l.len() && l[i] == c;
            if i < spaced(d).len() {
                assert(spaced(d)[i] == c);
            } else if i > spaced(d).len() {
                assert(ws.last()[i - spaced(d).len() - 1] == c);
                assert(ws[ws.len() - 1].contains(c));
            }
        }
    } else if ws.len() == 1 {
        assert(!ws[0].contains(c));
    }
}

/// The menu after a text and one line more.
proof fn lemma_line_is_read(t: Seq<char>, l: Seq<char>, env: Map<Seq<char>, Seq<char>>)
    requires
        whole_lines(t),
        !l.contains('\n'),
        l.len() > 0 ==> l.last() != '\r',
    ensures
        steps(lines(t + l + seq!['\n']), env) == step(steps(lines(t), env), l, env),
        whole_lines(t + l + seq!['\n']),
{
    law_line_is_added(t, l);
    let all = lines(t).push(l);
    assert(all.drop_last() =~= lines(t));
    assert(all.last() == l);
    assert((t + l + seq!['\n']).last() == '\n');
}

/// Whether the text `t` ends outside of any `menuentry` block.
pub open spec fn outside(t: Seq<char>, env: Map<Seq<char>, Seq<char>>) -> bool {
    whole_lines(t) && steps(lines(t), env).current is None
}

// ---------------------------------------------------------------------
// The default
// ---------------------------------------------------------------------

/// A line `set default=V` outside of any menuentry makes V, with its variables
/// expanded, say which entry is the default, whatever was said before. It
/// changes nothing else.
pub proof fn law_last_default_wins(t: Seq<char>, v: Seq<char>, env: Map<Seq<char>, Seq<char>>)
    requires
        outside(t, env),
        unquoted(v),
    ensures
        ({
            let st = steps(lines(t), env);
            let after = grub_scan(t + ("set default="@ + v) + seq!['\n'], env);
            &&& after.default == default_of(all_entries(st), st.submenus, expand_spec(v, env))
            &&& after.entries == grub_scan(t, env).entries
            &&& after.uses_bls == grub_scan(t, env).uses_bls
        }),
{
    reveal_strlit("set");
    reveal_strlit("default=");
    reveal_strlit("set default=");
    let w = "default="@ + v;
    let ws = seq!["set"@, w];
    assert(unquoted("set"@));
    assert forall|i: int| 0 <= i < w.len() implies '!' <= #[trigger] w[i] <= '~' && w[i] != '\'' && w[i]
        != '"' by {
        if i >= 8 {
            assert(w[i] == v[i - 8]);
            assert(v.contains(v[i - 8]));
        }
    }
    assert(unquoted(w));
    assert(all_unquoted(ws));
    lemma_spaced(ws);
    lemma_pair("set"@, w);
    let l = "set default="@ + v;
    assert(l =~= spaced(ws));
    lemma_set_default(t, l, v, env);
}

/// The same in double quotes, whatever stands between them.
pub proof fn law_last_quoted_default_wins(t: Seq<char>, v: Seq<char>, env: Map<Seq<char>, Seq<char>>)
    requires
        outside(t, env),
        !v.contains('"'),
        !v.contains('\n'),
    ensures
        ({
            let st = steps(lines(t), env);
            let after = grub_scan(t + ("set default="@ + seq!['"'] + v + seq!['"']) + seq!['\n'], env);
            &&& after.default == default_of(all_entries(st), st.submenus, expand_spec(v, env))
            &&& after.entries == grub_scan(t, env).entries
            &&& after.uses_bls == grub_scan(t, env).uses_bls
        }),
{
    reveal_strlit("set");
    reveal_strlit("default=");
    reveal_strlit("set default=");
    let a = "set"@;
    let b = "default="@;
    let q = seq!['"'] + v + seq!['"'];
    let l = "set default="@ + seq!['"'] + v + seq!['"'];
    assert(l =~= a + (seq![' '] + (b + q)));
    assert(unquoted(a));
    assert(unquoted(b));
    lemma_unquoted_stays(a);
    lemma_unquoted_stays(b);
    let r = seq![' '] + (b + q);
    lemma_read_on(a, r, seq![], false, false);
    assert(Seq::<char>::empty() + a =~= a);
    assert(r.skip(1) =~= b + q);
    lemma_read_on(b, q, seq![], false, false);
    assert(Seq::<char>::empty() + b =~= b);
    law_quotes_hold_a_word_together(v, seq![], b);
    assert(q + Seq::<char>::empty() =~= q);
    assert(quoted_words(Seq::<char>::empty(), b + v, false, false) =~= seq![b + v]);
    assert(quoted_words(l, seq![], false, false) =~= seq![a, b + v]);
    law_trim(seq![], l, seq![]);
    assert(Seq::<char>::empty() + l + Seq::<char>::empty() =~= l);
    if l.contains('\n') {
        let i = choose|i: int| 0 <= i < l.len() && l[i] == '\n';
        if 13 <= i < 13 + v.len() {
            assert(v[i - 13] == '\n');
        }
    }
    lemma_set_default(t, l, v, env);
}

proof fn lemma_pair(a: Seq<char>, b: Seq<char>)
    ensures
        spaced(seq![a, b]) == a + seq![' '] + b,
{
    assert(seq![a, b] =~= seq![a] + seq![b]);
    lemma_join_front(a, seq![b], seq![' ']);
}

proof fn lemma_set_default(
    t: Seq<char>,
    l: Seq<char>,
    v: Seq<char>,
    env: Map<Seq<char>, Seq<char>>,
)
    requires
        outside(t, env),
        quoted_words(l, seq![], false, false) == seq!["set"@, "default="@ + v],
        trim(l) == l,
        l.len() > 1,
        l[0] == 's',
        !l.contains('\n'),
        l.last() != '\r',
    ensures
        ({
            let st = steps(lines(t), env);
            let after = grub_scan(t + l + seq!['\n'], env);
            &&& after.default == default_of(all_entries(st), st.submenus, expand_spec(v, env))
            &&& after.entries == grub_scan(t, env).entries
            &&& after.uses_bls == grub_scan(t, env).uses_bls
        }),
{
    lemma_line_is_read(t, l, env);
    law_strip_prefix("default="@, v);
    reveal_strlit("set");
    reveal_strlit("default=");
    reveal_strlit("menuentry");
    reveal_strlit("submenu");
    reveal_strlit("blscfg");
    reveal_strlit("}");
    let ws = seq!["set"@, "default="@ + v];
    assert("set"@.len() == 3 && "menuentry"@.len() == 9 && "submenu"@.len() == 7);
    assert(("default="@ + v)[0] == 'd' && "blscfg"@[0] == 'b' && "set"@[0] == 's');
    assert(!ws.contains("blscfg"@)) by {
        if ws.contains("blscfg"@) {
            let i = choose|i: int| 0 <= i < ws.len() && ws[i] == "blscfg"@;
            assert(i == 0 || i == 1);
        }
    }
    assert("}"@.len() == 1);
}

/// A later `set default=` overrides an earlier one: it makes no difference
/// that there was an earlier one.
pub proof fn law_earlier_default_does_not_matter(
    t: Seq<char>,
    x: Seq<char>,
    v: Seq<char>,
    env: Map<Seq<char>, Seq<char>>,
)
    requires
        outside(t, env),
        unquoted(x),
        x.last() != '{',
        unquoted(v),
    ensures
        ({
            let first = "set default="@ + x + seq!['\n'];
            let second = "set default="@ + v + seq!['\n'];
            grub_scan(t + first + second, env).default == grub_scan(t + second, env).default
        }),
{
    let lx = "set default="@ + x;
    let lv = "set default="@ + v;
    let u = t + lx + seq!['\n'];
    let first = lx + seq!['\n'];
    let second = lv + seq!['\n'];
    assert(t + first + second =~= u + lv + seq!['\n']);
    assert(t + second =~= t + lv + seq!['\n']);
    lemma_default_line_keeps(t, x, env);
    law_last_default_wins(u, v, env);
    law_last_default_wins(t, v, env);
}

proof fn lemma_default_line_keeps(t: Seq<char>, x: Seq<char>, env: Map<Seq<char>, Seq<char>>)
    requires
        outside(t, env),
        unquoted(x),
        x.last() != '{',
    ensures
        ({
            let u = t + ("set default="@ + x) + seq!['\n'];
            &&& outside(u, env)
            &&& all_entries(steps(lines(u), env)) == all_entries(steps(lines(t), env))
            &&& steps(lines(u), env).submenus == steps(lines(t), env).submenus
        }),
{
    reveal_strlit("set");
    reveal_strlit("default=");
    reveal_strlit("set default=");
    let w = "default="@ + x;
    let ws = seq!["set"@, w];
    assert(unquoted("set"@));
    assert forall|i: int| 0 <= i < w.len() implies '!' <= #[trigger] w[i] <= '~' && w[i] != '\'' && w[i]
        != '"' by {
        if i >= 8 {
            assert(w[i] == x[i - 8]);
            assert(x.contains(x[i - 8]));
        }
    }
    assert(unquoted(w));
    assert(all_unquoted(ws));
    lemma_spaced(ws);
    lemma_pair("set"@, w);
    let l = "set default="@ + x;
    assert(l =~= spaced(ws));
    lemma_line_is_read(t, l, env);
    reveal_strlit("menuentry");
    reveal_strlit("submenu");
    reveal_strlit("}");
    assert("set"@.len() == 3 && "menuentry"@.len() == 9 && "submenu"@.len() == 7);
    assert("}"@.len() == 1);
}

/// A name that a `default` can write as one component: visible at both ends,
/// no `>` in it, and no number.
pub open spec fn one_name(name: Seq<char>) -> bool {
    &&& name.len() > 0
    &&& !name.contains('>')
    &&& '!' <= name[0] <= '~'
    &&& '!' <= name.last() <= '~'
    &&& !('0' <= name[0] <= '9')
    &&& name[0] != '+'
}

proof fn lemma_one_component(name: Seq<char>)
    requires
        name.len() > 0,
        !name.contains('>'),
        '!' <= name[0] <= '~',
        '!' <= name.last() <= '~',
    ensures
        components(name) == seq![name],
{
    law_split(name, '>', seq![]);
    law_trim(seq![], name, seq![]);
    assert(Seq::<char>::empty() + name + Seq::<char>::empty() =~= name);
    assert(components(name) =~= seq![name]);
}

proof fn lemma_two_components(a: Seq<char>, b: Seq<char>)
    requires
        a.len() > 0,
        b.len() > 0,
        !a.contains('>'),
        !b.contains('>'),
        '!' <= a[0] <= '~',
        '!' <= a.last() <= '~',
        '!' <= b[0] <= '~',
        '!' <= b.last() <= '~',
    ensures
        components(a + seq!['>'] + b) == seq![a, b],
{
    law_split(a, '>', b);
    law_split(b, '>', seq![]);
    law_trim(seq![], a, seq![]);
    law_trim(seq![], b, seq![]);
    assert(Seq::<char>::empty() + a + Seq::<char>::empty() =~= a);
    assert(Seq::<char>::empty() + b + Seq::<char>::empty() =~= b);
    assert(seq![a] + seq![b] =~= seq![a, b]);
    assert(components(a + seq!['>'] + b) =~= seq![a, b]);
}

proof fn lemma_no_number(name: Seq<char>)
    requires
        one_name(name),
    ensures
        menu_number(name) is None,
{
}

proof fn lemma_number_component(n: nat)
    ensures
        dec(n).len() > 0,
        !dec(n).contains('>'),
        '!' <= dec(n)[0] <= '~',
        '!' <= dec(n).last() <= '~',
        n <= usize::MAX ==> menu_number(dec(n)) == Some(n as int),
{
    lemma_dec_reads_back(n);
    let d = dec(n);
    assert('0' <= d[0] <= '9');
    assert('0' <= d[d.len() - 1] <= '9');
    if d.contains('>') {
        let i = choose|i: int| 0 <= i < d.len() && d[i] == '>';
        assert('0' <= d[i] <= '9');
    }
}

/// A number names the item of the menu that it counts: the entry itself where
/// the item is one, else the first entry of the submenu.
pub proof fn law_number_names_its_item(
    entries: Seq<RawView>,
    submenus: Seq<SubmenuView>,
    n: nat,
    i: int,
)
    requires
        n <= usize::MAX,
        0 <= i < entries.len(),
        entries[i].top == n,
        entries[i].sub is None || forall|j: int|
            0 <= j < entries.len() && (#[trigger] entries[j]).top == n ==> entries[j].sub is Some,
        forall|j: int| 0 <= j < i ==> (#[trigger] entries[j]).top != n,
    ensures
        default_of(entries, submenus, dec(n)) == Some(i),
{
    lemma_number_component(n);
    lemma_one_component(dec(n));
    lemma_position(entries, leaf_at(n as int));
    lemma_position(entries, under(n as int));
    assert(under(n as int)(entries[i]));
    if entries[i].sub is None {
        assert(leaf_at(n as int)(entries[i]));
    }
}

/// A name that is the id of an entry names the first entry with that id, and
/// one that is only the title of an entry the first entry with that title.
pub proof fn law_name_names_its_entry(
    entries: Seq<RawView>,
    submenus: Seq<SubmenuView>,
    name: Seq<char>,
    i: int,
)
    requires
        one_name(name),
        0 <= i < entries.len(),
    ensures
        entries[i].entry.id == Some(name) && (forall|j: int|
            0 <= j < i ==> (#[trigger] entries[j]).entry.id != Some(name)) ==> default_of(
            entries,
            submenus,
            name,
        ) == Some(i),
        entries[i].entry.title == Some(name) && (forall|j: int|
            0 <= j < i ==> (#[trigger] entries[j]).entry.title != Some(name)) && (forall|j: int|
            0 <= j < entries.len() ==> (#[trigger] entries[j]).entry.id != Some(name)) ==> default_of(
            entries,
            submenus,
            name,
        ) == Some(i),
{
    lemma_one_component(name);
    lemma_no_number(name);
    lemma_position(entries, has_id(name));
    lemma_position(entries, has_title(name));
    if entries[i].entry.id == Some(name) {
        assert(has_id(name)(entries[i]));
    }
    if entries[i].entry.title == Some(name) {
        assert(has_title(name)(entries[i]));
    }
}

/// A name that no entry has but a submenu names the submenu's first entry.
pub proof fn law_submenu_name_names_its_first_entry(
    entries: Seq<RawView>,
    submenus: Seq<SubmenuView>,
    name: Seq<char>,
    k: int,
    i: int,
)
    requires
        one_name(name),
        forall|j: int|
            0 <= j < entries.len() ==> (#[trigger] entries[j]).entry.id != Some(name)
                && entries[j].entry.title != Some(name),
        0 <= k < submenus.len(),
        submenus[k].id == Some(name) || submenus[k].title == Some(name),
        forall|j: int|
            0 <= j < k ==> (#[trigger] submenus[j]).id != Some(name) && submenus[j].title != Some(
                name,
            ),
        0 <= i < entries.len(),
        entries[i].top == submenus[k].top,
        forall|j: int|
            0 <= j < entries.len() && (#[trigger] entries[j]).top == submenus[k].top
                ==> entries[j].sub is Some && i <= j,
    ensures
        default_of(entries, submenus, name) == Some(i),
{
    lemma_one_component(name);
    lemma_no_number(name);
    let top = submenus[k].top;
    lemma_position(entries, has_id(name));
    lemma_position(entries, has_title(name));
    lemma_position(submenus, submenu_named(name));
    assert(submenu_named(name)(submenus[k]));
    lemma_position(entries, leaf_at(top));
    lemma_position(entries, under(top));
    assert(under(top)(entries[i]));
}

/// `A>B`, with numbers: the `B`th entry of the `A`th item.
pub proof fn law_path_of_numbers(
    entries: Seq<RawView>,
    submenus: Seq<SubmenuView>,
    a: nat,
    b: nat,
    i: int,
)
    requires
        a <= usize::MAX,
        b <= usize::MAX,
        0 <= i < entries.len(),
        entries[i].top == a,
        entries[i].sub == Some(b as int),
        forall|j: int|
            0 <= j < i ==> (#[trigger] entries[j]).top != a || entries[j].sub != Some(b as int),
    ensures
        default_of(entries, submenus, dec(a) + seq!['>'] + dec(b)) == Some(i),
{
    lemma_number_component(a);
    lemma_number_component(b);
    lemma_two_components(dec(a), dec(b));
    let p = child_at(a as int, b as int);
    lemma_position(entries, p);
    assert(p(entries[i]));
}

/// `A>B`, with names: the first entry named `B`, by id or title, of the
/// submenu named `A`; an entry of that name elsewhere does not count.
pub proof fn law_path_of_names(
    entries: Seq<RawView>,
    submenus: Seq<SubmenuView>,
    a: Seq<char>,
    b: Seq<char>,
    k: int,
    i: int,
)
    requires
        one_name(a),
        one_name(b),
        0 <= k < submenus.len(),
        submenus[k].id == Some(a) || submenus[k].title == Some(a),
        forall|j: int|
            0 <= j < k ==> (#[trigger] submenus[j]).id != Some(a) && submenus[j].title != Some(a),
        forall|j: int|
            0 <= j < entries.len() && (#[trigger] entries[j]).sub is None ==> entries[j].entry.id
                != Some(a) && entries[j].entry.title != Some(a),
        0 <= i < entries.len(),
        entries[i].top == submenus[k].top,
        entries[i].sub is Some,
        entries[i].entry.id == Some(b) || entries[i].entry.title == Some(b),
        forall|j: int|
            0 <= j < i && (#[trigger] entries[j]).top == submenus[k].top ==> entries[j].entry.id
                != Some(b) && entries[j].entry.title != Some(b),
    ensures
        default_of(entries, submenus, a + seq!['>'] + b) == Some(i),
{
    lemma_two_components(a, b);
    lemma_no_number(a);
    lemma_no_number(b);
    let top = submenus[k].top;
    lemma_position(entries, leaf_named(a));
    lemma_position(submenus, submenu_named(a));
    assert(submenu_named(a)(submenus[k]));
    lemma_position(entries, child_named(top, b));
    assert(child_named(top, b)(entries[i]));
}

/// Where nothing has the name, the first entry is the default; a menu without
/// entries has none.
pub proof fn law_unknown_name_means_the_first(
    entries: Seq<RawView>,
    submenus: Seq<SubmenuView>,
    name: Seq<char>,
)
    requires
        one_name(name),
        forall|j: int|
            0 <= j < entries.len() ==> (#[trigger] entries[j]).entry.id != Some(name)
                && entries[j].entry.title != Some(name),
        forall|j: int|
            0 <= j < submenus.len() ==> (#[trigger] submenus[j]).id != Some(name)
                && submenus[j].title != Some(name),
    ensures
        default_of(entries, submenus, name) == (if entries.len() > 0 {
            Some(0int)
        } else {
            None
        }),
{
    lemma_one_component(name);
    lemma_no_number(name);
    lemma_position(entries, has_id(name));
    lemma_position(entries, has_title(name));
    lemma_position(submenus, submenu_named(name));
}

// ---------------------------------------------------------------------
// Blocks
// ---------------------------------------------------------------------

/// A path keeps its place and loses a device in front; without a `/` in front
/// it gets one.
pub proof fn law_device_is_dropped(dev: Seq<char>, p: Seq<char>)
    requires
        !dev.contains(')'),
        p.len() > 0,
        p[0] != '(',
    ensures
        clean_path_spec(p) == (if p[0] == '/' {
            p
        } else {
            seq!['/'] + p
        }),
        clean_path_spec(seq!['('] + dev + seq![')'] + p) == clean_path_spec(p),
{
    let q = seq!['('] + dev + seq![')'] + p;
    assert(q.skip(1) =~= dev + seq![')'] + p);
    law_split_once(dev, ')', p);
}

/// The line that opens a block with this title and id.
pub open spec fn opening(keyword: Seq<char>, title: Seq<char>, id: Seq<char>) -> Seq<char> {
    keyword + seq![' ', '\''] + title + seq!['\''] + " --id "@ + id + " {"@
}

/// A title and an id that say no more than what they are.
pub open spec fn plain_names(title: Seq<char>, id: Seq<char>) -> bool {
    &&& title.len() > 0
    &&& !title.contains('\'')
    &&& !title.contains('\n')
    &&& title != "--id"@
    &&& title != "$menuentry_id_option"@
    &&& title != "blscfg"@
    &&& unquoted(id)
    &&& id != "blscfg"@
}

proof fn lemma_opening(keyword: Seq<char>, title: Seq<char>, id: Seq<char>)
    requires
        unquoted(keyword),
        plain_names(title, id),
    ensures
        ({
            let l = opening(keyword, title, id);
            &&& quoted_words(l, seq![], false, false) == seq![keyword, title, "--id"@, id, "{"@]
            &&& trim(l) == l
            &&& l.len() > 1
            &&& l[0] == keyword[0]
            &&& l.last() == '{'
            &&& !l.contains('\n')
        }),
{
    reveal_strlit(" --id ");
    reveal_strlit("--id");
    reveal_strlit(" {");
    reveal_strlit("{");
    let l = opening(keyword, title, id);
    let ws = seq!["--id"@, id, "{"@];
    assert(unquoted("--id"@));
    assert(unquoted("{"@));
    assert(all_unquoted(ws));
    lemma_spaced(ws);
    let rest = seq![' '] + spaced(ws);
    lemma_pair(id, "{"@);
    assert(ws =~= seq!["--id"@] + seq![id, "{"@]);
    lemma_join_front("--id"@, seq![id, "{"@], seq![' ']);
    assert(rest =~= " --id "@ + id + " {"@);
    let q = seq!['\''] + title + seq!['\''] + rest;
    let r = seq![' '] + q;
    assert(l =~= keyword + r);
    lemma_unquoted_stays(keyword);
    lemma_read_on(keyword, r, seq![], false, false);
    assert(Seq::<char>::empty() + keyword =~= keyword);
    assert(r.skip(1) =~= q);
    law_quotes_hold_a_word_together(title, rest, seq![]);
    assert(Seq::<char>::empty() + title =~= title);
    assert(rest.skip(1) =~= spaced(ws));
    assert(quoted_words(rest, title, false, false) =~= seq![title] + ws);
    assert(quoted_words(l, seq![], false, false) =~= seq![keyword, title, "--id"@, id, "{"@]);
    lemma_opening_line(keyword, title, id);
}

proof fn lemma_opening_line(keyword: Seq<char>, title: Seq<char>, id: Seq<char>)
    requires
        unquoted(keyword),
        plain_names(title, id),
    ensures
        ({
            let l = opening(keyword, title, id);
            &&& trim(l) == l
            &&& l.len() > 1
            &&& l[0] == keyword[0]
            &&& l.last() == '{'
            &&& !l.contains('\n')
        }),
{
    reveal_strlit(" --id ");
    reveal_strlit(" {");
    let l = opening(keyword, title, id);
    assert(l.last() == '{');
    assert(plain(keyword));
    law_trim(seq![], l, seq![]);
    assert(Seq::<char>::empty() + l + Seq::<char>::empty() =~= l);
    if l.contains('\n') {
        let i = choose|i: int| 0 <= i < l.len() && l[i] == '\n';
        let k = keyword.len() as int;
        let n = title.len() as int;
        if i < k {
            assert(keyword[i] == '\n');
        } else if i < k + 2 {
        } else if i < k + 2 + n {
            assert(title[i - k - 2] == '\n');
        } else if i < k + 2 + n + 7 {
        } else if i < k + 2 + n + 7 + id.len() {
            assert(id[i - k - 2 - n - 7] == '\n');
        }
    }
}

/// A `menuentry` line outside of any other begins an entry with its title and
/// its id. Its place is the next in the menu, or in the open submenu.
pub proof fn law_menuentry_line(
    t: Seq<char>,
    title: Seq<char>,
    id: Seq<char>,
    env: Map<Seq<char>, Seq<char>>,
)
    requires
        outside(t, env),
        plain_names(title, id),
    ensures
        ({
            let st = steps(lines(t), env);
            let after = steps(lines(t + opening("menuentry"@, title, id) + seq!['\n']), env);
            &&& after.current matches Some((open, e)) && open == st.depth && e.entry == (EntryView {
                title: Some(title),
                id: Some(id),
                kernel: None,
                initrd: seq![],
                cmdline: None,
                version: None,
                source: Source::Grub,
                chainloader: None,
                windows: None,
            }) && match st.submenu {
                Some((_, top, next)) => e.top == top && e.sub == Some(next) && after.top_count
                    == st.top_count && (after.submenu matches Some((_, t2, n2)) && t2 == top && n2 == next
                    + 1),
                None => e.top == st.top_count && e.sub is None && after.top_count == st.top_count + 1
                    && after.submenu is None,
            }
            &&& after.depth == st.depth + 1
            &&& after.raw == st.raw
            &&& after.submenus == st.submenus
            &&& after.default_spec == st.default_spec
            &&& after.uses_bls == st.uses_bls
        }),
{
    reveal_strlit("menuentry");
    reveal_strlit("blscfg");
    reveal_strlit("--id");
    reveal_strlit("{");
    reveal_strlit("$menuentry_id_option");
    let l = opening("menuentry"@, title, id);
    assert(unquoted("menuentry"@));
    lemma_opening("menuentry"@, title, id);
    lemma_line_is_read(t, l, env);
    lemma_opening_words("menuentry"@, title, id);
}

proof fn lemma_opening_words(keyword: Seq<char>, title: Seq<char>, id: Seq<char>)
    requires
        plain_names(title, id),
        keyword == "menuentry"@ || keyword == "submenu"@,
    ensures
        ({
            let ws = seq![keyword, title, "--id"@, id, "{"@];
            &&& !ws.contains("blscfg"@)
            &&& menu_id(ws) == Some(id)
        }),
{
    reveal_strlit("menuentry");
    reveal_strlit("submenu");
    reveal_strlit("blscfg");
    reveal_strlit("--id");
    reveal_strlit("{");
    reveal_strlit("$menuentry_id_option");
    let ws = seq![keyword, title, "--id"@, id, "{"@];
    assert("menuentry"@[0] == 'm' && "submenu"@[0] == 's' && "blscfg"@[0] == 'b');
    assert("--id"@[0] == '-' && "{"@[0] == '{' && "$menuentry_id_option"@[0] == '$');
    if ws.contains("blscfg"@) {
        let i = choose|i: int| 0 <= i < ws.len() && ws[i] == "blscfg"@;
        assert(i == 0 || i == 1 || i == 2 || i == 3 || i == 4);
    }
    lemma_position(ws, names_id());
    assert(names_id()(ws[2]));
    assert(!names_id()(ws[0]));
    assert(!names_id()(ws[1]));
    assert(position(ws, names_id()) == Some(2int));
}

/// A `submenu` line outside of any entry begins a submenu, the next item of
/// the menu; the entries in it are counted from 0.
pub proof fn law_submenu_line(
    t: Seq<char>,
    title: Seq<char>,
    id: Seq<char>,
    env: Map<Seq<char>, Seq<char>>,
)
    requires
        outside(t, env),
        plain_names(title, id),
    ensures
        ({
            let st = steps(lines(t), env);
            let after = steps(lines(t + opening("submenu"@, title, id) + seq!['\n']), env);
            &&& after.submenu == Some((st.depth, st.top_count, 0int))
            &&& after.submenus == st.submenus.push(
                SubmenuView { top: st.top_count, id: Some(id), title: Some(title) },
            )
            &&& after.top_count == st.top_count + 1
            &&& after.depth == st.depth + 1
            &&& after.raw == st.raw
            &&& after.current is None
            &&& after.default_spec == st.default_spec
            &&& after.uses_bls == st.uses_bls
        }),
{
    reveal_strlit("menuentry");
    reveal_strlit("submenu");
    let l = opening("submenu"@, title, id);
    assert("menuentry"@[0] == 'm' && "submenu"@[0] == 's');
    assert(unquoted("submenu"@));
    lemma_opening("submenu"@, title, id);
    lemma_line_is_read(t, l, env);
    lemma_opening_words("submenu"@, title, id);
}

/// A lone `}` closes the innermost block: an entry is complete with the block
/// in which it began, and a submenu ends with its own.
pub proof fn law_closing_brace(t: Seq<char>, env: Map<Seq<char>, Seq<char>>)
    requires
        whole_lines(t),
    ensures
        ({
            let st = steps(lines(t), env);
            let after = steps(lines(t + seq!['}'] + seq!['\n']), env);
            &&& after.depth == st.depth - 1
            &&& st.current matches Some((open, e)) ==> (if st.depth - 1 == open {
                after.raw == st.raw.push(e) && after.current is None && after.submenu == st.submenu
            } else {
                after.raw == st.raw && after.current is Some
            })
            &&& st.current is None ==> after.raw == st.raw && after.current is None
            &&& st.current is None && (st.submenu matches Some((open, _, _)) && open == st.depth - 1)
                ==> after.submenu is None
            &&& st.current is None && !(st.submenu matches Some((open, _, _)) && open == st.depth - 1)
                ==> after.submenu == st.submenu
            &&& grub_scan(t + seq!['}'] + seq!['\n'], env).entries.len() == grub_scan(
                t,
                env,
            ).entries.len()
        }),
{
    let l = seq!['}'];
    reveal_strlit("}");
    assert("}"@ =~= l);
    assert(unquoted(l));
    assert(spaced(seq![l]) == l);
    assert(all_unquoted(seq![l]));
    lemma_spaced(seq![l]);
    lemma_line_is_read(t, l, env);
    reveal_strlit("menuentry");
    reveal_strlit("submenu");
    reveal_strlit("set");
    reveal_strlit("blscfg");
    reveal_strlit("linux");
    reveal_strlit("linux16");
    reveal_strlit("linuxefi");
    reveal_strlit("initrd");
    reveal_strlit("initrd16");
    reveal_strlit("initrdefi");
    reveal_strlit("chainloader");
    let st = steps(lines(t), env);
    assert(l.len() == 1);
    assert(!seq![l].contains("blscfg"@)) by {
        if seq![l].contains("blscfg"@) {
            assert("blscfg"@[0] == 'b');
        }
    }
}

/// The menu `st` with another entry under construction.
pub open spec fn with_entry(st: MenuView, e: EntryView) -> MenuView {
    match st.current {
        Some((open, r)) => MenuView { current: Some((open, RawView { entry: e, ..r })), ..st },
        None => st,
    }
}

/// The entry under construction.
pub open spec fn entry_of(st: MenuView) -> EntryView {
    (st.current->0).1.entry
}

/// A `linux` line inside a menuentry, also one with `16` or `efi` behind the
/// word, gives the kernel and the command line: the words behind it, with
/// their variables expanded. It changes nothing else.
pub proof fn law_kernel_line(
    t: Seq<char>,
    kw: Seq<char>,
    kernel: Seq<char>,
    args: Seq<Seq<char>>,
    env: Map<Seq<char>, Seq<char>>,
)
    requires
        whole_lines(t),
        steps(lines(t), env).current is Some,
        kw == "linux"@ || kw == "linux16"@ || kw == "linuxefi"@,
        unquoted(kernel),
        all_unquoted(args),
        kernel.last() != '{',
        args.len() > 0 ==> args.last().last() != '{',
    ensures
        ({
            let st = steps(lines(t), env);
            let after = steps(lines(t + spaced(seq![kw, kernel] + args) + seq!['\n']), env);
            let cmdline = trim(expand_spec(spaced(args), env));
            after == with_entry(
                st,
                EntryView {
                    kernel: Some(clean_path_spec(kernel)),
                    cmdline: if cmdline.len() > 0 {
                        Some(cmdline)
                    } else {
                        entry_of(st).cmdline
                    },
                    ..entry_of(st)
                },
            )
        }),
{
    reveal_strlit("linux");
    reveal_strlit("linux16");
    reveal_strlit("linuxefi");
    reveal_strlit("initrd");
    reveal_strlit("initrd16");
    reveal_strlit("initrdefi");
    reveal_strlit("chainloader");
    reveal_strlit("}");
    reveal_strlit(" ");
    assert(" "@ =~= seq![' ']);
    let ws = seq![kw, kernel] + args;
    assert(unquoted(kw));
    assert forall|i: int| 0 <= i < ws.len() implies unquoted(#[trigger] ws[i]) by {
        if i >= 2 {
            assert(ws[i] == args[i - 2]);
        }
    }
    lemma_spaced(ws);
    lemma_line_is_read(t, spaced(ws), env);
    assert(ws.skip(2) =~= args);
    assert(ws[0] == kw && ws[1] == kernel);
    if args.len() > 0 {
        assert(ws.last() == args.last());
    } else {
        assert(ws.last() == kernel);
    }
    assert("}"@.len() == 1);
    assert("linux"@[0] == 'l' && "linux16"@[0] == 'l' && "linuxefi"@[0] == 'l');
}

/// Command line words without a variable come out as they stand, one blank
/// between each two.
pub proof fn law_arguments_are_kept(args: Seq<Seq<char>>, env: Map<Seq<char>, Seq<char>>)
    requires
        args.len() > 0,
        all_unquoted(args),
        forall|i: int| 0 <= i < args.len() ==> !(#[trigger] args[i]).contains('$'),
    ensures
        trim(expand_spec(spaced(args), env)) == spaced(args),
{
    lemma_spaced(args);
    lemma_spaced_lacks(args, '$');
    law_plain_text_is_kept(spaced(args), env);
}

/// An `initrd` line inside a menuentry, also one with `16` or `efi` behind the
/// word, gives the list of images: all of its words, in order. It changes
/// nothing else.
pub proof fn law_initrd_line(
    t: Seq<char>,
    kw: Seq<char>,
    images: Seq<Seq<char>>,
    env: Map<Seq<char>, Seq<char>>,
)
    requires
        whole_lines(t),
        steps(lines(t), env).current is Some,
        kw == "initrd"@ || kw == "initrd16"@ || kw == "initrdefi"@,
        all_unquoted(images),
        images.len() > 0 ==> images.last().last() != '{',
    ensures
        ({
            let st = steps(lines(t), env);
            let after = steps(lines(t + spaced(seq![kw] + images) + seq!['\n']), env);
            after == with_entry(
                st,
                EntryView {
                    initrd: Seq::new(images.len(), |i: int| clean_path_spec(images[i])),
                    ..entry_of(st)
                },
            )
        }),
{
    reveal_strlit("linux");
    reveal_strlit("linux16");
    reveal_strlit("linuxefi");
    reveal_strlit("initrd");
    reveal_strlit("initrd16");
    reveal_strlit("initrdefi");
    reveal_strlit("chainloader");
    reveal_strlit("}");
    let ws = seq![kw] + images;
    assert("initrd"@.last() == 'd' && "initrd16"@.last() == '6' && "initrdefi"@.last() == 'i');
    assert("initrd"@[0] == 'i' && "initrd16"@[0] == 'i' && "initrdefi"@[0] == 'i');
    assert("linux"@[0] == 'l' && "linux16"@[0] == 'l' && "linuxefi"@[0] == 'l');
    assert(unquoted(kw));
    assert forall|i: int| 0 <= i < ws.len() implies unquoted(#[trigger] ws[i]) by {
        if i >= 1 {
            assert(ws[i] == images[i - 1]);
        }
    }
    lemma_spaced(ws);
    lemma_line_is_read(t, spaced(ws), env);
    assert(ws[0] == kw);
    if images.len() > 0 {
        assert(ws.last() == images.last());
    } else {
        assert(ws.last() == kw);
    }
    assert("}"@.len() == 1);
    if images.len() == 0 {
        assert(spaced(ws) == kw);
    }
    let st = steps(lines(t), env);
    let after = step(st, spaced(ws), env);
    let want = Seq::new(images.len(), |i: int| clean_path_spec(images[i]));
    assert(entry_of(after).initrd =~= want);
}

/// A `chainloader` line inside a menuentry gives what is loaded next: the
/// first word that is no option, a list of blocks as it stands. It changes
/// nothing else.
pub proof fn law_chainloader_line(
    t: Seq<char>,
    options: Seq<Seq<char>>,
    target: Seq<char>,
    env: Map<Seq<char>, Seq<char>>,
)
    requires
        whole_lines(t),
        steps(lines(t), env).current is Some,
        all_unquoted(options),
        forall|i: int| 0 <= i < options.len() ==> (#[trigger] options[i])[0] == '-',
        unquoted(target),
        target[0] != '-',
        target.last() != '{',
    ensures
        ({
            let st = steps(lines(t), env);
            let l = spaced(seq!["chainloader"@] + options + seq![target]);
            let after = steps(lines(t + l + seq!['\n']), env);
            after == with_entry(
                st,
                EntryView {
                    chainloader: Some(
                        if target[0] == '+' {
                            target
                        } else {
                            clean_path_spec(target)
                        },
                    ),
                    ..entry_of(st)
                },
            )
        }),
{
    reveal_strlit("linux");
    reveal_strlit("linux16");
    reveal_strlit("linuxefi");
    reveal_strlit("initrd");
    reveal_strlit("initrd16");
    reveal_strlit("initrdefi");
    reveal_strlit("chainloader");
    reveal_strlit("}");
    let kw = "chainloader"@;
    let ws = seq![kw] + options + seq![target];
    assert("chainloader"@[0] == 'c');
    assert("initrd"@[0] == 'i' && "initrd16"@[0] == 'i' && "initrdefi"@[0] == 'i');
    assert("linux"@[0] == 'l' && "linux16"@[0] == 'l' && "linuxefi"@[0] == 'l');
    assert(unquoted(kw));
    assert forall|i: int| 0 <= i < ws.len() implies unquoted(#[trigger] ws[i]) by {
        if 1 <= i <= options.len() {
            assert(ws[i] == options[i - 1]);
        }
    }
    lemma_spaced(ws);
    lemma_line_is_read(t, spaced(ws), env);
    assert("}"@.len() == 1);
    let tail = ws.skip(1);
    lemma_position(tail, no_option());
    let n = options.len() as int;
    assert(tail[n] == target);
    assert(no_option()(tail[n]));
    assert forall|j: int| 0 <= j < n implies !no_option()(#[trigger] tail[j]) by {
        assert(tail[j] == options[j]);
        assert(unquoted(options[j]));
    }
    assert(position(tail, no_option()) == Some(n));
    assert(ws[n + 1] == target);
}

/// `blscfg` outside of any entry, as a command or as what a command loads,
/// says that the entries are in BLS files.
pub proof fn law_blscfg_is_seen(t: Seq<char>, ws: Seq<Seq<char>>, env: Map<Seq<char>, Seq<char>>)
    requires
        outside(t, env),
        all_unquoted(ws),
        ws.contains("blscfg"@),
        !ws[0].contains('#'),
    ensures
        grub_scan(t + spaced(ws) + seq!['\n'], env).uses_bls,
{
    lemma_spaced(ws);
    assert(unquoted(ws[0]));
    assert(ws[0].contains(ws[0][0]));
    lemma_line_is_read(t, spaced(ws), env);
}

/// Comments and empty lines change nothing, wherever they stand.
pub proof fn law_comments_are_skipped(
    t: Seq<char>,
    note: Seq<char>,
    env: Map<Seq<char>, Seq<char>>,
)
    requires
        whole_lines(t),
        !note.contains('\n'),
        note.len() > 0 ==> '!' <= note.last() <= '~',
    ensures
        grub_scan(t + (seq!['#'] + note) + seq!['\n'], env) == grub_scan(t, env),
        grub_scan(t + seq!['\n'], env) == grub_scan(t, env),
{
    let l = seq!['#'] + note;
    if l.contains('\n') {
        let i = choose|i: int| 0 <= i < l.len() && l[i] == '\n';
        assert(note[i - 1] == '\n');
    }
    if note.len() > 0 {
        assert(l.last() == note.last());
    }
    law_trim(seq![], l, seq![]);
    assert(Seq::<char>::empty() + l + Seq::<char>::empty() =~= l);
    lemma_line_is_read(t, l, env);
    let e = Seq::<char>::empty();
    lemma_line_is_read(t, e, env);
    assert(t + e + seq!['\n'] =~= t + seq!['\n']);
    assert(trim(e) =~= e);
}

/// Other commands change nothing: outside of any entry those that are no
/// block, no `set` and have nothing to do with `blscfg`; inside an entry those
/// that are no `linux`, `initrd` or `chainloader` line.
pub proof fn law_other_commands_are_skipped(
    t: Seq<char>,
    ws: Seq<Seq<char>>,
    env: Map<Seq<char>, Seq<char>>,
)
    requires
        whole_lines(t),
        all_unquoted(ws),
        ws.len() > 0,
        ws.last().last() != '{',
        ws[0] != seq!['}'],
        steps(lines(t), env).current is None ==> ws[0] != "set"@ && !ws.contains("blscfg"@),
        steps(lines(t), env).current is Some ==> ws[0] != "linux"@ && ws[0] != "linux16"@ && ws[0]
            != "linuxefi"@ && ws[0] != "initrd"@ && ws[0] != "initrd16"@ && ws[0] != "initrdefi"@
            && ws[0] != "chainloader"@,
    ensures
        steps(lines(t + spaced(ws) + seq!['\n']), env) == steps(lines(t), env),
        grub_scan(t + spaced(ws) + seq!['\n'], env) == grub_scan(t, env),
{
    reveal_strlit("}");
    assert("}"@ =~= seq!['}']);
    lemma_spaced(ws);
    lemma_line_is_read(t, spaced(ws), env);
    if ws.len() == 1 {
        assert(spaced(ws) == ws[0]);
    } else {
        assert(spaced(ws).len() > 1);
    }
}

/// The id of a block is the word behind `--id`, or behind the variable that
/// grub-mkconfig writes for it; the first of them counts, and a block without
/// one has no id.
pub proof fn law_id_is_behind_its_option(front: Seq<Seq<char>>, id: Seq<char>, rest: Seq<Seq<char>>)
    requires
        forall|i: int|
            0 <= i < front.len() ==> #[trigger] front[i] != "--id"@ && front[i]
                != "$menuentry_id_option"@,
    ensures
        menu_id(front + seq!["--id"@, id] + rest) == Some(id),
        menu_id(front + seq!["$menuentry_id_option"@, id] + rest) == Some(id),
        menu_id(front) is None,
        menu_id(front + seq!["--id"@]) is None,
{
    lemma_id_at(front, "--id"@, seq![id] + rest);
    lemma_id_at(front, "$menuentry_id_option"@, seq![id] + rest);
    lemma_id_at(front, "--id"@, seq![]);
    assert(front + seq!["--id"@, id] + rest =~= front + seq!["--id"@] + (seq![id] + rest));
    assert(front + seq!["$menuentry_id_option"@, id] + rest =~= front + seq!["$menuentry_id_option"@] + (
    seq![id] + rest));
    assert(front + seq!["--id"@] + Seq::<Seq<char>>::empty() =~= front + seq!["--id"@]);
    lemma_position(front, names_id());
}

proof fn lemma_id_at(front: Seq<Seq<char>>, option: Seq<char>, rest: Seq<Seq<char>>)
    requires
        option == "--id"@ || option == "$menuentry_id_option"@,
        forall|i: int|
            0 <= i < front.len() ==> #[trigger] front[i] != "--id"@ && front[i]
                != "$menuentry_id_option"@,
    ensures
        menu_id(front + seq![option] + rest) == (if rest.len() > 0 {
            Some(rest[0])
        } else {
            None
        }),
{
    let all = front + seq![option] + rest;
    let n = front.len() as int;
    lemma_position(all, names_id());
    assert(all[n] == option);
    assert(names_id()(all[n]));
    assert forall|j: int| 0 <= j < n implies !names_id()(#[trigger] all[j]) by {
        assert(all[j] == front[j]);
    }
    assert(position(all, names_id()) == Some(n));
    if rest.len() > 0 {
        assert(all[n + 1] == rest[0]);
    }
}

} // verus!
