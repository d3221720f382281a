//! GRUB environment block (`grubenv`): a fixed 1024-byte file of
//! `key=value` lines padded with `#`. Holds `saved_entry` (the default
//! menu entry) and on Fedora/RHEL `kernelopts`/`tuned_params` used by
//! BLS entries.

use crate::fsys::{may_read, FileSystem};
use crate::seqs::or;
use crate::text::laws::{
    law_line_is_added, law_split_once, law_trim, plain, whole_lines,
};
use crate::text::split::{
    begins, cut, lines, split_once, starts_char, text_lines, trim, trim_end_char, trimmed,
    trimmed_end_char,
};
use crate::text::{chars, eq, lemma_last_end_is, lossy, not_eq_to, string, texts, utf8_lossy};
use vstd::prelude::*;

verus! {

broadcast use vstd::seq_lib::group_seq_properties;

/// Variables and their values; a later value of a variable replaces an
/// earlier one.
#[derive(Debug, Clone)]
pub struct Env {
    vars: Vec<(String, String)>,
}

/// The variables after the assignments `s`, in order.
pub open spec fn assigned(s: Seq<(Seq<char>, Seq<char>)>) -> Map<Seq<char>, Seq<char>>
    decreases s.len(),
{
    if s.len() == 0 {
        Map::empty()
    } else {
        assigned(s.drop_last()).insert(s.last().0, s.last().1)
    }
}

impl View for Env {
    type V = Map<Seq<char>, Seq<char>>;

    closed spec fn view(&self) -> Map<Seq<char>, Seq<char>> {
        assigned(self.assignments())
    }
}

impl Env {
    closed spec fn assignments(&self) -> Seq<(Seq<char>, Seq<char>)> {
        Seq::new(self.vars@.len(), |i: int| (self.vars@[i].0@, self.vars@[i].1@))
    }

    /// No variables.
    pub fn new() -> (r: Env)
        ensures
            r@ == Map::<Seq<char>, Seq<char>>::empty(),
    {
        let r = Env { vars: Vec::new() };
        assert(r.assignments() =~= Seq::empty());
        r
    }

    /// Set a variable.
    pub fn insert(&mut self, key: String, value: String)
        ensures
            final(self)@ == old(self)@.insert(key@, value@),
    {
        self.vars.push((key, value));
        assert(self.assignments().drop_last() =~= old(self).assignments());
    }

    /// The value of a variable.
    pub fn get(&self, key: &str) -> (r: Option<&String>)
        ensures
            match r {
                Some(v) => self@.contains_key(key@) && self@[key@] == v@,
                None => !self@.contains_key(key@),
            },
    {
        let mut i: usize = self.vars.len();
        let ghost all = self.assignments();
        assert(all.take(i as int) =~= all);
        while i > 0
            invariant
                i <= self.vars@.len(),
                all == self.assignments(),
                self@ == assigned(all),
                self@.contains_key(key@) == assigned(all.take(i as int)).contains_key(key@),
                self@.contains_key(key@) ==> self@[key@] == assigned(all.take(i as int))[key@],
            decreases i,
        {
            proof {
                assert(all.take(i as int).drop_last() =~= all.take(i - 1));
                assert(all.take(i as int).last() == all[i - 1]);
            }
            if eq(self.vars[i - 1].0.as_str(), key) {
                return Some(&self.vars[i - 1].1);
            }
            i = i - 1;
        }
        assert(all.take(0) =~= Seq::empty());
        None
    }
}

/// The variables after the lines `l` of an environment block.
pub open spec fn env_lines(l: Seq<Seq<char>>) -> Map<Seq<char>, Seq<char>>
    decreases l.len(),
{
    if l.len() == 0 {
        Map::empty()
    } else {
        let before = env_lines(l.drop_last());
        let line = l.last();
        if starts_char(line, '#') {
            before
        } else {
            match split_once(line, '=') {
                Some((key, value)) => before.insert(trim(key), trim(trim_end_char(value, '#'))),
                None => before,
            }
        }
    }
}

/// The variables of an environment block.
pub fn parse(text: &str) -> (r: Env)
    ensures
        r@ == env_lines(lines(text@)),
{
    let t = chars(text);
    let l = text_lines(t.as_slice());
    let mut env = Env::new();
    let mut i: usize = 0;
    assert(texts(l@).take(0) =~= Seq::<Seq<char>>::empty());
    while i < l.len()
        invariant
            i <= l@.len(),
            env@ == env_lines(texts(l@).take(i as int)),
        decreases l@.len() - i,
    {
        let line = l[i];
        proof {
            assert(texts(l@).take(i + 1).drop_last() =~= texts(l@).take(i as int));
            assert(texts(l@).take(i + 1).last() == line@);
        }
        if !begins(line, '#') {
            match cut(line, '=') {
                Some((key, value)) => {
                    env.insert(string(trimmed(key)), string(trimmed(trimmed_end_char(value, '#'))));
                },
                None => {},
            }
        }
        i = i + 1;
    }
    assert(texts(l@).take(i as int) =~= texts(l@));
    env
}

/// The variables of the environment block at `path`, if there is one.
pub open spec fn env_at<F: FileSystem + ?Sized>(fs: &F, path: Seq<char>) -> Option<
    Map<Seq<char>, Seq<char>>,
> {
    match fs.file(path) {
        Some(data) => Some(env_lines(lines(utf8_lossy(data)))),
        None => None,
    }
}

/// The variables of the first environment block of the filesystem; none, if
/// it has no block.
pub open spec fn env_of<F: FileSystem + ?Sized>(fs: &F) -> Map<Seq<char>, Seq<char>> {
    match or(
        or(env_at(fs, "/grub2/grubenv"@), env_at(fs, "/grub/grubenv"@)),
        or(env_at(fs, "/boot/grub2/grubenv"@), env_at(fs, "/boot/grub/grubenv"@)),
    ) {
        Some(env) => env,
        None => Map::empty(),
    }
}

/// `env` is what `fs` may answer to be in the environment block at `path`.
pub open spec fn may_hold<F: FileSystem + ?Sized>(
    fs: &F,
    path: Seq<char>,
    env: Map<Seq<char>, Seq<char>>,
) -> bool {
    exists|d: Vec<u8>| #[trigger]
        may_read(fs, path, Ok(d)) && env == env_lines(lines(utf8_lossy(d@)))
}

fn load_at<F: FileSystem + ?Sized>(fs: &F, path: &str) -> (r: Option<Env>)
    ensures
        fs.stable() ==> match r {
            Some(env) => env_at(fs, path@) == Some(env@),
            None => env_at(fs, path@) is None,
        },
        match r {
            Some(env) => may_hold(fs, path@, env@),
            None => exists|e: crate::error::Error| #[trigger] may_read(fs, path@, Err(e)),
        },
{
    let read = fs.read_file(path);
    assert(may_read(fs, path@, read));
    match read {
        Ok(data) => {
            let text = lossy(data.as_slice());
            Some(parse(text.as_str()))
        },
        Err(_) => None,
    }
}

/// Load the first grubenv found. Missing or malformed -> empty map;
/// the env is an enhancement, never a hard requirement.
pub fn load<F: FileSystem + ?Sized>(fs: &F) -> (r: Env)
    ensures
        fs.stable() ==> r@ == env_of(fs),
        r@ == Map::<Seq<char>, Seq<char>>::empty() || may_hold(fs, "/grub2/grubenv"@, r@) || may_hold(
            fs,
            "/grub/grubenv"@,
            r@,
        ) || may_hold(fs, "/boot/grub2/grubenv"@, r@) || may_hold(fs, "/boot/grub/grubenv"@, r@),
{
    if let Some(env) = load_at(fs, "/grub2/grubenv") {
        return env;
    }
    if let Some(env) = load_at(fs, "/grub/grubenv") {
        return env;
    }
    if let Some(env) = load_at(fs, "/boot/grub2/grubenv") {
        return env;
    }
    if let Some(env) = load_at(fs, "/boot/grub/grubenv") {
        return env;
    }
    Env::new()
}

/// A line `KEY=VALUE` sets the variable, whatever it was before, and no
/// other; the `#` that pad the block are not part of the value.
pub proof fn law_assignment_sets_its_variable(
    t: Seq<char>,
    key: Seq<char>,
    value: Seq<char>,
    padding: Seq<char>,
)
    requires
        whole_lines(t),
        plain(key),
        !key.contains('='),
        key[0] != '#',
        value.len() > 0,
        !value.contains('\n'),
        '!' <= value[0] <= '~',
        '!' <= value.last() <= '~',
        value.last() != '#',
        forall|i: int| 0 <= i < padding.len() ==> #[trigger] padding[i] == '#',
    ensures
        env_lines(lines(t + (key + seq!['='] + value + padding) + seq!['\n'])) == env_lines(
            lines(t),
        ).insert(key, value),
{
    let l = key + seq!['='] + value + padding;
    let v = value + padding;
    assert(l =~= key + seq!['='] + v);
    if l.contains('\n') {
        let i = choose|i: int| 0 <= i < l.len() && l[i] == '\n';
        if i < key.len() {
            assert(key[i] == '\n');
        } else if i > key.len() && i - key.len() - 1 < value.len() {
            assert(value[i - key.len() - 1] == '\n');
        } else if i > key.len() {
            assert(padding[i - key.len() - 1 - value.len()] == '\n');
        }
    }
    if padding.len() > 0 {
        assert(l.last() == padding[padding.len() - 1]);
    } else {
        assert(l.last() == value.last());
    }
    law_line_is_added(t, l);
    law_split_once(key, '=', v);
    law_trim(seq![], key, seq![]);
    law_trim(seq![], value, seq![]);
    assert(Seq::<char>::empty() + key + Seq::<char>::empty() =~= key);
    assert(Seq::<char>::empty() + value + Seq::<char>::empty() =~= value);
    assert forall|j: int| value.len() <= j < v.len() implies !not_eq_to('#')(#[trigger] v[j]) by {
        assert(v[j] == padding[j - value.len()]);
    }
    assert(v[value.len() - 1] == value.last());
    lemma_last_end_is(v, not_eq_to('#'), value.len() as int);
    assert(v.take(value.len() as int) =~= value);
    let all = lines(t).push(l);
    assert(all.drop_last() =~= lines(t));
    assert(l[0] == key[0]);
}

/// Lines that begin with `#`, and lines without `=`, set nothing; an empty
/// block has no variables.
pub proof fn law_other_lines_set_nothing(t: Seq<char>, l: Seq<char>)
    requires
        whole_lines(t),
        !l.contains('\n'),
        l.len() > 0 ==> l.last() != '\r',
        !l.contains('=') || l[0] == '#',
    ensures
        env_lines(lines(t + l + seq!['\n'])) == env_lines(lines(t)),
        env_lines(lines(seq![])) == Map::<Seq<char>, Seq<char>>::empty(),
{
    law_line_is_added(t, l);
    let all = lines(t).push(l);
    assert(all.drop_last() =~= lines(t));
    if !l.contains('=') {
        law_split_once(l, '=', seq![]);
    } else {
        assert(l.len() > 0);
    }
}

/// The block that is used is the first of these files that can be read, in
/// this order: `/grub2/grubenv`, `/grub/grubenv` and the same two below
/// `/boot`. Without any there are no variables.
pub proof fn law_first_block_is_used<F: FileSystem + ?Sized>(fs: &F)
    ensures
        fs.file("/grub2/grubenv"@) matches Some(d) ==> env_of(fs) == env_lines(lines(utf8_lossy(d))),
        fs.file("/grub2/grubenv"@) is None ==> (fs.file("/grub/grubenv"@) matches Some(d) ==> env_of(
            fs,
        ) == env_lines(lines(utf8_lossy(d)))),
        fs.file("/grub2/grubenv"@) is None && fs.file("/grub/grubenv"@) is None ==> (fs.file(
            "/boot/grub2/grubenv"@,
        ) matches Some(d) ==> env_of(fs) == env_lines(lines(utf8_lossy(d)))),
        fs.file("/grub2/grubenv"@) is None && fs.file("/grub/grubenv"@) is None && fs.file(
            "/boot/grub2/grubenv"@,
        ) is None ==> env_of(fs) == (match fs.file("/boot/grub/grubenv"@) {
            Some(d) => env_lines(lines(utf8_lossy(d))),
            None => Map::empty(),
        }),
{
}

} // verus!
