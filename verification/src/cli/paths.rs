//! Paths as a user writes them.

use crate::text::split::{begins, join, join_parts, pieces, split, starts_char};
use crate::text::{chars, eq_to, is_str, lemma_first, lemma_first_is, push_chars, texts};
use vstd::prelude::*;
use vstd::string::*;

verus! {

broadcast use vstd::seq_lib::group_seq_properties;

/// Segments with `.` and `..` folded.
pub open spec fn folded(segs: Seq<Seq<char>>) -> Seq<Seq<char>>
    decreases segs.len(),
{
    if segs.len() == 0 {
        seq![]
    } else {
        let front = folded(segs.drop_last());
        let seg = segs.last();
        if seg.len() == 0 || seg == "."@ {
            front
        } else if seg == ".."@ {
            if front.len() > 0 {
                front.drop_last()
            } else {
                front
            }
        } else {
            front.push(seg)
        }
    }
}

/// A user path, made absolute, without `.` and `..`.
#[verifier::opaque]
pub open spec fn resolved(cwd: Seq<char>, input: Seq<char>) -> Seq<char> {
    let base = if starts_char(input, '/') {
        seq![]
    } else {
        cwd
    };
    "/"@ + join(folded(split(base, '/') + split(input, '/')), "/"@)
}

/// Fold one more list of segments.
fn fold<'a>(parts: &mut Vec<&'a [char]>, segs: &Vec<&'a [char]>, Ghost(front): Ghost<Seq<Seq<char>>>)
    requires
        texts(old(parts)@) == folded(front),
    ensures
        texts(final(parts)@) == folded(front + texts(segs@)),
{
    let mut i: usize = 0;
    assert(front + texts(segs@).take(0) =~= front);
    while i < segs.len()
        invariant
            i <= segs@.len(),
            texts(parts@) == folded(front + texts(segs@).take(i as int)),
        decreases segs@.len() - i,
    {
        let seg: &'a [char] = segs[i];
        let ghost before = parts@;
        let ghost all = front + texts(segs@).take(i + 1);
        assert(all.drop_last() =~= front + texts(segs@).take(i as int));
        assert(all.last() == seg@);
        assert(texts(parts@).len() == parts@.len());
        if seg.len() == 0 || is_str(seg, ".") {
        } else if is_str(seg, "..") {
            if parts.len() > 0 {
                let _ = parts.pop();
                assert(texts(parts@) =~= texts(before).drop_last());
            }
        } else {
            parts.push(seg);
            assert(texts(parts@) =~= texts(before).push(seg@));
        }
        i = i + 1;
    }
    assert(front + texts(segs@).take(i as int) =~= front + texts(segs@));
}

/// Resolve a user path against the cwd, folding `.` and `..`.
pub fn resolve(cwd: &str, input: &str) -> (r: String)
    ensures
        r@ == resolved(cwd@, input@),
{
    reveal(resolved);
    let inp = chars(input);
    let base: Vec<char> = if begins(inp.as_slice(), '/') {
        Vec::new()
    } else {
        chars(cwd)
    };
    assert(starts_char(input@, '/') ==> base@ =~= Seq::<char>::empty());
    let head = pieces(base.as_slice(), '/');
    let tail = pieces(inp.as_slice(), '/');
    let mut parts: Vec<&[char]> = Vec::new();
    let ghost none = Seq::<Seq<char>>::empty();
    assert(texts(parts@) =~= folded(none));
    fold(&mut parts, &head, Ghost(none));
    assert(none + texts(head@) =~= texts(head@));
    fold(&mut parts, &tail, Ghost(texts(head@)));
    let body = join_parts(&parts, "/");
    let mut out: String = "/".to_owned();
    push_chars(&mut out, body.as_slice());
    out
}

/// A segment that a resolved path may have.
pub open spec fn is_name(seg: Seq<char>) -> bool {
    &&& seg.len() > 0
    &&& seg != "."@
    &&& seg != ".."@
    &&& forall|i: int| 0 <= i < seg.len() ==> #[trigger] seg[i] != '/'
}

/// Every segment is a name.
pub open spec fn are_names(segs: Seq<Seq<char>>) -> bool {
    forall|i: int| 0 <= i < segs.len() ==> is_name(#[trigger] segs[i])
}

/// No slash in `seg`.
spec fn slashless(seg: Seq<char>) -> bool {
    forall|i: int| 0 <= i < seg.len() ==> #[trigger] seg[i] != '/'
}

proof fn lemma_pieces_are_slashless(s: Seq<char>)
    ensures
        forall|i: int| 0 <= i < split(s, '/').len() ==> slashless(#[trigger] split(s, '/')[i]),
        split(s, '/').len() > 0,
    decreases s.len(),
{
    let p = eq_to('/');
    lemma_first(s, p);
    let n = crate::text::first(s, p) as int;
    let head = s.take(n);
    assert(slashless(head)) by {
        assert forall|i: int| 0 <= i < head.len() implies #[trigger] head[i] != '/' by {
            assert(head[i] == s[i]);
            assert(!p(s[i]));
        }
    }
    if n < s.len() {
        lemma_pieces_are_slashless(s.skip(n + 1));
    }
}

proof fn lemma_folded_are_names(segs: Seq<Seq<char>>)
    requires
        forall|i: int| 0 <= i < segs.len() ==> slashless(#[trigger] segs[i]),
    ensures
        are_names(folded(segs)),
    decreases segs.len(),
{
    if segs.len() > 0 {
        let front = segs.drop_last();
        assert forall|i: int| 0 <= i < front.len() implies slashless(#[trigger] front[i]) by {
            assert(front[i] == segs[i]);
        }
        lemma_folded_are_names(front);
        assert(slashless(segs[segs.len() - 1]));
    }
}

/// Names are not changed by folding.
proof fn lemma_names_fold_to_themselves(segs: Seq<Seq<char>>)
    requires
        are_names(segs),
    ensures
        folded(segs) == segs,
    decreases segs.len(),
{
    if segs.len() > 0 {
        let front = segs.drop_last();
        assert(are_names(front)) by {
            assert forall|i: int| 0 <= i < front.len() implies is_name(#[trigger] front[i]) by {
                assert(front[i] == segs[i]);
            }
        }
        lemma_names_fold_to_themselves(front);
        assert(is_name(segs[segs.len() - 1]));
        assert(front.push(segs.last()) =~= segs);
    } else {
        assert(segs =~= Seq::<Seq<char>>::empty());
    }
}

/// Segments in front that fold to nothing make no difference.
proof fn lemma_folded_skips_blanks(blanks: Seq<Seq<char>>, segs: Seq<Seq<char>>)
    requires
        folded(blanks).len() == 0,
    ensures
        folded(blanks + segs) == folded(segs),
    decreases segs.len(),
{
    let none = Seq::<Seq<char>>::empty();
    if segs.len() == 0 {
        assert(blanks + segs =~= blanks);
        assert(folded(blanks) =~= none);
        assert(segs =~= none);
    } else {
        let all = blanks + segs;
        assert(all.drop_last() =~= blanks + segs.drop_last());
        assert(all.last() == segs.last());
        lemma_folded_skips_blanks(blanks, segs.drop_last());
    }
}

/// Splitting gives back the names that were joined.
proof fn lemma_split_joined(names: Seq<Seq<char>>)
    requires
        are_names(names),
        names.len() > 0,
    ensures
        split(join(names, "/"@), '/') == names,
    decreases names.len(),
{
    reveal_strlit("/");
    let p = eq_to('/');
    if names.len() == 1 {
        let s = names[0];
        assert(is_name(names[0]));
        assert forall|i: int| 0 <= i < s.len() implies !p(#[trigger] s[i]) by {}
        lemma_first_is(s, p, s.len() as int);
        assert(s.take(s.len() as int) =~= s);
        assert(split(s, '/') =~= names);
        lemma_join_one(names);
    } else {
        let front = names.drop_last();
        assert forall|i: int| 0 <= i < front.len() implies is_name(#[trigger] front[i]) by {
            assert(front[i] == names[i]);
        }
        lemma_split_joined(front);
        assert(is_name(names[names.len() - 1]));
        lemma_split_snoc(join(front, "/"@), names.last());
        assert(join(names, "/"@) =~= join(front, "/"@) + seq!['/'] + names.last());
        assert(front.push(names.last()) =~= names);
    }
}

proof fn lemma_join_one(names: Seq<Seq<char>>)
    requires
        names.len() == 1,
    ensures
        join(names, "/"@) == names[0],
{
}

proof fn lemma_split_snoc(a: Seq<char>, b: Seq<char>)
    requires
        slashless(b),
    ensures
        split(a + seq!['/'] + b, '/') == split(a, '/').push(b),
    decreases a.len(),
{
    let p = eq_to('/');
    let s = a + seq!['/'] + b;
    lemma_first(a, p);
    let n = crate::text::first(a, p) as int;
    if n < a.len() {
        assert forall|i: int| 0 <= i < n implies !p(#[trigger] s[i]) by {
            assert(s[i] == a[i]);
            assert(!p(a[i]));
        }
        assert(s[n] == a[n]);
        lemma_first_is(s, p, n);
        assert(s.take(n) =~= a.take(n));
        assert(s.skip(n + 1) =~= a.skip(n + 1) + seq!['/'] + b);
        lemma_split_snoc(a.skip(n + 1), b);
        assert(split(s, '/') =~= split(a, '/').push(b));
    } else {
        assert forall|i: int| 0 <= i < n implies !p(#[trigger] s[i]) by {
            assert(s[i] == a[i]);
            assert(!p(a[i]));
        }
        assert(s[n] == '/');
        lemma_first_is(s, p, n);
        assert(s.take(n) =~= a);
        assert(s.skip(n + 1) =~= b);
        assert(a.take(n) =~= a);
        assert forall|i: int| 0 <= i < b.len() implies !p(#[trigger] b[i]) by {}
        lemma_first_is(b, p, b.len() as int);
        assert(b.take(b.len() as int) =~= b);
        assert(split(b, '/') =~= seq![b]);
        assert(split(a, '/') =~= seq![a]);
        assert(split(s, '/') =~= seq![a, b]);
    }
}

/// The names that a resolved path is made of.
pub open spec fn names_of(cwd: Seq<char>, input: Seq<char>) -> Seq<Seq<char>> {
    folded(
        split(
            if starts_char(input, '/') {
                seq![]
            } else {
                cwd
            },
            '/',
        ) + split(input, '/'),
    )
}

/// A resolved path is a slash and names with slashes between them: no segment
/// of it is empty, `.` or `..`.
pub proof fn law_resolved_is_made_of_names(cwd: Seq<char>, input: Seq<char>)
    ensures
        resolved(cwd, input) == "/"@ + join(names_of(cwd, input), "/"@),
        are_names(names_of(cwd, input)),
{
    reveal(resolved);
    let base = if starts_char(input, '/') {
        seq![]
    } else {
        cwd
    };
    lemma_pieces_are_slashless(base);
    lemma_pieces_are_slashless(input);
    let all = split(base, '/') + split(input, '/');
    assert forall|i: int| 0 <= i < all.len() implies slashless(#[trigger] all[i]) by {
        if i < split(base, '/').len() {
            assert(all[i] == split(base, '/')[i]);
        } else {
            assert(all[i] == split(input, '/')[i - split(base, '/').len()]);
        }
    }
    lemma_folded_are_names(all);
}

/// An absolute path means the same wherever the shell is.
pub proof fn law_absolute_paths_ignore_the_directory(a: Seq<char>, b: Seq<char>, path: Seq<char>)
    requires
        starts_char(path, '/'),
    ensures
        resolved(a, path) == resolved(b, path),
{
    reveal(resolved);
}

proof fn lemma_split_empty()
    ensures
        split(Seq::<char>::empty(), '/') == seq![Seq::<char>::empty()],
        folded(seq![Seq::<char>::empty()]).len() == 0,
{
    let p = eq_to('/');
    let e = Seq::<char>::empty();
    lemma_first(e, p);
    assert(e.take(0) =~= e);
    assert(split(e, '/') =~= seq![e]);
    let one = seq![e];
    assert(one.drop_last() =~= Seq::<Seq<char>>::empty());
    assert(one.last() == e);
    assert(folded(one) == folded(one.drop_last()));
}

/// A path that was resolved stays as it is when it is resolved again.
pub proof fn law_resolving_again_changes_nothing(
    cwd: Seq<char>,
    input: Seq<char>,
    other: Seq<char>,
)
    ensures
        resolved(other, resolved(cwd, input)) == resolved(cwd, input),
{
    reveal(resolved);
    law_resolved_is_made_of_names(cwd, input);
    reveal_strlit("/");
    let names = names_of(cwd, input);
    let body = join(names, "/"@);
    let path = resolved(cwd, input);
    let p = eq_to('/');
    let e = Seq::<char>::empty();
    assert(path[0] == '/');
    lemma_first_is(path, p, 0);
    assert(path.take(0) =~= e);
    assert(path.skip(1) =~= body);
    assert(split(path, '/') =~= seq![e] + split(body, '/'));
    lemma_split_empty();
    let all = split(e, '/') + split(path, '/');
    assert(all =~= (seq![e] + seq![e]) + split(body, '/'));
    assert(seq![e] + seq![e] =~= seq![e, e]);
    lemma_folded_skips_blanks(seq![e], seq![e]);
    lemma_folded_skips_blanks(seq![e] + seq![e], split(body, '/'));
    if names.len() > 0 {
        lemma_split_joined(names);
        lemma_names_fold_to_themselves(names);
    } else {
        assert(body =~= e);
        assert(names =~= Seq::<Seq<char>>::empty());
        assert(folded(split(body, '/')) =~= names);
    }
}

/// A path that resolving does not change.
pub open spec fn is_resolved(path: Seq<char>) -> bool {
    resolved("/"@, path) == path
}

/// The directory that a shell starts in is resolved.
pub proof fn law_root_is_resolved()
    ensures
        is_resolved("/"@),
{
    reveal(resolved);
    reveal_strlit("/");
    let e = Seq::<char>::empty();
    let root = "/"@;
    let p = eq_to('/');
    law_resolving_again_changes_nothing(root, root, root);
    lemma_first_is(root, p, 0);
    assert(root.take(0) =~= e);
    assert(root.skip(1) =~= e);
    lemma_split_empty();
    assert(split(root, '/') =~= seq![e] + seq![e]);
    assert(split(e, '/') + split(root, '/') =~= seq![e] + (seq![e] + seq![e]));
    lemma_folded_skips_blanks(seq![e], seq![e]);
    lemma_folded_skips_blanks(seq![e], seq![e] + seq![e]);
    assert(folded(split(e, '/') + split(root, '/')) =~= Seq::<Seq<char>>::empty());
    assert(resolved(root, root) =~= root);
}

/// Where one more component leads from `names`: nowhere else for an empty one
/// or a dot, up for two dots, and down for a name.
pub open spec fn one_more(names: Seq<Seq<char>>, seg: Seq<char>) -> Seq<Seq<char>> {
    if seg.len() == 0 || seg == seq!['.'] {
        names
    } else if seg == seq!['.', '.'] {
        if names.len() > 0 {
            names.drop_last()
        } else {
            names
        }
    } else {
        names.push(seg)
    }
}

/// A path is followed component by component, from the directory on, or from
/// the root where it begins with a slash.
pub proof fn law_components_are_followed(cwd: Seq<char>, input: Seq<char>, seg: Seq<char>)
    requires
        !seg.contains('/'),
    ensures
        input.len() > 0 ==> names_of(cwd, input + seq!['/'] + seg) == one_more(
            names_of(cwd, input),
            seg,
        ),
        seg.len() > 0 ==> names_of(cwd, seg) == one_more(names_of(cwd, seq![]), seg),
        names_of(cwd, seq!['/'] + seg) == one_more(seq![], seg),
{
    reveal_strlit(".");
    reveal_strlit("..");
    assert("."@ =~= seq!['.']);
    assert(".."@ =~= seq!['.', '.']);
    assert forall|i: int| 0 <= i < seg.len() implies #[trigger] seg[i] != '/' by {
        assert(seg.contains(seg[i]));
    }
    let e = Seq::<char>::empty();
    let base = split(cwd, '/');
    lemma_split_empty();
    lemma_split_snoc(e, seg);
    assert(e + seq!['/'] + seg =~= seq!['/'] + seg);
    lemma_split_snoc(input, seg);
    if input.len() > 0 {
        let t = input + seq!['/'] + seg;
        assert(t[0] == input[0]);
        let root = if starts_char(input, '/') {
            e
        } else {
            cwd
        };
        let all = split(root, '/') + split(t, '/');
        assert(all.drop_last() =~= split(root, '/') + split(input, '/'));
        assert(all.last() == seg);
    }
    if seg.len() > 0 {
        crate::text::laws::law_split(seg, '/', e);
        assert(seg.contains(seg[0]));
        let all = base + split(seg, '/');
        assert(all.drop_last() =~= base);
        assert(all.last() == seg);
        let blank = base + split(e, '/');
        assert(blank.drop_last() =~= base);
        assert(blank.last() == e);
    }
    let abs = seq!['/'] + seg;
    let all = split(e, '/') + split(abs, '/');
    assert(split(abs, '/') =~= seq![e, seg]);
    assert(all.drop_last() =~= seq![e] + seq![e]);
    assert(all.last() == seg);
    lemma_folded_skips_blanks(seq![e], seq![e]);
    assert(folded(seq![e] + seq![e]) =~= Seq::<Seq<char>>::empty());
}

} // verus!
