//! Variables in config lines.

use crate::boot::grubenv::Env;
use crate::text::split::{begins, starts_char};
use crate::text::{
    alpha, digit, eq_to, find, first, is_alpha, is_digit, lemma_first, skip, string, take,
};
use vstd::prelude::*;
use vstd::string::*;

verus! {

broadcast use vstd::seq_lib::group_seq_properties;

/// The predicate "cannot be part of a variable's name".
pub open spec fn not_name() -> spec_fn(char) -> bool {
    |c: char| !(is_alpha(c) || is_digit(c) || c == '_')
}

/// What a variable expands to: nothing, if it is unknown; a lone `$`, if
/// there is no name.
pub open spec fn variable(name: Seq<char>, env: Map<Seq<char>, Seq<char>>) -> Seq<char> {
    if name.len() == 0 {
        seq!['$']
    } else if env.contains_key(name) {
        env[name]
    } else {
        seq![]
    }
}

/// `s` with every `$name` and `${name}` replaced by the variable's value.
pub open spec fn expand_spec(s: Seq<char>, env: Map<Seq<char>, Seq<char>>) -> Seq<char>
    decreases s.len(),
{
    if s.len() == 0 {
        seq![]
    } else if s[0] != '$' {
        seq![s[0]] + expand_spec(s.skip(1), env)
    } else if starts_char(s.skip(1), '{') {
        let body = s.skip(2);
        let n = first(body, eq_to('}')) as int;
        proof {
            lemma_first(body, eq_to('}'));
        }
        if n < body.len() {
            variable(body.take(n), env) + expand_spec(body.skip(n + 1), env)
        } else {
            variable(body, env)
        }
    } else {
        let body = s.skip(1);
        let n = first(body, not_name()) as int;
        proof {
            lemma_first(body, not_name());
        }
        variable(body.take(n), env) + expand_spec(body.skip(n), env)
    }
}

/// Append what the variable `name` expands to.
fn push_variable(out: &mut String, name: &[char], env: &Env)
    ensures
        final(out)@ == old(out)@ + variable(name@, env@),
{
    if name.len() == 0 {
        out.push('$');
        assert(out@ =~= old(out)@ + seq!['$']);
    } else {
        let key = string(name);
        match env.get(key.as_str()) {
            Some(v) => {
                out.append(v.as_str());
            },
            None => {
                assert(out@ =~= old(out)@ + Seq::<char>::empty());
            },
        }
    }
}

/// Expand `$var` / `${var}` from the grubenv map; unknown vars -> empty.
pub fn expand(s: &[char], env: &Env) -> (r: String)
    ensures
        r@ == expand_spec(s@, env@),
{
    let mut out: String = String::new();
    let mut rest: &[char] = s;
    assert(out@ + expand_spec(rest@, env@) =~= expand_spec(s@, env@));
    while rest.len() > 0
        invariant
            out@ + expand_spec(rest@, env@) == expand_spec(s@, env@),
        decreases rest@.len(),
    {
        let ghost before = out@;
        if rest[0] != '$' {
            out.push(rest[0]);
            let next = skip(rest, 1);
            proof {
                assert(out@ + expand_spec(next@, env@) =~= before + (seq![rest@[0]] + expand_spec(
                    next@,
                    env@,
                )));
            }
            rest = next;
        } else if begins(skip(rest, 1), '{') {
            assert(rest@.skip(1)[0] == rest@[1]);
            let body = skip(rest, 2);
            let n: usize = find(body, '}');
            if n < body.len() {
                push_variable(&mut out, take(body, n), env);
                let next = skip(body, n + 1);
                proof {
                    assert(out@ + expand_spec(next@, env@) =~= before + (variable(
                        body@.take(n as int),
                        env@,
                    ) + expand_spec(next@, env@)));
                }
                rest = next;
            } else {
                push_variable(&mut out, body, env);
                let next = skip(body, body.len());
                proof {
                    assert(next@ =~= Seq::<char>::empty());
                    assert(out@ + expand_spec(next@, env@) =~= before + variable(body@, env@));
                }
                rest = next;
            }
        } else {
            let body = skip(rest, 1);
            let mut n: usize = 0;
            while n < body.len() && (alpha(body[n]) || digit(body[n]) || body[n] == '_')
                invariant
                    n <= body@.len(),
                    forall|j: int|
                        0 <= j < n ==> is_alpha(#[trigger] body@[j]) || is_digit(body@[j]) || body@[j]
                            == '_',
                decreases body@.len() - n,
            {
                n = n + 1;
            }
            proof {
                crate::text::lemma_first_is(body@, not_name(), n as int);
            }
            push_variable(&mut out, take(body, n), env);
            let next = skip(body, n);
            proof {
                assert(out@ + expand_spec(next@, env@) =~= before + (variable(
                    body@.take(n as int),
                    env@,
                ) + expand_spec(next@, env@)));
            }
            rest = next;
        }
    }
    assert(out@ =~= expand_spec(s@, env@));
    out
}

/// A text without `$` stays as it is.
pub proof fn law_plain_text_is_kept(s: Seq<char>, env: Map<Seq<char>, Seq<char>>)
    requires
        !s.contains('$'),
    ensures
        expand_spec(s, env) == s,
    decreases s.len(),
{
    if s.len() > 0 {
        assert(s.contains(s[0]));
        let t = s.skip(1);
        assert(!t.contains('$')) by {
            if t.contains('$') {
                let i = choose|i: int| 0 <= i < t.len() && t[i] == '$';
                assert(s[i + 1] == '$');
            }
        }
        law_plain_text_is_kept(t, env);
        assert(expand_spec(s, env) =~= s);
    } else {
        assert(expand_spec(s, env) =~= s);
    }
}

/// Text in front of the first `$` stays in front.
pub proof fn law_text_in_front_is_kept(a: Seq<char>, s: Seq<char>, env: Map<Seq<char>, Seq<char>>)
    requires
        !a.contains('$'),
    ensures
        expand_spec(a + s, env) == a + expand_spec(s, env),
    decreases a.len(),
{
    if a.len() == 0 {
        assert(a + s =~= s);
        assert(a + expand_spec(s, env) =~= expand_spec(s, env));
    } else {
        let t = a.skip(1);
        assert(a.contains(a[0]));
        assert(!t.contains('$')) by {
            if t.contains('$') {
                let i = choose|i: int| 0 <= i < t.len() && t[i] == '$';
                assert(a[i + 1] == '$');
            }
        }
        law_text_in_front_is_kept(t, s, env);
        assert((a + s).skip(1) =~= t + s);
        assert(seq![a[0]] + (t + expand_spec(s, env)) =~= a + expand_spec(s, env));
    }
}

/// `${NAME}` is replaced by the value of the variable, or by nothing where
/// there is no such variable; what follows is expanded on its own.
pub proof fn law_braced_variable(
    name: Seq<char>,
    s: Seq<char>,
    env: Map<Seq<char>, Seq<char>>,
)
    requires
        name.len() > 0,
        !name.contains('}'),
    ensures
        expand_spec(seq!['$', '{'] + name + seq!['}'] + s, env) == (if env.contains_key(name) {
            env[name]
        } else {
            seq![]
        }) + expand_spec(s, env),
{
    let t = seq!['$', '{'] + name + seq!['}'] + s;
    let body = t.skip(2);
    assert(t.skip(1)[0] == '{');
    assert(body =~= name + seq!['}'] + s);
    crate::text::lemma_first_is(body, eq_to('}'), name.len() as int);
    assert(body.take(name.len() as int) =~= name);
    assert(body.skip(name.len() as int + 1) =~= s);
}

/// `$NAME`, where the name ends at the first character that is no letter, no
/// digit and no underscore, is replaced in the same way.
pub proof fn law_bare_variable(name: Seq<char>, s: Seq<char>, env: Map<Seq<char>, Seq<char>>)
    requires
        name.len() > 0,
        forall|i: int|
            0 <= i < name.len() ==> ('a' <= #[trigger] name[i] <= 'z' || 'A' <= name[i] <= 'Z' || '0'
                <= name[i] <= '9' || name[i] == '_'),
        s.len() > 0 ==> !('a' <= s[0] <= 'z' || 'A' <= s[0] <= 'Z' || '0' <= s[0] <= '9' || s[0]
            == '_'),
    ensures
        expand_spec(seq!['$'] + name + s, env) == (if env.contains_key(name) {
            env[name]
        } else {
            seq![]
        }) + expand_spec(s, env),
{
    let t = seq!['$'] + name + s;
    let body = t.skip(1);
    assert(body =~= name + s);
    assert(body[0] == name[0]);
    assert(t[0] == '$' && !starts_char(body, '{'));
    assert forall|j: int| 0 <= j < name.len() implies !not_name()(#[trigger] body[j]) by {
        assert(body[j] == name[j]);
    }
    if s.len() > 0 {
        assert(body[name.len() as int] == s[0]);
    }
    crate::text::lemma_first_is(body, not_name(), name.len() as int);
    assert(body.take(name.len() as int) =~= name);
    assert(body.skip(name.len() as int) =~= s);
}

} // verus!
