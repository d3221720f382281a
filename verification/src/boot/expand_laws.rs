//! What comes of a `$` that is not followed by a whole variable.

use crate::boot::expand::{expand_spec, not_name};
use crate::text::split::starts_char;
use crate::text::{eq_to, lemma_first_is};
use vstd::prelude::*;

verus! {

/// A `$` without a name behind it stays: at the end, in front of a character
/// that no name has, and in front of `{}`, which goes.
pub proof fn law_lone_dollar_stays(s: Seq<char>, env: Map<Seq<char>, Seq<char>>)
    ensures
        s.len() == 0 || !('a' <= s[0] <= 'z' || 'A' <= s[0] <= 'Z' || '0' <= s[0] <= '9' || s[0]
            == '_' || s[0] == '{') ==> expand_spec(seq!['$'] + s, env) == seq!['$'] + expand_spec(
            s,
            env,
        ),
        expand_spec(seq!['$', '{', '}'] + s, env) == seq!['$'] + expand_spec(s, env),
{
    let t = seq!['$'] + s;
    let body = t.skip(1);
    assert(body =~= s);
    assert(t[0] == '$');
    if s.len() == 0 || !('a' <= s[0] <= 'z' || 'A' <= s[0] <= 'Z' || '0' <= s[0] <= '9' || s[0] == '_'
        || s[0] == '{') {
        assert(!starts_char(body, '{'));
        lemma_first_is(body, not_name(), 0);
        assert(body.take(0) =~= Seq::<char>::empty());
        assert(body.skip(0) =~= s);
    }
    let u = seq!['$', '{', '}'] + s;
    let rest = u.skip(2);
    assert(u[0] == '$');
    assert(u.skip(1)[0] == '{');
    assert(rest =~= seq!['}'] + s);
    lemma_first_is(rest, eq_to('}'), 0);
    assert(rest.take(0) =~= Seq::<char>::empty());
    assert(rest.skip(1) =~= s);
}

/// A brace that is not closed takes all that is left as the name.
pub proof fn law_open_brace_takes_the_rest(name: Seq<char>, env: Map<Seq<char>, Seq<char>>)
    requires
        name.len() > 0,
        !name.contains('}'),
    ensures
        expand_spec(seq!['$', '{'] + name, env) == (if env.contains_key(name) {
            env[name]
        } else {
            seq![]
        }),
{
    let t = seq!['$', '{'] + name;
    let body = t.skip(2);
    assert(t[0] == '$');
    assert(t.skip(1)[0] == '{');
    assert(body =~= name);
    lemma_first_is(body, eq_to('}'), name.len() as int);
}

} // verus!
