//! Environment-variable expansion: every `$NAME` or `${NAME}` token in a
//! line is replaced by the variable's value when the mapping has it, and is
//! left as written when it does not. Substituted text is not re-expanded:
//! one pass, left to right, non-overlapping.

use vstd::prelude::*;
use crate::envmap::{EnvMap, spec_lookup};

verus! {

/// A character that may open a variable name: a letter or `_`.
pub open spec fn is_name_start_char(c: char) -> bool {
    (0x61 <= c as u32 && c as u32 <= 0x7A) || (0x41 <= c as u32 && c as u32 <= 0x5A) || c
        == '_'
}

/// A character that may continue a variable name: a letter, digit or `_`.
pub open spec fn is_name_char(c: char) -> bool {
    is_name_start_char(c) || (0x30 <= c as u32 && c as u32 <= 0x39)
}

/// Executable test for [`is_name_start_char`].
pub fn char_is_name_start(c: char) -> (r: bool)
    ensures
        r == is_name_start_char(c),
{
    let u = c as u32;
    (0x61 <= u && u <= 0x7A) || (0x41 <= u && u <= 0x5A) || c == '_'
}

/// Executable test for [`is_name_char`].
pub fn char_is_name(c: char) -> (r: bool)
    ensures
        r == is_name_char(c),
{
    let u = c as u32;
    char_is_name_start(c) || (0x30 <= u && u <= 0x39)
}

/// How many name characters run from position `i` of `s`.
pub open spec fn name_run_len(s: Seq<char>, i: int) -> nat
    decreases s.len() - i,
{
    if i < 0 || i >= s.len() || !is_name_char(s[i]) {
        0
    } else {
        1 + name_run_len(s, i + 1)
    }
}

/// A name run starting inside `s` stays inside `s`.
pub proof fn lemma_name_run_len_bound(s: Seq<char>, i: int)
    requires
        0 <= i <= s.len(),
    ensures
        i + name_run_len(s, i) <= s.len(),
    decreases s.len() - i,
{
    if i < s.len() && is_name_char(s[i]) {
        lemma_name_run_len_bound(s, i + 1);
    }
}

/// A `$NAME` token stands at position `i`: `s[i]` is `$` and a name starts
/// right after it.
pub open spec fn has_simple_token(s: Seq<char>, i: int) -> bool {
    &&& 0 <= i
    &&& i + 1 < s.len()
    &&& s[i] == '$'
    &&& is_name_start_char(s[i + 1])
}

/// A `${NAME}` token stands at position `i`: `s[i]` is `$`, `{` follows, a
/// name starts after the brace, and `}` closes it.
pub open spec fn has_brace_token(s: Seq<char>, i: int) -> bool {
    &&& 0 <= i
    &&& i + 2 < s.len()
    &&& s[i] == '$'
    &&& s[i + 1] == '{'
    &&& is_name_start_char(s[i + 2])
    &&& i + 2 + name_run_len(s, i + 2) < s.len()
    &&& s[i + 2 + name_run_len(s, i + 2)] == '}'
}

/// Some expandable token stands at position `i`.
pub open spec fn has_token(s: Seq<char>, i: int) -> bool {
    has_simple_token(s, i) || has_brace_token(s, i)
}

/// First position after the token standing at `i`.
pub open spec fn token_end(s: Seq<char>, i: int) -> int {
    if has_simple_token(s, i) {
        i + 1 + name_run_len(s, i + 1)
    } else {
        i + 3 + name_run_len(s, i + 2)
    }
}

/// The variable name inside the token standing at `i`.
pub open spec fn token_name(s: Seq<char>, i: int) -> Seq<char> {
    if has_simple_token(s, i) {
        s.subrange(i + 1, i + 1 + name_run_len(s, i + 1))
    } else {
        s.subrange(i + 2, i + 2 + name_run_len(s, i + 2))
    }
}

/// What the token standing at `i` contributes to the output: the variable's
/// value when `env` has the name, the token's own text when it does not.
pub open spec fn token_replacement(
    s: Seq<char>,
    env: Seq<(Seq<char>, Seq<char>)>,
    i: int,
) -> Seq<char> {
    match spec_lookup(env, token_name(s, i)) {
        Some(v) => v,
        None => s.subrange(i, token_end(s, i)),
    }
}

/// The expansion of `s` from position `i` on: tokens are replaced, every
/// other character is copied through.
pub open spec fn expand_from(s: Seq<char>, env: Seq<(Seq<char>, Seq<char>)>, i: int) -> Seq<
    char,
>
    decreases s.len() - i when 0 <= i via expand_from_decreases
{
    if i < 0 || i >= s.len() {
        Seq::empty()
    } else if has_token(s, i) {
        token_replacement(s, env, i) + expand_from(s, env, token_end(s, i))
    } else {
        seq![s[i]] + expand_from(s, env, i + 1)
    }
}

#[via_fn]
proof fn expand_from_decreases(s: Seq<char>, env: Seq<(Seq<char>, Seq<char>)>, i: int) {
    if 0 <= i < s.len() && has_token(s, i) {
        if has_simple_token(s, i) {
            lemma_name_run_len_bound(s, i + 1);
            assert(name_run_len(s, i + 1) >= 1);
        } else {
            lemma_name_run_len_bound(s, i + 2);
            assert(name_run_len(s, i + 2) >= 1);
        }
    }
}

/// The expansion of a whole line.
pub open spec fn spec_expand(s: Seq<char>, env: Seq<(Seq<char>, Seq<char>)>) -> Seq<char> {
    expand_from(s, env, 0)
}

/// Expansion leaves a line without `$` untouched.
pub proof fn lemma_expand_no_dollar(s: Seq<char>, env: Seq<(Seq<char>, Seq<char>)>)
    requires
        forall|k: int| 0 <= k < s.len() ==> s[k] != '$',
    ensures
        spec_expand(s, env) == s,
{
    lemma_expand_no_dollar_from(s, env, 0);
    assert(spec_expand(s, env) =~= s);
}

proof fn lemma_expand_no_dollar_from(s: Seq<char>, env: Seq<(Seq<char>, Seq<char>)>, i: int)
    requires
        0 <= i,
        forall|k: int| 0 <= k < s.len() ==> s[k] != '$',
    ensures
        expand_from(s, env, i) =~= s.skip(if i <= s.len() {
            i
        } else {
            s.len() as int
        }),
    decreases s.len() - i,
{
    if i < s.len() {
        assert(!has_token(s, i));
        lemma_expand_no_dollar_from(s, env, i + 1);
        assert(expand_from(s, env, i) =~= seq![s[i]] + s.skip(i + 1));
    }
}

/// The end of the name run starting at `start`: the first position at or
/// after `start` that does not hold a name character.
fn name_run_end(line: &str, start: usize, n: usize) -> (e: usize)
    requires
        start <= n,
        n == line@.len(),
    ensures
        start <= e <= n,
        e == start + name_run_len(line@, start as int),
{
    let mut j = start;
    while j < n && char_is_name(line.get_char(j))
        invariant
            start <= j <= n,
            n == line@.len(),
            start + name_run_len(line@, start as int) == j + name_run_len(line@, j as int),
        decreases n - j,
    {
        j = j + 1;
    }
    proof {
        assert(name_run_len(line@, j as int) == 0);
    }
    j
}

/// Expands every `$NAME` and `${NAME}` token of `line` against `env` in a
/// single left-to-right pass.
pub fn expand_env_vars(line: &str, env: &EnvMap) -> (r: String)
    ensures
        r@ == spec_expand(line@, env@),
{
    let n = line.unicode_len();
    let mut out = String::new();
    let mut i: usize = 0;
    while i < n
        invariant
            i <= n,
            n == line@.len(),
            out@ + expand_from(line@, env@, i as int) == spec_expand(line@, env@),
        decreases n - i,
    {
        let ghost prev = out@;
        let c = line.get_char(i);
        let mut plain = true;
        if c == '$' {
            if i + 1 < n && char_is_name_start(line.get_char(i + 1)) {
                let e = name_run_end(line, i + 1, n);
                proof {
                    assert(has_simple_token(line@, i as int));
                    assert(token_end(line@, i as int) == e as int);
                    assert(token_name(line@, i as int) =~= line@.subrange(i as int + 1, e as int));
                }
                let name = line.substring_char(i + 1, e).to_owned();
                match env.get(&name) {
                    Some(v) => {
                        out.append(v.as_str());
                    },
                    None => {
                        out.append(line.substring_char(i, e));
                    },
                }
                proof {
                    assert(out@ =~= prev + token_replacement(line@, env@, i as int));
                    assert(prev + expand_from(line@, env@, i as int) =~= (prev
                        + token_replacement(line@, env@, i as int)) + expand_from(
                        line@,
                        env@,
                        e as int,
                    ));
                }
                i = e;
                plain = false;
            } else if n - i > 2 && line.get_char(i + 1) == '{' && char_is_name_start(
                line.get_char(i + 2),
            ) {
                let re = name_run_end(line, i + 2, n);
                if re < n && line.get_char(re) == '}' {
                    proof {
                        assert(!has_simple_token(line@, i as int));
                        assert(has_brace_token(line@, i as int));
                        assert(token_end(line@, i as int) == re as int + 1);
                        assert(token_name(line@, i as int) =~= line@.subrange(
                            i as int + 2,
                            re as int,
                        ));
                    }
                    let name = line.substring_char(i + 2, re).to_owned();
                    match env.get(&name) {
                        Some(v) => {
                            out.append(v.as_str());
                        },
                        None => {
                            out.append(line.substring_char(i, re + 1));
                        },
                    }
                    proof {
                        assert(out@ =~= prev + token_replacement(line@, env@, i as int));
                        assert(prev + expand_from(line@, env@, i as int) =~= (prev
                            + token_replacement(line@, env@, i as int)) + expand_from(
                            line@,
                            env@,
                            re as int + 1,
                        ));
                    }
                    i = re + 1;
                    plain = false;
                }
            }
        }
        if plain {
            proof {
                assert(!has_token(line@, i as int));
            }
            out.append(line.substring_char(i, i + 1));
            proof {
                assert(line@.subrange(i as int, i as int + 1) =~= seq![line@[i as int]]);
                assert(out@ =~= prev + seq![line@[i as int]]);
                assert(prev + expand_from(line@, env@, i as int) =~= (prev + seq![
                    line@[i as int],
                ]) + expand_from(line@, env@, i as int + 1));
            }
            i = i + 1;
        }
    }
    proof {
        assert(expand_from(line@, env@, i as int) =~= Seq::<char>::empty());
        assert(out@ + Seq::<char>::empty() =~= out@);
    }
    out
}

} // verus!
