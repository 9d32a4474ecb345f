//! Environment-variable substitution for URLs and header values.
//!
//! Occurrences of `${NAME}` are replaced by the variable's value; a
//! reference to a variable that is not present is a fatal configuration
//! error. The variables are handed in as a list of name/value pairs, so
//! that the logic is independent of where they come from; the process
//! environment is read outside the library.

use vstd::prelude::*;
use crate::errors::ApitapError;
use crate::strutil::{chars_to_string, contains_seq, occurs_at, push_chars, str_to_chars};

verus! {

/// First position at or after `i` holding `}`, or the length.
pub open spec fn skip_to_close(s: Seq<char>, i: int) -> int
    decreases s.len() - i,
{
    if i < s.len() && s[i] != '}' {
        skip_to_close(s, i + 1)
    } else {
        i
    }
}

pub proof fn lemma_skip_to_close_bounds(s: Seq<char>, i: int)
    requires
        0 <= i <= s.len(),
    ensures
        i <= skip_to_close(s, i) <= s.len(),
        skip_to_close(s, i) < s.len() ==> s[skip_to_close(s, i)] == '}',
    decreases s.len() - i,
{
    if i < s.len() && s[i] != '}' {
        lemma_skip_to_close_bounds(s, i + 1);
    }
}

/// First value bound to `name`, if any.
pub open spec fn env_lookup(env: Seq<(String, String)>, name: Seq<char>) -> Option<Seq<char>>
    decreases env.len(),
{
    if env.len() == 0 {
        None
    } else if env[0].0@ == name {
        Some(env[0].1@)
    } else {
        env_lookup(env.skip(1), name)
    }
}

/// Prefix a successful substitution; pass the missing name through.
pub open spec fn env_bind(prefix: Seq<char>, r: Result<Seq<char>, Seq<char>>) -> Result<
    Seq<char>,
    Seq<char>,
> {
    match r {
        Ok(rest) => Ok(prefix + rest),
        Err(e) => Err(e),
    }
}

/// The text from position `i` on with every `${NAME}` replaced, or the
/// first name that is not bound. A `${` without a closing `}` is copied
/// through unchanged.
pub open spec fn envsub_from(s: Seq<char>, i: int, env: Seq<(String, String)>) -> Result<
    Seq<char>,
    Seq<char>,
>
    decreases s.len() - i,
    when 0 <= i <= s.len()
    via envsub_from_decreases
{
    if i >= s.len() {
        Ok(Seq::empty())
    } else if s[i] == '$' && i + 1 < s.len() && s[i + 1] == '{' && skip_to_close(s, i + 2)
        < s.len() {
        let j = skip_to_close(s, i + 2);
        let name = s.subrange(i + 2, j);
        match env_lookup(env, name) {
            Some(v) => env_bind(v, envsub_from(s, j + 1, env)),
            None => Err(name),
        }
    } else {
        env_bind(seq![s[i]], envsub_from(s, i + 1, env))
    }
}

#[via_fn]
proof fn envsub_from_decreases(s: Seq<char>, i: int, env: Seq<(String, String)>) {
    if 0 <= i && i + 2 <= s.len() {
        lemma_skip_to_close_bounds(s, i + 2);
    }
}

proof fn lemma_env_bind_assoc(a: Seq<char>, b: Seq<char>, r: Result<Seq<char>, Seq<char>>)
    ensures
        env_bind(a, env_bind(b, r)) == env_bind(a + b, r),
{
    match r {
        Ok(rest) => {
            assert((a + b) + rest =~= a + (b + rest));
        },
        Err(_) => {},
    }
}

/// Look a name up among the pairs, first binding wins.
fn lookup(env: &Vec<(String, String)>, name: &String) -> (r: Option<String>)
    ensures
        match r {
            Some(v) => env_lookup(env@, name@) == Some(v@),
            None => env_lookup(env@, name@) is None,
        },
{
    let mut k: usize = 0;
    proof {
        assert(env@.skip(0) =~= env@);
    }
    while k < env.len()
        invariant
            k <= env@.len(),
            env_lookup(env@, name@) == env_lookup(env@.skip(k as int), name@),
        decreases env@.len() - k,
    {
        proof {
            assert(env@.skip(k as int)[0] == env@[k as int]);
            assert(env@.skip(k as int).skip(1) =~= env@.skip(k as int + 1));
        }
        let pair = &env[k];
        if pair.0.eq(name) {
            return Some(pair.1.clone());
        }
        k = k + 1;
    }
    proof {
        assert(env@.skip(k as int).len() == 0);
    }
    None
}

/// Replace every `${NAME}` in `text` by the bound value.
///
/// A name without a binding is a fatal configuration error naming the
/// variable; a `${` that is never closed is copied through unchanged.
pub fn substitute_env_vars(text: &str, env: &Vec<(String, String)>) -> (r: Result<
    String,
    ApitapError,
>)
    ensures
        match r {
            Ok(v) => envsub_from(text@, 0, env@) == Ok::<Seq<char>, Seq<char>>(v@),
            Err(e) => {
                &&& e matches ApitapError::ConfigError(m)
                &&& envsub_from(text@, 0, env@) matches Err(n)
                &&& m@ == "Environment variable not found: "@ + n
            },
        },
{
    let s = str_to_chars(text);
    let mut out: Vec<char> = Vec::new();
    let mut i: usize = 0;
    while i < s.len()
        invariant
            i <= s@.len(),
            s@ == text@,
            envsub_from(s@, 0, env@) == env_bind(out@, envsub_from(s@, i as int, env@)),
        decreases s@.len() - i,
    {
        let ghost i0 = i as int;
        let mut handled = false;
        if s[i] == '$' && i + 1 < s.len() && s[i + 1] == '{' {
            proof {
                lemma_skip_to_close_bounds(s@, i0 + 2);
            }
            let mut j: usize = i + 2;
            while j < s.len() && s[j] != '}'
                invariant
                    i0 + 2 <= j <= s@.len(),
                    skip_to_close(s@, i0 + 2) == skip_to_close(s@, j as int),
                decreases s@.len() - j,
            {
                j = j + 1;
            }
            if j < s.len() {
                proof {
                    assert(j as int == skip_to_close(s@, i0 + 2));
                }
                let name_chars = crate::strutil::subvec(&s, i + 2, j);
                let name = chars_to_string(&name_chars);
                match lookup(env, &name) {
                    Some(v) => {
                        proof {
                            assert(envsub_from(s@, i0, env@) == env_bind(
                                v@,
                                envsub_from(s@, j + 1, env@),
                            ));
                        }
                        let vc = str_to_chars(v.as_str());
                        let ghost out0 = out@;
                        push_chars(&mut out, &vc);
                        proof {
                            lemma_env_bind_assoc(out0, v@, envsub_from(s@, j + 1, env@));
                        }
                        i = j + 1;
                    },
                    None => {
                        proof {
                            assert(envsub_from(s@, i0, env@) == Err::<Seq<char>, Seq<char>>(
                                name@,
                            ));
                        }
                        return Err(ApitapError::ConfigError(
                            String::from_str("Environment variable not found: ").concat(
                                name.as_str(),
                            ),
                        ));
                    },
                }
                handled = true;
            }
        }
        if !handled {
            proof {
                assert(envsub_from(s@, i0, env@) == env_bind(
                    seq![s@[i0]],
                    envsub_from(s@, i0 + 1, env@),
                ));
            }
            let ghost out0 = out@;
            out.push(s[i]);
            i = i + 1;
            proof {
                assert(out@ =~= out0 + seq![s@[i0]]);
                lemma_env_bind_assoc(out0, seq![s@[i0]], envsub_from(s@, i0 + 1, env@));
            }
        }
    }
    proof {
        assert(out@ + Seq::<char>::empty() =~= out@);
    }
    Ok(chars_to_string(&out))
}

/// Substitution is the identity on text that holds no `${`.
pub proof fn lemma_envsub_identity(s: Seq<char>, i: int, env: Seq<(String, String)>)
    requires
        0 <= i <= s.len(),
        !contains_seq(s, "${"@),
    ensures
        envsub_from(s, i, env) == Ok::<Seq<char>, Seq<char>>(s.skip(i)),
    decreases s.len() - i,
{
    reveal_strlit("${");
    if i >= s.len() {
        assert(s.skip(i) =~= Seq::<char>::empty());
    } else {
        if s[i] == '$' && i + 1 < s.len() && s[i + 1] == '{' {
            assert(s.subrange(i, i + 2) =~= "${"@);
            assert(occurs_at(s, "${"@, i));
            assert(false);
        }
        lemma_envsub_identity(s, i + 1, env);
        assert(seq![s[i]] + s.skip(i + 1) =~= s.skip(i));
    }
}

/// Environment substitution is idempotent on outputs that hold no `${`:
/// substituting a second time changes nothing.
pub proof fn lemma_env_substitution_idempotent(
    x: Seq<char>,
    y: Seq<char>,
    env: Seq<(String, String)>,
)
    requires
        envsub_from(x, 0, env) == Ok::<Seq<char>, Seq<char>>(y),
        !contains_seq(y, "${"@),
    ensures
        envsub_from(y, 0, env) == Ok::<Seq<char>, Seq<char>>(y),
{
    lemma_envsub_identity(y, 0, env);
    assert(y.skip(0) =~= y);
}

} // verus!
