//! Evaluation of a segment list into one piece of text.

use vstd::prelude::*;
use crate::error::{Error, ErrorKind};
use crate::segment::{dash_to_underscore, replace_dashes, segs, Seg, Segment};
use crate::text::{camel_case, camel_of, lower_of, snake_case, snake_of, to_lower, to_upper, upper_of};
use crate::token::{chars_eq, chars_eq_str, copy_chars};

verus! {

/// The value of the first variable named `name` in an environment snapshot.
pub open spec fn env_lookup(env: Seq<(Vec<char>, Vec<char>)>, name: Seq<char>) -> Option<Seq<char>>
    decreases env.len(),
{
    if env.len() == 0 {
        None
    } else if env[0].0@ == name {
        Some(env[0].1@)
    } else {
        env_lookup(env.drop_first(), name)
    }
}

pub fn lookup_env(env: &Vec<(Vec<char>, Vec<char>)>, name: &Vec<char>) -> (r: Option<Vec<char>>)
    ensures
        r is Some == env_lookup(env@, name@) is Some,
        r is Some ==> r->0@ == env_lookup(env@, name@)->0,
{
    let mut i: usize = 0;
    assert(env@.subrange(0, env@.len() as int) =~= env@);
    while i < env.len()
        invariant
            i <= env@.len(),
            env_lookup(env@, name@) == env_lookup(env@.subrange(i as int, env@.len() as int), name@),
        decreases env@.len() - i,
    {
        assert(env@.subrange(i as int, env@.len() as int).drop_first() =~= env@.subrange(
            i + 1,
            env@.len() as int,
        ));
        if chars_eq(&env[i].0, name) {
            return Some(copy_chars(&env[i].1));
        }
        i = i + 1;
    }
    None
}

/// All fragments joined in order, with no separator.
pub open spec fn concat_all(f: Seq<Seq<char>>) -> Seq<char>
    decreases f.len(),
{
    if f.len() == 0 {
        Seq::empty()
    } else {
        concat_all(f.drop_last()) + f.last()
    }
}

/// What the case modifier named `m` makes of `s`, or nothing for an unknown name.
pub open spec fn modify(m: Seq<char>, s: Seq<char>) -> Option<Seq<char>> {
    if m == seq!['l', 'o', 'w', 'e', 'r'] {
        Some(lower_of(s))
    } else if m == seq!['u', 'p', 'p', 'e', 'r'] {
        Some(upper_of(s))
    } else if m == seq!['s', 'n', 'a', 'k', 'e'] {
        Some(snake_of(s))
    } else if m == seq!['c', 'a', 'm', 'e', 'l'] {
        Some(camel_of(s))
    } else {
        None
    }
}

/// One segment applied to the fragments so far and the lifetime flag.
pub open spec fn seg_step(
    g: Seg,
    env: Seq<(Vec<char>, Vec<char>)>,
    frags: Seq<Seq<char>>,
    lifetime: bool,
) -> Result<(Seq<Seq<char>>, bool), Error> {
    match g {
        Seg::Text(t) => Ok((frags.push(t), lifetime)),
        Seg::Apostrophe(span) => if lifetime {
            Err(Error { kind: ErrorKind::UnexpectedLifetime, span })
        } else {
            Ok((frags, true))
        },
        Seg::Env(name, span) => match env_lookup(env, name) {
            Some(v) => Ok((frags.push(dash_to_underscore(v)), lifetime)),
            None => Err(Error { kind: ErrorKind::NoSuchEnvVar, span }),
        },
        Seg::Modifier(colon, m, mspan) => if frags.len() == 0 {
            Err(Error { kind: ErrorKind::UnexpectedModifier, span: colon })
        } else {
            match modify(m, frags.last()) {
                Some(t) => Ok((frags.drop_last().push(t), lifetime)),
                None => Err(Error { kind: ErrorKind::UnsupportedModifier, span: mspan }),
            }
        },
    }
}

/// Evaluates the segments from `i` on, given the fragments so far and
/// whether a `'` was seen.
pub open spec fn eval_from(
    ss: Seq<Seg>,
    env: Seq<(Vec<char>, Vec<char>)>,
    i: int,
    frags: Seq<Seq<char>>,
    lifetime: bool,
) -> Result<(Seq<char>, bool), Error>
    decreases ss.len() - i,
{
    if i < 0 || i >= ss.len() {
        Ok((concat_all(frags), lifetime))
    } else {
        match seg_step(ss[i], env, frags, lifetime) {
            Err(e) => Err(e),
            Ok((f, lt)) => eval_from(ss, env, i + 1, f, lt),
        }
    }
}

/// The text a segment list evaluates to, and whether it names a lifetime.
pub open spec fn eval_spec(ss: Seq<Seg>, env: Seq<(Vec<char>, Vec<char>)>) -> Result<(Seq<char>, bool), Error> {
    eval_from(ss, env, 0, Seq::empty(), false)
}

pub open spec fn frag_views(f: Seq<Vec<char>>) -> Seq<Seq<char>> {
    f.map_values(|v: Vec<char>| v@)
}

fn apply_modifier(m: &Vec<char>, s: &Vec<char>) -> (r: Option<Vec<char>>)
    ensures
        r is Some == modify(m@, s@) is Some,
        r is Some ==> r->0@ == modify(m@, s@)->0,
{
    proof {
        reveal_strlit("lower");
        reveal_strlit("upper");
        reveal_strlit("snake");
        reveal_strlit("camel");
    }
    if chars_eq_str(m, "lower") {
        assert(m@ =~= seq!['l', 'o', 'w', 'e', 'r']);
        Some(to_lower(s))
    } else if chars_eq_str(m, "upper") {
        assert(m@ =~= seq!['u', 'p', 'p', 'e', 'r']);
        assert(m@ != seq!['l', 'o', 'w', 'e', 'r']);
        Some(to_upper(s))
    } else if chars_eq_str(m, "snake") {
        assert(m@ =~= seq!['s', 'n', 'a', 'k', 'e']);
        assert(m@ != seq!['l', 'o', 'w', 'e', 'r']);
        assert(m@ != seq!['u', 'p', 'p', 'e', 'r']);
        Some(snake_case(s))
    } else if chars_eq_str(m, "camel") {
        assert(m@ =~= seq!['c', 'a', 'm', 'e', 'l']);
        assert(m@ != seq!['l', 'o', 'w', 'e', 'r']);
        assert(m@ != seq!['u', 'p', 'p', 'e', 'r']);
        assert(m@ != seq!['s', 'n', 'a', 'k', 'e']);
        Some(camel_case(s))
    } else {
        assert(m@ != seq!['l', 'o', 'w', 'e', 'r']) by {
            if m@ == seq!['l', 'o', 'w', 'e', 'r'] {
                assert(m@ =~= "lower"@);
            }
        }
        assert(m@ != seq!['u', 'p', 'p', 'e', 'r']) by {
            if m@ == seq!['u', 'p', 'p', 'e', 'r'] {
                assert(m@ =~= "upper"@);
            }
        }
        assert(m@ != seq!['s', 'n', 'a', 'k', 'e']) by {
            if m@ == seq!['s', 'n', 'a', 'k', 'e'] {
                assert(m@ =~= "snake"@);
            }
        }
        assert(m@ != seq!['c', 'a', 'm', 'e', 'l']) by {
            if m@ == seq!['c', 'a', 'm', 'e', 'l'] {
                assert(m@ =~= "camel"@);
            }
        }
        None
    }
}

fn concat_frags(frags: &Vec<Vec<char>>) -> (r: Vec<char>)
    ensures
        r@ == concat_all(frag_views(frags@)),
{
    let mut r: Vec<char> = Vec::new();
    let mut i: usize = 0;
    assert(frag_views(frags@.subrange(0, 0)) =~= Seq::<Seq<char>>::empty());
    while i < frags.len()
        invariant
            i <= frags@.len(),
            r@ == concat_all(frag_views(frags@.subrange(0, i as int))),
        decreases frags@.len() - i,
    {
        let f = &frags[i];
        let mut j: usize = 0;
        let ghost before = r@;
        while j < f.len()
            invariant
                j <= f@.len(),
                r@ == before + f@.subrange(0, j as int),
            decreases f@.len() - j,
        {
            r.push(f[j]);
            assert(f@.subrange(0, j + 1) =~= f@.subrange(0, j as int).push(f@[j as int]));
            j = j + 1;
        }
        assert(f@.subrange(0, j as int) =~= f@);
        assert(frag_views(frags@.subrange(0, i + 1)).drop_last() =~= frag_views(
            frags@.subrange(0, i as int),
        ));
        i = i + 1;
    }
    assert(frags@.subrange(0, i as int) =~= frags@);
    r
}

/// Evaluates a segment list against an environment snapshot: the pasted text
/// and whether the result is a lifetime.
pub fn paste_segments(ss: &Vec<Segment>, env: &Vec<(Vec<char>, Vec<char>)>) -> (r: Result<(Vec<char>, bool), Error>)
    ensures
        match r {
            Ok((t, lt)) => eval_spec(segs(ss@), env@) == Ok::<(Seq<char>, bool), Error>((t@, lt)),
            Err(e) => eval_spec(segs(ss@), env@) == Err::<(Seq<char>, bool), Error>(e),
        },
{
    let ghost s = segs(ss@);
    let mut frags: Vec<Vec<char>> = Vec::new();
    let mut lifetime = false;
    let mut i: usize = 0;
    assert(frag_views(frags@) =~= Seq::<Seq<char>>::empty());
    while i < ss.len()
        invariant
            i <= ss@.len(),
            s == segs(ss@),
            eval_spec(s, env@) == eval_from(s, env@, i as int, frag_views(frags@), lifetime),
        decreases ss@.len() - i,
    {
        let ghost fv = frag_views(frags@);
        match &ss[i] {
            Segment::Text(t) => {
                frags.push(copy_chars(t));
                assert(frag_views(frags@) =~= fv.push(t@));
            },
            Segment::Apostrophe(span) => {
                if lifetime {
                    return Err(Error::new(ErrorKind::UnexpectedLifetime, *span));
                }
                lifetime = true;
            },
            Segment::Env(name, span) => {
                match lookup_env(env, name) {
                    Some(v) => {
                        frags.push(replace_dashes(&v));
                        assert(frag_views(frags@) =~= fv.push(dash_to_underscore(v@)));
                    },
                    None => {
                        return Err(Error::new(ErrorKind::NoSuchEnvVar, *span));
                    },
                }
            },
            Segment::Modifier(colon, m) => {
                match frags.pop() {
                    None => {
                        return Err(Error::new(ErrorKind::UnexpectedModifier, *colon));
                    },
                    Some(last) => {
                        assert(fv.last() == last@);
                        assert(frag_views(frags@) =~= fv.drop_last());
                        match apply_modifier(&m.text, &last) {
                            Some(t) => {
                                frags.push(t);
                                assert(frag_views(frags@) =~= fv.drop_last().push(t@));
                            },
                            None => {
                                return Err(Error::new(ErrorKind::UnsupportedModifier, m.span));
                            },
                        }
                    },
                }
            },
        }
        i = i + 1;
    }
    let text = concat_frags(&frags);
    Ok((text, lifetime))
}

} // verus!
