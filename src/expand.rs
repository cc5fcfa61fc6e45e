//! The rewriter: finds paste regions, attribute values and invisible
//! wrappers at every depth of a token stream and replaces them.

use vstd::prelude::*;
use crate::attr::{attr_spec, join};
use crate::error::{Error, ErrorKind};
use crate::eval::{eval_spec, paste_segments};
use crate::segment::{parse_segments, parse_spec, segs, Seg, Segment};
use crate::token::{
    copy_range, is_punct, lemma_group_view, lemma_trees_add,
    path_sep_at, path_sep_at_exec, punct_is, span_of, trees, Delimiter, Group, Ident, Punct, Spacing, Span,
    TokenTree, Tree,
};

verus! {

/// The segments of a bracket group's contents when they form a paste region
/// `< segments >`, or why they do not.
pub open spec fn region_spec(ts: Seq<Tree>, span: Span) -> Result<Seq<Seg>, Error> {
    if ts.len() == 0 || !is_punct(ts[0], '<') {
        Err(Error { kind: ErrorKind::InvalidInput, span })
    } else {
        match parse_spec(ts, 1, false) {
            Err(e) => Err(e),
            Ok((s, n)) => if n >= ts.len() {
                Err(Error { kind: ErrorKind::InvalidInput, span })
            } else if n + 1 < ts.len() {
                Err(Error { kind: ErrorKind::InvalidInput, span: span_of(ts[n + 1]) })
            } else {
                Ok(s)
            },
        }
    }
}

/// Whether a bracket group's contents form a paste region.
pub open spec fn is_region(ts: Seq<Tree>) -> bool {
    region_spec(ts, Span { id: 0 }) is Ok
}

/// The tokens a pasted text becomes: an identifier, after a joint `'` for a lifetime.
pub open spec fn pasted(text: Seq<char>, lifetime: bool, span: Span) -> Seq<Tree> {
    if lifetime {
        seq![Tree::Punct('\'', Spacing::Joint, span), Tree::Ident(text, span)]
    } else {
        seq![Tree::Ident(text, span)]
    }
}

/// The contents of an invisible group that stand for one token: one
/// identifier, one literal, or one lifetime.
pub open spec fn is_flat(ts: Seq<Tree>) -> bool {
    (ts.len() == 1 && (ts[0] is Ident || ts[0] is Literal)) || (ts.len() == 2 && is_punct(ts[0], '\'')
        && ts[1] is Ident)
}

/// The token at `i` is next to a path separator: one ends just before it or
/// one starts just after it.
pub open spec fn in_path(ts: Seq<Tree>, i: int) -> bool {
    path_sep_at(ts, i - 2) || path_sep_at(ts, i + 1)
}

/// A token stream with its paste regions, attribute values and invisible
/// wrappers expanded, and whether anything changed. `span` is the position of
/// the group it stands in. A stream with the shape of an attribute whose
/// value gets pasted is expanded as one; any other is rewritten token by token.
pub open spec fn expand_spec(ts: Seq<Tree>, span: Span, env: Seq<(Vec<char>, Vec<char>)>) -> Result<(Seq<Tree>, bool), Error>
    decreases ts, 5int, 0int,
{
    match attr_spec(ts, 0, ts.len() as int, span, env) {
        Err(e) => Err(e),
        Ok((a, true)) => Ok((a, true)),
        Ok((_, false)) => expand_range(ts, 0, ts.len() as int, env),
    }
}

/// The tokens in `i..hi` rewritten one by one.
pub open spec fn expand_range(ts: Seq<Tree>, i: int, hi: int, env: Seq<(Vec<char>, Vec<char>)>) -> Result<(Seq<Tree>, bool), Error>
    decreases ts, 1int, hi - i,
{
    if i < 0 || i >= hi || hi > ts.len() {
        Ok((Seq::empty(), false))
    } else {
        match token_spec(ts, i, env) {
            Err(e) => Err(e),
            Ok((out, c)) => join(out, c, expand_range(ts, i + 1, hi, env)),
        }
    }
}

/// What the token at `i` becomes, and whether it changed.
pub open spec fn token_spec(ts: Seq<Tree>, i: int, env: Seq<(Vec<char>, Vec<char>)>) -> Result<(Seq<Tree>, bool), Error>
    decreases ts, 0int, 0int,
{
    if i < 0 || i >= ts.len() {
        Ok((Seq::empty(), false))
    } else {
        match ts[i] {
            Tree::Group(d, inner, gspan) => if d == Delimiter::Bracket && region_spec(inner, gspan) is Ok {
                match eval_spec(region_spec(inner, gspan)->Ok_0, env) {
                    Err(e) => Err(e),
                    Ok((text, lifetime)) => Ok((pasted(text, lifetime, gspan), true)),
                }
            } else if d == Delimiter::Invisible && is_flat(inner) {
                Ok((inner, true))
            } else {
                match expand_spec(inner, gspan, env) {
                    Err(e) => Err(e),
                    Ok((n, c)) => if d == Delimiter::Invisible && in_path(ts, i) {
                        Ok((if c { n } else { inner }, true))
                    } else if c {
                        Ok((seq![Tree::Group(d, n, gspan)], true))
                    } else {
                        Ok((seq![ts[i]], false))
                    },
                }
            },
            other => Ok((seq![other], false)),
        }
    }
}

/// Parses a bracket group's contents as a paste region `< segments >`.
pub fn parse_bracket_as_segments(ts: &Vec<TokenTree>, span: Span) -> (r: Result<Vec<Segment>, Error>)
    ensures
        match r {
            Ok(v) => region_spec(trees(ts@), span) == Ok::<Seq<Seg>, Error>(segs(v@)),
            Err(e) => region_spec(trees(ts@), span) == Err::<Seq<Seg>, Error>(e),
        },
{
    if ts.len() == 0 || !punct_is(&ts[0], '<') {
        return Err(Error::new(ErrorKind::InvalidInput, span));
    }
    match parse_segments(ts, 1, false) {
        Err(e) => Err(e),
        Ok((s, n)) => {
            if n >= ts.len() {
                Err(Error::new(ErrorKind::InvalidInput, span))
            } else if ts.len() - n > 1 {
                Err(Error::new(ErrorKind::InvalidInput, ts[n + 1].span()))
            } else {
                Ok(s)
            }
        },
    }
}

/// Whether a bracket group's contents form a paste region.
pub fn is_paste_operation(ts: &Vec<TokenTree>) -> (r: bool)
    ensures
        r == is_region(trees(ts@)),
{
    parse_bracket_as_segments(ts, Span { id: 0 }).is_ok()
}

pub fn is_none_delimited_flat_group(delimiter: Delimiter, ts: &Vec<TokenTree>) -> (r: bool)
    ensures
        r == (delimiter == Delimiter::Invisible && is_flat(trees(ts@))),
{
    if delimiter != Delimiter::Invisible {
        return false;
    }
    let n = ts.len();
    if n == 1 {
        match &ts[0] {
            TokenTree::Ident(_) | TokenTree::Literal(_) => true,
            _ => false,
        }
    } else if n == 2 && punct_is(&ts[0], '\'') {
        match &ts[1] {
            TokenTree::Ident(_) => true,
            _ => false,
        }
    } else {
        false
    }
}

/// The tokens that a pasted text becomes, positioned at `span`.
fn pasted_tokens(text: Vec<char>, lifetime: bool, span: Span) -> (r: Vec<TokenTree>)
    ensures
        trees(r@) == pasted(text@, lifetime, span),
{
    let ident = TokenTree::Ident(Ident { text, span });
    if lifetime {
        let r = vec![TokenTree::Punct(Punct { ch: '\'', spacing: Spacing::Joint, span }), ident];
        assert(trees(r@) =~= pasted(text@, lifetime, span));
        r
    } else {
        let r = vec![ident];
        assert(trees(r@) =~= pasted(text@, lifetime, span));
        r
    }
}

/// What the token at `i` becomes (see `token_spec`).
fn expand_token(ts: &Vec<TokenTree>, i: usize, env: &Vec<(Vec<char>, Vec<char>)>) -> (r: Result<(Vec<TokenTree>, bool), Error>)
    requires
        i < ts@.len(),
    ensures
        match r {
            Ok((v, c)) => token_spec(trees(ts@), i as int, env@) == Ok::<(Seq<Tree>, bool), Error>((trees(v@), c)),
            Err(e) => token_spec(trees(ts@), i as int, env@) == Err::<(Seq<Tree>, bool), Error>(e),
        },
    decreases ts, 0int, 0int,
{
    let ghost t = trees(ts@);
    let len = ts.len();
    match &ts[i] {
        TokenTree::Group(g) => {
            proof {
                lemma_group_view(*g);
            }
            if g.delimiter == Delimiter::Bracket {
                match parse_bracket_as_segments(&g.stream, g.span) {
                    Ok(ss) => {
                        return match paste_segments(&ss, env) {
                            Err(e) => Err(e),
                            Ok((text, lifetime)) => Ok((pasted_tokens(text, lifetime, g.span), true)),
                        };
                    },
                    Err(_) => {},
                }
            }
            if is_none_delimited_flat_group(g.delimiter, &g.stream) {
                let r = copy_range(&g.stream, 0, g.stream.len());
                assert(trees(g.stream@).subrange(0, g.stream@.len() as int) =~= trees(g.stream@));
                return Ok((r, true));
            }
            proof {
                vstd::std_specs::vec::axiom_vec_index_decreases(*ts, i as int);
            }
            match expand(&g.stream, g.span, env) {
                Err(e) => Err(e),
                Ok((n, c)) => {
                    let in_path = (i >= 2 && path_sep_at_exec(ts, i - 2)) || (len - i > 1 && path_sep_at_exec(ts, i + 1));
                    if g.delimiter == Delimiter::Invisible && in_path {
                        if c {
                            Ok((n, true))
                        } else {
                            let r = copy_range(&g.stream, 0, g.stream.len());
                            assert(trees(g.stream@).subrange(0, g.stream@.len() as int) =~= trees(g.stream@));
                            Ok((r, true))
                        }
                    } else if c {
                        let ng = Group { delimiter: g.delimiter, stream: n, span: g.span };
                        proof {
                            lemma_group_view(ng);
                        }
                        let r = vec![TokenTree::Group(ng)];
                        assert(trees(r@) =~= seq![Tree::Group(g.delimiter, trees(ng.stream@), g.span)]);
                        Ok((r, true))
                    } else {
                        let r = copy_range(ts, i, i + 1);
                        assert(trees(r@) =~= seq![t[i as int]]);
                        Ok((r, false))
                    }
                },
            }
        },
        _ => {
            let r = copy_range(ts, i, i + 1);
            assert(trees(r@) =~= seq![t[i as int]]);
            Ok((r, false))
        },
    }
}

/// Rewrites the tokens in `lo..hi` one by one (see `expand_range`).
pub(crate) fn expand_tokens(
    ts: &Vec<TokenTree>,
    lo: usize,
    hi: usize,
    env: &Vec<(Vec<char>, Vec<char>)>,
) -> (r: Result<(Vec<TokenTree>, bool), Error>)
    requires
        lo <= hi <= ts@.len(),
    ensures
        match r {
            Ok((v, c)) => expand_range(trees(ts@), lo as int, hi as int, env@) == Ok::<(Seq<Tree>, bool), Error>((trees(v@), c)),
            Err(e) => expand_range(trees(ts@), lo as int, hi as int, env@) == Err::<(Seq<Tree>, bool), Error>(e),
        },
    decreases ts, 1int, 0int,
{
    let ghost t = trees(ts@);
    let mut out: Vec<TokenTree> = Vec::new();
    let mut changed = false;
    let mut i: usize = lo;
    proof {
        assert(trees(out@) =~= Seq::<Tree>::empty());
        match expand_range(t, lo as int, hi as int, env@) {
            Ok((s, c)) => {
                assert(Seq::<Tree>::empty() + s =~= s);
            },
            Err(e) => {},
        }
    }
    while i < hi
        invariant
            lo <= i <= hi <= ts@.len(),
            t == trees(ts@),
            expand_range(t, lo as int, hi as int, env@) == join(trees(out@), changed, expand_range(t, i as int, hi as int, env@)),
        decreases hi - i,
    {
        match expand_token(ts, i, env) {
            Err(e) => {
                assert(expand_range(t, i as int, hi as int, env@) == Err::<(Seq<Tree>, bool), Error>(e));
                return Err(e);
            },
            Ok((v, c)) => {
                proof {
                    lemma_trees_add(out@, v@);
                    match expand_range(t, i + 1, hi as int, env@) {
                        Ok((s, c2)) => {
                            assert(trees(out@) + (trees(v@) + s) =~= trees(out@) + trees(v@) + s);
                        },
                        Err(e) => {},
                    }
                }
                let mut v = v;
                out.append(&mut v);
                changed = changed || c;
            },
        }
        i = i + 1;
    }
    assert(trees(out@) + Seq::<Tree>::empty() =~= trees(out@));
    Ok((out, changed))
}

/// Expands a token stream that stands in a group positioned at `span`. If
/// the stream has the shape of an attribute whose value is made of several
/// pieces (`name = v1 v2 ...`, or `name(arg, ...)` with such an argument),
/// the value is pasted into one string; otherwise paste regions become
/// identifiers or lifetimes and invisible groups that wrap one token or stand
/// next to `::` are opened, at every depth. Returns the new stream and
/// whether anything changed.
pub fn expand(ts: &Vec<TokenTree>, span: Span, env: &Vec<(Vec<char>, Vec<char>)>) -> (r: Result<(Vec<TokenTree>, bool), Error>)
    ensures
        match r {
            Ok((v, c)) => expand_spec(trees(ts@), span, env@) == Ok::<(Seq<Tree>, bool), Error>((trees(v@), c)),
            Err(e) => expand_spec(trees(ts@), span, env@) == Err::<(Seq<Tree>, bool), Error>(e),
        },
    decreases ts, 5int, 0int,
{
    match crate::attr::expand_attr_range(ts, 0, ts.len(), span, env) {
        Err(e) => Err(e),
        Ok((a, true)) => Ok((a, true)),
        Ok((_, false)) => expand_tokens(ts, 0, ts.len(), env),
    }
}

} // verus!
