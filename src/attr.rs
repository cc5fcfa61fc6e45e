//! Attribute values made of several pieces, pasted into one string literal.

use vstd::prelude::*;
use crate::error::Error;
use crate::eval::{eval_spec, paste_segments};
use crate::expand::expand_range;
use crate::segment::{parse_segments, parse_spec, segs, Seg, Segment};
use crate::text::{escape_char, escape_of};
use crate::token::{copy_range, is_punct, lemma_group_view, lemma_trees_add, lemma_trees_push, punct_is, trees, Delimiter, Group, Literal, Span, TokenTree, Tree};

verus! {

/// A token that may stand in an attribute value made of several pieces.
pub open spec fn stringlike(t: Tree) -> bool
    decreases t,
{
    match t {
        Tree::Ident(_, _) => true,
        Tree::Literal(repr, _) => !(repr.len() > 0 && (repr[0] == 'b' || repr[0] == '\'')),
        Tree::Group(d, inner, _) => d == Delimiter::Invisible && inner.len() == 1 && stringlike(inner[0]),
        Tree::Punct(c, _, _) => c == '\'' || c == ':',
    }
}

pub open spec fn all_stringlike(ts: Seq<Tree>, lo: int, hi: int) -> bool {
    forall|j: int| lo <= j < hi ==> stringlike(#[trigger] ts[j])
}

pub fn is_stringlike(t: &TokenTree) -> (r: bool)
    ensures
        r == stringlike(t@),
    decreases t,
{
    match t {
        TokenTree::Ident(_) => true,
        TokenTree::Literal(l) => !(l.repr.len() > 0 && (l.repr[0] == 'b' || l.repr[0] == '\'')),
        TokenTree::Group(g) => {
            proof {
                lemma_group_view(*g);
            }
            if g.delimiter != Delimiter::Invisible || g.stream.len() != 1 {
                false
            } else {
                proof {
                    vstd::std_specs::vec::axiom_vec_index_decreases(g.stream, 0);
                }
                is_stringlike(&g.stream[0])
            }
        },
        TokenTree::Punct(p) => p.ch == '\'' || p.ch == ':',
    }
}

/// The index of the first `"` at or after `i`, or the length if there is none.
pub open spec fn first_quote(s: Seq<char>, i: int) -> int
    decreases s.len() - i,
{
    if i < 0 || i >= s.len() {
        s.len() as int
    } else if s[i] == '"' {
        i
    } else {
        first_quote(s, i + 1)
    }
}

/// The index of the last `"` before `i`, or -1 if there is none.
pub open spec fn last_quote(s: Seq<char>, i: int) -> int
    decreases i,
{
    if i <= 0 || i > s.len() {
        -1
    } else if s[i - 1] == '"' {
        i - 1
    } else {
        last_quote(s, i - 1)
    }
}

/// Every character escaped as in a string literal, joined.
pub open spec fn escape_all(s: Seq<char>) -> Seq<char>
    decreases s.len(),
{
    if s.len() == 0 {
        Seq::empty()
    } else {
        escape_all(s.drop_last()) + escape_of(s.last())
    }
}

/// A fragment of an attribute value: a quoted string loses its quotes, a raw
/// string loses its delimiters and has its characters escaped; other text
/// stays as it is.
pub open spec fn unquote(s: Seq<char>) -> Seq<char> {
    let open = first_quote(s, 0);
    if open >= s.len() {
        s
    } else if open == 0 {
        if s.len() >= 2 {
            s.subrange(1, s.len() - 1)
        } else {
            Seq::empty()
        }
    } else {
        let end = last_quote(s, s.len() as int);
        escape_all(s.subrange(open + 1, if end > open { end } else { open + 1 }))
    }
}

pub open spec fn unquote_seg(g: Seg) -> Seg {
    match g {
        Seg::Text(t) => Seg::Text(unquote(t)),
        other => other,
    }
}

pub open spec fn unquote_segs(ss: Seq<Seg>) -> Seq<Seg> {
    ss.map_values(|g: Seg| unquote_seg(g))
}

pub open spec fn quoted(text: Seq<char>) -> Seq<char> {
    seq!['"'] + text + seq!['"']
}

/// The pieces of an attribute value pasted into the text of one string literal.
pub open spec fn value_spec(vs: Seq<Tree>, env: Seq<(Vec<char>, Vec<char>)>) -> Result<Seq<char>, Error> {
    match parse_spec(vs, 0, true) {
        Err(e) => Err(e),
        Ok((ss, _)) => match eval_spec(unquote_segs(ss), env) {
            Err(e) => Err(e),
            Ok((text, _)) => Ok(quoted(text)),
        },
    }
}

/// `name = v1 v2 ...` in `lo..hi`: the name, the `=`, and one string literal
/// made of the pieces.
pub open spec fn name_value_spec(
    ts: Seq<Tree>,
    lo: int,
    hi: int,
    span: Span,
    env: Seq<(Vec<char>, Vec<char>)>,
) -> Result<Seq<Tree>, Error> {
    let k = if hi - lo < 2 { hi } else { lo + 2 };
    match value_spec(ts.subrange(k, hi), env) {
        Err(e) => Err(e),
        Ok(lit) => Ok(ts.subrange(lo, k).push(Tree::Literal(lit, span))),
    }
}

pub open spec fn join(a: Seq<Tree>, c: bool, r: Result<(Seq<Tree>, bool), Error>) -> Result<(Seq<Tree>, bool), Error> {
    match r {
        Ok((s, c2)) => Ok((a + s, c || c2)),
        Err(e) => Err(e),
    }
}

/// The attribute in `lo..hi` with its pasted values, and whether anything
/// in it changed.
pub open spec fn attr_spec(
    ts: Seq<Tree>,
    lo: int,
    hi: int,
    span: Span,
    env: Seq<(Vec<char>, Vec<char>)>,
) -> Result<(Seq<Tree>, bool), Error>
    decreases ts, 2int, 0int,
{
    let level = ts.subrange(lo, hi);
    if !(0 <= lo && lo + 1 < hi && hi <= ts.len()) || !(ts[lo] is Ident) {
        Ok((level, false))
    } else if is_punct(ts[lo + 1], '=') {
        if hi - lo > 3 && all_stringlike(ts, lo + 2, hi) {
            match name_value_spec(ts, lo, hi, span, env) {
                Ok(v) => Ok((v, true)),
                Err(e) => Err(e),
            }
        } else {
            Ok((level, false))
        }
    } else {
        match ts[lo + 1] {
            Tree::Group(Delimiter::Parenthesis, inner, gspan) => if hi == lo + 2 {
                match args_spec(inner, gspan, env, 0, 0) {
                    Err(e) => Err(e),
                    Ok((expanded, true)) => Ok(
                        (seq![ts[lo], Tree::Group(Delimiter::Parenthesis, expanded, gspan)], true),
                    ),
                    Ok((_, false)) => Ok((level, false)),
                }
            } else {
                Ok((level, false))
            },
            _ => Ok((level, false)),
        }
    }
}

/// One argument in `lo..hi`: its pasted value if it is an attribute with
/// one, otherwise its tokens rewritten one by one.
pub open spec fn arg_spec(
    ts: Seq<Tree>,
    lo: int,
    hi: int,
    span: Span,
    env: Seq<(Vec<char>, Vec<char>)>,
) -> Result<(Seq<Tree>, bool), Error>
    decreases ts, 2int, 1int,
{
    match attr_spec(ts, lo, hi, span, env) {
        Err(e) => Err(e),
        Ok((a, true)) => Ok((a, true)),
        Ok((_, false)) => expand_range(ts, lo, hi, env),
    }
}

/// The comma-separated arguments from `start` on, each expanded as by
/// `arg_spec`; `i` is where the search for the next comma stands.
pub open spec fn args_spec(
    ts: Seq<Tree>,
    span: Span,
    env: Seq<(Vec<char>, Vec<char>)>,
    start: int,
    i: int,
) -> Result<(Seq<Tree>, bool), Error>
    decreases ts, 3int, ts.len() - i,
{
    if i < 0 || i >= ts.len() {
        if 0 <= start < ts.len() {
            arg_spec(ts, start, ts.len() as int, span, env)
        } else {
            Ok((Seq::empty(), false))
        }
    } else if is_punct(ts[i], ',') {
        match arg_spec(ts, start, i, span, env) {
            Err(e) => Err(e),
            Ok((a, c)) => join(a.push(ts[i]), c, args_spec(ts, span, env, i + 1, i + 1)),
        }
    } else {
        args_spec(ts, span, env, start, i + 1)
    }
}

fn unquote_exec(s: &Vec<char>) -> (r: Vec<char>)
    ensures
        r@ == unquote(s@),
{
    let n = s.len();
    let mut open: usize = 0;
    while open < n && s[open] != '"'
        invariant
            open <= n == s@.len(),
            first_quote(s@, 0) == first_quote(s@, open as int),
        decreases n - open,
    {
        open = open + 1;
    }
    if open >= n {
        return crate::token::copy_chars(s);
    }
    if open == 0 {
        let mut r: Vec<char> = Vec::new();
        if n >= 2 {
            let mut i: usize = 1;
            while i < n - 1
                invariant
                    1 <= i <= n - 1,
                    n == s@.len(),
                    r@ == s@.subrange(1, i as int),
                decreases n - 1 - i,
            {
                r.push(s[i]);
                assert(s@.subrange(1, i + 1) =~= s@.subrange(1, i as int).push(s@[i as int]));
                i = i + 1;
            }
        } else {
            assert(r@ =~= Seq::<char>::empty());
        }
        return r;
    }
    let mut end: usize = n;
    while end > 0 && s[end - 1] != '"'
        invariant
            end <= n == s@.len(),
            last_quote(s@, n as int) == last_quote(s@, end as int),
        decreases end,
    {
        end = end - 1;
    }
    let ghost last = last_quote(s@, n as int);
    assert(last == if end > 0 { end - 1 } else { -1 });
    let stop: usize = if end > 0 && end - 1 > open { end - 1 } else { open + 1 };
    let mut r: Vec<char> = Vec::new();
    let mut i: usize = open + 1;
    assert(escape_all(s@.subrange(open + 1, open + 1)) =~= Seq::<char>::empty()) by {
        assert(s@.subrange(open + 1, open + 1).len() == 0);
    }
    while i < stop
        invariant
            open + 1 <= i <= stop <= n,
            n == s@.len(),
            r@ == escape_all(s@.subrange(open + 1, i as int)),
        decreases stop - i,
    {
        let e = escape_char(s[i]);
        let mut j: usize = 0;
        let ghost before = r@;
        while j < e.len()
            invariant
                j <= e@.len(),
                r@ == before + e@.subrange(0, j as int),
            decreases e@.len() - j,
        {
            r.push(e[j]);
            assert(e@.subrange(0, j + 1) =~= e@.subrange(0, j as int).push(e@[j as int]));
            j = j + 1;
        }
        assert(e@.subrange(0, j as int) =~= e@);
        assert(s@.subrange(open + 1, i + 1).drop_last() =~= s@.subrange(open + 1, i as int));
        i = i + 1;
    }
    r
}

/// Pastes the pieces of an attribute value into the text of one string literal.
fn paste_values(values: &Vec<TokenTree>, env: &Vec<(Vec<char>, Vec<char>)>) -> (r: Result<Vec<char>, Error>)
    ensures
        match r {
            Ok(v) => value_spec(trees(values@), env@) == Ok::<Seq<char>, Error>(v@),
            Err(e) => value_spec(trees(values@), env@) == Err::<Seq<char>, Error>(e),
        },
{
    let parsed = parse_segments(&values, 0, true);
    let (raw, _) = match parsed {
        Ok(p) => p,
        Err(e) => {
            return Err(e);
        },
    };
    let ghost parsed_view = segs(raw@);
    let mut ss: Vec<Segment> = Vec::new();
    let mut k: usize = 0;
    while k < raw.len()
        invariant
            k <= raw@.len() == parsed_view.len(),
            parsed_view == segs(raw@),
            segs(ss@) == unquote_segs(parsed_view).subrange(0, k as int),
        decreases raw@.len() - k,
    {
        let g = match &raw[k] {
            Segment::Text(t) => Segment::Text(unquote_exec(t)),
            Segment::Apostrophe(sp) => Segment::Apostrophe(*sp),
            Segment::Env(n, sp) => Segment::Env(crate::token::copy_chars(n), *sp),
            Segment::Modifier(c, id) => Segment::Modifier(
                *c,
                crate::token::Ident { text: crate::token::copy_chars(&id.text), span: id.span },
            ),
        };
        assert(g@ == unquote_seg(parsed_view[k as int]));
        let ghost prev = ss@;
        ss.push(g);
        assert(segs(ss@) =~= segs(prev).push(g@));
        assert(segs(ss@) =~= unquote_segs(parsed_view).subrange(0, k + 1));
        k = k + 1;
    }
    assert(unquote_segs(parsed_view).subrange(0, k as int) =~= unquote_segs(parsed_view));
    assert(segs(ss@) =~= unquote_segs(parsed_view));
    let (text, _) = match paste_segments(&ss, env) {
        Ok(p) => p,
        Err(e) => {
            return Err(e);
        },
    };
    let mut lit: Vec<char> = Vec::new();
    lit.push('"');
    let mut i: usize = 0;
    while i < text.len()
        invariant
            i <= text@.len(),
            lit@ == seq!['"'] + text@.subrange(0, i as int),
        decreases text@.len() - i,
    {
        lit.push(text[i]);
        assert(text@.subrange(0, i + 1) =~= text@.subrange(0, i as int).push(text@[i as int]));
        i = i + 1;
    }
    lit.push('"');
    assert(lit@ =~= quoted(text@)) by {
        assert(text@.subrange(0, i as int) =~= text@);
    }
    Ok(lit)
}

/// Expands `name = v1 v2 ...` in `lo..hi` into the name, the `=`, and one
/// string literal positioned at `span`.
pub fn do_paste_name_value_attr(
    ts: &Vec<TokenTree>,
    lo: usize,
    hi: usize,
    span: Span,
    env: &Vec<(Vec<char>, Vec<char>)>,
) -> (r: Result<Vec<TokenTree>, Error>)
    requires
        lo <= hi <= ts@.len(),
    ensures
        match r {
            Ok(v) => name_value_spec(trees(ts@), lo as int, hi as int, span, env@) == Ok::<Seq<Tree>, Error>(trees(v@)),
            Err(e) => name_value_spec(trees(ts@), lo as int, hi as int, span, env@) == Err::<Seq<Tree>, Error>(e),
        },
{
    let k: usize = if hi - lo < 2 { hi } else { lo + 2 };
    let values = copy_range(ts, k, hi);
    proof {
        crate::token::lemma_trees_subrange(ts@, k as int, hi as int);
    }
    let lit = match paste_values(&values, env) {
        Ok(l) => l,
        Err(e) => {
            return Err(e);
        },
    };
    let mut out = copy_range(ts, lo, k);
    let l = TokenTree::Literal(Literal { repr: lit, span });
    proof {
        lemma_trees_push(out@, l);
    }
    out.push(l);
    Ok(out)
}

fn all_stringlike_exec(ts: &Vec<TokenTree>, lo: usize, hi: usize) -> (r: bool)
    requires
        lo <= hi <= ts@.len(),
    ensures
        r == all_stringlike(trees(ts@), lo as int, hi as int),
{
    let mut i: usize = lo;
    while i < hi
        invariant
            lo <= i <= hi <= ts@.len(),
            all_stringlike(trees(ts@), lo as int, i as int),
        decreases hi - i,
    {
        if !is_stringlike(&ts[i]) {
            assert(!stringlike(trees(ts@)[i as int]));
            return false;
        }
        i = i + 1;
    }
    true
}

/// Expands the attribute in `lo..hi` (see `attr_spec`).
pub(crate) fn expand_attr_range(
    ts: &Vec<TokenTree>,
    lo: usize,
    hi: usize,
    span: Span,
    env: &Vec<(Vec<char>, Vec<char>)>,
) -> (r: Result<(Vec<TokenTree>, bool), Error>)
    requires
        lo <= hi <= ts@.len(),
    ensures
        match r {
            Ok((v, c)) => attr_spec(trees(ts@), lo as int, hi as int, span, env@) == Ok::<(Seq<Tree>, bool), Error>((trees(v@), c)),
            Err(e) => attr_spec(trees(ts@), lo as int, hi as int, span, env@) == Err::<(Seq<Tree>, bool), Error>(e),
        },
    decreases ts, 2int, 0int,
{
    let ghost t = trees(ts@);
    if hi - lo < 2 {
        return Ok((copy_range(ts, lo, hi), false));
    }
    match &ts[lo] {
        TokenTree::Ident(_) => {},
        _ => {
            return Ok((copy_range(ts, lo, hi), false));
        },
    }
    if punct_is(&ts[lo + 1], '=') {
        if hi - lo > 3 && all_stringlike_exec(ts, lo + 2, hi) {
            match do_paste_name_value_attr(ts, lo, hi, span, env) {
                Ok(v) => Ok((v, true)),
                Err(e) => Err(e),
            }
        } else {
            Ok((copy_range(ts, lo, hi), false))
        }
    } else {
        match &ts[lo + 1] {
            TokenTree::Group(g) => {
                proof {
                    lemma_group_view(*g);
                }
                if g.delimiter == Delimiter::Parenthesis && hi == lo + 2 {
                    proof {
                        vstd::std_specs::vec::axiom_vec_index_decreases(*ts, lo + 1);
                    }
                    match expand_args(&g.stream, g.span, env) {
                        Err(e) => Err(e),
                        Ok((expanded, true)) => {
                            let mut out = copy_range(ts, lo, lo + 1);
                            let ng = Group { delimiter: Delimiter::Parenthesis, stream: expanded, span: g.span };
                            proof {
                                lemma_group_view(ng);
                                lemma_trees_push(out@, TokenTree::Group(ng));
                            }
                            out.push(TokenTree::Group(ng));
                            assert(trees(out@) =~= seq![t[lo as int], Tree::Group(Delimiter::Parenthesis, trees(expanded@), g.span)]);
                            Ok((out, true))
                        },
                        Ok((_, false)) => Ok((copy_range(ts, lo, hi), false)),
                    }
                } else {
                    Ok((copy_range(ts, lo, hi), false))
                }
            },
            _ => Ok((copy_range(ts, lo, hi), false)),
        }
    }
}

/// Expands one argument of an attribute list (see `arg_spec`).
fn expand_arg(
    ts: &Vec<TokenTree>,
    lo: usize,
    hi: usize,
    span: Span,
    env: &Vec<(Vec<char>, Vec<char>)>,
) -> (r: Result<(Vec<TokenTree>, bool), Error>)
    requires
        lo <= hi <= ts@.len(),
    ensures
        match r {
            Ok((v, c)) => arg_spec(trees(ts@), lo as int, hi as int, span, env@) == Ok::<(Seq<Tree>, bool), Error>((trees(v@), c)),
            Err(e) => arg_spec(trees(ts@), lo as int, hi as int, span, env@) == Err::<(Seq<Tree>, bool), Error>(e),
        },
    decreases ts, 2int, 1int,
{
    match expand_attr_range(ts, lo, hi, span, env) {
        Err(e) => Err(e),
        Ok((a, true)) => Ok((a, true)),
        Ok((_, false)) => crate::expand::expand_tokens(ts, lo, hi, env),
    }
}

/// Expands each comma-separated argument of an attribute list.
fn expand_args(ts: &Vec<TokenTree>, span: Span, env: &Vec<(Vec<char>, Vec<char>)>) -> (r: Result<(Vec<TokenTree>, bool), Error>)
    ensures
        match r {
            Ok((v, c)) => args_spec(trees(ts@), span, env@, 0, 0) == Ok::<(Seq<Tree>, bool), Error>((trees(v@), c)),
            Err(e) => args_spec(trees(ts@), span, env@, 0, 0) == Err::<(Seq<Tree>, bool), Error>(e),
        },
    decreases ts, 3int, 0int,
{
    let ghost t = trees(ts@);
    let mut out: Vec<TokenTree> = Vec::new();
    let mut changed = false;
    let mut start: usize = 0;
    let mut i: usize = 0;
    proof {
        assert(trees(out@) =~= Seq::<Tree>::empty());
        match args_spec(t, span, env@, 0, 0) {
            Ok((s, c)) => {
                assert(Seq::<Tree>::empty() + s =~= s);
            },
            Err(e) => {},
        }
    }
    while i < ts.len()
        invariant
            start <= i <= ts@.len(),
            t == trees(ts@),
            args_spec(t, span, env@, 0, 0) == join(trees(out@), changed, args_spec(t, span, env@, start as int, i as int)),
        decreases ts@.len() - i,
    {
        if punct_is(&ts[i], ',') {
            match expand_arg(ts, start, i, span, env) {
                Err(e) => {
                    return Err(e);
                },
                Ok((a, c)) => {
                    let comma = ts[i].copy();
                    proof {
                        lemma_trees_push(a@, comma);
                        lemma_trees_add(out@, a@.push(comma));
                        match args_spec(t, span, env@, i + 1, i + 1) {
                            Ok((s, c2)) => {
                                assert(trees(out@) + (trees(a@).push(t[i as int]) + s) =~= trees(out@) + trees(a@.push(comma)) + s);
                            },
                            Err(e) => {},
                        }
                    }
                    let mut a = a;
                    a.push(comma);
                    out.append(&mut a);
                    changed = changed || c;
                    start = i + 1;
                },
            }
        }
        i = i + 1;
    }
    if start < ts.len() {
        match expand_arg(ts, start, ts.len(), span, env) {
            Err(e) => Err(e),
            Ok((a, c)) => {
                proof {
                    lemma_trees_add(out@, a@);
                }
                let mut a = a;
                out.append(&mut a);
                Ok((out, changed || c))
            },
        }
    } else {
        assert(trees(out@) + Seq::<Tree>::empty() =~= trees(out@));
        Ok((out, changed))
    }
}

/// Expands the pasted values of one attribute's contents (what stands inside
/// `#[...]`): `name = v1 v2 ...` with two or more pieces becomes `name = "..."`,
/// and `name(arg, ...)` has each argument expanded in the same way, an
/// argument without such a value being rewritten token by token. Sets
/// `contains_paste` when something changed; otherwise the tokens come back
/// unchanged.
pub fn expand_attr(
    attr: &Vec<TokenTree>,
    span: Span,
    contains_paste: &mut bool,
    env: &Vec<(Vec<char>, Vec<char>)>,
) -> (r: Result<Vec<TokenTree>, Error>)
    ensures
        match r {
            Ok(v) => attr_spec(trees(attr@), 0, attr@.len() as int, span, env@) matches Ok((t, c))
                && t == trees(v@) && *final(contains_paste) == (*old(contains_paste) || c),
            Err(e) => attr_spec(trees(attr@), 0, attr@.len() as int, span, env@) == Err::<(Seq<Tree>, bool), Error>(e),
        },
{
    match expand_attr_range(attr, 0, attr.len(), span, env) {
        Ok((v, c)) => {
            if c {
                *contains_paste = true;
            }
            Ok(v)
        },
        Err(e) => Err(e),
    }
}

} // verus!
