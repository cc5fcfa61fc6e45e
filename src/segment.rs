//! The segment language inside a paste region: parsing tokens into text,
//! lifetime marks, environment lookups and case modifiers.

use vstd::prelude::*;
use crate::error::{Error, ErrorKind};
use crate::token::{chars_eq_str, copy_chars, is_punct, span_of, trees, Delimiter, Ident, Span, TokenTree, Tree};

verus! {

/// One unit of a paste region.
#[derive(Debug)]
pub enum Segment {
    /// Text to concatenate.
    Text(Vec<char>),
    /// A `'`: the result is a lifetime.
    Apostrophe(Span),
    /// `env!("NAME")`: the name and the position of its literal.
    Env(Vec<char>, Span),
    /// `:name`, with the position of the colon and the modifier's identifier.
    Modifier(Span, Ident),
}

/// The mathematical form of a segment.
pub enum Seg {
    Text(Seq<char>),
    Apostrophe(Span),
    Env(Seq<char>, Span),
    Modifier(Span, Seq<char>, Span),
}

impl View for Segment {
    type V = Seg;

    open spec fn view(&self) -> Seg {
        match self {
            Segment::Text(t) => Seg::Text(t@),
            Segment::Apostrophe(s) => Seg::Apostrophe(*s),
            Segment::Env(n, s) => Seg::Env(n@, *s),
            Segment::Modifier(c, i) => Seg::Modifier(*c, i.text@, i.span),
        }
    }
}

pub open spec fn segs(v: Seq<Segment>) -> Seq<Seg> {
    Seq::new(v.len(), |i: int| v[i]@)
}

/// The value of a string literal written as `repr`, if it is one.
pub uninterp spec fn str_lit_value(repr: Seq<char>) -> Option<Seq<char>>;

/// Whether `repr` is an integer literal.
pub uninterp spec fn is_int_lit(repr: Seq<char>) -> bool;

/// The text starts the way one of the literals that syn can classify does: a
/// string, raw string, byte or byte string, character, or number. (syn
/// panics on a literal it cannot classify, such as a C string `c"..."`.)
pub open spec fn lit_readable(repr: Seq<char>) -> bool {
    repr.len() > 0 && (repr[0] == '"' || repr[0] == 'r' || repr[0] == 'b' || repr[0] == '\''
        || ('0' <= repr[0] <= '9'))
}

fn lit_readable_exec(repr: &Vec<char>) -> (r: bool)
    ensures
        r == lit_readable(repr@),
{
    if repr.len() == 0 {
        return false;
    }
    let c = repr[0];
    c == '"' || c == 'r' || c == 'b' || c == '\'' || ('0' <= c && c <= '9')
}

/// Relies on `syn::parse_str::<syn::LitStr>` and `LitStr::value`: the value
/// of a string literal (plain or raw), or nothing for any other text.
#[verifier::external_body]
fn lit_str_value(repr: &Vec<char>) -> (r: Option<Vec<char>>)
    requires
        lit_readable(repr@),
    ensures
        r is Some == str_lit_value(repr@) is Some,
        r is Some ==> r->0@ == str_lit_value(repr@)->0,
{
    let s: String = repr.iter().collect();
    match syn::parse_str::<syn::LitStr>(&s) {
        Ok(lit) => Some(lit.value().chars().collect()),
        Err(_) => None,
    }
}

/// Relies on `syn::parse_str::<syn::LitInt>`: whether the text is an integer literal.
#[verifier::external_body]
fn lit_is_int(repr: &Vec<char>) -> (r: bool)
    requires
        lit_readable(repr@),
    ensures
        r == is_int_lit(repr@),
{
    let s: String = repr.iter().collect();
    syn::parse_str::<syn::LitInt>(&s).is_ok()
}

pub open spec fn dash_to_underscore(s: Seq<char>) -> Seq<char> {
    s.map_values(|c: char| if c == '-' { '_' } else { c })
}

pub fn replace_dashes(s: &Vec<char>) -> (r: Vec<char>)
    ensures
        r@ == dash_to_underscore(s@),
{
    let mut r: Vec<char> = Vec::new();
    let mut i: usize = 0;
    while i < s.len()
        invariant
            i <= s@.len(),
            r@ == dash_to_underscore(s@.subrange(0, i as int)),
        decreases s@.len() - i,
    {
        let c = s[i];
        r.push(if c == '-' { '_' } else { c });
        assert(dash_to_underscore(s@.subrange(0, i + 1)) =~= dash_to_underscore(
            s@.subrange(0, i as int),
        ).push(if c == '-' { '_' } else { c }));
        i = i + 1;
    }
    assert(s@.subrange(0, i as int) =~= s@);
    r
}

/// An identifier's text with a leading `r#` removed.
pub open spec fn unraw(s: Seq<char>) -> Seq<char> {
    if s.len() >= 2 && s[0] == 'r' && s[1] == '#' {
        s.subrange(2, s.len() as int)
    } else {
        s
    }
}

fn unraw_exec(s: &Vec<char>) -> (r: Vec<char>)
    ensures
        r@ == unraw(s@),
{
    if s.len() >= 2 && s[0] == 'r' && s[1] == '#' {
        let mut r: Vec<char> = Vec::new();
        let mut i: usize = 2;
        while i < s.len()
            invariant
                2 <= i <= s@.len(),
                r@ == s@.subrange(2, i as int),
            decreases s@.len() - i,
        {
            r.push(s[i]);
            assert(s@.subrange(2, i + 1) =~= s@.subrange(2, i as int).push(s@[i as int]));
            i = i + 1;
        }
        r
    } else {
        copy_chars(s)
    }
}

pub open spec fn prepend(a: Seq<Seg>, r: Result<(Seq<Seg>, int), Error>) -> Result<(Seq<Seg>, int), Error> {
    match r {
        Ok((s, n)) => Ok((a + s, n)),
        Err(e) => Err(e),
    }
}

/// The segments of the tokens from `i` on, up to the end or a `>`, and the
/// index at which parsing stopped. `keep_quotes` keeps string literals as
/// written instead of taking their value.
pub open spec fn parse_spec(ts: Seq<Tree>, i: int, keep_quotes: bool) -> Result<(Seq<Seg>, int), Error>
    decreases ts, ts.len() - i, 1int,
{
    if i < 0 || i >= ts.len() || is_punct(ts[i], '>') {
        Ok((Seq::empty(), i))
    } else {
        match step_spec(ts, i, keep_quotes) {
            Ok((s, n)) => if i < n <= ts.len() {
                prepend(s, parse_spec(ts, n, keep_quotes))
            } else {
                Ok((s, n))
            },
            Err(e) => Err(e),
        }
    }
}

/// The segment of `env!(..)` whose `env` identifier stands at `i`.
pub open spec fn env_spec(ts: Seq<Tree>, i: int) -> Result<(Seq<Seg>, int), Error> {
    if i + 2 >= ts.len() {
        Err(Error { kind: ErrorKind::ExpectedParen, span: span_of(ts[i]) })
    } else {
        match ts[i + 2] {
            Tree::Group(Delimiter::Parenthesis, inner, gspan) => if inner.len() == 0 {
                Err(Error { kind: ErrorKind::ExpectedStringLiteral, span: gspan })
            } else {
                match inner[0] {
                    Tree::Literal(repr, lspan) => match (if lit_readable(repr) {
                        str_lit_value(repr)
                    } else {
                        None
                    }) {
                        Some(v) => if inner.len() > 1 {
                            Err(Error { kind: ErrorKind::UnexpectedTokenInEnv, span: span_of(inner[1]) })
                        } else {
                            Ok((seq![Seg::Env(v, lspan)], i + 3))
                        },
                        None => Err(Error { kind: ErrorKind::ExpectedStringLiteral, span: lspan }),
                    },
                    other => Err(Error { kind: ErrorKind::ExpectedStringLiteral, span: span_of(other) }),
                }
            },
            other => Err(Error { kind: ErrorKind::ExpectedParen, span: span_of(other) }),
        }
    }
}

/// The segments of the one construct that starts at `i`, and the index after it.
pub open spec fn step_spec(ts: Seq<Tree>, i: int, keep_quotes: bool) -> Result<(Seq<Seg>, int), Error>
    decreases ts, ts.len() - i, 0int,
{
    if i < 0 || i >= ts.len() {
        Ok((Seq::empty(), i))
    } else {
        match ts[i] {
            Tree::Ident(text, _) => if unraw(text) == seq!['e', 'n', 'v'] && i + 1 < ts.len()
                && is_punct(ts[i + 1], '!') {
                env_spec(ts, i)
            } else {
                Ok((seq![Seg::Text(unraw(text))], i + 1))
            },
            Tree::Literal(repr, span) => if !lit_readable(repr) {
                Err(Error { kind: ErrorKind::UnsupportedLiteral, span })
            } else {
                match str_lit_value(repr) {
                Some(v) => Ok(
                    (seq![Seg::Text(dash_to_underscore(if keep_quotes { repr } else { v }))], i + 1),
                ),
                None => if is_int_lit(repr) {
                    Ok((seq![Seg::Text(repr)], i + 1))
                } else {
                    Err(Error { kind: ErrorKind::UnsupportedLiteral, span })
                },
                }
            },
            Tree::Punct(c, _, span) => if c == '_' {
                Ok((seq![Seg::Text(seq!['_'])], i + 1))
            } else if c == '\'' {
                Ok((seq![Seg::Apostrophe(span)], i + 1))
            } else if c == ':' {
                if i + 1 < ts.len() && ts[i + 1] is Ident {
                    Ok((seq![Seg::Modifier(span, ts[i + 1]->Ident_0, ts[i + 1]->Ident_1)], i + 2))
                } else if i + 1 < ts.len() {
                    Err(Error { kind: ErrorKind::ExpectedIdentAfterColon, span: span_of(ts[i + 1]) })
                } else {
                    Err(Error { kind: ErrorKind::ExpectedIdentAfterColon, span })
                }
            } else {
                Err(Error { kind: ErrorKind::UnexpectedPunct, span })
            },
            Tree::Group(d, inner, gspan) => if d == Delimiter::Invisible {
                match parse_spec(inner, 0, keep_quotes) {
                    Ok((s, n)) => if n < inner.len() {
                        Err(Error { kind: ErrorKind::UnexpectedToken, span: span_of(inner[n]) })
                    } else {
                        Ok((s, i + 1))
                    },
                    Err(e) => Err(e),
                }
            } else {
                Err(Error { kind: ErrorKind::UnexpectedToken, span: gspan })
            },
        }
    }
}

proof fn lemma_segs_add(a: Seq<Segment>, b: Seq<Segment>)
    ensures
        segs(a + b) == segs(a) + segs(b),
{
    assert(segs(a + b) =~= segs(a) + segs(b));
}

proof fn lemma_prepend_assoc(a: Seq<Seg>, b: Seq<Seg>, r: Result<(Seq<Seg>, int), Error>)
    ensures
        prepend(a, prepend(b, r)) == prepend(a + b, r),
{
    match r {
        Ok((s, n)) => {
            assert(a + (b + s) =~= (a + b) + s);
        },
        Err(e) => {},
    }
}

proof fn lemma_step_progress(ts: Seq<Tree>, i: int, keep_quotes: bool)
    requires
        0 <= i < ts.len(),
    ensures
        step_spec(ts, i, keep_quotes) matches Ok((s, n)) ==> i < n <= ts.len(),
{
}

/// The segment of an `env!(..)` whose `env` identifier stands at `i`.
fn parse_env(ts: &Vec<TokenTree>, i: usize) -> (r: Result<(Vec<Segment>, usize), Error>)
    requires
        i < ts@.len(),
    ensures
        match r {
            Ok((v, n)) => env_spec(trees(ts@), i as int) == Ok::<(Seq<Seg>, int), Error>((segs(v@), n as int)),
            Err(e) => env_spec(trees(ts@), i as int) == Err::<(Seq<Seg>, int), Error>(e),
        },
{
    let len = ts.len();
    if len - i <= 2 {
        return Err(Error::new(ErrorKind::ExpectedParen, ts[i].span()));
    }
    match &ts[i + 2] {
        TokenTree::Group(g) => {
            proof {
                crate::token::lemma_group_view(*g);
            }
            if g.delimiter != Delimiter::Parenthesis {
                return Err(Error::new(ErrorKind::ExpectedParen, g.span));
            }
            if g.stream.len() == 0 {
                return Err(Error::new(ErrorKind::ExpectedStringLiteral, g.span));
            }
            match &g.stream[0] {
                TokenTree::Literal(lit) => {
                    if !lit_readable_exec(&lit.repr) {
                        return Err(Error::new(ErrorKind::ExpectedStringLiteral, lit.span));
                    }
                    match lit_str_value(&lit.repr) {
                        Some(v) => {
                            if g.stream.len() > 1 {
                                return Err(Error::new(ErrorKind::UnexpectedTokenInEnv, g.stream[1].span()));
                            }
                            let out = vec![Segment::Env(v, lit.span)];
                            assert(segs(out@) =~= seq![Seg::Env(v@, lit.span)]);
                            Ok((out, i + 3))
                        },
                        None => Err(Error::new(ErrorKind::ExpectedStringLiteral, lit.span)),
                    }
                },
                other => Err(Error::new(ErrorKind::ExpectedStringLiteral, other.span())),
            }
        },
        other => Err(Error::new(ErrorKind::ExpectedParen, other.span())),
    }
}

/// The segments of the one construct that starts at `i`.
fn parse_step(ts: &Vec<TokenTree>, i: usize, keep_quotes: bool) -> (r: Result<(Vec<Segment>, usize), Error>)
    requires
        i < ts@.len(),
    ensures
        match r {
            Ok((v, n)) => step_spec(trees(ts@), i as int, keep_quotes) == Ok::<(Seq<Seg>, int), Error>((segs(v@), n as int)),
            Err(e) => step_spec(trees(ts@), i as int, keep_quotes) == Err::<(Seq<Seg>, int), Error>(e),
        },
    decreases ts, 0int,
{
    let ghost t = trees(ts@);
    let len = ts.len();
    match &ts[i] {
        TokenTree::Ident(id) => {
            let frag = unraw_exec(&id.text);
            proof {
                reveal_strlit("env");
            }
            if chars_eq_str(&frag, "env") && len - i > 1 && crate::token::punct_is(&ts[i + 1], '!') {
                assert(frag@ == seq!['e', 'n', 'v']);
                parse_env(ts, i)
            } else {
                proof {
                    if frag@ == seq!['e', 'n', 'v'] {
                        assert(frag@ =~= "env"@);
                    }
                }
                let out = vec![Segment::Text(frag)];
                assert(segs(out@) =~= seq![Seg::Text(frag@)]);
                Ok((out, i + 1))
            }
        },
        TokenTree::Literal(lit) => {
            if !lit_readable_exec(&lit.repr) {
                return Err(Error::new(ErrorKind::UnsupportedLiteral, lit.span));
            }
            match lit_str_value(&lit.repr) {
                Some(v) => {
                    let text = if keep_quotes {
                        replace_dashes(&lit.repr)
                    } else {
                        replace_dashes(&v)
                    };
                    let out = vec![Segment::Text(text)];
                    assert(segs(out@) =~= seq![Seg::Text(text@)]);
                    Ok((out, i + 1))
                },
                None => {
                    if lit_is_int(&lit.repr) {
                        let out = vec![Segment::Text(copy_chars(&lit.repr))];
                        assert(segs(out@) =~= seq![Seg::Text(lit.repr@)]);
                        Ok((out, i + 1))
                    } else {
                        Err(Error::new(ErrorKind::UnsupportedLiteral, lit.span))
                    }
                },
            }
        },
        TokenTree::Punct(p) => {
            if p.ch == '_' {
                let u = vec!['_'];
                assert(u@ =~= seq!['_']);
                let out = vec![Segment::Text(u)];
                assert(segs(out@) =~= seq![Seg::Text(seq!['_'])]);
                Ok((out, i + 1))
            } else if p.ch == '\'' {
                let out = vec![Segment::Apostrophe(p.span)];
                assert(segs(out@) =~= seq![Seg::Apostrophe(p.span)]);
                Ok((out, i + 1))
            } else if p.ch == ':' {
                if len - i > 1 {
                    match &ts[i + 1] {
                        TokenTree::Ident(id) => {
                            let m = Ident { text: copy_chars(&id.text), span: id.span };
                            let out = vec![Segment::Modifier(p.span, m)];
                            assert(segs(out@) =~= seq![Seg::Modifier(p.span, id.text@, id.span)]);
                            Ok((out, i + 2))
                        },
                        other => Err(Error::new(ErrorKind::ExpectedIdentAfterColon, other.span())),
                    }
                } else {
                    Err(Error::new(ErrorKind::ExpectedIdentAfterColon, p.span))
                }
            } else {
                Err(Error::new(ErrorKind::UnexpectedPunct, p.span))
            }
        },
        TokenTree::Group(g) => {
            proof {
                crate::token::lemma_group_view(*g);
            }
            if g.delimiter == Delimiter::Invisible {
                proof {
                    vstd::std_specs::vec::axiom_vec_index_decreases(*ts, i as int);
                }
                match parse_segments(&g.stream, 0, keep_quotes) {
                    Ok((v, n)) => {
                        if n < g.stream.len() {
                            Err(Error::new(ErrorKind::UnexpectedToken, g.stream[n].span()))
                        } else {
                            Ok((v, i + 1))
                        }
                    },
                    Err(e) => Err(e),
                }
            } else {
                Err(Error::new(ErrorKind::UnexpectedToken, g.span))
            }
        },
    }
}

/// Parses segments from `start` up to the end of the stream or a `>`, and
/// returns them with the index at which it stopped.
pub fn parse_segments(ts: &Vec<TokenTree>, start: usize, keep_quotes: bool) -> (r: Result<(Vec<Segment>, usize), Error>)
    requires
        start <= ts@.len(),
    ensures
        match r {
            Ok((v, n)) => parse_spec(trees(ts@), start as int, keep_quotes) == Ok::<(Seq<Seg>, int), Error>((segs(v@), n as int)),
            Err(e) => parse_spec(trees(ts@), start as int, keep_quotes) == Err::<(Seq<Seg>, int), Error>(e),
        },
    decreases ts, 1int,
{
    let ghost t = trees(ts@);
    let mut out: Vec<Segment> = Vec::new();
    let mut i: usize = start;
    assert(segs(out@) =~= Seq::<Seg>::empty());
    proof {
        match parse_spec(t, start as int, keep_quotes) {
            Ok((s, n)) => {
                assert(Seq::<Seg>::empty() + s =~= s);
            },
            Err(e) => {},
        }
    }
    while i < ts.len() && !crate::token::punct_is(&ts[i], '>')
        invariant
            start <= i <= ts@.len(),
            t == trees(ts@),
            parse_spec(t, start as int, keep_quotes) == prepend(segs(out@), parse_spec(t, i as int, keep_quotes)),
        decreases ts@.len() - i,
    {
        proof {
            lemma_step_progress(t, i as int, keep_quotes);
        }
        match parse_step(ts, i, keep_quotes) {
            Ok((v, n)) => {
                proof {
                    lemma_prepend_assoc(segs(out@), segs(v@), parse_spec(t, n as int, keep_quotes));
                    lemma_segs_add(out@, v@);
                }
                let mut v = v;
                out.append(&mut v);
                i = n;
            },
            Err(e) => {
                return Err(e);
            },
        }
    }
    assert(segs(out@) + Seq::<Seg>::empty() =~= segs(out@));
    Ok((out, i))
}

} // verus!
