//! Carries a token stream through a position that accepts only a declaration:
//! the payload rides in the discriminant of a one-variant enum.

use vstd::prelude::*;
use std::collections::hash_map::DefaultHasher;
use std::hash::{BuildHasher, BuildHasherDefault};
use crate::error::{Error, ErrorKind};
use crate::token::{
    chars_eq_str, chars_of, copy_range, lemma_group_view, punct_is, trees, Delimiter, Group, Ident, Literal,
    Punct, Spacing, Span, TokenTree, Tree,
};

verus! {

/// Opening characters of a delimiter.
pub open spec fn open_of(d: Delimiter) -> Seq<char> {
    match d {
        Delimiter::Parenthesis => seq!['('],
        Delimiter::Brace => seq!['{'],
        Delimiter::Bracket => seq!['['],
        Delimiter::Invisible => Seq::empty(),
    }
}

/// Closing characters of a delimiter.
pub open spec fn close_of(d: Delimiter) -> Seq<char> {
    match d {
        Delimiter::Parenthesis => seq![')'],
        Delimiter::Brace => seq!['}'],
        Delimiter::Bracket => seq![']'],
        Delimiter::Invisible => Seq::empty(),
    }
}

/// The textual form of one token.
pub open spec fn print_tree(t: Tree) -> Seq<char>
    decreases t, 0int,
{
    match t {
        Tree::Group(d, inner, _) => open_of(d) + print_from(inner, 0) + close_of(d),
        Tree::Ident(s, _) => s,
        Tree::Punct(c, _, _) => seq![c],
        Tree::Literal(r, _) => r,
    }
}

/// The textual form of the tokens from `i` on: a space between two tokens,
/// except after a joint punctuation character.
pub open spec fn print_from(ts: Seq<Tree>, i: int) -> Seq<char>
    decreases ts, ts.len() - i,
{
    if i < 0 || i >= ts.len() {
        Seq::empty()
    } else {
        let sep: Seq<char> = if i + 1 < ts.len() && !(ts[i] is Punct && ts[i]->Punct_1 == Spacing::Joint) {
            seq![' ']
        } else {
            Seq::empty()
        };
        print_tree(ts[i]) + sep + print_from(ts, i + 1)
    }
}

fn push_chars(out: &mut Vec<char>, s: &Vec<char>)
    ensures
        final(out)@ == old(out)@ + s@,
{
    let mut i: usize = 0;
    while i < s.len()
        invariant
            i <= s@.len(),
            out@ == old(out)@ + s@.subrange(0, i as int),
        decreases s@.len() - i,
    {
        out.push(s[i]);
        assert(s@.subrange(0, i + 1) =~= s@.subrange(0, i as int).push(s@[i as int]));
        i = i + 1;
    }
    assert(s@.subrange(0, i as int) =~= s@);
}

fn print_token(out: &mut Vec<char>, t: &TokenTree)
    ensures
        final(out)@ == old(out)@ + print_tree(t@),
    decreases t, 0int,
{
    match t {
        TokenTree::Group(g) => {
            proof {
                lemma_group_view(*g);
            }
            let ghost start = out@;
            match g.delimiter {
                Delimiter::Parenthesis => out.push('('),
                Delimiter::Brace => out.push('{'),
                Delimiter::Bracket => out.push('['),
                Delimiter::Invisible => {},
            }
            assert(out@ == start + open_of(g.delimiter));
            let ghost mid = out@;
            print_stream(out, &g.stream);
            let ghost after = out@;
            match g.delimiter {
                Delimiter::Parenthesis => out.push(')'),
                Delimiter::Brace => out.push('}'),
                Delimiter::Bracket => out.push(']'),
                Delimiter::Invisible => {},
            }
            assert(out@ == after + close_of(g.delimiter));
            assert(out@ =~= start + (open_of(g.delimiter) + print_from(trees(g.stream@), 0) + close_of(g.delimiter)));
        },
        TokenTree::Ident(i) => push_chars(out, &i.text),
        TokenTree::Punct(p) => {
            out.push(p.ch);
        },
        TokenTree::Literal(l) => push_chars(out, &l.repr),
    }
}

/// Appends the textual form of a token stream.
pub fn print_stream(out: &mut Vec<char>, ts: &Vec<TokenTree>)
    ensures
        final(out)@ == old(out)@ + print_from(trees(ts@), 0),
    decreases ts, 1int,
{
    let ghost t = trees(ts@);
    let mut i: usize = 0;
    while i < ts.len()
        invariant
            i <= ts@.len(),
            t == trees(ts@),
            old(out)@ + print_from(t, 0) == out@ + print_from(t, i as int),
        decreases ts@.len() - i,
    {
        proof {
            vstd::std_specs::vec::axiom_vec_index_decreases(*ts, i as int);
        }
        let ghost before = out@;
        print_token(out, &ts[i]);
        let joint = match &ts[i] {
            TokenTree::Punct(p) => p.spacing == Spacing::Joint,
            _ => false,
        };
        if ts.len() - i > 1 && !joint {
            out.push(' ');
        }
        let ghost sep: Seq<char> = if i + 1 < t.len() && !(t[i as int] is Punct && t[i as int]->Punct_1
            == Spacing::Joint) {
            seq![' ']
        } else {
            Seq::empty()
        };
        assert(out@ == before + print_tree(t[i as int]) + sep);
        assert(before + print_from(t, i as int) =~= out@ + print_from(t, i + 1));
        i = i + 1;
    }
    assert(out@ + print_from(t, i as int) =~= out@);
}

/// A hash of a text, the same for the same text.
pub uninterp spec fn text_hash(s: Seq<char>) -> u64;

/// Relies on `BuildHasher::hash_one` with the default `DefaultHasher`, whose
/// keys are fixed: the result depends on the text alone.
#[verifier::external_body]
fn hash_text(s: &Vec<char>) -> (r: u64)
    ensures
        r == text_hash(s@),
{
    let s: String = s.iter().collect();
    BuildHasherDefault::<DefaultHasher>::default().hash_one(&s)
}

/// The decimal digits of a number.
pub open spec fn decimal(n: u64) -> Seq<char>
    decreases n,
{
    if n < 10 {
        seq![((n as u8) + 48u8) as char]
    } else {
        decimal(n / 10) + seq![(((n % 10) as u8) + 48u8) as char]
    }
}

fn push_decimal(out: &mut Vec<char>, n: u64)
    ensures
        final(out)@ == old(out)@ + decimal(n),
    decreases n,
{
    if n >= 10 {
        push_decimal(out, n / 10);
    }
    let d: u8 = (n % 10) as u8;
    out.push((d + 48u8) as char);
    assert(out@ =~= old(out)@ + decimal(n));
}

/// The name of the declaration that carries a payload: `_paste_` and the
/// hash of the payload's text.
pub open spec fn carrier_name(payload: Seq<Tree>) -> Seq<char> {
    seq!['_', 'p', 'a', 's', 't', 'e', '_'] + decimal(text_hash(print_from(payload, 0)))
}

/// `enum NAME { Value = (stringify! { payload }, 0).1, }`
pub open spec fn encode_spec(payload: Seq<Tree>, name: Seq<char>, span: Span) -> Seq<Tree> {
    seq![
        Tree::Ident(seq!['e', 'n', 'u', 'm'], span),
        Tree::Ident(name, span),
        Tree::Group(
            Delimiter::Brace,
            seq![
                Tree::Ident(seq!['V', 'a', 'l', 'u', 'e'], span),
                Tree::Punct('=', Spacing::Alone, span),
                Tree::Group(
                    Delimiter::Parenthesis,
                    seq![
                        Tree::Ident(seq!['s', 't', 'r', 'i', 'n', 'g', 'i', 'f', 'y'], span),
                        Tree::Punct('!', Spacing::Alone, span),
                        Tree::Group(Delimiter::Brace, payload, span),
                        Tree::Punct(',', Spacing::Alone, span),
                        Tree::Literal(seq!['0'], span),
                    ],
                    span,
                ),
                Tree::Punct('.', Spacing::Alone, span),
                Tree::Literal(seq!['1'], span),
                Tree::Punct(',', Spacing::Alone, span),
            ],
            span,
        ),
    ]
}

pub open spec fn is_ident_of(t: Tree, s: Seq<char>) -> bool {
    t is Ident && t->Ident_0 == s
}

pub open spec fn is_punct_of(t: Tree, c: char) -> bool {
    t is Punct && t->Punct_0 == c
}

pub open spec fn is_lit_of(t: Tree, s: Seq<char>) -> bool {
    t is Literal && t->Literal_0 == s
}

pub open spec fn is_group_of(t: Tree, d: Delimiter) -> bool {
    t is Group && t->Group_0 == d
}

/// The payload of a stream of exactly the encoded shape, or nothing.
pub open spec fn decode_spec(ts: Seq<Tree>) -> Option<Seq<Tree>> {
    if ts.len() == 3 && is_ident_of(ts[0], seq!['e', 'n', 'u', 'm']) && ts[1] is Ident && is_group_of(
        ts[2],
        Delimiter::Brace,
    ) {
        let b = ts[2]->Group_1;
        if b.len() == 6 && is_ident_of(b[0], seq!['V', 'a', 'l', 'u', 'e']) && is_punct_of(b[1], '=')
            && is_group_of(b[2], Delimiter::Parenthesis) && is_punct_of(b[3], '.') && is_lit_of(
            b[4],
            seq!['1'],
        ) && is_punct_of(b[5], ',') {
            let p = b[2]->Group_1;
            if p.len() == 5 && is_ident_of(p[0], seq!['s', 't', 'r', 'i', 'n', 'g', 'i', 'f', 'y'])
                && is_punct_of(p[1], '!') && is_group_of(p[2], Delimiter::Brace) && is_punct_of(
                p[3],
                ',',
            ) && is_lit_of(p[4], seq!['0']) {
                Some(p[2]->Group_1)
            } else {
                None
            }
        } else {
            None
        }
    } else {
        None
    }
}

fn ident(s: &str, span: Span) -> (r: TokenTree)
    ensures
        r@ == Tree::Ident(s@, span),
{
    TokenTree::Ident(Ident { text: chars_of(s), span })
}

fn punct(c: char, span: Span) -> (r: TokenTree)
    ensures
        r@ == Tree::Punct(c, Spacing::Alone, span),
{
    TokenTree::Punct(Punct { ch: c, spacing: Spacing::Alone, span })
}

fn group(d: Delimiter, stream: Vec<TokenTree>, span: Span) -> (r: TokenTree)
    ensures
        r@ == Tree::Group(d, trees(stream@), span),
{
    let g = Group { delimiter: d, stream, span };
    proof {
        lemma_group_view(g);
    }
    TokenTree::Group(g)
}

/// Wraps a payload in `enum _paste_HASH { Value = (stringify! { payload }, 0).1, }`,
/// a declaration whose single variant carries the payload unevaluated.
pub fn wrap(payload: Vec<TokenTree>, span: Span) -> (r: Vec<TokenTree>)
    ensures
        trees(r@) == encode_spec(trees(payload@), carrier_name(trees(payload@)), span),
{
    let mut text: Vec<char> = Vec::new();
    print_stream(&mut text, &payload);
    assert(text@ =~= print_from(trees(payload@), 0));
    let h = hash_text(&text);
    let mut name = chars_of("_paste_");
    push_decimal(&mut name, h);
    proof {
        reveal_strlit("_paste_");
        reveal_strlit("enum");
        reveal_strlit("Value");
        reveal_strlit("stringify");
        reveal_strlit("0");
        reveal_strlit("1");
    }
    assert(name@ =~= carrier_name(trees(payload@)));
    let ghost p = trees(payload@);
    let inner = vec![
        ident("stringify", span),
        punct('!', span),
        group(Delimiter::Brace, payload, span),
        punct(',', span),
        TokenTree::Literal(Literal { repr: chars_of("0"), span }),
    ];
    assert("stringify"@ =~= seq!['s', 't', 'r', 'i', 'n', 'g', 'i', 'f', 'y']);
    assert("0"@ =~= seq!['0']);
    assert("1"@ =~= seq!['1']);
    assert("Value"@ =~= seq!['V', 'a', 'l', 'u', 'e']);
    assert("enum"@ =~= seq!['e', 'n', 'u', 'm']);
    assert(trees(inner@) =~= encode_spec(p, name@, span)[2]->Group_1[2]->Group_1);
    let inner_group = group(Delimiter::Parenthesis, inner, span);
    let body = vec![
        ident("Value", span),
        punct('=', span),
        inner_group,
        punct('.', span),
        TokenTree::Literal(Literal { repr: chars_of("1"), span }),
        punct(',', span),
    ];
    let ghost body_view = trees(body@);
    let r = vec![ident("enum", span), TokenTree::Ident(Ident { text: name, span }), group(Delimiter::Brace, body, span)];
    assert(body_view =~= encode_spec(p, name@, span)[2]->Group_1);
    assert(trees(r@) =~= encode_spec(p, name@, span));
    r
}

fn ident_is(t: &TokenTree, s: &str) -> (r: bool)
    ensures
        r == is_ident_of(t@, s@),
{
    match t {
        TokenTree::Ident(i) => chars_eq_str(&i.text, s),
        _ => false,
    }
}

fn lit_is(t: &TokenTree, s: &str) -> (r: bool)
    ensures
        r == is_lit_of(t@, s@),
{
    match t {
        TokenTree::Literal(l) => chars_eq_str(&l.repr, s),
        _ => false,
    }
}

/// Takes back the payload of a declaration that `wrap` produced. Any other
/// shape is refused.
pub fn extract(input: &Vec<TokenTree>) -> (r: Result<Vec<TokenTree>, Error>)
    ensures
        match r {
            Ok(v) => decode_spec(trees(input@)) == Some(trees(v@)),
            Err(e) => decode_spec(trees(input@)) is None && e.kind == ErrorKind::CodecMismatch,
        },
{
    let ghost t = trees(input@);
    proof {
        reveal_strlit("enum");
        reveal_strlit("Value");
        reveal_strlit("stringify");
        reveal_strlit("0");
        reveal_strlit("1");
    }
    let mismatch = Error::new(ErrorKind::CodecMismatch, Span { id: 0 });
    if input.len() != 3 || !ident_is(&input[0], "enum") {
        assert("enum"@ =~= seq!['e', 'n', 'u', 'm']);
        return Err(mismatch);
    }
    assert("enum"@ =~= seq!['e', 'n', 'u', 'm']);
    match &input[1] {
        TokenTree::Ident(_) => {},
        _ => {
            return Err(mismatch);
        },
    }
    let b = match &input[2] {
        TokenTree::Group(g) => {
            proof {
                lemma_group_view(*g);
            }
            if g.delimiter != Delimiter::Brace {
                return Err(mismatch);
            }
            &g.stream
        },
        _ => {
            return Err(mismatch);
        },
    };
    assert("Value"@ =~= seq!['V', 'a', 'l', 'u', 'e']);
    assert("1"@ =~= seq!['1']);
    if b.len() != 6 || !ident_is(&b[0], "Value") || !punct_is(&b[1], '=') || !punct_is(&b[3], '.')
        || !lit_is(&b[4], "1") || !punct_is(&b[5], ',') {
        return Err(mismatch);
    }
    let p = match &b[2] {
        TokenTree::Group(g) => {
            proof {
                lemma_group_view(*g);
            }
            if g.delimiter != Delimiter::Parenthesis {
                return Err(mismatch);
            }
            &g.stream
        },
        _ => {
            return Err(mismatch);
        },
    };
    assert("stringify"@ =~= seq!['s', 't', 'r', 'i', 'n', 'g', 'i', 'f', 'y']);
    assert("0"@ =~= seq!['0']);
    if p.len() != 5 || !ident_is(&p[0], "stringify") || !punct_is(&p[1], '!') || !punct_is(&p[3], ',')
        || !lit_is(&p[4], "0") {
        return Err(mismatch);
    }
    match &p[2] {
        TokenTree::Group(g) => {
            proof {
                lemma_group_view(*g);
            }
            if g.delimiter != Delimiter::Brace {
                return Err(mismatch);
            }
            let r = copy_range(&g.stream, 0, g.stream.len());
            assert(trees(g.stream@).subrange(0, g.stream@.len() as int) =~= trees(g.stream@));
            Ok(r)
        },
        _ => Err(mismatch),
    }
}

} // verus!
