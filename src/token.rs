//! Tokens: identifiers, literals, punctuation and delimited groups, with
//! their mathematical form `Tree`.

use vstd::prelude::*;

verus! {

/// A source position. The library never looks inside it: it is only carried
/// from the tokens that produced a result to the tokens and errors made from them.
#[derive(Clone, Copy, Debug, PartialEq, Eq, Structural)]
pub struct Span {
    pub id: u64,
}

#[derive(Clone, Copy, Debug, PartialEq, Eq, Structural)]
pub enum Delimiter {
    Parenthesis,
    Brace,
    Bracket,
    /// An invisible grouping with no printed delimiter.
    Invisible,
}

/// Whether a punctuation character is immediately followed by another one.
#[derive(Clone, Copy, Debug, PartialEq, Eq, Structural)]
pub enum Spacing {
    Alone,
    Joint,
}

#[derive(Clone, Debug)]
pub struct Ident {
    pub text: Vec<char>,
    pub span: Span,
}

#[derive(Clone, Copy, Debug, PartialEq, Eq, Structural)]
pub struct Punct {
    pub ch: char,
    pub spacing: Spacing,
    pub span: Span,
}

/// A literal as written in the source, quotes and suffix included.
#[derive(Clone, Debug)]
pub struct Literal {
    pub repr: Vec<char>,
    pub span: Span,
}

#[derive(Debug)]
pub struct Group {
    pub delimiter: Delimiter,
    pub stream: Vec<TokenTree>,
    pub span: Span,
}

#[derive(Debug)]
pub enum TokenTree {
    Group(Group),
    Ident(Ident),
    Punct(Punct),
    Literal(Literal),
}

/// The mathematical form of a token: text as character sequences, children as
/// a sequence of such forms.
pub enum Tree {
    Group(Delimiter, Seq<Tree>, Span),
    Ident(Seq<char>, Span),
    Punct(char, Spacing, Span),
    Literal(Seq<char>, Span),
}

pub open spec fn tree_of(t: TokenTree) -> Tree
    decreases t,
{
    match t {
        TokenTree::Group(g) => Tree::Group(
            g.delimiter,
            Seq::new(
                g.stream@.len(),
                |i: int|
                    if 0 <= i < g.stream@.len() {
                        tree_of(g.stream@[i])
                    } else {
                        Tree::Punct(' ', Spacing::Alone, g.span)
                    },
            ),
            g.span,
        ),
        TokenTree::Ident(i) => Tree::Ident(i.text@, i.span),
        TokenTree::Punct(p) => Tree::Punct(p.ch, p.spacing, p.span),
        TokenTree::Literal(l) => Tree::Literal(l.repr@, l.span),
    }
}

impl View for TokenTree {
    type V = Tree;

    open spec fn view(&self) -> Tree {
        tree_of(*self)
    }
}

/// The mathematical form of a token stream.
pub open spec fn trees(ts: Seq<TokenTree>) -> Seq<Tree> {
    Seq::new(ts.len(), |i: int| ts[i]@)
}

pub proof fn lemma_group_view(g: Group)
    ensures
        TokenTree::Group(g)@ == Tree::Group(g.delimiter, trees(g.stream@), g.span),
{
    let x = tree_of(TokenTree::Group(g));
    assert(x->Group_1 =~= trees(g.stream@));
}

pub proof fn lemma_trees_push(ts: Seq<TokenTree>, t: TokenTree)
    ensures
        trees(ts.push(t)) == trees(ts).push(t@),
{
    assert(trees(ts.push(t)) =~= trees(ts).push(t@));
}

pub proof fn lemma_trees_add(a: Seq<TokenTree>, b: Seq<TokenTree>)
    ensures
        trees(a + b) == trees(a) + trees(b),
{
    assert(trees(a + b) =~= trees(a) + trees(b));
}

pub proof fn lemma_trees_subrange(ts: Seq<TokenTree>, i: int, j: int)
    requires
        0 <= i <= j <= ts.len(),
    ensures
        trees(ts.subrange(i, j)) == trees(ts).subrange(i, j),
{
    assert(trees(ts.subrange(i, j)) =~= trees(ts).subrange(i, j));
}

pub open spec fn is_punct(t: Tree, c: char) -> bool {
    t is Punct && t->Punct_0 == c
}

pub open spec fn is_punct_spaced(t: Tree, c: char, s: Spacing) -> bool {
    t is Punct && t->Punct_0 == c && t->Punct_1 == s
}

/// A path separator `::` starts at `i`: a joint `:` followed by an alone `:`.
pub open spec fn path_sep_at(ts: Seq<Tree>, i: int) -> bool {
    0 <= i && i + 1 < ts.len() && is_punct_spaced(ts[i], ':', Spacing::Joint)
        && is_punct_spaced(ts[i + 1], ':', Spacing::Alone)
}

pub open spec fn span_of(t: Tree) -> Span {
    match t {
        Tree::Group(_, _, s) => s,
        Tree::Ident(_, s) => s,
        Tree::Punct(_, _, s) => s,
        Tree::Literal(_, s) => s,
    }
}

pub fn punct_is(t: &TokenTree, c: char) -> (r: bool)
    ensures
        r == is_punct(t@, c),
{
    match t {
        TokenTree::Punct(p) => p.ch == c,
        _ => false,
    }
}

pub fn path_sep_at_exec(ts: &Vec<TokenTree>, i: usize) -> (r: bool)
    ensures
        r == path_sep_at(trees(ts@), i as int),
{
    if i >= ts.len() || ts.len() - i < 2 {
        return false;
    }
    let first = match &ts[i] {
        TokenTree::Punct(p) => p.ch == ':' && p.spacing == Spacing::Joint,
        _ => false,
    };
    let second = match &ts[i + 1] {
        TokenTree::Punct(p) => p.ch == ':' && p.spacing == Spacing::Alone,
        _ => false,
    };
    first && second
}

pub fn copy_chars(v: &Vec<char>) -> (r: Vec<char>)
    ensures
        r@ == v@,
{
    let mut r: Vec<char> = Vec::new();
    let mut i: usize = 0;
    while i < v.len()
        invariant
            i <= v@.len(),
            r@ == v@.subrange(0, i as int),
        decreases v@.len() - i,
    {
        r.push(v[i]);
        i = i + 1;
    }
    assert(r@ =~= v@);
    r
}

/// The characters of a string slice, in order.
pub fn chars_of(s: &str) -> (r: Vec<char>)
    ensures
        r@ == s@,
{
    let n = s.unicode_len();
    let mut r: Vec<char> = Vec::new();
    let mut i: usize = 0;
    while i < n
        invariant
            n == s@.len(),
            i <= n,
            r@ == s@.subrange(0, i as int),
        decreases n - i,
    {
        r.push(s.get_char(i));
        i = i + 1;
    }
    assert(r@ =~= s@);
    r
}

/// Whether a character sequence spells the given string.
pub fn chars_eq_str(v: &Vec<char>, s: &str) -> (r: bool)
    ensures
        r == (v@ == s@),
{
    let n = s.unicode_len();
    if v.len() != n {
        return false;
    }
    let mut i: usize = 0;
    while i < n
        invariant
            n == s@.len(),
            n == v@.len(),
            i <= n,
            v@.subrange(0, i as int) == s@.subrange(0, i as int),
        decreases n - i,
    {
        if v[i] != s.get_char(i) {
            assert(v@[i as int] != s@[i as int]);
            return false;
        }
        assert(v@.subrange(0, i + 1) =~= v@.subrange(0, i as int).push(v@[i as int]));
        assert(s@.subrange(0, i + 1) =~= s@.subrange(0, i as int).push(s@[i as int]));
        i = i + 1;
    }
    assert(v@ =~= v@.subrange(0, n as int));
    assert(s@ =~= s@.subrange(0, n as int));
    true
}

pub fn chars_eq(a: &Vec<char>, b: &Vec<char>) -> (r: bool)
    ensures
        r == (a@ == b@),
{
    if a.len() != b.len() {
        return false;
    }
    let mut i: usize = 0;
    while i < a.len()
        invariant
            a@.len() == b@.len(),
            i <= a@.len(),
            a@.subrange(0, i as int) == b@.subrange(0, i as int),
        decreases a@.len() - i,
    {
        if a[i] != b[i] {
            assert(a@[i as int] != b@[i as int]);
            return false;
        }
        assert(a@.subrange(0, i + 1) =~= a@.subrange(0, i as int).push(a@[i as int]));
        assert(b@.subrange(0, i + 1) =~= b@.subrange(0, i as int).push(b@[i as int]));
        i = i + 1;
    }
    assert(a@ =~= a@.subrange(0, i as int));
    assert(b@ =~= b@.subrange(0, i as int));
    true
}

impl TokenTree {
    /// A deep copy, equal to this token in every field.
    pub fn copy(&self) -> (r: TokenTree)
        ensures
            r@ == self@,
        decreases self,
    {
        match self {
            TokenTree::Group(g) => {
                let stream = copy_stream(&g.stream);
                let r = Group { delimiter: g.delimiter, stream, span: g.span };
                proof {
                    lemma_group_view(r);
                    lemma_group_view(*g);
                }
                TokenTree::Group(r)
            },
            TokenTree::Ident(i) => TokenTree::Ident(Ident { text: copy_chars(&i.text), span: i.span }),
            TokenTree::Punct(p) => TokenTree::Punct(*p),
            TokenTree::Literal(l) => TokenTree::Literal(Literal { repr: copy_chars(&l.repr), span: l.span }),
        }
    }

    pub fn span(&self) -> (r: Span)
        ensures
            r == span_of(self@),
    {
        match self {
            TokenTree::Group(g) => g.span,
            TokenTree::Ident(i) => i.span,
            TokenTree::Punct(p) => p.span,
            TokenTree::Literal(l) => l.span,
        }
    }
}

/// A deep copy of a whole token stream.
pub fn copy_stream(ts: &Vec<TokenTree>) -> (r: Vec<TokenTree>)
    ensures
        trees(r@) == trees(ts@),
    decreases ts,
{
    let mut r: Vec<TokenTree> = Vec::new();
    let mut i: usize = 0;
    while i < ts.len()
        invariant
            i <= ts@.len(),
            trees(r@) == trees(ts@.subrange(0, i as int)),
        decreases ts@.len() - i,
    {
        proof {
            vstd::std_specs::vec::axiom_vec_index_decreases(*ts, i as int);
        }
        let t = ts[i].copy();
        proof {
            lemma_trees_push(r@, t);
            assert(ts@.subrange(0, i + 1) =~= ts@.subrange(0, i as int).push(ts@[i as int]));
            lemma_trees_push(ts@.subrange(0, i as int), ts@[i as int]);
        }
        r.push(t);
        i = i + 1;
    }
    assert(ts@ =~= ts@.subrange(0, i as int));
    r
}

} // verus!

verus! {

/// A copy of the tokens in `lo..hi`.
pub fn copy_range(ts: &Vec<TokenTree>, lo: usize, hi: usize) -> (r: Vec<TokenTree>)
    requires
        lo <= hi <= ts@.len(),
    ensures
        trees(r@) == trees(ts@).subrange(lo as int, hi as int),
{
    let mut r: Vec<TokenTree> = Vec::new();
    let mut i: usize = lo;
    while i < hi
        invariant
            lo <= i <= hi <= ts@.len(),
            trees(r@) == trees(ts@).subrange(lo as int, i as int),
        decreases hi - i,
    {
        let t = ts[i].copy();
        proof {
            lemma_trees_push(r@, t);
            assert(trees(ts@).subrange(lo as int, i + 1) =~= trees(ts@).subrange(lo as int, i as int).push(t@));
        }
        r.push(t);
        i = i + 1;
    }
    r
}

} // verus!
