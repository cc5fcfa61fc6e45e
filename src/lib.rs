//! Pastes identifiers together inside token streams: `[< a b c >]` becomes
//! the identifier `abc`, with case modifiers, environment lookups and
//! lifetimes, and attribute values made of several pieces become one string.

use vstd::prelude::*;

pub mod attr;
pub mod doc;
pub mod enum_hack;
pub mod error;
pub mod eval;
pub mod expand;
pub mod laws;
pub mod segment;
pub mod text;
pub mod token;

use crate::enum_hack::{carrier_name, encode_spec, extract, wrap};
use crate::error::Error;
use crate::expand::{expand, expand_spec};
use crate::token::{chars_of, lemma_group_view, trees, Delimiter, Group, Ident, Punct, Spacing, Span, TokenTree, Tree};

verus! {

/// The position given to tokens that stand for the whole invocation.
pub open spec fn call_site() -> Span {
    Span { id: 0 }
}

/// Expands a macro input in item position.
pub fn item(input: &Vec<TokenTree>, env: &Vec<(Vec<char>, Vec<char>)>) -> (r: Result<Vec<TokenTree>, Error>)
    ensures
        match r {
            Ok(v) => expand_spec(trees(input@), call_site(), env@) matches Ok((t, _)) && t == trees(v@),
            Err(e) => expand_spec(trees(input@), call_site(), env@) == Err::<(Seq<Tree>, bool), Error>(e),
        },
{
    match expand(input, Span { id: 0 }, env) {
        Ok((v, _)) => Ok(v),
        Err(e) => Err(e),
    }
}

/// Expands a macro input in expression position: the result is one block.
pub fn expr(input: &Vec<TokenTree>, env: &Vec<(Vec<char>, Vec<char>)>) -> (r: Result<Vec<TokenTree>, Error>)
    ensures
        match r {
            Ok(v) => expand_spec(trees(input@), call_site(), env@) matches Ok((t, _)) && trees(v@) == seq![
                Tree::Group(Delimiter::Brace, t, call_site()),
            ],
            Err(e) => expand_spec(trees(input@), call_site(), env@) == Err::<(Seq<Tree>, bool), Error>(e),
        },
{
    match expand(input, Span { id: 0 }, env) {
        Ok((v, _)) => {
            let g = Group { delimiter: Delimiter::Brace, stream: v, span: Span { id: 0 } };
            proof {
                lemma_group_view(g);
            }
            let r = vec![TokenTree::Group(g)];
            assert(trees(r@) =~= seq![Tree::Group(Delimiter::Brace, trees(g.stream@), call_site())]);
            Ok(r)
        },
        Err(e) => Err(e),
    }
}

/// `#[derive(paste::EnumHack)]`, which hands an encoded declaration back to
/// `enum_hack`.
pub open spec fn derive_hook(span: Span) -> Seq<Tree> {
    seq![
        Tree::Punct('#', Spacing::Alone, span),
        Tree::Group(
            Delimiter::Bracket,
            seq![
                Tree::Ident(seq!['d', 'e', 'r', 'i', 'v', 'e'], span),
                Tree::Group(
                    Delimiter::Parenthesis,
                    seq![
                        Tree::Ident(seq!['p', 'a', 's', 't', 'e'], span),
                        Tree::Punct(':', Spacing::Joint, span),
                        Tree::Punct(':', Spacing::Alone, span),
                        Tree::Ident(seq!['E', 'n', 'u', 'm', 'H', 'a', 'c', 'k'], span),
                    ],
                    span,
                ),
            ],
            span,
        ),
    ]
}

fn derive_hook_tokens() -> (r: Vec<TokenTree>)
    ensures
        trees(r@) == derive_hook(call_site()),
{
    let span = Span { id: 0 };
    proof {
        reveal_strlit("derive");
        reveal_strlit("paste");
        reveal_strlit("EnumHack");
    }
    assert("derive"@ =~= seq!['d', 'e', 'r', 'i', 'v', 'e']);
    assert("paste"@ =~= seq!['p', 'a', 's', 't', 'e']);
    assert("EnumHack"@ =~= seq!['E', 'n', 'u', 'm', 'H', 'a', 'c', 'k']);
    let path = vec![
        TokenTree::Ident(Ident { text: chars_of("paste"), span }),
        TokenTree::Punct(Punct { ch: ':', spacing: Spacing::Joint, span }),
        TokenTree::Punct(Punct { ch: ':', spacing: Spacing::Alone, span }),
        TokenTree::Ident(Ident { text: chars_of("EnumHack"), span }),
    ];
    let ghost path_view = trees(path@);
    let args = Group { delimiter: Delimiter::Parenthesis, stream: path, span };
    proof {
        lemma_group_view(args);
    }
    let body = vec![TokenTree::Ident(Ident { text: chars_of("derive"), span }), TokenTree::Group(args)];
    let ghost body_view = trees(body@);
    let bracket = Group { delimiter: Delimiter::Bracket, stream: body, span };
    proof {
        lemma_group_view(bracket);
    }
    let r = vec![TokenTree::Punct(Punct { ch: '#', spacing: Spacing::Alone, span }), TokenTree::Group(bracket)];
    assert(path_view =~= derive_hook(call_site())[1]->Group_1[1]->Group_1);
    assert(body_view =~= derive_hook(call_site())[1]->Group_1);
    assert(trees(r@) =~= derive_hook(call_site()));
    r
}

/// Expands a macro input that holds `macro_rules!` definitions: the expansion
/// is carried inside an encoded declaration that `enum_hack` takes apart again.
pub fn item_with_macros(input: &Vec<TokenTree>, env: &Vec<(Vec<char>, Vec<char>)>) -> (r: Result<Vec<TokenTree>, Error>)
    ensures
        match r {
            Ok(v) => expand_spec(trees(input@), call_site(), env@) matches Ok((t, _)) && trees(v@)
                == derive_hook(call_site()) + encode_spec(t, carrier_name(t), call_site()),
            Err(e) => expand_spec(trees(input@), call_site(), env@) == Err::<(Seq<Tree>, bool), Error>(e),
        },
{
    match expand(input, Span { id: 0 }, env) {
        Ok((v, _)) => {
            let mut r = derive_hook_tokens();
            let mut w = wrap(v, Span { id: 0 });
            proof {
                crate::token::lemma_trees_add(r@, w@);
            }
            r.append(&mut w);
            Ok(r)
        },
        Err(e) => Err(e),
    }
}

/// The derive hook: takes the payload back out of an encoded declaration.
pub fn enum_hack(input: &Vec<TokenTree>) -> (r: Result<Vec<TokenTree>, Error>)
    ensures
        match r {
            Ok(v) => crate::enum_hack::decode_spec(trees(input@)) == Some(trees(v@)),
            Err(e) => crate::enum_hack::decode_spec(trees(input@)) is None && e.kind
                == crate::error::ErrorKind::CodecMismatch,
        },
{
    extract(input)
}

} // verus!
