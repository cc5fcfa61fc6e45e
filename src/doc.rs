//! Documentation attributes made of several pieces.

use vstd::prelude::*;
use crate::attr::{all_stringlike, do_paste_name_value_attr, name_value_spec};
use crate::error::Error;
use crate::token::{chars_eq_str, is_punct, punct_is, trees, Span, TokenTree, Tree};

verus! {

/// `doc = v1 v2 ...` with two or more string-like pieces after the `=`.
pub open spec fn pasted_doc(ts: Seq<Tree>) -> bool {
    ts.len() >= 4 && ts[0] is Ident && ts[0]->Ident_0 == seq!['d', 'o', 'c'] && is_punct(ts[1], '=')
        && all_stringlike(ts, 2, ts.len() as int)
}

/// Whether an attribute's contents are a documentation value made of several
/// pieces that are to be pasted into one string.
pub fn is_pasted_doc(input: &Vec<TokenTree>) -> (r: bool)
    ensures
        r == pasted_doc(trees(input@)),
{
    let ghost t = trees(input@);
    if input.len() < 4 {
        return false;
    }
    let is_doc = match &input[0] {
        TokenTree::Ident(id) => {
            proof {
                reveal_strlit("doc");
            }
            let r = chars_eq_str(&id.text, "doc");
            proof {
                if id.text@ == seq!['d', 'o', 'c'] {
                    assert(id.text@ =~= "doc"@);
                }
                if r {
                    assert(id.text@ =~= seq!['d', 'o', 'c']);
                }
            }
            r
        },
        _ => false,
    };
    if !is_doc || !punct_is(&input[1], '=') {
        return false;
    }
    let mut i: usize = 2;
    while i < input.len()
        invariant
            2 <= i <= input@.len(),
            t == trees(input@),
            all_stringlike(t, 2, i as int),
        decreases input@.len() - i,
    {
        if !crate::attr::is_stringlike(&input[i]) {
            assert(!crate::attr::stringlike(t[i as int]));
            return false;
        }
        i = i + 1;
    }
    true
}

/// Pastes the pieces of `doc = v1 v2 ...` into `doc = "..."`, the literal
/// positioned at `span`.
pub fn do_paste_doc(attr: &Vec<TokenTree>, span: Span, env: &Vec<(Vec<char>, Vec<char>)>) -> (r: Result<Vec<TokenTree>, Error>)
    ensures
        match r {
            Ok(v) => name_value_spec(trees(attr@), 0, attr@.len() as int, span, env@) == Ok::<Seq<Tree>, Error>(trees(v@)),
            Err(e) => name_value_spec(trees(attr@), 0, attr@.len() as int, span, env@) == Err::<Seq<Tree>, Error>(e),
        },
{
    do_paste_name_value_attr(attr, 0, attr.len(), span, env)
}

} // verus!
