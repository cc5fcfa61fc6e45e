//! Properties that hold of the rewriter, the evaluator and the codec.

use vstd::prelude::*;
use crate::attr::{all_stringlike, arg_spec, args_spec, attr_spec};
use crate::enum_hack::{decode_spec, encode_spec};
use crate::error::{Error, ErrorKind};
use crate::eval::{concat_all, env_lookup, eval_from, eval_spec, seg_step};
use crate::expand::{expand_range, expand_spec, in_path, is_flat, region_spec, token_spec};
use crate::segment::{dash_to_underscore, Seg};
use crate::text::{all_ascii, ascii_lower, ascii_upper};
use crate::enum_hack::{print_from, print_tree};
use crate::token::{is_punct, Delimiter, Spacing, Span, Tree};

verus! {

/// Decoding an encoded payload gives the payload back, whatever the name and
/// position the encoder used.
pub proof fn law_codec_round_trip(payload: Seq<Tree>, name: Seq<char>, span: Span)
    ensures
        decode_spec(encode_spec(payload, name, span)) == Some(payload),
{
}

/// The texts of a list of text segments.
pub open spec fn texts(ss: Seq<Seg>) -> Seq<Seq<char>> {
    ss.map_values(|g: Seg| g->Text_0)
}

proof fn lemma_texts_from(ss: Seq<Seg>, env: Seq<(Vec<char>, Vec<char>)>, i: int, f: Seq<Seq<char>>)
    requires
        0 <= i <= ss.len(),
        forall|k: int| i <= k < ss.len() ==> #[trigger] ss[k] is Text,
    ensures
        eval_from(ss, env, i, f, false) == Ok::<(Seq<char>, bool), Error>(
            (concat_all(f + texts(ss).subrange(i, ss.len() as int)), false),
        ),
    decreases ss.len() - i,
{
    if i < ss.len() {
        lemma_texts_from(ss, env, i + 1, f.push(ss[i]->Text_0));
        assert(f.push(ss[i]->Text_0) + texts(ss).subrange(i + 1, ss.len() as int) =~= f + texts(ss).subrange(
            i,
            ss.len() as int,
        ));
    } else {
        assert(f + texts(ss).subrange(i, ss.len() as int) =~= f);
    }
}

/// A list of text segments evaluates to their concatenation, in order and
/// with no separator, as an identifier (not a lifetime).
pub proof fn law_text_segments_concatenate(ss: Seq<Seg>, env: Seq<(Vec<char>, Vec<char>)>)
    requires
        forall|k: int| 0 <= k < ss.len() ==> #[trigger] ss[k] is Text,
    ensures
        eval_spec(ss, env) == Ok::<(Seq<char>, bool), Error>((concat_all(texts(ss)), false)),
{
    lemma_texts_from(ss, env, 0, Seq::empty());
    assert(Seq::<Seq<char>>::empty() + texts(ss).subrange(0, ss.len() as int) =~= texts(ss));
}

/// The state after the segments `k..j`.
pub open spec fn run(
    ss: Seq<Seg>,
    env: Seq<(Vec<char>, Vec<char>)>,
    k: int,
    j: int,
    f: Seq<Seq<char>>,
    lt: bool,
) -> Result<(Seq<Seq<char>>, bool), Error>
    decreases j - k,
{
    if k < 0 || k >= j || j > ss.len() {
        Ok((f, lt))
    } else {
        match seg_step(ss[k], env, f, lt) {
            Err(e) => Err(e),
            Ok((f2, lt2)) => run(ss, env, k + 1, j, f2, lt2),
        }
    }
}

proof fn lemma_run_split(
    ss: Seq<Seg>,
    env: Seq<(Vec<char>, Vec<char>)>,
    k: int,
    j: int,
    f: Seq<Seq<char>>,
    lt: bool,
)
    requires
        0 <= k <= j <= ss.len(),
    ensures
        eval_from(ss, env, k, f, lt) == match run(ss, env, k, j, f, lt) {
            Ok((f2, lt2)) => eval_from(ss, env, j, f2, lt2),
            Err(e) => Err(e),
        },
        eval_from(ss.take(j), env, k, f, lt) == match run(ss, env, k, j, f, lt) {
            Ok((f2, lt2)) => Ok((concat_all(f2), lt2)),
            Err(e) => Err(e),
        },
    decreases j - k,
{
    if k < j {
        assert(ss.take(j)[k] == ss[k]);
        match seg_step(ss[k], env, f, lt) {
            Err(e) => {},
            Ok((f2, lt2)) => {
                lemma_run_split(ss, env, k + 1, j, f2, lt2);
            },
        }
    }
}

proof fn lemma_text_run(
    ss: Seq<Seg>,
    env: Seq<(Vec<char>, Vec<char>)>,
    i: int,
    j: int,
    f: Seq<Seq<char>>,
    lt: bool,
)
    requires
        0 <= i <= j <= ss.len(),
        forall|k: int| i <= k < j ==> #[trigger] ss[k] is Text,
    ensures
        run(ss, env, i, j, f, lt) == Ok::<(Seq<Seq<char>>, bool), Error>((f + texts(ss).subrange(i, j), lt)),
    decreases j - i,
{
    if i < j {
        lemma_text_run(ss, env, i + 1, j, f.push(ss[i]->Text_0), lt);
        assert(f.push(ss[i]->Text_0) + texts(ss).subrange(i + 1, j) =~= f + texts(ss).subrange(i, j));
    } else {
        assert(f + texts(ss).subrange(i, j) =~= f);
    }
}

proof fn lemma_run_lifetime(
    ss: Seq<Seg>,
    env: Seq<(Vec<char>, Vec<char>)>,
    k: int,
    j: int,
    f: Seq<Seq<char>>,
    lt: bool,
    i: int,
)
    requires
        0 <= k <= j <= ss.len(),
        lt || (k <= i < j && ss[i] is Apostrophe),
        run(ss, env, k, j, f, lt) is Ok,
    ensures
        run(ss, env, k, j, f, lt)->Ok_0.1,
    decreases j - k,
{
    if k < j {
        match seg_step(ss[k], env, f, lt) {
            Err(e) => {},
            Ok((f2, lt2)) => {
                lemma_run_lifetime(ss, env, k + 1, j, f2, lt2, i);
            },
        }
    }
}

/// A region whose segments hold a second `'` fails with a duplicate-lifetime
/// error at that `'`, when what stands before it evaluates.
pub proof fn law_second_apostrophe_fails(ss: Seq<Seg>, env: Seq<(Vec<char>, Vec<char>)>, i: int, j: int)
    requires
        0 <= i < j < ss.len(),
        ss[i] is Apostrophe,
        ss[j] is Apostrophe,
        eval_spec(ss.take(j), env) is Ok,
    ensures
        eval_spec(ss, env) == Err::<(Seq<char>, bool), Error>(
            Error { kind: ErrorKind::UnexpectedLifetime, span: ss[j]->Apostrophe_0 },
        ),
{
    lemma_run_split(ss, env, 0, j, Seq::empty(), false);
    lemma_run_lifetime(ss, env, 0, j, Seq::empty(), false, i);
}

/// A region that starts with a case modifier fails with a missing-fragment
/// error at its colon.
pub proof fn law_leading_modifier_fails(ss: Seq<Seg>, env: Seq<(Vec<char>, Vec<char>)>)
    requires
        ss.len() > 0,
        ss[0] is Modifier,
    ensures
        eval_spec(ss, env) == Err::<(Seq<char>, bool), Error>(
            Error { kind: ErrorKind::UnexpectedModifier, span: ss[0]->Modifier_0 },
        ),
{
}

/// `env!("NAME")` evaluates to the variable's value with every `-` replaced
/// by `_`.
pub proof fn law_env_resolves(name: Seq<char>, span: Span, env: Seq<(Vec<char>, Vec<char>)>)
    requires
        env_lookup(env, name) is Some,
    ensures
        eval_spec(seq![Seg::Env(name, span)], env) == Ok::<(Seq<char>, bool), Error>(
            (dash_to_underscore(env_lookup(env, name)->0), false),
        ),
{
    let v = dash_to_underscore(env_lookup(env, name)->0);
    let f = Seq::<Seq<char>>::empty().push(v);
    assert(f.drop_last() =~= Seq::<Seq<char>>::empty());
    assert(concat_all(f) == concat_all(Seq::<Seq<char>>::empty()) + v);
    assert(concat_all(Seq::<Seq<char>>::empty()) + v =~= v);
    let ss = seq![Seg::Env(name, span)];
    assert(seg_step(ss[0], env, Seq::empty(), false) == Ok::<(Seq<Seq<char>>, bool), Error>((f, false)));
    assert(eval_from(ss, env, 1, f, false) == Ok::<(Seq<char>, bool), Error>((concat_all(f), false)));
}

/// Between text segments, `env!("NAME")` contributes exactly the variable's
/// value with every `-` replaced by `_`.
pub proof fn law_env_between_texts(
    a: Seq<Seg>,
    name: Seq<char>,
    span: Span,
    b: Seq<Seg>,
    env: Seq<(Vec<char>, Vec<char>)>,
)
    requires
        forall|k: int| 0 <= k < a.len() ==> #[trigger] a[k] is Text,
        forall|k: int| 0 <= k < b.len() ==> #[trigger] b[k] is Text,
        env_lookup(env, name) is Some,
    ensures
        eval_spec(a + seq![Seg::Env(name, span)] + b, env) == Ok::<(Seq<char>, bool), Error>(
            (concat_all(texts(a).push(dash_to_underscore(env_lookup(env, name)->0)) + texts(b)), false),
        ),
{
    let ss = a + seq![Seg::Env(name, span)] + b;
    let n = a.len() as int;
    let v = dash_to_underscore(env_lookup(env, name)->0);
    assert forall|k: int| 0 <= k < n implies #[trigger] ss[k] is Text by {
        assert(ss[k] == a[k]);
    }
    assert forall|k: int| n + 1 <= k < ss.len() implies #[trigger] ss[k] is Text by {
        assert(ss[k] == b[k - n - 1]);
    }
    lemma_text_run(ss, env, 0, n, Seq::empty(), false);
    lemma_run_split(ss, env, 0, n, Seq::empty(), false);
    assert(Seq::<Seq<char>>::empty() + texts(ss).subrange(0, n) =~= texts(a));
    assert(ss[n] == Seg::Env(name, span));
    lemma_texts_from(ss, env, n + 1, texts(a).push(v));
    assert(texts(ss).subrange(n + 1, ss.len() as int) =~= texts(b));
}

/// An `env!` of an unset variable makes the evaluation fail with a missing
/// variable error, when what stands before it evaluates.
pub proof fn law_unset_env_fails(ss: Seq<Seg>, env: Seq<(Vec<char>, Vec<char>)>, j: int)
    requires
        0 <= j < ss.len(),
        ss[j] is Env,
        env_lookup(env, ss[j]->Env_0) is None,
        eval_spec(ss.take(j), env) is Ok,
    ensures
        eval_spec(ss, env) == Err::<(Seq<char>, bool), Error>(
            Error { kind: ErrorKind::NoSuchEnvVar, span: ss[j]->Env_1 },
        ),
{
    lemma_run_split(ss, env, 0, j, Seq::empty(), false);
}

proof fn lemma_ascii_letter_round_trip(c: char)
    requires
        ('a' <= c <= 'z') || ('A' <= c <= 'Z'),
    ensures
        ascii_lower(ascii_upper(c)) == ascii_lower(c),
        ascii_upper(ascii_lower(c)) == ascii_upper(c),
{
    let u = c as u32;
    if 'a' <= c <= 'z' {
        assert(97 <= u <= 122);
        assert((((u - 32) as u32) as char) as u32 == u - 32);
    } else {
        assert(65 <= u <= 90);
        assert((((u + 32) as u32) as char) as u32 == u + 32);
    }
}

/// On ASCII letters, uppercasing then lowercasing gives the lowercase, and
/// lowercasing then uppercasing gives the uppercase. These maps are what
/// `to_lower` and `to_upper` compute on ASCII text, and their results are
/// ASCII again.
pub proof fn law_ascii_case_round_trip(s: Seq<char>)
    requires
        forall|i: int| 0 <= i < s.len() ==> ('a' <= #[trigger] s[i] <= 'z') || ('A' <= s[i] <= 'Z'),
    ensures
        all_ascii(s),
        all_ascii(s.map_values(|c: char| ascii_upper(c))),
        all_ascii(s.map_values(|c: char| ascii_lower(c))),
        s.map_values(|c: char| ascii_upper(c)).map_values(|c: char| ascii_lower(c)) == s.map_values(
            |c: char| ascii_lower(c),
        ),
        s.map_values(|c: char| ascii_lower(c)).map_values(|c: char| ascii_upper(c)) == s.map_values(
            |c: char| ascii_upper(c),
        ),
{
    assert forall|i: int| 0 <= i < s.len() implies ascii_lower(ascii_upper(s[i])) == ascii_lower(s[i])
        && ascii_upper(ascii_lower(s[i])) == ascii_upper(s[i]) && (ascii_upper(s[i]) as u32) < 128 && (
    ascii_lower(s[i]) as u32) < 128 && (s[i] as u32) < 128 by {
        lemma_ascii_letter_round_trip(s[i]);
        let u = s[i] as u32;
        if 'a' <= s[i] <= 'z' {
            assert((((u - 32) as u32) as char) as u32 == u - 32);
        } else {
            assert((((u + 32) as u32) as char) as u32 == u + 32);
        }
    }
    assert(s.map_values(|c: char| ascii_upper(c)).map_values(|c: char| ascii_lower(c)) =~= s.map_values(
        |c: char| ascii_lower(c),
    ));
    assert(s.map_values(|c: char| ascii_lower(c)).map_values(|c: char| ascii_upper(c)) =~= s.map_values(
        |c: char| ascii_upper(c),
    ));
}

/// The tokens in `lo..hi` have the shape of an attribute whose value gets
/// pasted: `name = v1 v2 ...` with two or more string-like pieces, or
/// `name(...)` with such an argument.
pub open spec fn attr_pastes(ts: Seq<Tree>, lo: int, hi: int) -> bool
    decreases ts, 0int, 0int,
{
    if !(0 <= lo && lo + 1 < hi && hi <= ts.len()) || !(ts[lo] is Ident) {
        false
    } else if is_punct(ts[lo + 1], '=') {
        hi - lo > 3 && all_stringlike(ts, lo + 2, hi)
    } else {
        match ts[lo + 1] {
            Tree::Group(Delimiter::Parenthesis, inner, _) => hi == lo + 2 && args_paste(inner, 0, 0),
            _ => false,
        }
    }
}

/// One of the comma-separated arguments from `start` on has the shape of
/// an attribute whose value gets pasted.
pub open spec fn args_paste(ts: Seq<Tree>, start: int, i: int) -> bool
    decreases ts, 1int, ts.len() - i,
{
    if i < 0 || i >= ts.len() {
        0 <= start < ts.len() && attr_pastes(ts, start, ts.len() as int)
    } else if is_punct(ts[i], ',') {
        attr_pastes(ts, start, i) || args_paste(ts, i + 1, i + 1)
    } else {
        args_paste(ts, start, i + 1)
    }
}

/// An attribute without the shape of a pasted value, whose tokens hold
/// nothing to rewrite, comes back unchanged and is reported unchanged.
pub proof fn law_attr_untouched(
    ts: Seq<Tree>,
    lo: int,
    hi: int,
    span: Span,
    env: Seq<(Vec<char>, Vec<char>)>,
)
    requires
        !attr_pastes(ts, lo, hi),
        untouched_from(ts, lo),
    ensures
        attr_spec(ts, lo, hi, span, env) == Ok::<(Seq<Tree>, bool), Error>((ts.subrange(lo, hi), false)),
    decreases ts, 2int, 0int,
{
    if !(0 <= lo && lo + 1 < hi && hi <= ts.len()) || !(ts[lo] is Ident) {
    } else if is_punct(ts[lo + 1], '=') {
    } else {
        match ts[lo + 1] {
            Tree::Group(Delimiter::Parenthesis, inner, gspan) => {
                if hi == lo + 2 {
                    assert(untouched_from(ts, lo + 1));
                    assert(token_untouched(ts, lo + 1));
                    assert(untouched(inner));
                    lemma_args_untouched(inner, gspan, env, 0, 0);
                }
            },
            _ => {},
        }
    }
}

proof fn lemma_untouched_later(ts: Seq<Tree>, a: int, b: int)
    requires
        0 <= a <= b,
        untouched_from(ts, a),
    ensures
        untouched_from(ts, b),
    decreases b - a,
{
    if a < b && a < ts.len() {
        lemma_untouched_later(ts, a + 1, b);
    }
}

proof fn lemma_args_untouched(
    ts: Seq<Tree>,
    span: Span,
    env: Seq<(Vec<char>, Vec<char>)>,
    start: int,
    i: int,
)
    requires
        0 <= start <= i,
        !args_paste(ts, start, i),
        untouched_from(ts, start),
    ensures
        args_spec(ts, span, env, start, i) matches Ok((_, c)) && !c,
    decreases ts, 3int, ts.len() - i,
{
    if i < 0 || i >= ts.len() {
        if 0 <= start < ts.len() {
            law_attr_untouched(ts, start, ts.len() as int, span, env);
            lemma_range_untouched(ts, start, ts.len() as int, env);
            assert(arg_spec(ts, start, ts.len() as int, span, env) is Ok);
            assert(!arg_spec(ts, start, ts.len() as int, span, env)->Ok_0.1);
        }
    } else if is_punct(ts[i], ',') {
        law_attr_untouched(ts, start, i, span, env);
        lemma_range_untouched(ts, start, i, env);
        assert(arg_spec(ts, start, i, span, env) == Ok::<(Seq<Tree>, bool), Error>((ts.subrange(start, i), false)));
        lemma_untouched_later(ts, start, i + 1);
        lemma_args_untouched(ts, span, env, i + 1, i + 1);
    } else {
        lemma_args_untouched(ts, span, env, start, i + 1);
    }
}

/// No token of the stream, at any depth, is rewritten: no paste region, no
/// attribute value to paste, no invisible group that is opened.
pub open spec fn untouched(ts: Seq<Tree>) -> bool
    decreases ts, ts.len() + 1, 0int,
{
    !attr_pastes(ts, 0, ts.len() as int) && untouched_from(ts, 0)
}

pub open spec fn untouched_from(ts: Seq<Tree>, i: int) -> bool
    decreases ts, ts.len() - i, 1int,
{
    i < 0 || i >= ts.len() || (token_untouched(ts, i) && untouched_from(ts, i + 1))
}

pub open spec fn token_untouched(ts: Seq<Tree>, i: int) -> bool
    decreases ts, ts.len() - i, 0int,
{
    0 <= i < ts.len() && match ts[i] {
        Tree::Group(d, inner, gspan) => !(d == Delimiter::Bracket && region_spec(inner, gspan) is Ok) && !(
        d == Delimiter::Invisible && (is_flat(inner) || in_path(ts, i))) && untouched(inner),
        _ => true,
    }
}

/// A stream with nothing to rewrite comes back equal to itself, and is
/// reported unchanged.
pub proof fn law_identity_without_regions(ts: Seq<Tree>, span: Span, env: Seq<(Vec<char>, Vec<char>)>)
    requires
        untouched(ts),
    ensures
        expand_spec(ts, span, env) == Ok::<(Seq<Tree>, bool), Error>((ts, false)),
    decreases ts, 5int, 0int,
{
    law_attr_untouched(ts, 0, ts.len() as int, span, env);
    lemma_range_untouched(ts, 0, ts.len() as int, env);
    assert(ts.subrange(0, ts.len() as int) =~= ts);
}

proof fn lemma_range_untouched(ts: Seq<Tree>, i: int, hi: int, env: Seq<(Vec<char>, Vec<char>)>)
    requires
        0 <= i <= hi <= ts.len(),
        untouched_from(ts, i),
    ensures
        expand_range(ts, i, hi, env) == Ok::<(Seq<Tree>, bool), Error>((ts.subrange(i, hi), false)),
    decreases ts, 1int, hi - i,
{
    if i < hi {
        lemma_token_untouched(ts, i, env);
        lemma_range_untouched(ts, i + 1, hi, env);
        assert(seq![ts[i]] + ts.subrange(i + 1, hi) =~= ts.subrange(i, hi));
    } else {
        assert(ts.subrange(i, hi) =~= Seq::<Tree>::empty());
    }
}

proof fn lemma_token_untouched(ts: Seq<Tree>, i: int, env: Seq<(Vec<char>, Vec<char>)>)
    requires
        token_untouched(ts, i),
    ensures
        token_spec(ts, i, env) == Ok::<(Seq<Tree>, bool), Error>((seq![ts[i]], false)),
    decreases ts, 0int, 0int,
{
    match ts[i] {
        Tree::Group(d, inner, gspan) => {
            law_identity_without_regions(inner, gspan, env);
        },
        _ => {},
    }
}

/// An invisible group around one identifier, standing just before `::`, is
/// replaced by the identifier.
pub proof fn law_single_ident_before_path_is_opened(
    ts: Seq<Tree>,
    i: int,
    text: Seq<char>,
    span: Span,
    gspan: Span,
    env: Seq<(Vec<char>, Vec<char>)>,
)
    requires
        0 <= i < ts.len(),
        ts[i] == Tree::Group(Delimiter::Invisible, seq![Tree::Ident(text, span)], gspan),
        crate::token::path_sep_at(ts, i + 1),
    ensures
        token_spec(ts, i, env) == Ok::<(Seq<Tree>, bool), Error>((seq![Tree::Ident(text, span)], true)),
{
    let inner = seq![Tree::Ident(text, span)];
    assert(inner[0] is Ident);
    assert(is_flat(inner));
}

/// An invisible group away from any `::`, around tokens that are not one
/// identifier, path, literal or lifetime and that hold nothing to rewrite,
/// is kept as it is.
pub proof fn law_invisible_group_off_path_is_kept(ts: Seq<Tree>, i: int, env: Seq<(Vec<char>, Vec<char>)>)
    requires
        0 <= i < ts.len(),
        ts[i] is Group,
        ts[i]->Group_0 == Delimiter::Invisible,
        !in_path(ts, i),
        !is_flat(ts[i]->Group_1),
        untouched(ts[i]->Group_1),
    ensures
        token_spec(ts, i, env) == Ok::<(Seq<Tree>, bool), Error>((seq![ts[i]], false)),
{
    law_identity_without_regions(ts[i]->Group_1, ts[i]->Group_2, env);
}

/// An invisible group around one identifier at the start of a stream,
/// followed by `::` and by tokens with nothing to rewrite, is replaced by the
/// identifier and the rest comes back as it was.
pub proof fn law_path_head_is_opened(
    ts: Seq<Tree>,
    text: Seq<char>,
    ispan: Span,
    gspan: Span,
    span: Span,
    env: Seq<(Vec<char>, Vec<char>)>,
)
    requires
        ts.len() >= 3,
        ts[0] == Tree::Group(Delimiter::Invisible, seq![Tree::Ident(text, ispan)], gspan),
        crate::token::path_sep_at(ts, 1),
        untouched_from(ts, 1),
    ensures
        expand_spec(ts, span, env) == Ok::<(Seq<Tree>, bool), Error>(
            (seq![Tree::Ident(text, ispan)] + ts.subrange(1, ts.len() as int), true),
        ),
{
    law_single_ident_before_path_is_opened(ts, 0, text, ispan, gspan, env);
    lemma_range_untouched(ts, 1, ts.len() as int, env);
    assert(attr_spec(ts, 0, ts.len() as int, span, env) == Ok::<(Seq<Tree>, bool), Error>(
        (ts.subrange(0, ts.len() as int), false),
    ));
}

proof fn lemma_print_update(ts: Seq<Tree>, i: int, t: Tree, k: int)
    requires
        0 <= i < ts.len(),
        print_tree(ts[i]) == print_tree(t),
        (ts[i] is Punct && ts[i]->Punct_1 == Spacing::Joint) == (t is Punct && t->Punct_1 == Spacing::Joint),
    ensures
        print_from(ts.update(i, t), k) == print_from(ts, k),
    decreases ts.len() - k,
{
    if 0 <= k < ts.len() {
        lemma_print_update(ts, i, t, k + 1);
    }
}

/// Opening an invisible group around one identifier, wherever it stands,
/// leaves the text of the stream as it was.
pub proof fn law_opened_group_prints_the_same(ts: Seq<Tree>, i: int, text: Seq<char>, ispan: Span, gspan: Span)
    requires
        0 <= i < ts.len(),
        ts[i] == Tree::Group(Delimiter::Invisible, seq![Tree::Ident(text, ispan)], gspan),
    ensures
        print_from(ts.update(i, Tree::Ident(text, ispan)), 0) == print_from(ts, 0),
{
    let inner = seq![Tree::Ident(text, ispan)];
    assert(print_from(inner, 1) == Seq::<char>::empty());
    assert(print_tree(inner[0]) == text);
    assert(print_from(inner, 0) == text + Seq::<char>::empty() + Seq::<char>::empty());
    assert(print_from(inner, 0) =~= text);
    assert(print_tree(ts[i]) =~= text);
    lemma_print_update(ts, i, Tree::Ident(text, ispan), 0);
}

} // verus!
