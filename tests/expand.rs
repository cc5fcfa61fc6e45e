use paste::enum_hack::print_stream;
use paste::error::ErrorKind;
use paste::token::{Delimiter, Group, Ident, Literal, Punct, Spacing, Span, TokenTree};
use paste::{expr, item};

fn chars(s: &str) -> Vec<char> {
    s.chars().collect()
}

fn sp(id: u64) -> Span {
    Span { id }
}

fn id(s: &str) -> TokenTree {
    TokenTree::Ident(Ident { text: chars(s), span: sp(1) })
}

fn lit(s: &str) -> TokenTree {
    TokenTree::Literal(Literal { repr: chars(s), span: sp(2) })
}

fn p(c: char) -> TokenTree {
    TokenTree::Punct(Punct { ch: c, spacing: Spacing::Alone, span: sp(3) })
}

fn pj(c: char) -> TokenTree {
    TokenTree::Punct(Punct { ch: c, spacing: Spacing::Joint, span: sp(3) })
}

fn grp(d: Delimiter, stream: Vec<TokenTree>) -> TokenTree {
    TokenTree::Group(Group { delimiter: d, stream, span: sp(4) })
}

fn region(mut inner: Vec<TokenTree>) -> TokenTree {
    let mut v = vec![p('<')];
    v.append(&mut inner);
    v.push(p('>'));
    grp(Delimiter::Bracket, v)
}

fn render(ts: &Vec<TokenTree>) -> String {
    let mut out = Vec::new();
    print_stream(&mut out, ts);
    out.into_iter().collect()
}

fn no_env() -> Vec<(Vec<char>, Vec<char>)> {
    Vec::new()
}

fn pkg_env() -> Vec<(Vec<char>, Vec<char>)> {
    vec![(chars("CARGO_PKG_NAME"), chars("paste"))]
}

fn expand_text(input: Vec<TokenTree>, env: &Vec<(Vec<char>, Vec<char>)>) -> String {
    render(&item(&input, env).unwrap())
}

fn pasted(inner: Vec<TokenTree>) -> String {
    expand_text(vec![region(inner)], &no_env())
}

#[test]
fn test_test() {
    // `impl Struct { fn [<a b c>]() {} }`
    let input = vec![
        id("impl"),
        id("Struct"),
        grp(
            Delimiter::Brace,
            vec![id("fn"), region(vec![id("a"), id("b"), id("c")]), grp(Delimiter::Parenthesis, vec![]), grp(Delimiter::Brace, vec![])],
        ),
    ];
    assert_eq!(expand_text(input, &no_env()), "impl Struct {fn abc () {}}");
    // `fn [<a b c>]() {}` on its own
    let input = vec![id("fn"), region(vec![id("a"), id("b"), id("c")]), grp(Delimiter::Parenthesis, vec![]), grp(Delimiter::Brace, vec![])];
    assert_eq!(expand_text(input, &no_env()), "fn abc () {}");
    // `stringify!($id)` where `$id` arrives wrapped in an invisible group
    let input = vec![
        id("stringify"),
        p('!'),
        grp(Delimiter::Parenthesis, vec![grp(Delimiter::Invisible, vec![id("i32x4")])]),
    ];
    assert_eq!(expand_text(input, &no_env()), "stringify ! (i32x4)");
}

#[test]
fn test_shared_hygiene() {
    assert_eq!(pasted(vec![id("a"), id("a")]), "aa");
}

#[test]
fn test_repeat() {
    let input = vec![
        id("vec"),
        p('!'),
        grp(
            Delimiter::Bracket,
            vec![region(vec![id("ROCKET_"), id("A")]), p(','), region(vec![id("ROCKET_"), id("B")])],
        ),
    ];
    assert_eq!(expand_text(input, &no_env()), "vec ! [ROCKET_A , ROCKET_B]");
}

#[test]
fn test_integer() {
    assert_eq!(pasted(vec![id("CONST"), lit("0")]), "CONST0");
}

#[test]
fn test_underscore() {
    assert_eq!(pasted(vec![id("A"), id("_"), id("B")]), "A_B");
    assert_eq!(pasted(vec![id("A"), p('_'), id("B")]), "A_B");
}

#[test]
fn test_lifetime() {
    let out = item(&vec![region(vec![p('\''), id("d"), id("e")])], &no_env()).unwrap();
    assert_eq!(out.len(), 2);
    match &out[0] {
        TokenTree::Punct(q) => {
            assert_eq!(q.ch, '\'');
            assert_eq!(q.spacing, Spacing::Joint);
        }
        _ => panic!("expected an apostrophe"),
    }
    assert_eq!(render(&out), "'de");
}

#[test]
fn test_keyword() {
    assert_eq!(pasted(vec![id("F"), id("move")]), "Fmove");
}

#[test]
fn test_literal_str() {
    assert_eq!(pasted(vec![id("Foo"), lit("\"Bar-Baz\"")]), "FooBar_Baz");
}

#[test]
fn test_env_literal() {
    assert_eq!(pasted(vec![id("Lib"), id("env"), id("bar")]), "Libenvbar");
}

#[test]
fn test_env_present() {
    let input = vec![region(vec![
        id("Lib"),
        id("env"),
        p('!'),
        grp(Delimiter::Parenthesis, vec![lit("\"CARGO_PKG_NAME\"")]),
    ])];
    assert_eq!(expand_text(input, &pkg_env()), "Libpaste");
}

#[test]
fn test_raw_identifier() {
    assert_eq!(pasted(vec![id("F"), id("r#move")]), "Fmove");
}

#[test]
fn test_false_start() {
    // `[<S as Trait>::f()]` is an array expression, not a region.
    let input = vec![grp(
        Delimiter::Bracket,
        vec![p('<'), id("S"), id("as"), id("Trait"), p('>'), pj(':'), p(':'), id("f"), grp(Delimiter::Parenthesis, vec![])],
    )];
    let before = render(&input);
    let (out, changed) = paste::expand::expand(&input, sp(0), &no_env()).unwrap();
    assert!(!changed);
    assert_eq!(render(&out), before);
}

#[test]
fn test_local_variable() {
    assert_eq!(pasted(vec![id("y"), id("y")]), "yy");
}

#[test]
fn test_to_lower() {
    assert_eq!(pasted(vec![id("my_"), id("Test"), p(':'), id("lower"), id("_here")]), "my_test_here");
    assert_eq!(pasted(vec![id("Test"), p(':'), id("lower")]), "test");
}

#[test]
fn test_env_to_lower() {
    let input = vec![region(vec![
        id("Lib"),
        id("env"),
        p('!'),
        grp(Delimiter::Parenthesis, vec![lit("\"CARGO_PKG_NAME\"")]),
        p(':'),
        id("lower"),
    ])];
    assert_eq!(expand_text(input, &pkg_env()), "Libpaste");
}

#[test]
fn test_to_upper() {
    assert_eq!(pasted(vec![id("MY_"), id("Test"), p(':'), id("upper"), id("_HERE")]), "MY_TEST_HERE");
    assert_eq!(pasted(vec![id("Test"), p(':'), id("upper")]), "TEST");
}

#[test]
fn test_env_to_upper() {
    let input = vec![region(vec![
        id("LIB"),
        id("env"),
        p('!'),
        grp(Delimiter::Parenthesis, vec![lit("\"CARGO_PKG_NAME\"")]),
        p(':'),
        id("upper"),
    ])];
    assert_eq!(expand_text(input, &pkg_env()), "LIBPASTE");
}

#[test]
fn test_paste_cfg() {
    // `#[cfg(any(feature = "protocol_feature_" $ret:snake, target_pointer_width = "" $width))]`
    // with `$ret` = `Paste` and `$width` = `64`, an expression wrapped in an invisible group.
    let args = vec![
        id("feature"),
        p('='),
        lit("\"protocol_feature_\""),
        id("Paste"),
        p(':'),
        id("snake"),
        p(','),
        id("target_pointer_width"),
        p('='),
        lit("\"\""),
        grp(Delimiter::Invisible, vec![lit("64")]),
    ];
    let input = vec![
        p('#'),
        grp(Delimiter::Bracket, vec![id("cfg"), grp(Delimiter::Parenthesis, vec![id("any"), grp(Delimiter::Parenthesis, args)])]),
        id("fn"),
        id("new"),
    ];
    assert_eq!(
        expand_text(input, &no_env()),
        "# [cfg (any (feature = \"protocol_feature_paste\" , target_pointer_width = \"64\"))] fn new"
    );
}

#[test]
fn expr_wraps_in_a_block() {
    let out = expr(&vec![region(vec![id("a"), id("b")]), p('.'), id("len")], &no_env()).unwrap();
    assert_eq!(render(&out), "{ab . len}");
}

#[test]
fn identity_on_ordinary_code() {
    let input = vec![
        id("let"),
        id("x"),
        p('='),
        grp(Delimiter::Bracket, vec![lit("1"), p(','), lit("2")]),
        p(';'),
        grp(Delimiter::Invisible, vec![id("a"), p('+'), id("b")]),
    ];
    let before = render(&input);
    let (out, changed) = paste::expand::expand(&input, sp(0), &no_env()).unwrap();
    assert!(!changed);
    assert_eq!(render(&out), before);
}

#[test]
fn invisible_ident_before_path_is_opened() {
    let input = vec![grp(Delimiter::Invisible, vec![id("Vec")]), pj(':'), p(':'), id("new")];
    let (out, changed) = paste::expand::expand(&input, sp(0), &no_env()).unwrap();
    assert!(changed);
    assert_eq!(out.len(), 4);
    assert_eq!(render(&out), "Vec :: new");
}

#[test]
fn invisible_group_off_path_is_kept() {
    let input = vec![id("f"), grp(Delimiter::Invisible, vec![id("a"), p('+'), id("b")]), p(';')];
    let (out, changed) = paste::expand::expand(&input, sp(0), &no_env()).unwrap();
    assert!(!changed);
    assert_eq!(out.len(), 3);
    assert!(matches!(&out[1], TokenTree::Group(g) if g.delimiter == Delimiter::Invisible && g.stream.len() == 3));
}

#[test]
fn invisible_group_after_path_is_flattened() {
    let input = vec![id("a"), pj(':'), p(':'), grp(Delimiter::Invisible, vec![id("b"), p('<'), id("T"), p('>')])];
    let (out, changed) = paste::expand::expand(&input, sp(0), &no_env()).unwrap();
    assert!(changed);
    assert_eq!(out.len(), 7);
}

#[test]
fn snake_modifier() {
    assert_eq!(pasted(vec![id("FooBar"), p(':'), id("snake")]), "foo_bar");
    assert_eq!(pasted(vec![id("Test"), p(':'), id("snake")]), "test");
}

#[test]
fn camel_modifier() {
    assert_eq!(pasted(vec![id("my_test"), p(':'), id("camel")]), "MyTest");
    assert_eq!(pasted(vec![id("FOO_BAR"), p(':'), id("camel")]), "FooBar");
}

#[test]
fn duplicate_lifetime_fails() {
    let e = item(&vec![region(vec![p('\''), id("a"), p('\'')])], &no_env()).unwrap_err();
    assert_eq!(e.kind, ErrorKind::UnexpectedLifetime);
}

#[test]
fn leading_modifier_fails() {
    let e = item(&vec![region(vec![p(':'), id("lower"), id("a")])], &no_env()).unwrap_err();
    assert_eq!(e.kind, ErrorKind::UnexpectedModifier);
}

#[test]
fn unknown_modifier_fails() {
    let e = item(&vec![region(vec![id("a"), p(':'), id("shout")])], &no_env()).unwrap_err();
    assert_eq!(e.kind, ErrorKind::UnsupportedModifier);
}

#[test]
fn unset_env_fails() {
    let input = vec![region(vec![id("env"), p('!'), grp(Delimiter::Parenthesis, vec![lit("\"NOT_SET_HERE\"")])])];
    let e = item(&input, &pkg_env()).unwrap_err();
    assert_eq!(e.kind, ErrorKind::NoSuchEnvVar);
}

#[test]
fn env_value_dashes_become_underscores() {
    let env = vec![(chars("NAME"), chars("my-crate"))];
    let input = vec![region(vec![id("env"), p('!'), grp(Delimiter::Parenthesis, vec![lit("\"NAME\"")])])];
    assert_eq!(expand_text(input, &env), "my_crate");
}

#[test]
fn unsupported_literal_is_not_a_region() {
    // a float cannot be pasted, so the bracket is left alone
    let input = vec![region(vec![id("a"), lit("1.5")])];
    let before = render(&input);
    assert_eq!(expand_text(input, &no_env()), before);
}

#[test]
fn region_errors_are_reported_by_the_parser() {
    let ts = vec![p('<'), id("a"), lit("b'x'"), p('>')];
    let e = paste::expand::parse_bracket_as_segments(&ts, sp(9)).unwrap_err();
    assert_eq!(e.kind, ErrorKind::UnsupportedLiteral);
    let ts = vec![p('<'), id("a"), p('>'), id("b")];
    let e = paste::expand::parse_bracket_as_segments(&ts, sp(9)).unwrap_err();
    assert_eq!(e.kind, ErrorKind::InvalidInput);
    assert!(!paste::expand::is_paste_operation(&ts));
    assert!(paste::expand::is_paste_operation(&vec![p('<'), id("a"), p('>')]));
}

#[test]
fn c_string_literal_is_unsupported() {
    let ts = vec![p('<'), id("a"), lit("c\"x\""), p('>')];
    let e = paste::expand::parse_bracket_as_segments(&ts, sp(9)).unwrap_err();
    assert_eq!(e.kind, ErrorKind::UnsupportedLiteral);
    let input = vec![region(vec![id("a"), lit("c\"x\"")])];
    let before = render(&input);
    assert_eq!(expand_text(input, &no_env()), before);
}

#[test]
fn regions_beside_a_pasted_attribute_argument_are_expanded() {
    // `k(a = b c, [<x y>])`
    let args = vec![id("a"), p('='), id("b"), id("c"), p(','), region(vec![id("x"), id("y")])];
    let input = vec![id("k"), grp(Delimiter::Parenthesis, args)];
    assert_eq!(expand_text(input, &no_env()), "k (a = \"bc\" , xy)");
}

#[test]
fn invisible_path_group_is_kept_off_path() {
    let input = vec![id("f"), grp(Delimiter::Invisible, vec![id("a"), pj(':'), p(':'), id("b")]), p(';')];
    let (out, changed) = paste::expand::expand(&input, sp(0), &no_env()).unwrap();
    assert!(!changed);
    assert_eq!(out.len(), 3);
    assert!(matches!(&out[1], TokenTree::Group(g) if g.delimiter == Delimiter::Invisible && g.stream.len() == 4));
    assert!(!paste::expand::is_none_delimited_flat_group(Delimiter::Invisible, &vec![id("a"), pj(':'), p(':'), id("b")]));
}

#[test]
fn invisible_path_group_before_path_is_opened() {
    let input = vec![grp(Delimiter::Invisible, vec![id("a"), pj(':'), p(':'), id("b")]), pj(':'), p(':'), id("c")];
    let (out, changed) = paste::expand::expand(&input, sp(0), &no_env()).unwrap();
    assert!(changed);
    assert_eq!(out.len(), 7);
}

#[test]
fn attribute_shaped_value_that_does_not_parse_is_an_error() {
    // `doc = a :`
    let e = item(&vec![id("doc"), p('='), id("a"), p(':')], &no_env()).unwrap_err();
    assert_eq!(e.kind, ErrorKind::ExpectedIdentAfterColon);
}

#[test]
fn region_inside_a_would_be_value_is_pasted_in_place() {
    // `x = [<a b>] c`: a bracket group is not string-like, so this is no attribute value
    let input = vec![id("x"), p('='), region(vec![id("a"), id("b")]), id("c")];
    assert_eq!(expand_text(input, &no_env()), "x = ab c");
}

#[test]
fn attribute_value_dashes_become_underscores() {
    let input = vec![id("doc"), p('='), lit("\"a-b\""), id("c")];
    assert_eq!(expand_text(input, &no_env()), "doc = \"a_bc\"");
}

#[test]
fn error_messages() {
    let e = item(&vec![region(vec![p('\''), id("a"), p('\'')])], &no_env()).unwrap_err();
    assert_eq!(e.message(), "unexpected lifetime");
    let e = item(&vec![region(vec![id("a"), p(':'), id("shout")])], &no_env()).unwrap_err();
    assert_eq!(e.message(), "unsupported modifier");
}

#[test]
fn env_between_texts() {
    let env = vec![(chars("NAME"), chars("my-crate"))];
    let input = vec![region(vec![
        id("pre_"),
        id("env"),
        p('!'),
        grp(Delimiter::Parenthesis, vec![lit("\"NAME\"")]),
        id("_post"),
    ])];
    assert_eq!(expand_text(input, &env), "pre_my_crate_post");
}
