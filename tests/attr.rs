use paste::doc::{do_paste_doc, is_pasted_doc};
use paste::enum_hack::{extract, print_stream, wrap};
use paste::error::ErrorKind;
use paste::segment::Segment;
use paste::token::{Delimiter, Group, Ident, Literal, Punct, Spacing, Span, TokenTree};
use paste::{enum_hack, item_with_macros};

fn chars(s: &str) -> Vec<char> {
    s.chars().collect()
}

fn id(s: &str) -> TokenTree {
    TokenTree::Ident(Ident { text: chars(s), span: Span { id: 1 } })
}

fn lit(s: &str) -> TokenTree {
    TokenTree::Literal(Literal { repr: chars(s), span: Span { id: 2 } })
}

fn p(c: char) -> TokenTree {
    TokenTree::Punct(Punct { ch: c, spacing: Spacing::Alone, span: Span { id: 3 } })
}

fn render(ts: &Vec<TokenTree>) -> String {
    let mut out = Vec::new();
    print_stream(&mut out, ts);
    out.into_iter().collect()
}

fn no_env() -> Vec<(Vec<char>, Vec<char>)> {
    Vec::new()
}

#[test]
fn doc_with_pieces_is_pasted() {
    let attr = vec![id("doc"), p('='), lit("\"Create a \""), id("Foo"), p(':'), id("snake")];
    assert!(is_pasted_doc(&attr));
    let out = do_paste_doc(&attr, Span { id: 7 }, &no_env()).unwrap();
    assert_eq!(render(&out), "doc = \"Create a foo\"");
}

#[test]
fn plain_doc_is_left_alone() {
    let attr = vec![id("doc"), p('='), lit("\" Just text.\"")];
    assert!(!is_pasted_doc(&attr));
    let mut changed = false;
    let out = paste::attr::expand_attr(&attr, Span { id: 7 }, &mut changed, &no_env()).unwrap();
    assert!(!changed);
    assert_eq!(render(&out), render(&attr));
}

#[test]
fn raw_string_piece_is_escaped() {
    let attr = vec![id("doc"), p('='), lit("r\"a\\b\""), id("c")];
    let out = do_paste_doc(&attr, Span { id: 7 }, &no_env()).unwrap();
    assert_eq!(render(&out), "doc = \"a\\\\bc\"");
}

#[test]
fn attribute_arguments_are_pasted_one_by_one() {
    let attr = vec![
        id("cfg"),
        TokenTree::Group(Group {
            delimiter: Delimiter::Parenthesis,
            stream: vec![id("unix"), p(','), id("feature"), p('='), lit("\"a_\""), id("B"), p(':'), id("lower")],
            span: Span { id: 5 },
        }),
    ];
    let mut changed = false;
    let out = paste::attr::expand_attr(&attr, Span { id: 7 }, &mut changed, &no_env()).unwrap();
    assert!(changed);
    assert_eq!(render(&out), "cfg (unix , feature = \"a_b\")");
}

#[test]
fn codec_round_trip() {
    let payload = vec![id("macro_rules"), p('!'), id("m"), TokenTree::Group(Group {
        delimiter: Delimiter::Brace,
        stream: vec![lit("1")],
        span: Span { id: 4 },
    })];
    let text = render(&payload);
    let wrapped = wrap(payload, Span { id: 0 });
    let name = match &wrapped[1] {
        TokenTree::Ident(i) => i.text.iter().collect::<String>(),
        _ => panic!("expected the carrier's name"),
    };
    assert!(name.starts_with("_paste_"));
    assert!(name.len() > "_paste_".len());
    assert!(name["_paste_".len()..].chars().all(|c| c.is_ascii_digit()));
    let back = extract(&wrapped).unwrap();
    assert_eq!(render(&back), text);
}

#[test]
fn carrier_name_depends_on_payload() {
    let a = wrap(vec![id("a")], Span { id: 0 });
    let b = wrap(vec![id("b")], Span { id: 0 });
    let a2 = wrap(vec![id("a")], Span { id: 0 });
    assert_ne!(render(&vec![a[1].copy()]), render(&vec![b[1].copy()]));
    assert_eq!(render(&vec![a[1].copy()]), render(&vec![a2[1].copy()]));
}

#[test]
fn item_with_macros_goes_through_the_hook() {
    let input = vec![id("fn"), TokenTree::Group(Group {
        delimiter: Delimiter::Bracket,
        stream: vec![p('<'), id("x"), id("y"), p('>')],
        span: Span { id: 4 },
    })];
    let out = item_with_macros(&input, &no_env()).unwrap();
    assert!(render(&out).starts_with("# [derive (paste :: EnumHack)] enum _paste_"));
    let back = enum_hack(&out[2..].iter().map(|t| t.copy()).collect()).unwrap();
    assert_eq!(render(&back), "fn xy");
}

#[test]
fn codec_refuses_other_shapes() {
    let e = extract(&vec![id("struct"), id("S"), p(';')]).unwrap_err();
    assert_eq!(e.kind, ErrorKind::CodecMismatch);
}

#[test]
fn ascii_case_round_trip() {
    let region = |modifiers: &[&str]| {
        let mut inner = vec![p('<'), id("MiXeD")];
        for m in modifiers {
            inner.push(p(':'));
            inner.push(id(m));
        }
        inner.push(p('>'));
        let g = TokenTree::Group(Group { delimiter: Delimiter::Bracket, stream: inner, span: Span { id: 4 } });
        render(&paste::item(&vec![g], &no_env()).unwrap())
    };
    assert_eq!(region(&["lower"]), "mixed");
    assert_eq!(region(&["upper"]), "MIXED");
    assert_eq!(region(&["upper", "lower"]), region(&["lower"]));
    assert_eq!(region(&["lower", "upper"]), region(&["upper"]));
}

#[test]
fn text_segments_concatenate() {
    let ss = vec![Segment::Text(chars("ab")), Segment::Text(chars("")), Segment::Text(chars("cd"))];
    let (text, lifetime) = paste::eval::paste_segments(&ss, &no_env()).unwrap();
    assert_eq!(text.iter().collect::<String>(), "abcd");
    assert!(!lifetime);
}
