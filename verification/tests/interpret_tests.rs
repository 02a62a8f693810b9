use attr_meta::attr::{AttrStyle, Attribute};
use attr_meta::meta::{
    list_of_nested_meta_items_from_tokens, nested_meta_item_from_tokens, Meta, MetaList,
    MetaNameValue, NestedMeta,
};
use attr_meta::path::Path;
use attr_meta::token::{Delim, Spacing, Token};

fn ident(s: &str) -> Token {
    Token::Ident(s.to_string())
}

fn lit(s: &str) -> Token {
    Token::Lit(s.to_string())
}

fn comma() -> Token {
    Token::Punct(',', Spacing::Alone)
}

fn bare_path(s: &str) -> Path {
    Path { leading_colon: false, segments: vec![s.to_string()] }
}

fn attr(path: Path, tts: Vec<Token>) -> Attribute {
    Attribute { style: AttrStyle::Outer, path, tts, is_sugared_doc: false }
}

#[test]
fn empty_body_is_word() {
    let a = attr(bare_path("test"), vec![]);
    assert_eq!(a.interpret_meta(), Some(Meta::Word("test".to_string())));
}

#[test]
fn paren_group_is_list() {
    let body = vec![Token::Group(
        Delim::Paren,
        vec![ident("Copy"), comma(), ident("Clone")],
    )];
    let a = attr(bare_path("derive"), body);
    let expected = Meta::List(MetaList {
        ident: "derive".to_string(),
        nested: vec![
            NestedMeta::Meta(Meta::Word("Copy".to_string())),
            NestedMeta::Meta(Meta::Word("Clone".to_string())),
        ],
        trailing_comma: false,
    });
    assert_eq!(a.interpret_meta(), Some(expected));
}

#[test]
fn eq_literal_is_name_value() {
    let body = vec![Token::Punct('=', Spacing::Alone), lit("\"sys/windows.rs\"")];
    let a = attr(bare_path("path"), body);
    let expected = Meta::NameValue(MetaNameValue {
        ident: "path".to_string(),
        lit: "\"sys/windows.rs\"".to_string(),
    });
    assert_eq!(a.interpret_meta(), Some(expected));
}

#[test]
fn nested_list_with_trailing_comma() {
    // foo(bar = 1, baz(qux), "lit",)
    let interior = vec![
        ident("bar"),
        Token::Punct('=', Spacing::Alone),
        lit("1"),
        comma(),
        ident("baz"),
        Token::Group(Delim::Paren, vec![ident("qux")]),
        comma(),
        lit("\"lit\""),
        comma(),
    ];
    let a = attr(bare_path("foo"), vec![Token::Group(Delim::Paren, interior)]);
    let got = a.interpret_meta().unwrap();
    let expected = Meta::List(MetaList {
        ident: "foo".to_string(),
        nested: vec![
            NestedMeta::Meta(Meta::NameValue(MetaNameValue {
                ident: "bar".to_string(),
                lit: "1".to_string(),
            })),
            NestedMeta::Meta(Meta::List(MetaList {
                ident: "baz".to_string(),
                nested: vec![NestedMeta::Meta(Meta::Word("qux".to_string()))],
                trailing_comma: false,
            })),
            NestedMeta::Literal("\"lit\"".to_string()),
        ],
        trailing_comma: true,
    });
    assert_eq!(got, expected);
}

#[test]
fn missing_comma_fails_whole_interpretation() {
    // foo(bar baz): two bare words without a separating comma
    let interior = vec![ident("bar"), ident("baz")];
    let a = attr(bare_path("foo"), vec![Token::Group(Delim::Paren, interior)]);
    assert_eq!(a.interpret_meta(), None);
}

#[test]
fn multi_segment_path_declines() {
    let p = Path {
        leading_colon: false,
        segments: vec!["a".to_string(), "b".to_string()],
    };
    let a = attr(p, vec![]);
    assert_eq!(a.interpret_meta(), None);
}

#[test]
fn unrecognized_body_declines_softly() {
    let a = attr(bare_path("foo"), vec![ident("x"), ident("y"), ident("z")]);
    assert_eq!(a.interpret_meta(), None);
}

#[test]
fn joint_eq_is_not_name_value() {
    let body = vec![Token::Punct('=', Spacing::Joint), lit("\"v\"")];
    let a = attr(bare_path("k"), body);
    assert_eq!(a.interpret_meta(), None);
}

#[test]
fn bracket_group_is_not_list() {
    let body = vec![Token::Group(Delim::Bracket, vec![ident("x")])];
    let a = attr(bare_path("foo"), body);
    assert_eq!(a.interpret_meta(), None);
}

#[test]
fn empty_parens_is_empty_list() {
    let a = attr(bare_path("foo"), vec![Token::Group(Delim::Paren, vec![])]);
    let expected = Meta::List(MetaList {
        ident: "foo".to_string(),
        nested: vec![],
        trailing_comma: false,
    });
    assert_eq!(a.interpret_meta(), Some(expected));
}

#[test]
fn lone_comma_in_parens_declines() {
    let a = attr(bare_path("foo"), vec![Token::Group(Delim::Paren, vec![comma()])]);
    assert_eq!(a.interpret_meta(), None);
}

#[test]
fn nested_item_literal() {
    let tts = vec![lit("42"), comma(), ident("x")];
    let (item, next) = nested_meta_item_from_tokens(&tts, 0).unwrap();
    assert_eq!(item, NestedMeta::Literal("42".to_string()));
    assert_eq!(next, 1);
}

#[test]
fn nested_item_name_value_consumes_three() {
    let tts = vec![ident("k"), Token::Punct('=', Spacing::Alone), lit("\"v\"")];
    let (item, next) = nested_meta_item_from_tokens(&tts, 0).unwrap();
    assert_eq!(
        item,
        NestedMeta::Meta(Meta::NameValue(MetaNameValue {
            ident: "k".to_string(),
            lit: "\"v\"".to_string(),
        }))
    );
    assert_eq!(next, 3);
}

#[test]
fn nested_item_bad_inner_list_fails_hard() {
    // w(a b): the inner grammar fails, so the element fails, with no
    // fallback to a bare word
    let tts = vec![ident("w"), Token::Group(Delim::Paren, vec![ident("a"), ident("b")])];
    assert_eq!(nested_meta_item_from_tokens(&tts, 0), None);
}

#[test]
fn nested_item_other_token_fails() {
    let tts = vec![comma()];
    assert_eq!(nested_meta_item_from_tokens(&tts, 0), None);
}

#[test]
fn list_of_empty_tokens_is_empty() {
    let tts: Vec<Token> = vec![];
    let (items, trailing) = list_of_nested_meta_items_from_tokens(&tts, 0).unwrap();
    assert_eq!(items, vec![]);
    assert!(!trailing);
}

#[test]
fn list_requires_comma_between_elements() {
    let tts = vec![ident("a"), ident("b")];
    assert_eq!(list_of_nested_meta_items_from_tokens(&tts, 0), None);
}

#[test]
fn meta_name_of_each_shape() {
    assert_eq!(Meta::Word("test".to_string()).name(), "test");
    let l = Meta::List(MetaList {
        ident: "derive".to_string(),
        nested: vec![],
        trailing_comma: false,
    });
    assert_eq!(l.name(), "derive");
    let nv = Meta::NameValue(MetaNameValue {
        ident: "path".to_string(),
        lit: "\"x\"".to_string(),
    });
    assert_eq!(nv.name(), "path");
}
