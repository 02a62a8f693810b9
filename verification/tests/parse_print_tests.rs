use attr_meta::attr::{AttrStyle, Attribute, FilterAttrs};
use attr_meta::meta::{Meta, MetaList, MetaNameValue, NestedMeta};
use attr_meta::path::{parse_path, Path};
use attr_meta::token::{Delim, Spacing, Token};

fn ident(s: &str) -> Token {
    Token::Ident(s.to_string())
}

fn lit(s: &str) -> Token {
    Token::Lit(s.to_string())
}

fn pound() -> Token {
    Token::Punct('#', Spacing::Alone)
}

fn bang() -> Token {
    Token::Punct('!', Spacing::Alone)
}

#[test]
fn parse_outer_bracketed() {
    // #[derive(Copy)]
    let tts = vec![
        pound(),
        Token::Group(
            Delim::Bracket,
            vec![ident("derive"), Token::Group(Delim::Paren, vec![ident("Copy")])],
        ),
    ];
    let (a, next) = Attribute::parse_outer(&tts, 0).unwrap();
    assert_eq!(next, 2);
    assert_eq!(a.style, AttrStyle::Outer);
    assert!(!a.is_sugared_doc);
    assert_eq!(a.path.segments, vec!["derive".to_string()]);
    assert_eq!(a.tts, vec![Token::Group(Delim::Paren, vec![ident("Copy")])]);
}

#[test]
fn parse_outer_roundtrip() {
    let tts = vec![
        pound(),
        Token::Group(
            Delim::Bracket,
            vec![
                ident("derive"),
                Token::Group(Delim::Paren, vec![ident("Copy"), Token::Punct(',', Spacing::Alone), ident("Clone")]),
            ],
        ),
    ];
    let (a, _) = Attribute::parse_outer(&tts, 0).unwrap();
    let mut printed: Vec<Token> = Vec::new();
    a.to_tokens(&mut printed);
    assert_eq!(printed, tts);
    let (b, next) = Attribute::parse_outer(&printed, 0).unwrap();
    assert_eq!(b, a);
    assert_eq!(next, printed.len());
}

#[test]
fn parse_inner_bracketed() {
    // #![feature(x)]
    let tts = vec![
        pound(),
        bang(),
        Token::Group(
            Delim::Bracket,
            vec![ident("feature"), Token::Group(Delim::Paren, vec![ident("x")])],
        ),
    ];
    let (a, next) = Attribute::parse_inner(&tts, 0).unwrap();
    assert_eq!(next, 3);
    assert_eq!(a.style, AttrStyle::Inner);
    assert!(!a.is_sugared_doc);
    assert_eq!(a.path.segments, vec!["feature".to_string()]);
}

#[test]
fn parse_inner_roundtrip() {
    let tts = vec![
        pound(),
        bang(),
        Token::Group(Delim::Bracket, vec![ident("no_std")]),
    ];
    let (a, _) = Attribute::parse_inner(&tts, 0).unwrap();
    let mut printed: Vec<Token> = Vec::new();
    a.to_tokens(&mut printed);
    assert_eq!(printed, tts);
    let (b, _) = Attribute::parse_inner(&printed, 0).unwrap();
    assert_eq!(b, a);
}

#[test]
fn outer_line_doc_desugars() {
    // `/// hello` becomes doc = "/// hello" with the entire comment text
    let tts = vec![lit("/// hello")];
    let (a, next) = Attribute::parse_outer(&tts, 0).unwrap();
    assert_eq!(next, 1);
    assert_eq!(a.style, AttrStyle::Outer);
    assert!(a.is_sugared_doc);
    assert_eq!(a.path.segments, vec!["doc".to_string()]);
    assert!(!a.path.leading_colon);
    assert_eq!(
        a.tts,
        vec![Token::Punct('=', Spacing::Alone), lit("\"/// hello\"")]
    );
    // and printing re-emits exactly the comment token
    let mut printed: Vec<Token> = Vec::new();
    a.to_tokens(&mut printed);
    assert_eq!(printed, vec![lit("/// hello")]);
}

#[test]
fn outer_block_doc_desugars_and_roundtrips() {
    let tts = vec![lit("/** block */")];
    let (a, _) = Attribute::parse_outer(&tts, 0).unwrap();
    assert!(a.is_sugared_doc);
    let mut printed: Vec<Token> = Vec::new();
    a.to_tokens(&mut printed);
    assert_eq!(printed, tts);
    let (b, _) = Attribute::parse_outer(&printed, 0).unwrap();
    assert_eq!(b, a);
}

#[test]
fn inner_doc_desugars_and_roundtrips() {
    let tts = vec![lit("//! crate docs")];
    let (a, _) = Attribute::parse_inner(&tts, 0).unwrap();
    assert!(a.is_sugared_doc);
    assert_eq!(a.style, AttrStyle::Inner);
    assert_eq!(
        a.tts,
        vec![Token::Punct('=', Spacing::Alone), lit("\"//! crate docs\"")]
    );
    let mut printed: Vec<Token> = Vec::new();
    a.to_tokens(&mut printed);
    assert_eq!(printed, tts);
    let (b, _) = Attribute::parse_inner(&printed, 0).unwrap();
    assert_eq!(b, a);
}

#[test]
fn inner_doc_is_not_outer() {
    let tts = vec![lit("//! nope")];
    assert_eq!(Attribute::parse_outer(&tts, 0), None);
}

#[test]
fn plain_comment_is_no_annotation() {
    let tts = vec![lit("// nope")];
    assert_eq!(Attribute::parse_outer(&tts, 0), None);
    assert_eq!(Attribute::parse_inner(&tts, 0), None);
}

#[test]
fn parse_outer_requires_bracket_group() {
    let tts = vec![pound(), Token::Group(Delim::Paren, vec![ident("x")])];
    assert_eq!(Attribute::parse_outer(&tts, 0), None);
}

#[test]
fn parse_outer_empty_bracket_fails() {
    let tts = vec![pound(), Token::Group(Delim::Bracket, vec![])];
    assert_eq!(Attribute::parse_outer(&tts, 0), None);
}

#[test]
fn parse_outer_dangling_separator_fails() {
    // #[foo::]
    let tts = vec![
        pound(),
        Token::Group(
            Delim::Bracket,
            vec![
                ident("foo"),
                Token::Punct(':', Spacing::Joint),
                Token::Punct(':', Spacing::Alone),
            ],
        ),
    ];
    assert_eq!(Attribute::parse_outer(&tts, 0), None);
}

#[test]
fn multi_segment_path_roundtrips() {
    // #[foo::bar baz]
    let tts = vec![
        pound(),
        Token::Group(
            Delim::Bracket,
            vec![
                ident("foo"),
                Token::Punct(':', Spacing::Joint),
                Token::Punct(':', Spacing::Alone),
                ident("bar"),
                ident("baz"),
            ],
        ),
    ];
    let (a, _) = Attribute::parse_outer(&tts, 0).unwrap();
    assert_eq!(a.path.segments, vec!["foo".to_string(), "bar".to_string()]);
    assert_eq!(a.tts, vec![ident("baz")]);
    let mut printed: Vec<Token> = Vec::new();
    a.to_tokens(&mut printed);
    assert_eq!(printed, tts);
}

#[test]
fn leading_colon_path_roundtrips() {
    // #[::foo]
    let tts = vec![
        pound(),
        Token::Group(
            Delim::Bracket,
            vec![
                Token::Punct(':', Spacing::Joint),
                Token::Punct(':', Spacing::Alone),
                ident("foo"),
            ],
        ),
    ];
    let (a, _) = Attribute::parse_outer(&tts, 0).unwrap();
    assert!(a.path.leading_colon);
    assert_eq!(a.path.segments, vec!["foo".to_string()]);
    let mut printed: Vec<Token> = Vec::new();
    a.to_tokens(&mut printed);
    assert_eq!(printed, tts);
}

#[test]
fn parse_path_consumes_greedily() {
    let tts = vec![
        ident("a"),
        Token::Punct(':', Spacing::Joint),
        Token::Punct(':', Spacing::Alone),
        ident("b"),
        Token::Punct('=', Spacing::Alone),
        lit("\"v\""),
    ];
    let (p, next) = parse_path(&tts, 0).unwrap();
    assert_eq!(p.segments, vec!["a".to_string(), "b".to_string()]);
    assert_eq!(next, 4);
}

#[test]
fn meta_list_prints_directly() {
    let m = MetaList {
        ident: "derive".to_string(),
        nested: vec![
            NestedMeta::Meta(Meta::Word("Copy".to_string())),
            NestedMeta::Meta(Meta::Word("Clone".to_string())),
        ],
        trailing_comma: false,
    };
    let mut out: Vec<Token> = Vec::new();
    m.to_tokens(&mut out);
    assert_eq!(
        out,
        vec![
            ident("derive"),
            Token::Group(
                Delim::Paren,
                vec![ident("Copy"), Token::Punct(',', Spacing::Alone), ident("Clone")],
            ),
        ]
    );
}

#[test]
fn meta_list_prints_trailing_comma() {
    let m = MetaList {
        ident: "f".to_string(),
        nested: vec![NestedMeta::Literal("1".to_string())],
        trailing_comma: true,
    };
    let mut out: Vec<Token> = Vec::new();
    m.to_tokens(&mut out);
    assert_eq!(
        out,
        vec![
            ident("f"),
            Token::Group(Delim::Paren, vec![lit("1"), Token::Punct(',', Spacing::Alone)]),
        ]
    );
}

#[test]
fn meta_name_value_prints_directly() {
    let m = MetaNameValue { ident: "path".to_string(), lit: "\"x\"".to_string() };
    let mut out: Vec<Token> = Vec::new();
    m.to_tokens(&mut out);
    assert_eq!(out, vec![ident("path"), Token::Punct('=', Spacing::Alone), lit("\"x\"")]);
}

#[test]
fn hand_built_sugared_doc_without_doc_shape_prints_bracketed() {
    // is_sugared_doc set by hand, but the body is not `= <string literal>`:
    // printing must fall back to the bracketed form
    let a = Attribute {
        style: AttrStyle::Outer,
        path: Path { leading_colon: false, segments: vec!["doc".to_string()] },
        tts: vec![ident("x")],
        is_sugared_doc: true,
    };
    let mut printed: Vec<Token> = Vec::new();
    a.to_tokens(&mut printed);
    assert_eq!(
        printed,
        vec![pound(), Token::Group(Delim::Bracket, vec![ident("doc"), ident("x")])]
    );
}

#[test]
fn filter_attrs_by_style() {
    let outer1 = Attribute {
        style: AttrStyle::Outer,
        path: Path { leading_colon: false, segments: vec!["a".to_string()] },
        tts: vec![],
        is_sugared_doc: false,
    };
    let inner1 = Attribute {
        style: AttrStyle::Inner,
        path: Path { leading_colon: false, segments: vec!["b".to_string()] },
        tts: vec![],
        is_sugared_doc: false,
    };
    let outer2 = Attribute {
        style: AttrStyle::Outer,
        path: Path { leading_colon: false, segments: vec!["c".to_string()] },
        tts: vec![],
        is_sugared_doc: false,
    };
    let all = vec![outer1, inner1, outer2];
    let outers = all.outer();
    assert_eq!(outers.len(), 2);
    assert_eq!(outers[0].path.segments, vec!["a".to_string()]);
    assert_eq!(outers[1].path.segments, vec!["c".to_string()]);
    let inners = all.inner();
    assert_eq!(inners.len(), 1);
    assert_eq!(inners[0].path.segments, vec!["b".to_string()]);
}

#[test]
fn parse_at_offset() {
    let tts = vec![
        ident("before"),
        pound(),
        Token::Group(Delim::Bracket, vec![ident("cfg")]),
    ];
    let (a, next) = Attribute::parse_outer(&tts, 1).unwrap();
    assert_eq!(a.path.segments, vec!["cfg".to_string()]);
    assert_eq!(next, 3);
}
