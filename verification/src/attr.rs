//! Annotations ("attributes"): the raw annotation value, its parser from a
//! token stream, the on-demand interpreter into a structured meta shape,
//! the printer back to tokens, and style filtering.
//!
//! An outer annotation is `#` followed by a bracketed path-and-body; an
//! inner one has a `!` between the `#` and the bracket. A literal token
//! whose text begins with a doc-comment prefix is desugared into a
//! `doc = "..."` annotation whose string literal holds the entire comment
//! text, and printing such an annotation resugars it to the original
//! comment token.

use vstd::prelude::*;
use crate::token::{
    Delim, Spacing, Token, TokenV, toks_view, tok_view, lemma_toks_view_elems, lemma_toks_view_push,
    dup_tokens,
};
use crate::path::{Path, PathV, spec_parse_path, spec_print_path, parse_path, print_path};
use crate::meta::{
    Meta, MetaV, MetaList, MetaNameValue, spec_interpret, list_of_nested_meta_items_from_tokens,
};
use crate::lit::{
    quote_text, lit_value, outer_doc_text, inner_doc_text, quote_string, str_lit_value,
    starts_outer_doc, starts_inner_doc,
};

verus! {

/// Whether an annotation decorates the item that follows it (`Outer`) or
/// the container that encloses it (`Inner`).
#[derive(Clone, Copy, PartialEq, Eq, Hash, Debug, Structural)]
pub enum AttrStyle {
    Outer,
    Inner,
}

/// A raw annotation: style, path, the body tokens after the path, and
/// whether it came from doc-comment sugar.
#[derive(PartialEq, Eq, Hash, Debug)]
pub struct Attribute {
    pub style: AttrStyle,
    pub path: Path,
    pub tts: Vec<Token>,
    pub is_sugared_doc: bool,
}

/// Spec-level annotation value.
#[verifier::ext_equal]
pub struct AttributeV {
    pub style: AttrStyle,
    pub path: PathV,
    pub tts: Seq<TokenV>,
    pub is_sugared_doc: bool,
}

impl View for Attribute {
    type V = AttributeV;

    open spec fn view(&self) -> AttributeV {
        AttributeV {
            style: self.style,
            path: self.path@,
            tts: toks_view(self.tts@),
            is_sugared_doc: self.is_sugared_doc,
        }
    }
}

/// The path of a desugared doc comment: the bare name `doc`.
pub open spec fn doc_path() -> PathV {
    PathV { leading_colon: false, segments: seq!["doc"@] }
}

/// The body of a desugared doc comment: `=` and a string literal holding
/// the entire comment text.
pub open spec fn doc_body(text: Seq<char>) -> Seq<TokenV> {
    seq![TokenV::Punct('=', Spacing::Alone), TokenV::Lit(quote_text(text))]
}

/// Whether `#` followed by a bracket group stands at `pos` (the outer
/// annotation shape). The `#` is accepted with either spacing.
pub open spec fn outer_shape_at(tts: Seq<TokenV>, pos: int) -> bool {
    &&& 0 <= pos
    &&& pos + 2 <= tts.len()
    &&& tts[pos] is Punct && tts[pos]->Punct_0 == '#'
    &&& tts[pos + 1] is Group && tts[pos + 1]->Group_0 == Delim::Bracket
}

/// Whether `#`, `!` and a bracket group stand at `pos` (the inner shape).
pub open spec fn inner_shape_at(tts: Seq<TokenV>, pos: int) -> bool {
    &&& 0 <= pos
    &&& pos + 3 <= tts.len()
    &&& tts[pos] is Punct && tts[pos]->Punct_0 == '#'
    &&& tts[pos + 1] is Punct && tts[pos + 1]->Punct_0 == '!'
    &&& tts[pos + 2] is Group && tts[pos + 2]->Group_0 == Delim::Bracket
}

/// Parses an outer annotation at `pos`: first the bracketed alternative,
/// then the doc-comment alternative; `None` where both fail.
pub open spec fn spec_parse_outer(tts: Seq<TokenV>, pos: int) -> Option<(AttributeV, int)> {
    if outer_shape_at(tts, pos) {
        let inner = tts[pos + 1]->Group_1;
        match spec_parse_path(inner, 0) {
            Some((p, q)) => Some(
                (
                    AttributeV {
                        style: AttrStyle::Outer,
                        path: p,
                        tts: inner.skip(q),
                        is_sugared_doc: false,
                    },
                    pos + 2,
                ),
            ),
            None => None,
        }
    } else if 0 <= pos < tts.len() && tts[pos] is Lit && outer_doc_text(tts[pos]->Lit_0) {
        let text = tts[pos]->Lit_0;
        Some(
            (
                AttributeV {
                    style: AttrStyle::Outer,
                    path: doc_path(),
                    tts: doc_body(text),
                    is_sugared_doc: true,
                },
                pos + 1,
            ),
        )
    } else {
        None
    }
}

/// Parses an inner annotation at `pos`, as `spec_parse_outer` does for the
/// inner shape and the inner doc prefixes.
pub open spec fn spec_parse_inner(tts: Seq<TokenV>, pos: int) -> Option<(AttributeV, int)> {
    if inner_shape_at(tts, pos) {
        let inner = tts[pos + 2]->Group_1;
        match spec_parse_path(inner, 0) {
            Some((p, q)) => Some(
                (
                    AttributeV {
                        style: AttrStyle::Inner,
                        path: p,
                        tts: inner.skip(q),
                        is_sugared_doc: false,
                    },
                    pos + 3,
                ),
            ),
            None => None,
        }
    } else if 0 <= pos < tts.len() && tts[pos] is Lit && inner_doc_text(tts[pos]->Lit_0) {
        let text = tts[pos]->Lit_0;
        Some(
            (
                AttributeV {
                    style: AttrStyle::Inner,
                    path: doc_path(),
                    tts: doc_body(text),
                    is_sugared_doc: true,
                },
                pos + 1,
            ),
        )
    } else {
        None
    }
}

/// Whether printing resugars: the annotation came from doc sugar and
/// interprets as `doc = <string literal>`.
pub open spec fn resugar_cond(a: AttributeV) -> bool {
    a.is_sugared_doc && match spec_interpret(a.path, a.tts) {
        Some(MetaV::NameValue { ident, lit }) => ident == "doc"@ && lit_value(lit) is Some,
        _ => false,
    }
}

/// The tokens of an annotation: the resugared doc-comment literal where
/// `resugar_cond` holds, else `#`, `!` for the inner style, and the
/// bracketed path and body verbatim.
pub open spec fn spec_print_attr(a: AttributeV) -> Seq<TokenV> {
    if resugar_cond(a) {
        let lit = spec_interpret(a.path, a.tts)->Some_0->NameValue_lit;
        seq![TokenV::Lit(lit_value(lit)->Some_0)]
    } else {
        seq![TokenV::Punct('#', Spacing::Alone)] + (if a.style is Inner {
            seq![TokenV::Punct('!', Spacing::Alone)]
        } else {
            Seq::empty()
        }) + seq![TokenV::Group(Delim::Bracket, spec_print_path(a.path) + a.tts)]
    }
}

/// Which doc-comment style `lit_doc_comment` looks for.
pub enum Comment {
    Inner,
    Outer,
}

/// Recognizes a doc-comment literal of the given style at `pos` and
/// returns the string-literal token holding the entire comment text.
pub fn lit_doc_comment(tts: &Vec<Token>, pos: usize, style: Comment) -> (r: Option<Token>)
    ensures
        ({
            let vt = toks_view(tts@);
            let want = (pos as int) < vt.len() && vt[pos as int] is Lit && (match style {
                Comment::Outer => outer_doc_text(vt[pos as int]->Lit_0),
                Comment::Inner => inner_doc_text(vt[pos as int]->Lit_0),
            });
            match r {
                Some(t) => want && tok_view(t) == TokenV::Lit(
                    quote_text(vt[pos as int]->Lit_0),
                ),
                None => !want,
            }
        }),
{
    proof {
        lemma_toks_view_elems(tts@);
    }
    if pos >= tts.len() {
        return None;
    }
    match &tts[pos] {
        Token::Lit(text) => {
            let ok = match style {
                Comment::Outer => starts_outer_doc(text.as_str()),
                Comment::Inner => starts_inner_doc(text.as_str()),
            };
            if ok {
                Some(Token::Lit(quote_string(text.as_str())))
            } else {
                None
            }
        },
        _ => None,
    }
}

impl Attribute {
    /// Parses the tokens after the path as a structured meta shape if
    /// possible. This never fails with an error: an annotation whose body
    /// has no recognized shape yields `None`.
    pub fn interpret_meta(&self) -> (r: Option<Meta>)
        ensures
            ({
                let s = spec_interpret(self.path@, toks_view(self.tts@));
                match r {
                    Some(m) => s == Some(m@),
                    None => s is None,
                }
            }),
    {
        proof {
            lemma_toks_view_elems(self.tts@);
        }
        let ghost bodyv = toks_view(self.tts@);
        if self.path.segments.len() != 1 {
            return None;
        }
        let name = &self.path.segments[0];
        proof {
            assert(self.path@.segments[0] == name@);
        }
        if self.tts.len() == 0 {
            return Some(Meta::Word(name.clone()));
        }
        if self.tts.len() == 1 {
            match &self.tts[0] {
                Token::Group(d, inner) => {
                    if *d == Delim::Paren {
                        match list_of_nested_meta_items_from_tokens(inner, 0) {
                            Some((items, tr)) => {
                                return Some(
                                    Meta::List(
                                        MetaList {
                                            ident: name.clone(),
                                            nested: items,
                                            trailing_comma: tr,
                                        },
                                    ),
                                );
                            },
                            None => {},
                        }
                    }
                },
                _ => {},
            }
        }
        if self.tts.len() == 2 {
            let eq_first = match &self.tts[0] {
                Token::Punct(c, sp) => *c == '=' && *sp == Spacing::Alone,
                _ => false,
            };
            if eq_first {
                match &self.tts[1] {
                    Token::Lit(l) => {
                        return Some(
                            Meta::NameValue(
                                MetaNameValue { ident: name.clone(), lit: l.clone() },
                            ),
                        );
                    },
                    _ => {},
                }
            }
        }
        None
    }

    /// Parses an outer annotation at `pos`: `# [ path body ]`, or an outer
    /// doc comment, which is desugared. Returns the annotation and the
    /// position after it; `None` is a hard parse failure.
    pub fn parse_outer(tts: &Vec<Token>, pos: usize) -> (r: Option<(Attribute, usize)>)
        ensures
            ({
                let s = spec_parse_outer(toks_view(tts@), pos as int);
                match r {
                    Some((a, q)) => s == Some::<(AttributeV, int)>((a@, q as int)) && q
                        <= tts@.len(),
                    None => s is None,
                }
            }),
    {
        proof {
            lemma_toks_view_elems(tts@);
        }
        let ghost vt = toks_view(tts@);
        let n = tts.len();
        let pound_at = pos < n && (match &tts[pos] {
            Token::Punct(c, _) => *c == '#',
            _ => false,
        });
        if pound_at && n - pos >= 2 {
            match &tts[pos + 1] {
                Token::Group(d, inner) => {
                    if *d == Delim::Bracket {
                        proof {
                            assert(outer_shape_at(vt, pos as int));
                            assert(vt[pos as int + 1]->Group_1 == toks_view(inner@));
                        }
                        match parse_path(inner, 0) {
                            Some((p, q)) => {
                                let body = dup_tokens(inner, q, inner.len());
                                proof {
                                    lemma_toks_view_elems(inner@);
                                    crate::token::lemma_toks_view_subrange(
                                        inner@,
                                        q as int,
                                        inner@.len() as int,
                                    );
                                    assert(toks_view(inner@).skip(q as int) =~= toks_view(
                                        inner@,
                                    ).subrange(q as int, inner@.len() as int));
                                    assert(toks_view(body@) == toks_view(inner@).skip(q as int));
                                }
                                let a = Attribute {
                                    style: AttrStyle::Outer,
                                    path: p,
                                    tts: body,
                                    is_sugared_doc: false,
                                };
                                proof {
                                    assert(a@ =~= spec_parse_outer(vt, pos as int)->Some_0.0);
                                }
                                return Some((a, pos + 2));
                            },
                            None => {
                                return None;
                            },
                        }
                    }
                },
                _ => {},
            }
        }
        proof {
            assert(!outer_shape_at(vt, pos as int));
        }
        match lit_doc_comment(tts, pos, Comment::Outer) {
            Some(t) => {
                let mut segs: Vec<String> = Vec::new();
                segs.push(String::from_str("doc"));
                let path = Path { leading_colon: false, segments: segs };
                let mut body: Vec<Token> = Vec::new();
                body.push(Token::Punct('=', Spacing::Alone));
                body.push(t);
                let a = Attribute {
                    style: AttrStyle::Outer,
                    path,
                    tts: body,
                    is_sugared_doc: true,
                };
                proof {
                    assert(a.path@.segments =~= seq!["doc"@]);
                    assert(a.path@ =~= doc_path());
                    lemma_toks_view_push(Seq::<Token>::empty(), Token::Punct('=', Spacing::Alone));
                    assert(toks_view(Seq::<Token>::empty()) == Seq::<TokenV>::empty());
                    lemma_toks_view_push(
                        Seq::<Token>::empty().push(Token::Punct('=', Spacing::Alone)),
                        a.tts@[1],
                    );
                    assert(a@.tts =~= doc_body(vt[pos as int]->Lit_0));
                    assert(a@ =~= spec_parse_outer(vt, pos as int)->Some_0.0);
                }
                Some((a, pos + 1))
            },
            None => None,
        }
    }

    /// Parses an inner annotation at `pos`: `# ! [ path body ]`, or an
    /// inner doc comment, which is desugared.
    pub fn parse_inner(tts: &Vec<Token>, pos: usize) -> (r: Option<(Attribute, usize)>)
        ensures
            ({
                let s = spec_parse_inner(toks_view(tts@), pos as int);
                match r {
                    Some((a, q)) => s == Some::<(AttributeV, int)>((a@, q as int)) && q
                        <= tts@.len(),
                    None => s is None,
                }
            }),
    {
        proof {
            lemma_toks_view_elems(tts@);
        }
        let ghost vt = toks_view(tts@);
        let n = tts.len();
        let pound_at = pos < n && (match &tts[pos] {
            Token::Punct(c, _) => *c == '#',
            _ => false,
        });
        let bang_at = pound_at && n - pos >= 2 && (match &tts[pos + 1] {
            Token::Punct(c, _) => *c == '!',
            _ => false,
        });
        if bang_at && n - pos >= 3 {
            match &tts[pos + 2] {
                Token::Group(d, inner) => {
                    if *d == Delim::Bracket {
                        proof {
                            assert(inner_shape_at(vt, pos as int));
                            assert(vt[pos as int + 2]->Group_1 == toks_view(inner@));
                        }
                        match parse_path(inner, 0) {
                            Some((p, q)) => {
                                let body = dup_tokens(inner, q, inner.len());
                                proof {
                                    lemma_toks_view_elems(inner@);
                                    crate::token::lemma_toks_view_subrange(
                                        inner@,
                                        q as int,
                                        inner@.len() as int,
                                    );
                                    assert(toks_view(inner@).skip(q as int) =~= toks_view(
                                        inner@,
                                    ).subrange(q as int, inner@.len() as int));
                                    assert(toks_view(body@) == toks_view(inner@).skip(q as int));
                                }
                                let a = Attribute {
                                    style: AttrStyle::Inner,
                                    path: p,
                                    tts: body,
                                    is_sugared_doc: false,
                                };
                                proof {
                                    assert(a@ =~= spec_parse_inner(vt, pos as int)->Some_0.0);
                                }
                                return Some((a, pos + 3));
                            },
                            None => {
                                return None;
                            },
                        }
                    }
                },
                _ => {},
            }
        }
        proof {
            assert(!inner_shape_at(vt, pos as int));
        }
        match lit_doc_comment(tts, pos, Comment::Inner) {
            Some(t) => {
                let mut segs: Vec<String> = Vec::new();
                segs.push(String::from_str("doc"));
                let path = Path { leading_colon: false, segments: segs };
                let mut body: Vec<Token> = Vec::new();
                body.push(Token::Punct('=', Spacing::Alone));
                body.push(t);
                let a = Attribute {
                    style: AttrStyle::Inner,
                    path,
                    tts: body,
                    is_sugared_doc: true,
                };
                proof {
                    assert(a.path@.segments =~= seq!["doc"@]);
                    assert(a.path@ =~= doc_path());
                    lemma_toks_view_push(Seq::<Token>::empty(), Token::Punct('=', Spacing::Alone));
                    assert(toks_view(Seq::<Token>::empty()) == Seq::<TokenV>::empty());
                    lemma_toks_view_push(
                        Seq::<Token>::empty().push(Token::Punct('=', Spacing::Alone)),
                        a.tts@[1],
                    );
                    assert(a@.tts =~= doc_body(vt[pos as int]->Lit_0));
                    assert(a@ =~= spec_parse_inner(vt, pos as int)->Some_0.0);
                }
                Some((a, pos + 1))
            },
            None => None,
        }
    }

    /// Appends the tokens of this annotation to `tokens`: the original
    /// doc-comment token where this annotation came from doc sugar and
    /// still interprets as `doc = <string literal>`, else the bracketed
    /// form with the body verbatim.
    #[verifier::loop_isolation(false)]
    pub fn to_tokens(&self, tokens: &mut Vec<Token>)
        ensures
            toks_view(final(tokens)@) == toks_view(old(tokens)@) + spec_print_attr(self@),
    {
        proof {
            lemma_toks_view_elems(self.tts@);
        }
        if self.is_sugared_doc {
            match self.interpret_meta() {
                Some(Meta::NameValue(pair)) => {
                    let docstr = String::from_str("doc");
                    if pair.ident == docstr {
                        match str_lit_value(pair.lit.as_str()) {
                            Some(comment) => {
                                let ghost t0 = tokens@;
                                let ghost gc = comment@;
                                tokens.push(Token::Lit(comment));
                                proof {
                                    lemma_toks_view_push(t0, tokens@[tokens@.len() - 1]);
                                    assert(tok_view(tokens@[tokens@.len() - 1]) == TokenV::Lit(gc));
                                    assert(resugar_cond(self@));
                                    assert(toks_view(tokens@) =~= toks_view(t0)
                                        + spec_print_attr(self@));
                                }
                                return ;
                            },
                            None => {},
                        }
                    }
                },
                _ => {},
            }
        }
        proof {
            assert(!resugar_cond(self@));
        }
        let ghost t0 = tokens@;
        tokens.push(Token::Punct('#', Spacing::Alone));
        proof {
            lemma_toks_view_push(t0, Token::Punct('#', Spacing::Alone));
        }
        if self.style == AttrStyle::Inner {
            let ghost t1 = tokens@;
            tokens.push(Token::Punct('!', Spacing::Alone));
            proof {
                lemma_toks_view_push(t1, Token::Punct('!', Spacing::Alone));
            }
        }
        let mut inner: Vec<Token> = Vec::new();
        print_path(&self.path, &mut inner);
        let mut k: usize = 0;
        // append the body tokens after the path, verbatim
        while k < self.tts.len()
            invariant
                k <= self.tts@.len(),
                toks_view(inner@) == spec_print_path(self.path@) + toks_view(
                    self.tts@.subrange(0, k as int),
                ),
            decreases self.tts@.len() - k,
        {
            let t = crate::token::dup_token(&self.tts[k]);
            let ghost i0 = inner@;
            inner.push(t);
            proof {
                lemma_toks_view_push(i0, inner@[inner@.len() - 1]);
                assert(self.tts@.subrange(0, k as int).push(self.tts@[k as int]) =~= self.tts@
                    .subrange(0, k as int + 1));
                lemma_toks_view_push(self.tts@.subrange(0, k as int), self.tts@[k as int]);
                assert(toks_view(inner@) =~= spec_print_path(self.path@) + toks_view(
                    self.tts@.subrange(0, k as int + 1),
                ));
            }
            k = k + 1;
        }
        proof {
            assert(self.tts@.subrange(0, self.tts@.len() as int) =~= self.tts@);
        }
        let g = Token::Group(Delim::Bracket, inner);
        let ghost t2 = tokens@;
        tokens.push(g);
        proof {
            lemma_toks_view_push(t2, tokens@[tokens@.len() - 1]);
            assert(toks_view(tokens@) =~= toks_view(old(tokens)@) + spec_print_attr(self@));
        }
    }
}

/// Filtering a collection of annotations by style, keeping order.
pub trait FilterAttrs {
    /// The annotations held.
    spec fn attrs(&self) -> Seq<Attribute>;

    /// The outer annotations, in their original order.
    fn outer(&self) -> (r: Vec<&Attribute>)
        ensures
            r@.map_values(|a: &Attribute| *a) == self.attrs().filter(
                |a: Attribute| a.style is Outer,
            ),
    ;

    /// The inner annotations, in their original order.
    fn inner(&self) -> (r: Vec<&Attribute>)
        ensures
            r@.map_values(|a: &Attribute| *a) == self.attrs().filter(
                |a: Attribute| a.style is Inner,
            ),
    ;
}

impl FilterAttrs for Vec<Attribute> {
    open spec fn attrs(&self) -> Seq<Attribute> {
        self@
    }

    #[verifier::loop_isolation(false)]
    fn outer(&self) -> (r: Vec<&Attribute>) {
        let mut out: Vec<&Attribute> = Vec::new();
        let mut i: usize = 0;
        while i < self.len()
            invariant
                i <= self@.len(),
                out@.map_values(|a: &Attribute| *a) == self@.take(i as int).filter(
                    |a: Attribute| a.style is Outer,
                ),
            decreases self@.len() - i,
        {
            let keep = match self[i].style {
                AttrStyle::Outer => true,
                AttrStyle::Inner => false,
            };
            let ghost prev = out@;
            if keep {
                out.push(&self[i]);
            }
            proof {
                let f = |a: Attribute| a.style is Outer;
                assert(self@.take(i as int + 1).drop_last() =~= self@.take(i as int));
                assert(self@.take(i as int + 1).last() == self@[i as int]);
                reveal(Seq::filter);
                if keep {
                    assert(out@.map_values(|a: &Attribute| *a) =~= prev.map_values(
                        |a: &Attribute| *a,
                    ).push(self@[i as int]));
                }
                assert(out@.map_values(|a: &Attribute| *a) =~= self@.take(i as int + 1).filter(f));
            }
            i = i + 1;
        }
        proof {
            assert(self@.take(self@.len() as int) =~= self@);
        }
        out
    }

    #[verifier::loop_isolation(false)]
    fn inner(&self) -> (r: Vec<&Attribute>) {
        let mut out: Vec<&Attribute> = Vec::new();
        let mut i: usize = 0;
        while i < self.len()
            invariant
                i <= self@.len(),
                out@.map_values(|a: &Attribute| *a) == self@.take(i as int).filter(
                    |a: Attribute| a.style is Inner,
                ),
            decreases self@.len() - i,
        {
            let keep = match self[i].style {
                AttrStyle::Inner => true,
                AttrStyle::Outer => false,
            };
            let ghost prev = out@;
            if keep {
                out.push(&self[i]);
            }
            proof {
                let f = |a: Attribute| a.style is Inner;
                assert(self@.take(i as int + 1).drop_last() =~= self@.take(i as int));
                assert(self@.take(i as int + 1).last() == self@[i as int]);
                reveal(Seq::filter);
                if keep {
                    assert(out@.map_values(|a: &Attribute| *a) =~= prev.map_values(
                        |a: &Attribute| *a,
                    ).push(self@[i as int]));
                }
                assert(out@.map_values(|a: &Attribute| *a) =~= self@.take(i as int + 1).filter(f));
            }
            i = i + 1;
        }
        proof {
            assert(self@.take(self@.len() as int) =~= self@);
        }
        out
    }
}

} // verus!
