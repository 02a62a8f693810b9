//! The structured meta model: the three shapes an annotation body may take
//! (bare word, parenthesized list, name/value pair), the recursive
//! comma-separated nested-list grammar, the interpreter from a path and a
//! token body to an optional shape, and the direct printers of the shapes.

use vstd::prelude::*;
use crate::token::{
    Delim, Spacing, Token, TokenV, toks_view, tok_view, lemma_toks_view_elems, lemma_toks_view_push,
};

verus! {

/// One element of a list shape's interior: a structured item or a literal.
#[derive(PartialEq, Eq, Hash, Debug)]
pub enum NestedMeta {
    Meta(Meta),
    Literal(String),
}

/// A structured list within an annotation, like `derive(Copy, Clone)`.
#[derive(PartialEq, Eq, Hash, Debug)]
pub struct MetaList {
    pub ident: String,
    pub nested: Vec<NestedMeta>,
    pub trailing_comma: bool,
}

/// A name-value pair within an annotation, like `feature = "nightly"`.
/// The literal is carried as its rendered text.
#[derive(PartialEq, Eq, Hash, Debug)]
pub struct MetaNameValue {
    pub ident: String,
    pub lit: String,
}

/// Content of a structured annotation: a bare word, a list, or a
/// name-value pair.
#[derive(PartialEq, Eq, Hash, Debug)]
pub enum Meta {
    Word(String),
    List(MetaList),
    NameValue(MetaNameValue),
}

/// Spec-level nested element.
#[verifier::ext_equal]
pub enum NestedV {
    Meta(MetaV),
    Lit(Seq<char>),
}

/// Spec-level structured meta value.
#[verifier::ext_equal]
pub enum MetaV {
    Word(Seq<char>),
    List { ident: Seq<char>, nested: Seq<NestedV>, trailing_comma: bool },
    NameValue { ident: Seq<char>, lit: Seq<char> },
}

/// The spec value of a structured meta item.
pub open spec fn meta_view(m: Meta) -> MetaV
    decreases m,
{
    match m {
        Meta::Word(n) => MetaV::Word(n@),
        Meta::List(ml) => MetaV::List {
            ident: ml.ident@,
            nested: nesteds_view(ml.nested@),
            trailing_comma: ml.trailing_comma,
        },
        Meta::NameValue(nv) => MetaV::NameValue { ident: nv.ident@, lit: nv.lit@ },
    }
}

/// The spec value of one nested element.
pub open spec fn nested_view(n: NestedMeta) -> NestedV
    decreases n,
{
    match n {
        NestedMeta::Meta(m) => NestedV::Meta(meta_view(m)),
        NestedMeta::Literal(l) => NestedV::Lit(l@),
    }
}

/// The spec value of a sequence of nested elements, elementwise.
pub open spec fn nesteds_view(s: Seq<NestedMeta>) -> Seq<NestedV>
    decreases s,
{
    if s.len() == 0 {
        Seq::empty()
    } else {
        seq![nested_view(s[0])] + nesteds_view(s.subrange(1, s.len() as int))
    }
}

impl View for Meta {
    type V = MetaV;

    open spec fn view(&self) -> MetaV {
        meta_view(*self)
    }
}

impl View for NestedMeta {
    type V = NestedV;

    open spec fn view(&self) -> NestedV {
        nested_view(*self)
    }
}

/// `nesteds_view` is the elementwise image.
pub proof fn lemma_nesteds_view_elems(s: Seq<NestedMeta>)
    ensures
        nesteds_view(s).len() == s.len(),
        forall|i: int| 0 <= i < s.len() ==> nesteds_view(s)[i] == nested_view(s[i]),
    decreases s,
{
    if s.len() > 0 {
        let tail = s.subrange(1, s.len() as int);
        lemma_nesteds_view_elems(tail);
        assert forall|i: int| 0 <= i < s.len() implies nesteds_view(s)[i] == nested_view(s[i]) by {
            if i > 0 {
                assert(tail[i - 1] == s[i]);
            }
        }
    }
}

/// `nesteds_view` of a sequence extended by one element.
pub proof fn lemma_nesteds_view_push(s: Seq<NestedMeta>, n: NestedMeta)
    ensures
        nesteds_view(s.push(n)) == nesteds_view(s) + seq![nested_view(n)],
    decreases s,
{
    if s.len() == 0 {
        assert(s.push(n)[0] == n);
        assert(s.push(n).subrange(1, 1) =~= Seq::<NestedMeta>::empty());
        assert(nesteds_view(Seq::<NestedMeta>::empty()) == Seq::<NestedV>::empty());
        assert(nesteds_view(s.push(n)) =~= nesteds_view(s) + seq![nested_view(n)]);
    } else {
        let tail = s.subrange(1, s.len() as int);
        lemma_nesteds_view_push(tail, n);
        assert(s.push(n).subrange(1, s.len() as int + 1) =~= tail.push(n));
        assert(s.push(n)[0] == s[0]);
        assert(nesteds_view(s.push(n)) =~= nesteds_view(s) + seq![nested_view(n)]);
    }
}

/// The lead name of a structured meta item.
pub open spec fn meta_name(m: MetaV) -> Seq<char> {
    match m {
        MetaV::Word(n) => n,
        MetaV::List { ident, .. } => ident,
        MetaV::NameValue { ident, .. } => ident,
    }
}

impl Meta {
    /// The identifier that begins this structured meta item: the `test` in
    /// a bare `test`, the `derive` in `derive(Copy)`, the `path` in
    /// `path = "sys/windows.rs"`.
    pub fn name(&self) -> (r: String)
        ensures
            r@ == meta_name(self@),
    {
        match self {
            Meta::Word(n) => n.clone(),
            Meta::List(ml) => ml.ident.clone(),
            Meta::NameValue(nv) => nv.ident.clone(),
        }
    }
}

/// Whether an alone comma stands at position `pos`.
pub open spec fn comma_at(tts: Seq<TokenV>, pos: int) -> bool {
    0 <= pos < tts.len() && tts[pos] == TokenV::Punct(',', Spacing::Alone)
}

/// Whether positions `pos..pos+3` hold `ident = lit` with an alone `=`.
pub open spec fn name_value_at(tts: Seq<TokenV>, pos: int) -> bool {
    &&& 0 <= pos
    &&& pos + 3 <= tts.len()
    &&& tts[pos] is Ident
    &&& tts[pos + 1] == TokenV::Punct('=', Spacing::Alone)
    &&& tts[pos + 2] is Lit
}

/// Whether a parenthesized group stands at position `pos`.
pub open spec fn paren_at(tts: Seq<TokenV>, pos: int) -> bool {
    &&& 0 <= pos < tts.len()
    &&& tts[pos] is Group
    &&& tts[pos]->Group_0 == Delim::Paren
}

/// Parses the comma-separated nested-meta list of `tts` from `pos` to the
/// end. `first` says whether no element has been consumed yet (so no
/// leading comma is required). Returns the elements and whether a trailing
/// comma was present, or `None` on any grammar failure.
pub open spec fn spec_list_from(tts: Seq<TokenV>, pos: int, first: bool) -> Option<
    (Seq<NestedV>, bool),
>
    decreases tts, tts.len() - pos, 1int,
{
    if pos < 0 {
        None
    } else if pos >= tts.len() {
        Some((Seq::empty(), false))
    } else if !first {
        if comma_at(tts, pos) {
            if pos + 1 >= tts.len() {
                Some((Seq::empty(), true))
            } else {
                spec_elem_from(tts, pos + 1)
            }
        } else {
            None
        }
    } else {
        spec_elem_from(tts, pos)
    }
}

/// Parses one nested element at `pos` and then the rest of the list.
pub open spec fn spec_elem_from(tts: Seq<TokenV>, pos: int) -> Option<(Seq<NestedV>, bool)>
    decreases tts, tts.len() - pos, 0int,
{
    if !(0 <= pos < tts.len()) {
        None
    } else {
        match tts[pos] {
            TokenV::Lit(l) => match spec_list_from(tts, pos + 1, false) {
                Some((items, tr)) => Some((seq![NestedV::Lit(l)] + items, tr)),
                None => None,
            },
            TokenV::Ident(name) => {
                if name_value_at(tts, pos) {
                    let l = tts[pos + 2]->Lit_0;
                    match spec_list_from(tts, pos + 3, false) {
                        Some((items, tr)) => Some(
                            (
                                seq![NestedV::Meta(MetaV::NameValue { ident: name, lit: l })]
                                    + items,
                                tr,
                            ),
                        ),
                        None => None,
                    }
                } else if paren_at(tts, pos + 1) {
                    let inner = tts[pos + 1]->Group_1;
                    match spec_list_from(inner, 0, true) {
                        Some((inner_items, inner_tr)) => match spec_list_from(
                            tts,
                            pos + 2,
                            false,
                        ) {
                            Some((items, tr)) => Some(
                                (
                                    seq![
                                        NestedV::Meta(
                                            MetaV::List {
                                                ident: name,
                                                nested: inner_items,
                                                trailing_comma: inner_tr,
                                            },
                                        ),
                                    ] + items,
                                    tr,
                                ),
                            ),
                            None => None,
                        },
                        None => None,
                    }
                } else {
                    match spec_list_from(tts, pos + 1, false) {
                        Some((items, tr)) => Some(
                            (seq![NestedV::Meta(MetaV::Word(name))] + items, tr),
                        ),
                        None => None,
                    }
                }
            },
            _ => None,
        }
    }
}

/// Parses one nested element at `pos`: the element and the position after
/// it, or `None` where no element stands there.
pub open spec fn spec_nested_item(tts: Seq<TokenV>, pos: int) -> Option<(NestedV, int)> {
    if !(0 <= pos < tts.len()) {
        None
    } else {
        match tts[pos] {
            TokenV::Lit(l) => Some((NestedV::Lit(l), pos + 1)),
            TokenV::Ident(name) => {
                if name_value_at(tts, pos) {
                    Some(
                        (
                            NestedV::Meta(
                                MetaV::NameValue { ident: name, lit: tts[pos + 2]->Lit_0 },
                            ),
                            pos + 3,
                        ),
                    )
                } else if paren_at(tts, pos + 1) {
                    match spec_list_from(tts[pos + 1]->Group_1, 0, true) {
                        Some((inner_items, inner_tr)) => Some(
                            (
                                NestedV::Meta(
                                    MetaV::List {
                                        ident: name,
                                        nested: inner_items,
                                        trailing_comma: inner_tr,
                                    },
                                ),
                                pos + 2,
                            ),
                        ),
                        None => None,
                    }
                } else {
                    Some((NestedV::Meta(MetaV::Word(name)), pos + 1))
                }
            },
            _ => None,
        }
    }
}

/// A successful element parse lands strictly further on, within bounds.
pub proof fn lemma_nested_item_bounds(tts: Seq<TokenV>, pos: int)
    requires
        spec_nested_item(tts, pos) is Some,
    ensures
        pos < spec_nested_item(tts, pos)->Some_0.1 <= tts.len(),
{
}

/// Element-then-rest is how the list grammar proceeds: parsing from an
/// element position equals parsing one element and then the rest of the
/// list from where it ended.
pub proof fn lemma_elem_decompose(tts: Seq<TokenV>, pos: int)
    requires
        0 <= pos < tts.len(),
    ensures
        spec_elem_from(tts, pos) == match spec_nested_item(tts, pos) {
            None => None::<(Seq<NestedV>, bool)>,
            Some((item, q)) => match spec_list_from(tts, q, false) {
                None => None::<(Seq<NestedV>, bool)>,
                Some((items, tr)) => Some((seq![item] + items, tr)),
            },
        },
{
}

/// Interprets a path and a token body as a structured shape, or declines.
pub open spec fn spec_interpret(path: crate::path::PathV, body: Seq<TokenV>) -> Option<MetaV> {
    if path.segments.len() != 1 {
        None
    } else {
        let name = path.segments[0];
        if body.len() == 0 {
            Some(MetaV::Word(name))
        } else if body.len() == 1 && paren_at(body, 0) && spec_list_from(
            body[0]->Group_1,
            0,
            true,
        ) is Some {
            let (items, tr) = spec_list_from(body[0]->Group_1, 0, true)->Some_0;
            Some(MetaV::List { ident: name, nested: items, trailing_comma: tr })
        } else if body.len() == 2 && body[0] == TokenV::Punct('=', Spacing::Alone) && body[1]
            is Lit {
            Some(MetaV::NameValue { ident: name, lit: body[1]->Lit_0 })
        } else {
            None
        }
    }
}

/// The comma token that separates list elements.
pub open spec fn comma_tok() -> TokenV {
    TokenV::Punct(',', Spacing::Alone)
}

/// The tokens of a structured meta item printed directly.
pub open spec fn spec_print_meta(m: MetaV) -> Seq<TokenV>
    decreases m,
{
    match m {
        MetaV::Word(n) => seq![TokenV::Ident(n)],
        MetaV::List { ident, nested, trailing_comma } => seq![
            TokenV::Ident(ident),
            TokenV::Group(Delim::Paren, spec_print_nested_seq(nested, trailing_comma)),
        ],
        MetaV::NameValue { ident, lit } => seq![
            TokenV::Ident(ident),
            TokenV::Punct('=', Spacing::Alone),
            TokenV::Lit(lit),
        ],
    }
}

/// The tokens of one nested element.
pub open spec fn spec_print_nested(n: NestedV) -> Seq<TokenV>
    decreases n,
{
    match n {
        NestedV::Meta(m) => spec_print_meta(m),
        NestedV::Lit(l) => seq![TokenV::Lit(l)],
    }
}

/// The tokens of a nested-meta list: elements separated by alone commas,
/// with a trailing comma where one was recorded.
pub open spec fn spec_print_nested_seq(items: Seq<NestedV>, trailing: bool) -> Seq<TokenV>
    decreases items,
{
    if items.len() == 0 {
        Seq::empty()
    } else if items.len() == 1 {
        spec_print_nested(items[0]) + (if trailing {
            seq![comma_tok()]
        } else {
            Seq::empty()
        })
    } else {
        spec_print_nested(items[0]) + seq![comma_tok()] + spec_print_nested_seq(
            items.subrange(1, items.len() as int),
            trailing,
        )
    }
}

impl MetaNameValue {
    /// Appends `ident = lit` to `tokens`.
    pub fn to_tokens(&self, tokens: &mut Vec<Token>)
        ensures
            toks_view(final(tokens)@) == toks_view(old(tokens)@) + spec_print_meta(
                MetaV::NameValue { ident: self.ident@, lit: self.lit@ },
            ),
    {
        let ghost t0 = tokens@;
        tokens.push(Token::Ident(self.ident.clone()));
        tokens.push(Token::Punct('=', Spacing::Alone));
        tokens.push(Token::Lit(self.lit.clone()));
        proof {
            lemma_toks_view_push(t0, Token::Ident(self.ident));
            lemma_toks_view_push(t0.push(Token::Ident(self.ident)), Token::Punct('=', Spacing::Alone));
            lemma_toks_view_push(
                t0.push(Token::Ident(self.ident)).push(Token::Punct('=', Spacing::Alone)),
                Token::Lit(self.lit),
            );
            assert(toks_view(tokens@) =~= toks_view(t0) + spec_print_meta(
                MetaV::NameValue { ident: self.ident@, lit: self.lit@ },
            ));
        }
    }
}

impl MetaList {
    /// Appends `ident ( nested )` to `tokens`.
    pub fn to_tokens(&self, tokens: &mut Vec<Token>)
        ensures
            toks_view(final(tokens)@) == toks_view(old(tokens)@) + spec_print_meta(
                meta_view(Meta::List(*self)),
            ),
        decreases *self, 0int,
    {
        let ghost t0 = tokens@;
        tokens.push(Token::Ident(self.ident.clone()));
        let mut inner: Vec<Token> = Vec::new();
        proof {
            assert(decreases_to!(*self => self.nested));
        }
        print_nested_from(&self.nested, 0, self.trailing_comma, &mut inner);
        proof {
            assert(nesteds_view(self.nested@).skip(0) =~= nesteds_view(self.nested@));
        }
        let g = Token::Group(Delim::Paren, inner);
        tokens.push(g);
        proof {
            lemma_toks_view_push(t0, Token::Ident(self.ident));
            lemma_toks_view_push(t0.push(Token::Ident(self.ident)), g);
            assert(toks_view(tokens@) =~= toks_view(t0) + spec_print_meta(
                meta_view(Meta::List(*self)),
            ));
        }
    }
}

impl Meta {
    /// Appends the direct printing of this structured meta item to `tokens`.
    pub fn to_tokens(&self, tokens: &mut Vec<Token>)
        ensures
            toks_view(final(tokens)@) == toks_view(old(tokens)@) + spec_print_meta(self@),
        decreases *self, 1int,
    {
        match self {
            Meta::Word(n) => {
                let ghost t0 = tokens@;
                tokens.push(Token::Ident(n.clone()));
                proof {
                    lemma_toks_view_push(t0, Token::Ident(*n));
                }
            },
            Meta::List(ml) => {
                proof {
                    assert(decreases_to!(*self => *ml));
                }
                ml.to_tokens(tokens);
            },
            Meta::NameValue(nv) => {
                nv.to_tokens(tokens);
            },
        }
    }
}

impl NestedMeta {
    /// Appends the printing of this nested element to `tokens`.
    pub fn to_tokens(&self, tokens: &mut Vec<Token>)
        ensures
            toks_view(final(tokens)@) == toks_view(old(tokens)@) + spec_print_nested(self@),
        decreases *self, 2int,
    {
        match self {
            NestedMeta::Meta(m) => {
                proof {
                    assert(decreases_to!(*self => *m));
                }
                m.to_tokens(tokens);
            },
            NestedMeta::Literal(l) => {
                let ghost t0 = tokens@;
                tokens.push(Token::Lit(l.clone()));
                proof {
                    lemma_toks_view_push(t0, Token::Lit(*l));
                }
            },
        }
    }
}

/// Appends the printing of the nested elements from `j` on, with their
/// separating commas and the trailing comma where one was recorded.
fn print_nested_from(items: &Vec<NestedMeta>, j: usize, trailing: bool, tokens: &mut Vec<Token>)
    requires
        j <= items@.len(),
    ensures
        toks_view(final(tokens)@) == toks_view(old(tokens)@) + spec_print_nested_seq(
            nesteds_view(items@).skip(j as int),
            trailing,
        ),
    decreases *items, items@.len() - j,
{
    proof {
        lemma_nesteds_view_elems(items@);
    }
    let ghost nv = nesteds_view(items@);
    if j >= items.len() {
        proof {
            assert(nv.skip(j as int) =~= Seq::<NestedV>::empty());
            assert(spec_print_nested_seq(Seq::<NestedV>::empty(), trailing)
                == Seq::<TokenV>::empty());
            assert(toks_view(tokens@) =~= toks_view(tokens@) + Seq::<TokenV>::empty());
        }
    } else {
        proof {
            assert(decreases_to!(*items => items@));
            assert(decreases_to!(items@ => items@[j as int]));
        }
        items[j].to_tokens(tokens);
        let ghost tail = nv.skip(j as int);
        if j + 1 < items.len() {
            let ghost t1 = tokens@;
            tokens.push(Token::Punct(',', Spacing::Alone));
            proof {
                lemma_toks_view_push(t1, Token::Punct(',', Spacing::Alone));
            }
            print_nested_from(items, j + 1, trailing, tokens);
            proof {
                assert(tail.len() >= 2);
                assert(tail[0] == nv[j as int]);
                assert(tail.subrange(1, tail.len() as int) =~= nv.skip(j as int + 1));
                assert(spec_print_nested_seq(tail, trailing) == spec_print_nested(nv[j as int])
                    + seq![comma_tok()] + spec_print_nested_seq(nv.skip(j as int + 1), trailing));
                assert(toks_view(tokens@) =~= toks_view(old(tokens)@) + spec_print_nested_seq(
                    tail,
                    trailing,
                ));
            }
        } else {
            proof {
                assert(tail.len() == 1);
                assert(tail[0] == nv[j as int]);
            }
            if trailing {
                let ghost t1 = tokens@;
                tokens.push(Token::Punct(',', Spacing::Alone));
                proof {
                    lemma_toks_view_push(t1, Token::Punct(',', Spacing::Alone));
                    assert(spec_print_nested_seq(tail, trailing) == spec_print_nested(
                        nv[j as int],
                    ) + seq![comma_tok()]);
                    assert(toks_view(tokens@) =~= toks_view(old(tokens)@)
                        + spec_print_nested_seq(tail, trailing));
                }
            } else {
                proof {
                    assert(spec_print_nested_seq(tail, trailing) == spec_print_nested(
                        nv[j as int],
                    ) + Seq::<TokenV>::empty());
                    assert(toks_view(tokens@) =~= toks_view(old(tokens)@)
                        + spec_print_nested_seq(tail, trailing));
                }
            }
        }
    }
}

/// Parses one nested element at `pos`: the element and the position after
/// it, or `None` where no element stands there.
pub fn nested_meta_item_from_tokens(tts: &Vec<Token>, pos: usize) -> (r: Option<
    (NestedMeta, usize),
>)
    ensures
        ({
            let s = spec_nested_item(toks_view(tts@), pos as int);
            match r {
                Some((nm, q)) => s == Some::<(NestedV, int)>((nm@, q as int)) && q <= tts@.len(),
                None => s is None,
            }
        }),
    decreases *tts, tts@.len() - pos, 0int,
{
    proof {
        lemma_toks_view_elems(tts@);
    }
    let ghost vt = toks_view(tts@);
    let n = tts.len();
    if pos >= n {
        return None;
    }
    match &tts[pos] {
        Token::Lit(l) => Some((NestedMeta::Literal(l.clone()), pos + 1)),
        Token::Ident(name) => {
            let mut nv_lit: Option<String> = None;
            if n - pos > 2 {
                match &tts[pos + 1] {
                    Token::Punct(c, sp) => if *c == '=' && *sp == Spacing::Alone {
                        match &tts[pos + 2] {
                            Token::Lit(l) => {
                                nv_lit = Some(l.clone());
                            },
                            _ => {},
                        }
                    },
                    _ => {},
                }
            }
            proof {
                assert(name_value_at(vt, pos as int) <==> nv_lit is Some);
            }
            match nv_lit {
                Some(l) => {
                    proof {
                        assert(vt[pos as int + 2] == tok_view(tts@[pos as int + 2]));
                    }
                    Some(
                        (
                            NestedMeta::Meta(
                                Meta::NameValue(MetaNameValue { ident: name.clone(), lit: l }),
                            ),
                            pos + 3,
                        ),
                    )
                },
                None => {
                    if pos + 1 < n {
                        match &tts[pos + 1] {
                            Token::Group(d, inner) => {
                                if *d == Delim::Paren {
                                    proof {
                                        assert(decreases_to!(*tts => tts@));
                                        assert(decreases_to!(tts@ => tts@[pos as int + 1]));
                                        assert(decreases_to!(tts@[pos as int + 1] => *inner));
                                    }
                                    match list_of_nested_meta_items_from_tokens(inner, 0) {
                                        Some((items, tr)) => {
                                            let ml = MetaList {
                                                ident: name.clone(),
                                                nested: items,
                                                trailing_comma: tr,
                                            };
                                            return Some(
                                                (NestedMeta::Meta(Meta::List(ml)), pos + 2),
                                            );
                                        },
                                        None => {
                                            return None;
                                        },
                                    }
                                } else {
                                    return Some(
                                        (NestedMeta::Meta(Meta::Word(name.clone())), pos + 1),
                                    );
                                }
                            },
                            _ => {
                                return Some(
                                    (NestedMeta::Meta(Meta::Word(name.clone())), pos + 1),
                                );
                            },
                        }
                    } else {
                        return Some((NestedMeta::Meta(Meta::Word(name.clone())), pos + 1));
                    }
                },
            }
        },
        _ => None,
    }
}

/// Parses the whole comma-separated nested-meta list standing in
/// `tts[pos..]`: the elements and whether a trailing comma was present, or
/// `None` on any grammar failure. The failure is hard: a malformed
/// separator or element invalidates the whole list.
#[verifier::loop_isolation(false)]
pub fn list_of_nested_meta_items_from_tokens(tts: &Vec<Token>, pos: usize) -> (r: Option<
    (Vec<NestedMeta>, bool),
>)
    ensures
        ({
            let s = spec_list_from(toks_view(tts@), pos as int, true);
            match r {
                Some((items, tr)) => s == Some::<(Seq<NestedV>, bool)>(
                    (nesteds_view(items@), tr),
                ),
                None => s is None,
            }
        }),
    decreases *tts, tts@.len() - pos, 1int,
{
    proof {
        lemma_toks_view_elems(tts@);
    }
    let ghost vt = toks_view(tts@);
    let n = tts.len();
    let mut acc: Vec<NestedMeta> = Vec::new();
    let mut cur: usize = pos;
    let mut first: bool = true;
    loop
        invariant
            pos <= cur,
            cur <= n || (first && cur == pos),
            n == tts@.len(),
            vt == toks_view(tts@),
            ({
                let whole = spec_list_from(vt, pos as int, true);
                match spec_list_from(vt, cur as int, first) {
                    Some((more, tr)) => whole == Some::<(Seq<NestedV>, bool)>(
                        (nesteds_view(acc@) + more, tr),
                    ),
                    None => whole is None,
                }
            }),
        decreases n - cur, if first {
            1int
        } else {
            0int
        },
    {
        if cur >= n {
            proof {
                assert(spec_list_from(vt, cur as int, first) == Some::<(Seq<NestedV>, bool)>(
                    (Seq::empty(), false),
                ));
                assert(nesteds_view(acc@) + Seq::<NestedV>::empty() =~= nesteds_view(acc@));
            }
            return Some((acc, false));
        }
        if !first {
            let is_comma = match &tts[cur] {
                Token::Punct(c, sp) => *c == ',' && *sp == Spacing::Alone,
                _ => false,
            };
            proof {
                assert(vt[cur as int] == tok_view(tts@[cur as int]));
                assert(is_comma <==> comma_at(vt, cur as int));
            }
            if !is_comma {
                return None;
            }
            cur = cur + 1;
            if cur >= n {
                proof {
                    assert(nesteds_view(acc@) + Seq::<NestedV>::empty() =~= nesteds_view(acc@));
                }
                return Some((acc, true));
            }
            proof {
                assert(spec_list_from(vt, cur as int - 1, false) == spec_elem_from(
                    vt,
                    cur as int,
                ));
            }
        }
        // an element must stand at `cur`
        proof {
            lemma_elem_decompose(vt, cur as int);
        }
        match nested_meta_item_from_tokens(tts, cur) {
            None => {
                return None;
            },
            Some((nm, q)) => {
                proof {
                    lemma_nested_item_bounds(vt, cur as int);
                    lemma_nesteds_view_push(acc@, nm);
                    assert(nesteds_view(acc@.push(nm)) =~= nesteds_view(acc@) + seq![nm@]);
                }
                let ghost old_acc = acc@;
                acc.push(nm);
                proof {
                    let (item, qq) = spec_nested_item(vt, cur as int)->Some_0;
                    match spec_list_from(vt, q as int, false) {
                        Some((more2, tr2)) => {
                            assert(nesteds_view(old_acc) + (seq![item] + more2) =~= nesteds_view(
                                acc@,
                            ) + more2);
                        },
                        None => {},
                    }
                }
                cur = q;
                first = false;
            },
        }
    }
}

} // verus!
