//! The round-trip law: every annotation the parser can produce prints back
//! to tokens that parse to the identical annotation, field for field —
//! doc-comment sugar included, where printing then re-parsing reproduces
//! the same `is_sugared_doc`, path and body.

use vstd::prelude::*;
use crate::token::{Delim, Spacing, TokenV};
use crate::path::{
    path_wf, dcolon_at, spec_parse_segments, spec_parse_path, spec_print_segments,
    spec_print_path, lemma_parse_segments_bounds, lemma_segments_roundtrip,
};
use crate::lit::{quote_text, lit_value, outer_doc_text, inner_doc_text, lemma_lit_value_quote};
use crate::attr::{
    AttrStyle, AttributeV, doc_path, doc_body, outer_shape_at, inner_shape_at, spec_parse_outer,
    spec_parse_inner, resugar_cond, spec_print_attr,
};
use crate::meta::spec_interpret;

verus! {

/// The shape that the doc-comment branch of the parser establishes: path
/// `doc`, body `= <string literal>`, the literal the canonical quoting of
/// a text that begins with a doc prefix of the annotation's style.
pub open spec fn doc_sugar_wf(a: AttributeV, outer: bool) -> bool {
    &&& a.path == doc_path()
    &&& a.tts.len() == 2
    &&& a.tts[0] == TokenV::Punct('=', Spacing::Alone)
    &&& a.tts[1] is Lit
    &&& {
        let q = a.tts[1]->Lit_0;
        &&& lit_value(q) is Some
        &&& quote_text(lit_value(q)->Some_0) == q
        &&& if outer {
            outer_doc_text(lit_value(q)->Some_0)
        } else {
            inner_doc_text(lit_value(q)->Some_0)
        }
    }
}

/// What holds of every annotation the outer parser produces.
pub open spec fn parsed_outer_wf(a: AttributeV) -> bool {
    &&& a.style == AttrStyle::Outer
    &&& if a.is_sugared_doc {
        doc_sugar_wf(a, true)
    } else {
        path_wf(a.path) && !dcolon_at(a.tts, 0)
    }
}

/// What holds of every annotation the inner parser produces.
pub open spec fn parsed_inner_wf(a: AttributeV) -> bool {
    &&& a.style == AttrStyle::Inner
    &&& if a.is_sugared_doc {
        doc_sugar_wf(a, false)
    } else {
        path_wf(a.path) && !dcolon_at(a.tts, 0)
    }
}

/// Segment parsing stops only where no `::` separator follows.
proof fn lemma_parse_segments_stops(tts: Seq<TokenV>, pos: int)
    requires
        spec_parse_segments(tts, pos) is Some,
    ensures
        !dcolon_at(tts, spec_parse_segments(tts, pos)->Some_0.1),
    decreases tts.len() - pos,
{
    match tts[pos] {
        TokenV::Ident(name) => {
            if dcolon_at(tts, pos + 1) {
                lemma_parse_segments_stops(tts, pos + 3);
            }
        },
        _ => {},
    }
}

/// A successful path parse leaves a remainder that does not begin with a
/// `::` separator, and a well-formed path.
proof fn lemma_parse_path_wf(tts: Seq<TokenV>, pos: int)
    requires
        spec_parse_path(tts, pos) is Some,
    ensures
        ({
            let (p, q) = spec_parse_path(tts, pos)->Some_0;
            &&& path_wf(p)
            &&& pos <= q <= tts.len()
            &&& !dcolon_at(tts, q)
        }),
{
    if dcolon_at(tts, pos) {
        lemma_parse_segments_bounds(tts, pos + 2);
        lemma_parse_segments_stops(tts, pos + 2);
    } else {
        lemma_parse_segments_bounds(tts, pos);
        lemma_parse_segments_stops(tts, pos);
    }
}

/// Every annotation the outer parser yields satisfies `parsed_outer_wf`.
pub proof fn lemma_parse_outer_wf(tts: Seq<TokenV>, pos: int)
    requires
        spec_parse_outer(tts, pos) is Some,
    ensures
        parsed_outer_wf(spec_parse_outer(tts, pos)->Some_0.0),
{
    if outer_shape_at(tts, pos) {
        let inner = tts[pos + 1]->Group_1;
        lemma_parse_path_wf(inner, 0);
        let (p, q) = spec_parse_path(inner, 0)->Some_0;
        let body = inner.skip(q);
        if dcolon_at(body, 0) {
            assert(body[0] == inner[q]);
            assert(body[1] == inner[q + 1]);
            assert(dcolon_at(inner, q));
        }
    } else {
        let text = tts[pos]->Lit_0;
        lemma_lit_value_quote(text);
        let a = spec_parse_outer(tts, pos)->Some_0.0;
        assert(a.tts[1]->Lit_0 == quote_text(text));
        assert(lit_value(quote_text(text)) == Some(text));
    }
}

/// Every annotation the inner parser yields satisfies `parsed_inner_wf`.
pub proof fn lemma_parse_inner_wf(tts: Seq<TokenV>, pos: int)
    requires
        spec_parse_inner(tts, pos) is Some,
    ensures
        parsed_inner_wf(spec_parse_inner(tts, pos)->Some_0.0),
{
    if inner_shape_at(tts, pos) {
        let inner = tts[pos + 2]->Group_1;
        lemma_parse_path_wf(inner, 0);
        let (p, q) = spec_parse_path(inner, 0)->Some_0;
        let body = inner.skip(q);
        if dcolon_at(body, 0) {
            assert(body[0] == inner[q]);
            assert(body[1] == inner[q + 1]);
            assert(dcolon_at(inner, q));
        }
    } else {
        let text = tts[pos]->Lit_0;
        lemma_lit_value_quote(text);
        let a = spec_parse_inner(tts, pos)->Some_0.0;
        assert(a.tts[1]->Lit_0 == quote_text(text));
        assert(lit_value(quote_text(text)) == Some(text));
    }
}

/// Under `doc_sugar_wf`, the annotation interprets as `doc = <literal>`
/// and printing resugars it.
proof fn lemma_doc_resugars(a: AttributeV)
    requires
        a.is_sugared_doc,
        doc_sugar_wf(a, true) || doc_sugar_wf(a, false),
    ensures
        resugar_cond(a),
        spec_print_attr(a) == seq![TokenV::Lit(lit_value(a.tts[1]->Lit_0)->Some_0)],
{
    assert(doc_path().segments.len() == 1);
    let q = a.tts[1]->Lit_0;
    assert(spec_interpret(a.path, a.tts) == Some(
        crate::meta::MetaV::NameValue { ident: "doc"@, lit: q },
    ));
    assert(resugar_cond(a));
}

/// Printing a parser-produced outer annotation and parsing the result
/// recovers the annotation exactly, consuming all the printed tokens.
pub proof fn lemma_print_parse_outer(a: AttributeV)
    requires
        parsed_outer_wf(a),
    ensures
        spec_parse_outer(spec_print_attr(a), 0) == Some::<(AttributeV, int)>(
            (a, spec_print_attr(a).len() as int),
        ),
{
    let printed = spec_print_attr(a);
    if a.is_sugared_doc {
        lemma_doc_resugars(a);
        let q = a.tts[1]->Lit_0;
        let v = lit_value(q)->Some_0;
        assert(printed =~= seq![TokenV::Lit(v)]);
        assert(!outer_shape_at(printed, 0));
        let b = spec_parse_outer(printed, 0)->Some_0.0;
        assert(b.tts == doc_body(v));
        assert(doc_body(v)[1] == TokenV::Lit(quote_text(v)));
        assert(quote_text(v) == q);
        assert(b.tts =~= a.tts);
        assert(b =~= a);
    } else {
        assert(!resugar_cond(a));
        let pp = spec_print_path(a.path);
        let inner = pp + a.tts;
        assert(printed =~= seq![
            TokenV::Punct('#', Spacing::Alone),
            TokenV::Group(Delim::Bracket, inner),
        ]);
        assert(outer_shape_at(printed, 0));
        assert(printed[1]->Group_1 == inner);
        let segs = a.path.segments;
        let ps = spec_print_segments(segs);
        // the first printed segment token is an identifier
        assert(ps[0] == TokenV::Ident(segs[0]));
        if a.path.leading_colon {
            assert(pp =~= crate::path::dcolon_toks() + ps);
            assert(inner[0] == TokenV::Punct(':', Spacing::Joint));
            assert(inner[1] == TokenV::Punct(':', Spacing::Alone));
            assert(dcolon_at(inner, 0));
            lemma_segments_roundtrip(segs, a.tts, 2);
            assert(inner.subrange(2, inner.len() as int) =~= ps + a.tts);
            assert(inner.len() == 2 + (ps + a.tts).len());
            assert(spec_parse_segments(inner, 2) == Some::<(Seq<Seq<char>>, int)>(
                (segs, 2 + ps.len() as int),
            ));
            let (p, q) = spec_parse_path(inner, 0)->Some_0;
            assert(p =~= a.path);
            assert(q == pp.len());
        } else {
            assert(pp =~= ps);
            assert(inner[0] == ps[0]);
            assert(!dcolon_at(inner, 0));
            lemma_segments_roundtrip(segs, a.tts, 0);
            assert(inner.subrange(0, inner.len() as int) =~= ps + a.tts);
            assert(inner.len() == 0 + (ps + a.tts).len());
            assert(spec_parse_segments(inner, 0) == Some::<(Seq<Seq<char>>, int)>(
                (segs, ps.len() as int),
            ));
            let (p, q) = spec_parse_path(inner, 0)->Some_0;
            assert(p =~= a.path);
            assert(q == pp.len());
        }
        let (b, n) = spec_parse_outer(printed, 0)->Some_0;
        assert(b.tts =~= inner.skip(pp.len() as int));
        assert(inner.skip(pp.len() as int) =~= a.tts);
        assert(b =~= a);
        assert(n == 2 == printed.len());
    }
}

/// Printing a parser-produced inner annotation and parsing the result
/// recovers the annotation exactly, consuming all the printed tokens.
pub proof fn lemma_print_parse_inner(a: AttributeV)
    requires
        parsed_inner_wf(a),
    ensures
        spec_parse_inner(spec_print_attr(a), 0) == Some::<(AttributeV, int)>(
            (a, spec_print_attr(a).len() as int),
        ),
{
    let printed = spec_print_attr(a);
    if a.is_sugared_doc {
        lemma_doc_resugars(a);
        let q = a.tts[1]->Lit_0;
        let v = lit_value(q)->Some_0;
        assert(printed =~= seq![TokenV::Lit(v)]);
        assert(!inner_shape_at(printed, 0));
        let b = spec_parse_inner(printed, 0)->Some_0.0;
        assert(b.tts == doc_body(v));
        assert(doc_body(v)[1] == TokenV::Lit(quote_text(v)));
        assert(quote_text(v) == q);
        assert(b.tts =~= a.tts);
        assert(b =~= a);
    } else {
        assert(!resugar_cond(a));
        let pp = spec_print_path(a.path);
        let inner = pp + a.tts;
        assert(printed =~= seq![
            TokenV::Punct('#', Spacing::Alone),
            TokenV::Punct('!', Spacing::Alone),
            TokenV::Group(Delim::Bracket, inner),
        ]);
        assert(inner_shape_at(printed, 0));
        assert(printed[2]->Group_1 == inner);
        let segs = a.path.segments;
        let ps = spec_print_segments(segs);
        assert(ps[0] == TokenV::Ident(segs[0]));
        if a.path.leading_colon {
            assert(pp =~= crate::path::dcolon_toks() + ps);
            assert(inner[0] == TokenV::Punct(':', Spacing::Joint));
            assert(inner[1] == TokenV::Punct(':', Spacing::Alone));
            assert(dcolon_at(inner, 0));
            lemma_segments_roundtrip(segs, a.tts, 2);
            assert(inner.subrange(2, inner.len() as int) =~= ps + a.tts);
            assert(inner.len() == 2 + (ps + a.tts).len());
            assert(spec_parse_segments(inner, 2) == Some::<(Seq<Seq<char>>, int)>(
                (segs, 2 + ps.len() as int),
            ));
            let (p, q) = spec_parse_path(inner, 0)->Some_0;
            assert(p =~= a.path);
            assert(q == pp.len());
        } else {
            assert(pp =~= ps);
            assert(inner[0] == ps[0]);
            assert(!dcolon_at(inner, 0));
            lemma_segments_roundtrip(segs, a.tts, 0);
            assert(inner.subrange(0, inner.len() as int) =~= ps + a.tts);
            assert(inner.len() == 0 + (ps + a.tts).len());
            assert(spec_parse_segments(inner, 0) == Some::<(Seq<Seq<char>>, int)>(
                (segs, ps.len() as int),
            ));
            let (p, q) = spec_parse_path(inner, 0)->Some_0;
            assert(p =~= a.path);
            assert(q == pp.len());
        }
        let (b, n) = spec_parse_inner(printed, 0)->Some_0;
        assert(b.tts =~= inner.skip(pp.len() as int));
        assert(inner.skip(pp.len() as int) =~= a.tts);
        assert(b =~= a);
        assert(n == 3 == printed.len());
    }
}

/// Round trip: for every annotation the outer parser produces, printing it
/// and parsing the printed tokens gives the identical annotation back.
pub proof fn lemma_roundtrip_outer(tts: Seq<TokenV>, pos: int)
    requires
        spec_parse_outer(tts, pos) is Some,
    ensures
        ({
            let a = spec_parse_outer(tts, pos)->Some_0.0;
            spec_parse_outer(spec_print_attr(a), 0) == Some::<(AttributeV, int)>(
                (a, spec_print_attr(a).len() as int),
            )
        }),
{
    lemma_parse_outer_wf(tts, pos);
    lemma_print_parse_outer(spec_parse_outer(tts, pos)->Some_0.0);
}

/// Round trip for the inner parser.
pub proof fn lemma_roundtrip_inner(tts: Seq<TokenV>, pos: int)
    requires
        spec_parse_inner(tts, pos) is Some,
    ensures
        ({
            let a = spec_parse_inner(tts, pos)->Some_0.0;
            spec_parse_inner(spec_print_attr(a), 0) == Some::<(AttributeV, int)>(
                (a, spec_print_attr(a).len() as int),
            )
        }),
{
    lemma_parse_inner_wf(tts, pos);
    lemma_print_parse_inner(spec_parse_inner(tts, pos)->Some_0.0);
}

} // verus!
