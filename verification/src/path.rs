//! The path model: an ordered, non-empty sequence of identifier segments,
//! optionally preceded by a leading separator, as it stands between the
//! opening bracket of an annotation and its body.
//!
//! The grammar consumed here is the mod-style path: `::`? ident (`::`
//! ident)*. A `::` separator is the two-token shape produced by the lexer,
//! a joint colon followed by an alone colon; once a separator has been
//! consumed, an identifier must follow, and anything else is a hard
//! failure of the whole path.

use vstd::prelude::*;
use crate::token::{Spacing, Token, TokenV, toks_view, lemma_toks_view_elems};

verus! {

/// A non-empty dotted identifier path.
#[derive(PartialEq, Eq, Hash, Debug)]
pub struct Path {
    pub leading_colon: bool,
    pub segments: Vec<String>,
}

/// Spec-level path value.
#[verifier::ext_equal]
pub struct PathV {
    pub leading_colon: bool,
    pub segments: Seq<Seq<char>>,
}

/// The spec values of a sequence of strings, elementwise.
pub open spec fn strs_view(s: Seq<String>) -> Seq<Seq<char>> {
    Seq::new(s.len(), |i: int| s[i]@)
}

impl View for Path {
    type V = PathV;

    open spec fn view(&self) -> PathV {
        PathV { leading_colon: self.leading_colon, segments: strs_view(self.segments@) }
    }
}

/// A structurally valid path: at least one segment.
pub open spec fn path_wf(p: PathV) -> bool {
    p.segments.len() >= 1
}

/// Whether a `::` separator stands at position `i`.
pub open spec fn dcolon_at(tts: Seq<TokenV>, i: int) -> bool {
    &&& 0 <= i
    &&& i + 2 <= tts.len()
    &&& tts[i] == TokenV::Punct(':', Spacing::Joint)
    &&& tts[i + 1] == TokenV::Punct(':', Spacing::Alone)
}

/// The two tokens of a `::` separator.
pub open spec fn dcolon_toks() -> Seq<TokenV> {
    seq![TokenV::Punct(':', Spacing::Joint), TokenV::Punct(':', Spacing::Alone)]
}

/// Parses `ident (:: ident)*` from position `pos`; returns the segments
/// and the position after them, or `None` on a hard failure.
pub open spec fn spec_parse_segments(tts: Seq<TokenV>, pos: int) -> Option<(Seq<Seq<char>>, int)>
    decreases tts.len() - pos,
{
    if pos < 0 || pos >= tts.len() {
        None
    } else {
        match tts[pos] {
            TokenV::Ident(name) => if dcolon_at(tts, pos + 1) {
                match spec_parse_segments(tts, pos + 3) {
                    Some((segs, q)) => Some((seq![name] + segs, q)),
                    None => None,
                }
            } else {
                Some((seq![name], pos + 1))
            },
            _ => None,
        }
    }
}

/// Parses a mod-style path from position `pos`.
pub open spec fn spec_parse_path(tts: Seq<TokenV>, pos: int) -> Option<(PathV, int)> {
    if dcolon_at(tts, pos) {
        match spec_parse_segments(tts, pos + 2) {
            Some((segs, q)) => Some((PathV { leading_colon: true, segments: segs }, q)),
            None => None,
        }
    } else {
        match spec_parse_segments(tts, pos) {
            Some((segs, q)) => Some((PathV { leading_colon: false, segments: segs }, q)),
            None => None,
        }
    }
}

/// The tokens of the segments, interleaved with `::` separators.
pub open spec fn spec_print_segments(segs: Seq<Seq<char>>) -> Seq<TokenV>
    decreases segs.len(),
{
    if segs.len() == 0 {
        Seq::empty()
    } else if segs.len() == 1 {
        seq![TokenV::Ident(segs[0])]
    } else {
        seq![TokenV::Ident(segs[0])] + dcolon_toks() + spec_print_segments(
            segs.subrange(1, segs.len() as int),
        )
    }
}

/// The tokens of a whole path.
pub open spec fn spec_print_path(p: PathV) -> Seq<TokenV> {
    (if p.leading_colon {
        dcolon_toks()
    } else {
        Seq::empty()
    }) + spec_print_segments(p.segments)
}

/// Parsing consumes at least one token and never passes the end.
pub proof fn lemma_parse_segments_bounds(tts: Seq<TokenV>, pos: int)
    requires
        spec_parse_segments(tts, pos) is Some,
    ensures
        ({
            let (segs, q) = spec_parse_segments(tts, pos)->Some_0;
            segs.len() >= 1 && pos < q <= tts.len()
        }),
    decreases tts.len() - pos,
{
    match tts[pos] {
        TokenV::Ident(name) => {
            if dcolon_at(tts, pos + 1) {
                lemma_parse_segments_bounds(tts, pos + 3);
            }
        },
        _ => {},
    }
}

/// Printing a well-formed path and parsing it back, with any continuation
/// that does not begin with a `::` separator, recovers the path exactly.
pub proof fn lemma_segments_roundtrip(segs: Seq<Seq<char>>, rest: Seq<TokenV>, pos: int)
    requires
        segs.len() >= 1,
        !dcolon_at(rest, 0),
        pos >= 0,
    ensures
        ({
            let whole = spec_print_segments(segs) + rest;
            forall|tts: Seq<TokenV>|
                tts.len() == pos + whole.len() && #[trigger] tts.subrange(pos, tts.len() as int)
                    =~= whole ==> spec_parse_segments(tts, pos) == Some::<(Seq<Seq<char>>, int)>(
                    (segs, pos + spec_print_segments(segs).len()),
                )
        }),
    decreases segs.len(),
{
    let printed = spec_print_segments(segs);
    let whole = printed + rest;
    assert forall|tts: Seq<TokenV>|
        tts.len() == pos + whole.len() && #[trigger] tts.subrange(pos, tts.len() as int)
            =~= whole implies spec_parse_segments(tts, pos) == Some::<(Seq<Seq<char>>, int)>(
        (segs, pos + printed.len()),
    ) by {
        assert(tts[pos] == whole[0]);
        if segs.len() == 1 {
            assert(whole[0] == TokenV::Ident(segs[0]));
            if dcolon_at(tts, pos + 1) {
                assert(tts[pos + 1] == whole[1]);
                assert(whole[1] == rest[0]);
                assert(tts[pos + 2] == whole[2]);
                assert(whole[2] == rest[1]);
                assert(dcolon_at(rest, 0));
            }
            assert(spec_parse_segments(tts, pos) == Some::<(Seq<Seq<char>>, int)>(
                (seq![segs[0]], pos + 1),
            ));
            assert(seq![segs[0]] =~= segs);
        } else {
            let tailsegs = segs.subrange(1, segs.len() as int);
            let tailprinted = spec_print_segments(tailsegs);
            assert(printed == seq![TokenV::Ident(segs[0])] + dcolon_toks() + tailprinted);
            assert(whole[0] == TokenV::Ident(segs[0]));
            assert(tts[pos + 1] == whole[1] && tts[pos + 2] == whole[2]);
            assert(whole[1] == TokenV::Punct(':', Spacing::Joint));
            assert(whole[2] == TokenV::Punct(':', Spacing::Alone));
            assert(dcolon_at(tts, pos + 1));
            lemma_segments_roundtrip(tailsegs, rest, pos + 3);
            assert(printed.len() == 3 + tailprinted.len());
            assert(forall|i: int|
                0 <= i < tailprinted.len() ==> printed[3 + i] == tailprinted[i]);
            let sub = tts.subrange(pos + 3, tts.len() as int);
            assert(sub.len() == (tailprinted + rest).len());
            assert forall|i: int| 0 <= i < sub.len() implies sub[i] == (tailprinted + rest)[i] by {
                assert(sub[i] == tts[pos + 3 + i]);
                assert(tts[pos + 3 + i] == tts.subrange(pos, tts.len() as int)[3 + i]);
                assert(tts.subrange(pos, tts.len() as int)[3 + i] == whole[3 + i]);
                if i < tailprinted.len() {
                    assert(whole[3 + i] == printed[3 + i]);
                } else {
                    assert(whole[3 + i] == rest[3 + i - printed.len()]);
                }
            }
            assert(sub =~= tailprinted + rest);
            assert(spec_parse_segments(tts, pos + 3) == Some::<(Seq<Seq<char>>, int)>(
                (tailsegs, pos + 3 + tailprinted.len()),
            ));
            assert(seq![segs[0]] + tailsegs =~= segs);
            assert(printed.len() == 3 + tailprinted.len());
        }
    }
}

/// Whether the token at `pos` is an identifier.
fn ident_at(tts: &Vec<Token>, pos: usize) -> (r: Option<String>)
    ensures
        ({
            let vt = toks_view(tts@);
            match r {
                Some(s) => pos < vt.len() && vt[pos as int] == TokenV::Ident(s@),
                None => pos >= vt.len() || !(vt[pos as int] is Ident),
            }
        }),
{
    proof {
        lemma_toks_view_elems(tts@);
    }
    if pos < tts.len() {
        match &tts[pos] {
            Token::Ident(s) => Some(s.clone()),
            _ => None,
        }
    } else {
        None
    }
}

/// Whether a `::` separator stands at position `pos`.
pub(crate) fn dcolon_at_exec(tts: &Vec<Token>, pos: usize) -> (b: bool)
    ensures
        b == dcolon_at(toks_view(tts@), pos as int),
{
    proof {
        lemma_toks_view_elems(tts@);
    }
    if pos < tts.len() && pos + 1 < tts.len() {
        let first = match &tts[pos] {
            Token::Punct(c, sp) => *c == ':' && *sp == Spacing::Joint,
            _ => false,
        };
        let second = match &tts[pos + 1] {
            Token::Punct(c, sp) => *c == ':' && *sp == Spacing::Alone,
            _ => false,
        };
        first && second
    } else {
        false
    }
}

/// Parses `ident (:: ident)*` from position `pos`.
fn parse_segments(tts: &Vec<Token>, pos: usize) -> (r: Option<(Vec<String>, usize)>)
    ensures
        ({
            let s = spec_parse_segments(toks_view(tts@), pos as int);
            match r {
                Some((segs, q)) => s == Some::<(Seq<Seq<char>>, int)>(
                    (Seq::new(segs@.len(), |i: int| segs@[i]@), q as int),
                ) && q <= tts@.len(),
                None => s is None,
            }
        }),
    decreases tts@.len() - pos,
{
    proof {
        lemma_toks_view_elems(tts@);
    }
    let ghost vt = toks_view(tts@);
    match ident_at(tts, pos) {
        None => None,
        Some(name) => {
            let ghost gname = name@;
            let n = tts.len();
            proof {
                assert(n == tts@.len());
                assert(pos < n);
            }
            if dcolon_at_exec(tts, pos + 1) {
                proof {
                    assert(pos + 3 <= n);
                }
                match parse_segments(tts, pos + 3) {
                    None => None,
                    Some((segs, q)) => {
                        let mut out: Vec<String> = Vec::new();
                        out.push(name);
                        let mut j: usize = 0;
                        while j < segs.len()
                            invariant
                                j <= segs@.len(),
                                out@.len() == j + 1,
                                out@[0]@ == gname,
                                forall|k: int| 0 <= k < j ==> out@[k + 1] == segs@[k],
                            decreases segs@.len() - j,
                        {
                            out.push(segs[j].clone());
                            j = j + 1;
                        }
                        proof {
                            let lhs = Seq::new(out@.len(), |i: int| out@[i]@);
                            let tail = Seq::new(segs@.len(), |i: int| segs@[i]@);
                            assert(lhs =~= seq![gname] + tail);
                        }
                        Some((out, q))
                    },
                }
            } else {
                let mut out: Vec<String> = Vec::new();
                out.push(name);
                proof {
                    assert(Seq::new(out@.len(), |i: int| out@[i]@) =~= seq![gname]);
                }
                Some((out, pos + 1))
            }
        },
    }
}

/// Parses a mod-style path from position `pos`; returns the path and the
/// position after it, or `None` on a hard failure.
pub fn parse_path(tts: &Vec<Token>, pos: usize) -> (r: Option<(Path, usize)>)
    ensures
        ({
            let s = spec_parse_path(toks_view(tts@), pos as int);
            match r {
                Some((p, q)) => s == Some::<(PathV, int)>((p@, q as int)) && q <= tts@.len()
                    && path_wf(p@),
                None => s is None,
            }
        }),
{
    proof {
        lemma_toks_view_elems(tts@);
    }
    let n = tts.len();
    let leading = dcolon_at_exec(tts, pos);
    let start = if leading {
        proof {
            assert(pos + 2 <= n);
        }
        pos + 2
    } else {
        pos
    };
    match parse_segments(tts, start) {
        None => None,
        Some((segs, q)) => {
            proof {
                lemma_parse_segments_bounds(toks_view(tts@), start as int);
            }
            Some((Path { leading_colon: leading, segments: segs }, q))
        },
    }
}

/// Appends the tokens of the segments from `j` on to `tokens`.
fn print_segments_from(segs: &Vec<String>, j: usize, tokens: &mut Vec<Token>)
    requires
        j <= segs@.len(),
    ensures
        toks_view(final(tokens)@) == toks_view(old(tokens)@) + spec_print_segments(
            strs_view(segs@).skip(j as int),
        ),
    decreases segs@.len() - j,
{
    let ghost sv = strs_view(segs@);
    if j >= segs.len() {
        proof {
            assert(sv.skip(j as int) =~= Seq::<Seq<char>>::empty());
            assert(toks_view(tokens@) =~= toks_view(tokens@) + spec_print_segments(
                Seq::<Seq<char>>::empty(),
            ));
        }
    } else {
        let ghost t0 = tokens@;
        let tok = Token::Ident(segs[j].clone());
        tokens.push(tok);
        proof {
            crate::token::lemma_toks_view_push(t0, Token::Ident(segs@[j as int]));
        }
        if j + 1 < segs.len() {
            let ghost t1 = tokens@;
            tokens.push(Token::Punct(':', Spacing::Joint));
            tokens.push(Token::Punct(':', Spacing::Alone));
            proof {
                crate::token::lemma_toks_view_push(t1, Token::Punct(':', Spacing::Joint));
                crate::token::lemma_toks_view_push(
                    t1.push(Token::Punct(':', Spacing::Joint)),
                    Token::Punct(':', Spacing::Alone),
                );
            }
            print_segments_from(segs, j + 1, tokens);
            proof {
                let tail = sv.skip(j as int);
                assert(tail.len() >= 2);
                assert(tail[0] == sv[j as int]);
                assert(tail.subrange(1, tail.len() as int) =~= sv.skip(j as int + 1));
                assert(spec_print_segments(tail) == seq![TokenV::Ident(sv[j as int])]
                    + dcolon_toks() + spec_print_segments(sv.skip(j as int + 1)));
                assert(toks_view(tokens@) =~= toks_view(old(tokens)@) + spec_print_segments(
                    tail,
                ));
            }
        } else {
            proof {
                let tail = sv.skip(j as int);
                assert(tail.len() == 1);
                assert(tail[0] == sv[j as int]);
                assert(spec_print_segments(tail) == seq![TokenV::Ident(sv[j as int])]);
                assert(toks_view(tokens@) =~= toks_view(old(tokens)@) + spec_print_segments(
                    tail,
                ));
            }
        }
    }
}

/// Appends the tokens of `p` to `tokens`.
pub fn print_path(p: &Path, tokens: &mut Vec<Token>)
    ensures
        toks_view(final(tokens)@) == toks_view(old(tokens)@) + spec_print_path(p@),
{
    if p.leading_colon {
        let ghost t0 = tokens@;
        tokens.push(Token::Punct(':', Spacing::Joint));
        tokens.push(Token::Punct(':', Spacing::Alone));
        proof {
            crate::token::lemma_toks_view_push(t0, Token::Punct(':', Spacing::Joint));
            crate::token::lemma_toks_view_push(
                t0.push(Token::Punct(':', Spacing::Joint)),
                Token::Punct(':', Spacing::Alone),
            );
        }
    }
    print_segments_from(&p.segments, 0, tokens);
    proof {
        assert(strs_view(p.segments@).skip(0) =~= p@.segments);
        assert(toks_view(tokens@) =~= toks_view(old(tokens)@) + spec_print_path(p@));
    }
}

} // verus!
