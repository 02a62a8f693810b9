//! The token model: atomic lexical units that annotation bodies are made of.
//!
//! A token is an identifier, a literal (carried as its rendered text), a
//! single punctuation character with its spacing, or a delimited group
//! holding a nested token sequence. The spec-level mirror `TokenV` carries
//! the same structure over `Seq`, and `tok_view` / `toks_view` relate the
//! two.

use vstd::prelude::*;

verus! {

/// Whether a punctuation character is joined to the next token without
/// intervening space (`Joint`), or stands on its own (`Alone`).
#[derive(Clone, Copy, PartialEq, Eq, Hash, Debug, Structural)]
pub enum Spacing {
    Alone,
    Joint,
}

/// The delimiter kind of a token group.
#[derive(Clone, Copy, PartialEq, Eq, Hash, Debug, Structural)]
pub enum Delim {
    Paren,
    Bracket,
    Brace,
}

/// One lexical token. Literals are carried as their rendered source text
/// (so a string literal's text includes its quotes).
#[derive(PartialEq, Eq, Hash, Debug)]
pub enum Token {
    Ident(String),
    Lit(String),
    Punct(char, Spacing),
    Group(Delim, Vec<Token>),
}

/// Spec-level token value: the same shape as `Token`, over `Seq`.
#[verifier::ext_equal]
pub enum TokenV {
    Ident(Seq<char>),
    Lit(Seq<char>),
    Punct(char, Spacing),
    Group(Delim, Seq<TokenV>),
}

/// The spec value of one token.
pub open spec fn tok_view(t: Token) -> TokenV
    decreases t,
{
    match t {
        Token::Ident(s) => TokenV::Ident(s@),
        Token::Lit(s) => TokenV::Lit(s@),
        Token::Punct(c, sp) => TokenV::Punct(c, sp),
        Token::Group(d, ts) => TokenV::Group(d, toks_view(ts@)),
    }
}

/// The spec value of a token sequence, elementwise.
pub open spec fn toks_view(ts: Seq<Token>) -> Seq<TokenV>
    decreases ts,
{
    if ts.len() == 0 {
        Seq::empty()
    } else {
        seq![tok_view(ts[0])] + toks_view(ts.subrange(1, ts.len() as int))
    }
}

/// `toks_view` is the elementwise image: same length, `tok_view` at each index.
pub proof fn lemma_toks_view_elems(ts: Seq<Token>)
    ensures
        toks_view(ts).len() == ts.len(),
        forall|i: int| 0 <= i < ts.len() ==> toks_view(ts)[i] == tok_view(ts[i]),
    decreases ts,
{
    if ts.len() > 0 {
        let tail = ts.subrange(1, ts.len() as int);
        lemma_toks_view_elems(tail);
        assert forall|i: int| 0 <= i < ts.len() implies toks_view(ts)[i] == tok_view(ts[i]) by {
            if i > 0 {
                assert(tail[i - 1] == ts[i]);
            }
        }
    }
}

/// `toks_view` distributes over concatenation.
pub proof fn lemma_toks_view_concat(a: Seq<Token>, b: Seq<Token>)
    ensures
        toks_view(a + b) == toks_view(a) + toks_view(b),
    decreases a,
{
    if a.len() == 0 {
        assert(a + b =~= b);
        assert(toks_view(a) + toks_view(b) =~= toks_view(b));
    } else {
        let tail = a.subrange(1, a.len() as int);
        lemma_toks_view_concat(tail, b);
        assert((a + b).subrange(1, (a + b).len() as int) =~= tail + b);
        assert((a + b)[0] == a[0]);
        assert(toks_view(a + b) =~= toks_view(a) + toks_view(b));
    }
}

/// `toks_view` commutes with taking a subrange.
pub proof fn lemma_toks_view_subrange(s: Seq<Token>, i: int, j: int)
    requires
        0 <= i <= j <= s.len(),
    ensures
        toks_view(s.subrange(i, j)) == toks_view(s).subrange(i, j),
{
    lemma_toks_view_elems(s);
    lemma_toks_view_elems(s.subrange(i, j));
    assert(toks_view(s.subrange(i, j)) =~= toks_view(s).subrange(i, j));
}

/// `toks_view` of a one-token sequence.
pub proof fn lemma_toks_view_singleton(t: Token)
    ensures
        toks_view(seq![t]) == seq![tok_view(t)],
{
    assert(seq![t].subrange(1, 1) =~= Seq::<Token>::empty());
    assert(toks_view(Seq::<Token>::empty()) =~= Seq::<TokenV>::empty());
    assert(toks_view(seq![t]) =~= seq![tok_view(t)]);
}

/// `toks_view` of a sequence extended by one token.
pub proof fn lemma_toks_view_push(s: Seq<Token>, t: Token)
    ensures
        toks_view(s.push(t)) == toks_view(s) + seq![tok_view(t)],
{
    assert(s.push(t) =~= s + seq![t]);
    lemma_toks_view_concat(s, seq![t]);
    lemma_toks_view_singleton(t);
}

/// An exact copy of one token.
#[verifier::loop_isolation(false)]
pub fn dup_token(t: &Token) -> (r: Token)
    ensures
        tok_view(r) == tok_view(*t),
    decreases *t,
{
    match t {
        Token::Ident(s) => Token::Ident(s.clone()),
        Token::Lit(s) => Token::Lit(s.clone()),
        Token::Punct(c, sp) => Token::Punct(*c, *sp),
        Token::Group(d, ts) => {
            let mut v: Vec<Token> = Vec::new();
            let mut i: usize = 0;
            while i < ts.len()
                invariant
                    i <= ts.len(),
                    toks_view(v@) == toks_view(ts@.subrange(0, i as int)),
                decreases ts.len() - i,
            {
                proof {
                    assert(decreases_to!(*t => *ts));
                    assert(decreases_to!(*ts => ts@));
                    assert(decreases_to!(ts@ => ts@[i as int]));
                }
                let t2 = dup_token(&ts[i]);
                proof {
                    assert(ts@.subrange(0, i as int).push(ts@[i as int]) =~= ts@.subrange(
                        0,
                        i as int + 1,
                    ));
                    lemma_toks_view_push(ts@.subrange(0, i as int), ts@[i as int]);
                    lemma_toks_view_push(v@, t2);
                }
                v.push(t2);
                i = i + 1;
            }
            proof {
                assert(ts@.subrange(0, ts@.len() as int) =~= ts@);
            }
            Token::Group(*d, v)
        }
    }
}

/// An exact copy of the tokens in positions `from..to`.
#[verifier::loop_isolation(false)]
pub fn dup_tokens(ts: &Vec<Token>, from: usize, to: usize) -> (r: Vec<Token>)
    requires
        from <= to <= ts@.len(),
    ensures
        toks_view(r@) == toks_view(ts@.subrange(from as int, to as int)),
{
    let mut v: Vec<Token> = Vec::new();
    let mut i: usize = from;
    while i < to
        invariant
            from <= i <= to <= ts@.len(),
            toks_view(v@) == toks_view(ts@.subrange(from as int, i as int)),
        decreases to - i,
    {
        let t2 = dup_token(&ts[i]);
        proof {
            assert(ts@.subrange(from as int, i as int).push(ts@[i as int]) =~= ts@.subrange(
                from as int,
                i as int + 1,
            ));
            lemma_toks_view_push(ts@.subrange(from as int, i as int), ts@[i as int]);
            lemma_toks_view_push(v@, t2);
        }
        v.push(t2);
        i = i + 1;
    }
    v
}

} // verus!
