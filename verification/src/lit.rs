//! The literal-text model: just enough of the string-literal surface form
//! for doc-comment desugaring and resugaring.
//!
//! A doc comment is desugared into a string literal whose value is the
//! entire comment text; resugaring reads that value back. `quote_text`
//! renders a text as a quoted string literal, `lit_value` recovers the
//! value of such a literal, and `lemma_lit_value_quote` shows the round
//! trip. The escape set covers the quote, the backslash and the common
//! control characters; a literal using any other escape is simply not
//! recognized as a string literal by this model.

use vstd::prelude::*;

verus! {

/// The escaped rendering of one character inside a string literal.
pub open spec fn esc_char(c: char) -> Seq<char> {
    if c == '"' {
        seq!['\\', '"']
    } else if c == '\\' {
        seq!['\\', '\\']
    } else if c == '\n' {
        seq!['\\', 'n']
    } else if c == '\r' {
        seq!['\\', 'r']
    } else if c == '\t' {
        seq!['\\', 't']
    } else {
        seq![c]
    }
}

/// The escaped rendering of a text.
pub open spec fn escape_text(s: Seq<char>) -> Seq<char>
    decreases s.len(),
{
    if s.len() == 0 {
        Seq::empty()
    } else {
        esc_char(s[0]) + escape_text(s.subrange(1, s.len() as int))
    }
}

/// The rendered form of a string literal with value `s`.
pub open spec fn quote_text(s: Seq<char>) -> Seq<char> {
    seq!['"'] + escape_text(s) + seq!['"']
}

/// The character denoted by the escape `\c`, if any.
pub open spec fn unesc_char(c: char) -> Option<char> {
    if c == '"' {
        Some('"')
    } else if c == '\\' {
        Some('\\')
    } else if c == 'n' {
        Some('\n')
    } else if c == 'r' {
        Some('\r')
    } else if c == 't' {
        Some('\t')
    } else {
        None
    }
}

/// The value denoted by the interior of a string literal, reading escapes;
/// `None` where the interior is not a valid rendering.
pub open spec fn unescape_text(s: Seq<char>) -> Option<Seq<char>>
    decreases s.len(),
{
    if s.len() == 0 {
        Some(Seq::empty())
    } else if s[0] == '\\' {
        if s.len() >= 2 {
            match unesc_char(s[1]) {
                Some(c) => match unescape_text(s.subrange(2, s.len() as int)) {
                    Some(t) => Some(seq![c] + t),
                    None => None,
                },
                None => None,
            }
        } else {
            None
        }
    } else if s[0] == '"' {
        None
    } else {
        match unescape_text(s.subrange(1, s.len() as int)) {
            Some(t) => Some(seq![s[0]] + t),
            None => None,
        }
    }
}

/// The value of a rendered string literal, or `None` where the text is not
/// a string literal this model recognizes.
pub open spec fn lit_value(q: Seq<char>) -> Option<Seq<char>> {
    if q.len() >= 2 && q[0] == '"' && q[q.len() - 1] == '"' {
        unescape_text(q.subrange(1, q.len() - 1))
    } else {
        None
    }
}

/// Whether a literal's rendered text is a string literal of this model.
pub open spec fn is_str_lit(q: Seq<char>) -> bool {
    lit_value(q) is Some
}

/// Unescaping inverts escaping.
pub proof fn lemma_unescape_escape(s: Seq<char>)
    ensures
        unescape_text(escape_text(s)) == Some(s),
    decreases s.len(),
{
    if s.len() == 0 {
        assert(escape_text(s) =~= Seq::<char>::empty());
    } else {
        let tail = s.subrange(1, s.len() as int);
        lemma_unescape_escape(tail);
        let e = escape_text(s);
        let h = esc_char(s[0]);
        assert(e == h + escape_text(tail));
        if s[0] == '"' || s[0] == '\\' || s[0] == '\n' || s[0] == '\r' || s[0] == '\t' {
            assert(h.len() == 2 && h[0] == '\\');
            assert(e[0] == '\\' && e[1] == h[1]);
            assert(unesc_char(h[1]) == Some(s[0]));
            assert(e.subrange(2, e.len() as int) =~= escape_text(tail));
            assert(seq![s[0]] + tail =~= s);
        } else {
            assert(h =~= seq![s[0]]);
            assert(e[0] == s[0]);
            assert(e[0] != '\\' && e[0] != '"');
            assert(e.subrange(1, e.len() as int) =~= escape_text(tail));
            assert(seq![s[0]] + tail =~= s);
        }
    }
}

/// Reading the value of a quoted text gives the text back.
pub proof fn lemma_lit_value_quote(s: Seq<char>)
    ensures
        lit_value(quote_text(s)) == Some(s),
        is_str_lit(quote_text(s)),
{
    let q = quote_text(s);
    assert(q[0] == '"');
    assert(q[q.len() - 1] == '"');
    assert(q.subrange(1, q.len() - 1) =~= escape_text(s));
    lemma_unescape_escape(s);
}

/// Escaping distributes over concatenation.
pub proof fn lemma_escape_concat(a: Seq<char>, b: Seq<char>)
    ensures
        escape_text(a + b) == escape_text(a) + escape_text(b),
    decreases a.len(),
{
    if a.len() == 0 {
        assert(a + b =~= b);
        assert(escape_text(a) + escape_text(b) =~= escape_text(b));
    } else {
        let tail = a.subrange(1, a.len() as int);
        lemma_escape_concat(tail, b);
        assert((a + b).subrange(1, (a + b).len() as int) =~= tail + b);
        assert((a + b)[0] == a[0]);
        assert(escape_text(a + b) =~= escape_text(a) + escape_text(b));
    }
}

/// Relies on `String::push`: appends the given character at the end.
#[verifier::external_body]
pub(crate) fn push_char(s: &mut String, c: char)
    ensures
        final(s)@ == old(s)@.push(c),
{
    s.push(c);
}

/// Renders `s` as a quoted string literal.
#[verifier::loop_isolation(false)]
pub fn quote_string(s: &str) -> (r: String)
    ensures
        r@ == quote_text(s@),
{
    let n = s.unicode_len();
    let mut out = String::new();
    push_char(&mut out, '"');
    let mut i: usize = 0;
    while i < n
        invariant
            i <= n,
            n == s@.len(),
            out@ == seq!['"'] + escape_text(s@.subrange(0, i as int)),
        decreases n - i,
    {
        let c = s.get_char(i);
        if c == '"' || c == '\\' {
            push_char(&mut out, '\\');
            push_char(&mut out, c);
        } else if c == '\n' {
            push_char(&mut out, '\\');
            push_char(&mut out, 'n');
        } else if c == '\r' {
            push_char(&mut out, '\\');
            push_char(&mut out, 'r');
        } else if c == '\t' {
            push_char(&mut out, '\\');
            push_char(&mut out, 't');
        } else {
            push_char(&mut out, c);
        }
        proof {
            let pre = s@.subrange(0, i as int);
            assert(pre + seq![s@[i as int]] =~= s@.subrange(0, i as int + 1));
            lemma_escape_concat(pre, seq![s@[i as int]]);
            assert(escape_text(seq![s@[i as int]].subrange(1, 1)) =~= Seq::<char>::empty());
            assert(escape_text(seq![s@[i as int]]) =~= esc_char(s@[i as int]));
            assert(out@ =~= seq!['"'] + escape_text(s@.subrange(0, i as int + 1)));
        }
        i = i + 1;
    }
    push_char(&mut out, '"');
    proof {
        assert(s@.subrange(0, s@.len() as int) =~= s@);
        assert(out@ =~= quote_text(s@));
    }
    out
}

/// Recovers the value of a string literal from position `i` of its interior.
fn unescape_from(s: &str, i: usize, end: usize) -> (r: Option<String>)
    requires
        i <= end,
        end <= s@.len(),
    ensures
        match r {
            Some(v) => unescape_text(s@.subrange(i as int, end as int)) == Some(v@),
            None => unescape_text(s@.subrange(i as int, end as int)) is None,
        },
    decreases end - i,
{
    let ghost part = s@.subrange(i as int, end as int);
    if i == end {
        proof {
            assert(part =~= Seq::<char>::empty());
        }
        Some(String::new())
    } else {
        let c = s.get_char(i);
        proof {
            assert(part[0] == s@[i as int]);
        }
        if c == '\\' {
            if i + 1 == end {
                return None;
            }
            let c2 = s.get_char(i + 1);
            let u = if c2 == '"' {
                Some('"')
            } else if c2 == '\\' {
                Some('\\')
            } else if c2 == 'n' {
                Some('\n')
            } else if c2 == 'r' {
                Some('\r')
            } else if c2 == 't' {
                Some('\t')
            } else {
                None
            };
            proof {
                assert(part[1] == s@[i as int + 1]);
                assert(u == unesc_char(part[1]));
            }
            match u {
                None => None,
                Some(uc) => {
                    match unescape_from(s, i + 2, end) {
                        None => {
                            proof {
                                assert(part.subrange(2, part.len() as int) =~= s@.subrange(
                                    i as int + 2,
                                    end as int,
                                ));
                            }
                            None
                        },
                        Some(rest) => {
                            let mut out = String::new();
                            push_char(&mut out, uc);
                            out.append(rest.as_str());
                            proof {
                                assert(part.subrange(2, part.len() as int) =~= s@.subrange(
                                    i as int + 2,
                                    end as int,
                                ));
                                assert(out@ =~= seq![uc] + rest@);
                            }
                            Some(out)
                        },
                    }
                },
            }
        } else if c == '"' {
            None
        } else {
            match unescape_from(s, i + 1, end) {
                None => {
                    proof {
                        assert(part.subrange(1, part.len() as int) =~= s@.subrange(
                            i as int + 1,
                            end as int,
                        ));
                    }
                    None
                },
                Some(rest) => {
                    let mut out = String::new();
                    push_char(&mut out, c);
                    out.append(rest.as_str());
                    proof {
                        assert(part.subrange(1, part.len() as int) =~= s@.subrange(
                            i as int + 1,
                            end as int,
                        ));
                        assert(out@ =~= seq![c] + rest@);
                    }
                    Some(out)
                },
            }
        }
    }
}

/// The value of a rendered string literal, or `None` where `q` is not a
/// string literal this model recognizes.
pub fn str_lit_value(q: &str) -> (r: Option<String>)
    ensures
        match r {
            Some(v) => lit_value(q@) == Some(v@),
            None => lit_value(q@) is None,
        },
{
    let n = q.unicode_len();
    if n < 2 {
        return None;
    }
    if q.get_char(0) != '"' || q.get_char(n - 1) != '"' {
        return None;
    }
    unescape_from(q, 1, n - 1)
}

/// Whether the text begins with an outer doc-comment prefix.
pub open spec fn outer_doc_text(s: Seq<char>) -> bool {
    s.len() >= 3 && s[0] == '/' && ((s[1] == '/' && s[2] == '/') || (s[1] == '*' && s[2] == '*'))
}

/// Whether the text begins with an inner doc-comment prefix.
pub open spec fn inner_doc_text(s: Seq<char>) -> bool {
    s.len() >= 3 && s[0] == '/' && ((s[1] == '/' && s[2] == '!') || (s[1] == '*' && s[2] == '!'))
}

/// Whether `s` begins with `///` or `/**`.
pub fn starts_outer_doc(s: &str) -> (b: bool)
    ensures
        b == outer_doc_text(s@),
{
    let n = s.unicode_len();
    if n < 3 {
        return false;
    }
    let c0 = s.get_char(0);
    let c1 = s.get_char(1);
    let c2 = s.get_char(2);
    c0 == '/' && ((c1 == '/' && c2 == '/') || (c1 == '*' && c2 == '*'))
}

/// Whether `s` begins with `//!` or `/*!`.
pub fn starts_inner_doc(s: &str) -> (b: bool)
    ensures
        b == inner_doc_text(s@),
{
    let n = s.unicode_len();
    if n < 3 {
        return false;
    }
    let c0 = s.get_char(0);
    let c1 = s.get_char(1);
    let c2 = s.get_char(2);
    c0 == '/' && ((c1 == '/' && c2 == '!') || (c1 == '*' && c2 == '!'))
}

} // verus!
