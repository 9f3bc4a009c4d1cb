//! Splits declaration text into tokens: identifiers, string literals and
//! punctuation.
use crate::arguments::is_ident_char;
use crate::text::{chars_of, string_of_range};
use vstd::prelude::*;

verus! {

/// A token: an identifier, a string literal (its contents; no escapes), or
/// a punctuation character (as a one-character string).
pub enum Token {
    Ident(String),
    Str(String),
    Punct(String),
}

pub enum TokenView {
    Ident(Seq<char>),
    Str(Seq<char>),
    Punct(Seq<char>),
}

impl View for Token {
    type V = TokenView;

    open spec fn view(&self) -> TokenView {
        match self {
            Token::Ident(s) => TokenView::Ident(s@),
            Token::Str(s) => TokenView::Str(s@),
            Token::Punct(p) => TokenView::Punct(p@),
        }
    }
}

pub open spec fn token_views(v: Seq<Token>) -> Seq<TokenView> {
    v.map_values(|t: Token| t@)
}

pub open spec fn is_space(c: char) -> bool {
    c == ' ' || c == '\t' || c == '\n' || c == '\r'
}

/// The end of the identifier run starting at `i`.
pub open spec fn ident_end(s: Seq<char>, i: int) -> int
    decreases s.len() - i,
{
    if i < 0 || i >= s.len() || !is_ident_char(s[i]) {
        i
    } else {
        ident_end(s, i + 1)
    }
}

/// The first `"` at or after `i` (the length when there is none).
pub open spec fn quote_end(s: Seq<char>, i: int) -> int
    decreases s.len() - i,
{
    if i < 0 || i >= s.len() {
        s.len() as int
    } else if s[i] == '"' {
        i
    } else {
        quote_end(s, i + 1)
    }
}

pub open spec fn prepend(front: Seq<TokenView>, rest: Option<Seq<TokenView>>) -> Option<Seq<TokenView>> {
    match rest {
        Some(r) => Some(front + r),
        None => None,
    }
}

/// The tokens of `s` from position `i`; `None` for an unterminated string.
pub open spec fn lex_from(s: Seq<char>, i: int) -> Option<Seq<TokenView>>
    decreases s.len() - i,
{
    if i < 0 || i >= s.len() {
        Some(seq![])
    } else if is_space(s[i]) {
        lex_from(s, i + 1)
    } else if is_ident_char(s[i]) {
        let j = ident_end(s, i);
        if j > i && j <= s.len() {
            prepend(seq![TokenView::Ident(s.subrange(i, j))], lex_from(s, j))
        } else {
            None
        }
    } else if s[i] == '"' {
        let j = quote_end(s, i + 1);
        if j < s.len() && j > i {
            prepend(seq![TokenView::Str(s.subrange(i + 1, j))], lex_from(s, j + 1))
        } else {
            None
        }
    } else {
        prepend(seq![TokenView::Punct(seq![s[i]])], lex_from(s, i + 1))
    }
}

pub open spec fn lex(s: Seq<char>) -> Option<Seq<TokenView>> {
    lex_from(s, 0)
}

proof fn lemma_ident_end(s: Seq<char>, i: int)
    requires
        0 <= i <= s.len(),
    ensures
        i <= ident_end(s, i) <= s.len(),
        forall|m: int| i <= m < ident_end(s, i) ==> is_ident_char(s[m]),
        ident_end(s, i) < s.len() ==> !is_ident_char(s[ident_end(s, i)]),
    decreases s.len() - i,
{
    if i < s.len() && is_ident_char(s[i]) {
        lemma_ident_end(s, i + 1);
    }
}

proof fn lemma_quote_end(s: Seq<char>, i: int)
    requires
        0 <= i,
    ensures
        (i <= quote_end(s, i) <= s.len()) || (i > s.len() && quote_end(s, i) == s.len()),
        quote_end(s, i) < s.len() ==> s[quote_end(s, i)] == '"',
    decreases s.len() - i,
{
    if i < s.len() && s[i] != '"' {
        lemma_quote_end(s, i + 1);
    }
}

proof fn lemma_prepend(a: Seq<TokenView>, b: Seq<TokenView>, rest: Option<Seq<TokenView>>)
    ensures
        prepend(a, prepend(b, rest)) == prepend(a + b, rest),
{
    if let Some(r) = rest {
        assert(a + (b + r) =~= (a + b) + r);
    }
}

fn is_ident_char_exec(c: char) -> (r: bool)
    ensures
        r == is_ident_char(c),
{
    ('a' <= c && c <= 'z') || ('A' <= c && c <= 'Z') || ('0' <= c && c <= '9') || c == '_'
}

proof fn lemma_lex_punct(s: Seq<char>, i: int, before: Seq<TokenView>)
    requires
        0 <= i < s.len(),
        !is_space(s[i]),
        !is_ident_char(s[i]),
        s[i] != '"',
    ensures
        prepend(before, lex_from(s, i)) == prepend(before + seq![TokenView::Punct(seq![s[i]])], lex_from(s, i + 1)),
{
    let tok = seq![TokenView::Punct(seq![s[i]])];
    lemma_prepend(before, tok, lex_from(s, i + 1));
}

fn push_token(out: &mut Vec<Token>, t: Token)
    ensures
        token_views(final(out)@) == token_views(old(out)@) + seq![t@],
{
    let ghost before = out@;
    out.push(t);
    assert(token_views(out@) =~= token_views(before) + seq![t@]) by {
        assert(out@[before.len() as int] == t);
    }
}

/// Splits text into tokens; `None` when a string literal is not closed.
pub fn tokenize(text: &str) -> (r: Option<Vec<Token>>)
    ensures
        match r {
            Some(t) => lex(text@) == Some(token_views(t@)),
            None => lex(text@) is None,
        },
{
    let c = chars_of(text);
    let len = c.len();
    let mut out: Vec<Token> = Vec::new();
    let mut i: usize = 0;
    assert(token_views(out@) =~= Seq::<TokenView>::empty());
    assert(prepend(seq![], lex_from(text@, 0)) == lex_from(text@, 0)) by {
        if let Some(r) = lex_from(text@, 0) {
            assert(Seq::<TokenView>::empty() + r =~= r);
        }
    }
    while i < len
        invariant
            len == c@.len(),
            c@ == text@,
            i <= len,
            lex(text@) == prepend(token_views(out@), lex_from(text@, i as int)),
        decreases len - i,
    {
        let x = c[i];
        let ghost before = token_views(out@);
        assert(x == text@[i as int]);
        if x == ' ' || x == '\t' || x == '\n' || x == '\r' {
            assert(lex_from(text@, i as int) == lex_from(text@, i + 1));
            i = i + 1;
        } else if is_ident_char_exec(x) {
            let mut j: usize = i;
            while j < len && is_ident_char_exec(c[j])
                invariant
                    len == c@.len(),
                    c@ == text@,
                    i <= j <= len,
                    ident_end(text@, j as int) == ident_end(text@, i as int),
                decreases len - j,
            {
                j = j + 1;
            }
            proof {
                lemma_ident_end(text@, i as int);
            }
            push_token(&mut out, Token::Ident(string_of_range(text, i, j)));
            proof {
                let tok = seq![TokenView::Ident(text@.subrange(i as int, j as int))];
                assert(ident_end(text@, j as int) == j);
                assert(lex_from(text@, i as int) == prepend(tok, lex_from(text@, j as int)));
                lemma_prepend(before, tok, lex_from(text@, j as int));
            }
            i = j;
        } else if x == '"' {
            let mut j: usize = i + 1;
            while j < len && c[j] != '"'
                invariant
                    len == c@.len(),
                    c@ == text@,
                    i < j <= len,
                    quote_end(text@, j as int) == quote_end(text@, i + 1),
                decreases len - j,
            {
                j = j + 1;
            }
            proof {
                lemma_quote_end(text@, i + 1);
            }
            if j >= len {
                return None;
            }
            push_token(&mut out, Token::Str(string_of_range(text, i + 1, j)));
            proof {
                let tok = seq![TokenView::Str(text@.subrange(i + 1, j as int))];
                assert(quote_end(text@, j as int) == j);
                assert(lex_from(text@, i as int) == prepend(tok, lex_from(text@, j + 1)));
                lemma_prepend(before, tok, lex_from(text@, j + 1));
            }
            i = j + 1;
        } else {
            let one = string_of_range(text, i, i + 1);
            assert(one@ =~= seq![text@[i as int]]);
            push_token(&mut out, Token::Punct(one));
            proof {
                lemma_lex_punct(text@, i as int, before);
            }
            i = i + 1;
        }
    }
    proof {
        assert(token_views(out@) + Seq::<TokenView>::empty() =~= token_views(out@));
    }
    Some(out)
}

} // verus!
