//! Tokenizer for RFC 4512 schema description strings.
use vstd::prelude::*;

use crate::text::{chars_of, string_of_range};

verus! {

pub enum Token {
    LParen,
    RParen,
    /// OID, keyword, or bare word
    Word(String),
    /// 'content'
    Quoted(String),
}

pub enum TokenView {
    LParen,
    RParen,
    Word(Seq<char>),
    Quoted(Seq<char>),
}

impl View for Token {
    type V = TokenView;

    open spec fn view(&self) -> TokenView {
        match self {
            Token::LParen => TokenView::LParen,
            Token::RParen => TokenView::RParen,
            Token::Word(w) => TokenView::Word(w@),
            Token::Quoted(q) => TokenView::Quoted(q@),
        }
    }
}

pub open spec fn token_views(v: Seq<Token>) -> Seq<TokenView> {
    v.map_values(|t: Token| t@)
}

/// Separators: whitespace and `$` (the list separator is treated as whitespace).
pub open spec fn is_sep(c: char) -> bool {
    c == ' ' || c == '\t' || c == '\n' || c == '\r' || c == '$'
}

/// Chars that end a bare word.
pub open spec fn is_delim(c: char) -> bool {
    is_sep(c) || c == '(' || c == ')' || c == '\''
}

/// Length of the longest prefix of `s` made of non-delimiters.
pub open spec fn word_len(s: Seq<char>) -> nat
    decreases s.len(),
{
    if s.len() == 0 || is_delim(s[0]) {
        0
    } else {
        1 + word_len(s.drop_first())
    }
}

/// Position of the first `'` in `s`, or its length when there is none.
pub open spec fn quote_len(s: Seq<char>) -> nat
    decreases s.len(),
{
    if s.len() == 0 || s[0] == '\'' {
        0
    } else {
        1 + quote_len(s.drop_first())
    }
}

/// The tokens of a schema description: separators are skipped, parentheses stand alone,
/// `'...'` is one quoted token (an unterminated quote runs to the end), and any other
/// run of non-delimiters is a word.
pub open spec fn tokens(s: Seq<char>) -> Seq<TokenView>
    decreases s.len(),
{
    if s.len() == 0 {
        Seq::empty()
    } else if is_sep(s[0]) {
        tokens(s.drop_first())
    } else if s[0] == '(' {
        seq![TokenView::LParen] + tokens(s.drop_first())
    } else if s[0] == ')' {
        seq![TokenView::RParen] + tokens(s.drop_first())
    } else if s[0] == '\'' {
        let body = s.drop_first();
        let k = quote_len(body);
        proof {
            lemma_quote_len(body);
        }
        seq![TokenView::Quoted(body.take(k as int))] + tokens(
            body.skip(if k < body.len() {
                k + 1int
            } else {
                k as int
            }),
        )
    } else {
        let k = word_len(s);
        proof {
            lemma_word_len(s);
            assert(k >= 1);
        }
        seq![TokenView::Word(s.take(k as int))] + tokens(s.skip(k as int))
    }
}

pub proof fn lemma_word_len(s: Seq<char>)
    ensures
        word_len(s) <= s.len(),
        forall|j: int| 0 <= j < word_len(s) ==> !is_delim(#[trigger] s[j]),
        word_len(s) < s.len() ==> is_delim(s[word_len(s) as int]),
    decreases s.len(),
{
    if s.len() > 0 && !is_delim(s[0]) {
        lemma_word_len(s.drop_first());
        assert forall|j: int| 0 <= j < word_len(s) implies !is_delim(#[trigger] s[j]) by {
            if j > 0 {
                assert(s[j] == s.drop_first()[j - 1]);
            }
        }
    }
}

pub proof fn lemma_quote_len(s: Seq<char>)
    ensures
        quote_len(s) <= s.len(),
        forall|j: int| 0 <= j < quote_len(s) ==> #[trigger] s[j] != '\'',
        quote_len(s) < s.len() ==> s[quote_len(s) as int] == '\'',
    decreases s.len(),
{
    if s.len() > 0 && s[0] != '\'' {
        lemma_quote_len(s.drop_first());
        assert forall|j: int| 0 <= j < quote_len(s) implies #[trigger] s[j] != '\'' by {
            if j > 0 {
                assert(s[j] == s.drop_first()[j - 1]);
            }
        }
    }
}

/// The word length counted from position `k` equals `word_len` of the suffix.
proof fn lemma_word_len_step(s: Seq<char>, k: int)
    requires
        0 <= k < s.len(),
        !is_delim(s[k]),
    ensures
        word_len(s.skip(k)) == 1 + word_len(s.skip(k + 1)),
{
    assert(s.skip(k).drop_first() =~= s.skip(k + 1));
}

proof fn lemma_quote_len_step(s: Seq<char>, k: int)
    requires
        0 <= k < s.len(),
        s[k] != '\'',
    ensures
        quote_len(s.skip(k)) == 1 + quote_len(s.skip(k + 1)),
{
    assert(s.skip(k).drop_first() =~= s.skip(k + 1));
}

pub fn is_sep_char(c: char) -> (r: bool)
    ensures
        r == is_sep(c),
{
    c == ' ' || c == '\t' || c == '\n' || c == '\r' || c == '$'
}

pub fn is_delim_char(c: char) -> (r: bool)
    ensures
        r == is_delim(c),
{
    is_sep_char(c) || c == '(' || c == ')' || c == '\''
}

/// Split an RFC 4512 schema description string into tokens.
/// `$` is a list separator (treated as whitespace).
pub fn tokenize(s: &str) -> (r: Vec<Token>)
    ensures
        token_views(r@) == tokens(s@),
{
    let cs = chars_of(s);
    let n = cs.len();
    let mut result: Vec<Token> = Vec::new();
    let mut pos: usize = 0;
    assert(cs@.skip(0) =~= cs@);
    while pos < n
        invariant
            n == cs@.len(),
            cs@ == s@,
            pos <= n,
            token_views(result@) + tokens(cs@.skip(pos as int)) == tokens(s@),
        decreases n - pos,
    {
        let c = cs[pos];
        let ghost rest = cs@.skip(pos as int);
        assert(rest[0] == c);
        if is_sep_char(c) {
            assert(rest.drop_first() =~= cs@.skip(pos + 1));
            pos += 1;
        } else if c == '(' {
            assert(rest.drop_first() =~= cs@.skip(pos + 1));
            assert(token_views(result@.push(Token::LParen)) =~= token_views(result@).push(TokenView::LParen));
            result.push(Token::LParen);
            pos += 1;
            assert(token_views(result@) + tokens(cs@.skip(pos as int)) =~= token_views(result@).take(token_views(result@).len() - 1) + (seq![TokenView::LParen] + tokens(cs@.skip(pos as int))));
        } else if c == ')' {
            assert(rest.drop_first() =~= cs@.skip(pos + 1));
            assert(token_views(result@.push(Token::RParen)) =~= token_views(result@).push(TokenView::RParen));
            result.push(Token::RParen);
            pos += 1;
            assert(token_views(result@) + tokens(cs@.skip(pos as int)) =~= token_views(result@).take(token_views(result@).len() - 1) + (seq![TokenView::RParen] + tokens(cs@.skip(pos as int))));
        } else if c == '\'' {
            let start = pos + 1;
            let mut end = start;
            let ghost body = rest.drop_first();
            assert(body =~= cs@.skip(start as int));
            proof { lemma_quote_len(body); }
            while end < n && cs[end] != '\''
                invariant
                    n == cs@.len(),
                    start <= end <= n,
                    body == cs@.skip(start as int),
                    quote_len(body) == (end - start) + quote_len(cs@.skip(end as int)),
                decreases n - end,
            {
                proof { lemma_quote_len_step(cs@, end as int); }
                end += 1;
            }
            proof {
                if end < n {
                    assert(cs@.skip(end as int)[0] == '\'');
                }
            }
            let ghost k = quote_len(body);
            assert(k == end - start);
            let q = string_of_range(&cs, start, end);
            assert(q@ =~= body.take(k as int));
            let ghost before = token_views(result@);
            let tok = Token::Quoted(q);
            assert(token_views(result@.push(tok)) =~= before.push(tok@));
            result.push(tok);
            if end < n {
                pos = end + 1;
                assert(body.skip(k + 1int) =~= cs@.skip(pos as int));
            } else {
                pos = end;
                assert(body.skip(k as int) =~= cs@.skip(pos as int));
            }
            assert(token_views(result@) + tokens(cs@.skip(pos as int)) =~= before + (seq![TokenView::Quoted(body.take(k as int))] + tokens(cs@.skip(pos as int))));
        } else {
            let start = pos;
            let mut end = pos;
            proof { lemma_word_len(rest); }
            while end < n && !is_delim_char(cs[end])
                invariant
                    n == cs@.len(),
                    start <= end <= n,
                    rest == cs@.skip(start as int),
                    word_len(rest) == (end - start) + word_len(cs@.skip(end as int)),
                decreases n - end,
            {
                proof { lemma_word_len_step(cs@, end as int); }
                end += 1;
            }
            let ghost k = word_len(rest);
            proof {
                if end < n {
                    assert(cs@.skip(end as int)[0] == cs@[end as int]);
                }
                assert(k == end - start);
            }
            let w = string_of_range(&cs, start, end);
            assert(w@ =~= rest.take(k as int));
            let ghost before = token_views(result@);
            let tok = Token::Word(w);
            assert(token_views(result@.push(tok)) =~= before.push(tok@));
            result.push(tok);
            pos = end;
            assert(rest.skip(k as int) =~= cs@.skip(pos as int));
            assert(token_views(result@) + tokens(cs@.skip(pos as int)) =~= before + (seq![TokenView::Word(rest.take(k as int))] + tokens(cs@.skip(pos as int))));
        }
    }
    assert(cs@.skip(n as int) =~= Seq::<char>::empty());
    assert(token_views(result@) =~= token_views(result@) + tokens(cs@.skip(n as int)));
    result
}

} // verus!
