//! Parsers for `attributeTypes` and `objectClasses` descriptions (RFC 4512).
use vstd::prelude::*;

use super::tokens::{tokenize, token_views, tokens, Token, TokenView};
use super::types::{AttributeType, AttributeTypeView, ObjectClass, ObjectClassView, OcKind, opt_view};
use crate::text::{
    chars_of, copy_string, lowercase, str_eq, string_of_range, to_lower, to_upper, uppercase, views,
};

verus! {

// ── Token-level grammar ─────────────────────────────────────────────────────

/// The word or quoted string at `pos`, if that token is one.
pub open spec fn word_at(toks: Seq<TokenView>, pos: int) -> Option<Seq<char>> {
    if 0 <= pos < toks.len() {
        match toks[pos] {
            TokenView::Word(w) => Some(w),
            TokenView::Quoted(q) => Some(q),
            _ => None,
        }
    } else {
        None
    }
}

/// The position after an optional word at `pos`.
pub open spec fn after_word(toks: Seq<TokenView>, pos: int) -> int {
    if word_at(toks, pos) is Some {
        pos + 1
    } else {
        pos
    }
}

/// Items of a parenthesized list, lowercased, up to and including the closing `)`
/// (or to the end of input); nested `(` are skipped.
pub open spec fn qlist(toks: Seq<TokenView>, pos: int, items: Seq<Seq<char>>) -> (Seq<Seq<char>>, int)
    decreases toks.len() - pos,
{
    if pos < 0 || pos >= toks.len() {
        (items, pos)
    } else {
        match toks[pos] {
            TokenView::RParen => (items, pos + 1),
            TokenView::Word(w) => qlist(toks, pos + 1, items.push(lowercase(w))),
            TokenView::Quoted(q) => qlist(toks, pos + 1, items.push(lowercase(q))),
            TokenView::LParen => qlist(toks, pos + 1, items),
        }
    }
}

/// One or more names/OIDs, lowercased: a single token or a `( ... )` list.
pub open spec fn qdescrs(toks: Seq<TokenView>, pos: int) -> (Seq<Seq<char>>, int) {
    if 0 <= pos < toks.len() {
        match toks[pos] {
            TokenView::LParen => qlist(toks, pos + 1, Seq::empty()),
            TokenView::Quoted(q) => (seq![lowercase(q)], pos + 1),
            TokenView::Word(w) => (seq![lowercase(w)], pos + 1),
            TokenView::RParen => (Seq::empty(), pos),
        }
    } else {
        (Seq::empty(), pos)
    }
}

/// The first item of a parenthesized list as written (empty when the list has none).
pub open spec fn qlist_first(toks: Seq<TokenView>, pos: int) -> Seq<char>
    decreases toks.len() - pos,
{
    if pos < 0 || pos >= toks.len() {
        Seq::empty()
    } else {
        match toks[pos] {
            TokenView::RParen => Seq::empty(),
            TokenView::Word(w) => w,
            TokenView::Quoted(q) => q,
            TokenView::LParen => qlist_first(toks, pos + 1),
        }
    }
}

/// The first of one or more names as written (not lower-cased); empty when there is none.
pub open spec fn qdescrs_first(toks: Seq<TokenView>, pos: int) -> Seq<char> {
    if 0 <= pos < toks.len() {
        match toks[pos] {
            TokenView::LParen => qlist_first(toks, pos + 1),
            TokenView::Quoted(q) => q,
            TokenView::Word(w) => w,
            TokenView::RParen => Seq::empty(),
        }
    } else {
        Seq::empty()
    }
}

/// The position after the `)` that closes a group opened `depth` levels up.
pub open spec fn skip_group(toks: Seq<TokenView>, pos: int, depth: int) -> int
    decreases toks.len() - pos,
{
    if pos < 0 || pos >= toks.len() {
        pos
    } else {
        match toks[pos] {
            TokenView::LParen => skip_group(toks, pos + 1, depth + 1),
            TokenView::RParen => if depth - 1 == 0 {
                pos + 1
            } else {
                skip_group(toks, pos + 1, depth - 1)
            },
            _ => skip_group(toks, pos + 1, depth),
        }
    }
}

pub proof fn lemma_qlist_pos(toks: Seq<TokenView>, pos: int, items: Seq<Seq<char>>)
    requires
        0 <= pos <= toks.len(),
    ensures
        pos <= qlist(toks, pos, items).1 <= toks.len(),
    decreases toks.len() - pos,
{
    if pos < toks.len() {
        match toks[pos] {
            TokenView::RParen => {},
            TokenView::Word(w) => lemma_qlist_pos(toks, pos + 1, items.push(lowercase(w))),
            TokenView::Quoted(q) => lemma_qlist_pos(toks, pos + 1, items.push(lowercase(q))),
            TokenView::LParen => lemma_qlist_pos(toks, pos + 1, items),
        }
    }
}

pub proof fn lemma_qdescrs_pos(toks: Seq<TokenView>, pos: int)
    requires
        0 <= pos <= toks.len(),
    ensures
        pos <= qdescrs(toks, pos).1 <= toks.len(),
{
    if pos < toks.len() {
        if toks[pos] is LParen {
            lemma_qlist_pos(toks, pos + 1, Seq::empty());
        }
    }
}

pub proof fn lemma_skip_group_pos(toks: Seq<TokenView>, pos: int, depth: int)
    requires
        0 <= pos <= toks.len(),
    ensures
        pos <= skip_group(toks, pos, depth) <= toks.len(),
    decreases toks.len() - pos,
{
    if pos < toks.len() {
        match toks[pos] {
            TokenView::LParen => lemma_skip_group_pos(toks, pos + 1, depth + 1),
            TokenView::RParen => if depth - 1 != 0 {
                lemma_skip_group_pos(toks, pos + 1, depth - 1)
            },
            _ => lemma_skip_group_pos(toks, pos + 1, depth),
        }
    }
}

/// `X-` extension keywords.
pub open spec fn is_extension(kw: Seq<char>) -> bool {
    kw.len() >= 2 && kw[0] == 'X' && kw[1] == '-'
}

pub open spec fn opt_lower(o: Option<Seq<char>>) -> Option<Seq<char>> {
    match o {
        Some(w) => Some(lowercase(w)),
        None => None,
    }
}

/// Position of the first `{` in `s`, or its length.
pub open spec fn brace_pos(s: Seq<char>) -> nat
    decreases s.len(),
{
    if s.len() == 0 || s[0] == '{' {
        0
    } else {
        1 + brace_pos(s.drop_first())
    }
}

/// A SYNTAX OID with its `{len}` suffix removed: "1.2.3.4{128}" → "1.2.3.4".
pub open spec fn strip_len(w: Seq<char>) -> Seq<char> {
    w.take(brace_pos(w) as int)
}

pub open spec fn opt_strip(o: Option<Seq<char>>) -> Option<Seq<char>> {
    match o {
        Some(w) => Some(strip_len(w)),
        None => None,
    }
}

// ── attributeTypes grammar ──────────────────────────────────────────────────

/// The effect of one attributeType keyword (already upper-cased); `p` is the position just
/// after the keyword. Returns the updated definition and the position after its argument.
pub open spec fn at_keyword(toks: Seq<TokenView>, p: int, kw: Seq<char>, a: AttributeTypeView) -> (AttributeTypeView, int) {
    if kw == "NAME"@ {
        (AttributeTypeView { names: qdescrs(toks, p).0, ..a }, qdescrs(toks, p).1)
    } else if kw == "DESC"@ {
        (a, qdescrs(toks, p).1)
    } else if kw == "SUP"@ {
        (AttributeTypeView { sup: opt_lower(word_at(toks, p)), ..a }, after_word(toks, p))
    } else if kw == "SYNTAX"@ {
        (AttributeTypeView { syntax: opt_strip(word_at(toks, p)), ..a }, after_word(toks, p))
    } else if kw == "EQUALITY"@ || kw == "ORDERING"@ || kw == "SUBSTR"@ {
        (a, after_word(toks, p))
    } else if kw == "SINGLE-VALUE"@ {
        (AttributeTypeView { single_value: true, ..a }, p)
    } else if kw == "NO-USER-MODIFICATION"@ {
        (AttributeTypeView { no_user_mod: true, ..a }, p)
    } else if kw == "COLLECTIVE"@ || kw == "OBSOLETE"@ {
        (a, p)
    } else if kw == "USAGE"@ {
        match word_at(toks, p) {
            Some(u) => (AttributeTypeView { is_operational: lowercase(u) != "userapplications"@, ..a }, p + 1),
            None => (a, p),
        }
    } else if is_extension(kw) {
        (a, qdescrs(toks, p).1)
    } else {
        (a, p)
    }
}

/// The keyword loop of an attributeType description, from `pos` to the closing `)`.
pub open spec fn at_loop(toks: Seq<TokenView>, pos: int, a: AttributeTypeView) -> AttributeTypeView
    decreases toks.len() - pos,
{
    if pos < 0 || pos >= toks.len() {
        a
    } else {
        match toks[pos] {
            TokenView::RParen => a,
            TokenView::Word(w) => {
                let (a2, q) = at_keyword(toks, pos + 1, uppercase(w), a);
                at_loop(toks, if pos < q <= toks.len() { q } else { pos + 1 }, a2)
            },
            TokenView::LParen => {
                let q = skip_group(toks, pos + 1, 1);
                at_loop(toks, if pos < q <= toks.len() { q } else { pos + 1 }, a)
            },
            TokenView::Quoted(_) => at_loop(toks, pos + 1, a),
        }
    }
}

/// The attributeType that a description string defines, if it starts with `(` and an OID.
/// Without NAME, the lowercased OID is its only name.
pub open spec fn parse_at_spec(s: Seq<char>) -> Option<AttributeTypeView> {
    let toks = tokens(s);
    if toks.len() == 0 || !(toks[0] is LParen) {
        None
    } else {
        match word_at(toks, 1) {
            None => None,
            Some(oid) => {
                let a = at_loop(
                    toks,
                    2,
                    AttributeTypeView {
                        oid,
                        names: Seq::empty(),
                        sup: None,
                        syntax: None,
                        single_value: false,
                        no_user_mod: false,
                        is_operational: false,
                    },
                );
                Some(
                    if a.names.len() == 0 {
                        AttributeTypeView { names: seq![lowercase(oid)], ..a }
                    } else {
                        a
                    },
                )
            },
        }
    }
}

// ── objectClasses grammar ───────────────────────────────────────────────────

/// The effect of one objectClass keyword (already upper-cased).
pub open spec fn oc_keyword(toks: Seq<TokenView>, p: int, kw: Seq<char>, o: ObjectClassView) -> (ObjectClassView, int) {
    if kw == "NAME"@ {
        (ObjectClassView { names: qdescrs(toks, p).0, first_name: qdescrs_first(toks, p), ..o }, qdescrs(toks, p).1)
    } else if kw == "DESC"@ {
        (o, qdescrs(toks, p).1)
    } else if kw == "SUP"@ {
        (ObjectClassView { sup: qdescrs(toks, p).0, ..o }, qdescrs(toks, p).1)
    } else if kw == "ABSTRACT"@ {
        (ObjectClassView { kind: OcKind::Abstract, ..o }, p)
    } else if kw == "STRUCTURAL"@ {
        (ObjectClassView { kind: OcKind::StructuralClass, ..o }, p)
    } else if kw == "AUXILIARY"@ {
        (ObjectClassView { kind: OcKind::Auxiliary, ..o }, p)
    } else if kw == "MUST"@ {
        (ObjectClassView { must: qdescrs(toks, p).0, ..o }, qdescrs(toks, p).1)
    } else if kw == "MAY"@ {
        (ObjectClassView { may: qdescrs(toks, p).0, ..o }, qdescrs(toks, p).1)
    } else if kw == "OBSOLETE"@ {
        (o, p)
    } else if is_extension(kw) {
        (o, qdescrs(toks, p).1)
    } else {
        (o, p)
    }
}

/// The keyword loop of an objectClass description.
pub open spec fn oc_loop(toks: Seq<TokenView>, pos: int, o: ObjectClassView) -> ObjectClassView
    decreases toks.len() - pos,
{
    if pos < 0 || pos >= toks.len() {
        o
    } else {
        match toks[pos] {
            TokenView::RParen => o,
            TokenView::Word(w) => {
                let (o2, q) = oc_keyword(toks, pos + 1, uppercase(w), o);
                oc_loop(toks, if pos < q <= toks.len() { q } else { pos + 1 }, o2)
            },
            TokenView::LParen => {
                let q = skip_group(toks, pos + 1, 1);
                oc_loop(toks, if pos < q <= toks.len() { q } else { pos + 1 }, o)
            },
            TokenView::Quoted(_) => oc_loop(toks, pos + 1, o),
        }
    }
}

/// The objectClass that a description string defines (STRUCTURAL unless stated otherwise).
pub open spec fn parse_oc_spec(s: Seq<char>) -> Option<ObjectClassView> {
    let toks = tokens(s);
    if toks.len() == 0 || !(toks[0] is LParen) {
        None
    } else {
        match word_at(toks, 1) {
            None => None,
            Some(oid) => {
                let o = oc_loop(
                    toks,
                    2,
                    ObjectClassView {
                        oid,
                        names: Seq::empty(),
                        first_name: Seq::empty(),
                        sup: Seq::empty(),
                        kind: OcKind::StructuralClass,
                        must: Seq::empty(),
                        may: Seq::empty(),
                    },
                );
                Some(
                    if o.names.len() == 0 {
                        ObjectClassView { names: seq![lowercase(oid)], first_name: lowercase(oid), ..o }
                    } else {
                        o
                    },
                )
            },
        }
    }
}

// ── Executable parser ───────────────────────────────────────────────────────

struct Parser<'a> {
    tokens: &'a Vec<Token>,
    pos: usize,
}

impl<'a> Parser<'a> {
    spec fn toks(&self) -> Seq<TokenView> {
        token_views(self.tokens@)
    }

    fn at_end(&self) -> (r: bool)
        ensures
            r == (self.pos >= self.tokens@.len()),
            self.tokens@.len() <= usize::MAX,
    {
        self.pos >= self.tokens.len()
    }

    /// Consume one Word or Quoted token (without lowercasing).
    fn word_raw(&mut self) -> (r: Option<String>)
        requires
            old(self).pos <= old(self).tokens@.len(),
        ensures
            final(self).tokens == old(self).tokens,
            opt_view(r) == word_at(old(self).toks(), old(self).pos as int),
            final(self).pos == after_word(old(self).toks(), old(self).pos as int),
    {
        if self.pos < self.tokens.len() {
            let t = &self.tokens[self.pos];
            assert(self.toks()[self.pos as int] == self.tokens@[self.pos as int]@);
            match t {
                Token::Word(w) => {
                    let s = copy_string(w);
                    self.pos = self.pos + 1;
                    Some(s)
                },
                Token::Quoted(q) => {
                    let s = copy_string(q);
                    self.pos = self.pos + 1;
                    Some(s)
                },
                _ => None,
            }
        } else {
            None
        }
    }

    /// The first of the names at the current position, as written (nothing is consumed).
    fn first_descr(&self) -> (r: String)
        requires
            self.pos <= self.tokens@.len(),
        ensures
            r@ == qdescrs_first(self.toks(), self.pos as int),
    {
        let ghost toks = self.toks();
        if self.pos >= self.tokens.len() {
            return String::new();
        }
        assert(toks[self.pos as int] == self.tokens@[self.pos as int]@);
        match &self.tokens[self.pos] {
            Token::LParen => {
                let mut i: usize = self.pos + 1;
                loop
                    invariant
                        toks == self.toks(),
                        self.pos < i <= self.tokens@.len(),
                        qlist_first(toks, i as int) == qlist_first(toks, self.pos + 1),
                        qdescrs_first(toks, self.pos as int) == qlist_first(toks, self.pos + 1),
                    decreases self.tokens@.len() - i,
                {
                    if i >= self.tokens.len() {
                        assert(qlist_first(toks, i as int) == Seq::<char>::empty());
                        return String::new();
                    }
                    assert(toks[i as int] == self.tokens@[i as int]@);
                    match &self.tokens[i] {
                        Token::RParen => {
                            return String::new();
                        },
                        Token::Word(w) => {
                            return copy_string(w);
                        },
                        Token::Quoted(q) => {
                            return copy_string(q);
                        },
                        Token::LParen => {
                            i = i + 1;
                        },
                    }
                }
            },
            Token::Quoted(q) => copy_string(q),
            Token::Word(w) => copy_string(w),
            Token::RParen => String::new(),
        }
    }

    /// Return one or more names/OIDs, lowercased; the input may be a single token or `( ... )` enclosed.
    fn qdescrs(&mut self) -> (r: Vec<String>)
        requires
            old(self).pos <= old(self).tokens@.len(),
        ensures
            final(self).tokens == old(self).tokens,
            views(r@) == qdescrs(old(self).toks(), old(self).pos as int).0,
            final(self).pos == qdescrs(old(self).toks(), old(self).pos as int).1,
            final(self).pos <= final(self).tokens@.len(),
    {
        let ghost toks = self.toks();
        proof { lemma_qdescrs_pos(toks, self.pos as int); }
        if self.pos >= self.tokens.len() {
            return Vec::new();
        }
        assert(toks[self.pos as int] == self.tokens@[self.pos as int]@);
        match &self.tokens[self.pos] {
            Token::LParen => {
                self.pos = self.pos + 1;
                let mut items: Vec<String> = Vec::new();
                proof { lemma_qlist_pos(toks, self.pos as int, Seq::empty()); }
                assert(views(items@) =~= Seq::<Seq<char>>::empty());
                loop
                    invariant_except_break
                        self.tokens == old(self).tokens,
                        toks == self.toks(),
                        self.pos <= self.tokens@.len(),
                        qlist(toks, self.pos as int, views(items@)) == qlist(toks, old(self).pos + 1, Seq::empty()),
                    ensures
                        self.tokens == old(self).tokens,
                        toks == self.toks(),
                        self.pos <= self.tokens@.len(),
                        (views(items@), self.pos as int) == qlist(toks, old(self).pos + 1, Seq::empty()),
                    decreases self.tokens@.len() - self.pos,
                {
                    if self.pos >= self.tokens.len() {
                        break;
                    }
                    assert(toks[self.pos as int] == self.tokens@[self.pos as int]@);
                    match &self.tokens[self.pos] {
                        Token::RParen => {
                            self.pos = self.pos + 1;
                            break;
                        },
                        Token::Word(w) => {
                            let s = to_lower(w.as_str());
                            let ghost before = views(items@);
                            items.push(s);
                            assert(views(items@) =~= before.push(lowercase(w@)));
                            self.pos = self.pos + 1;
                        },
                        Token::Quoted(q) => {
                            let s = to_lower(q.as_str());
                            let ghost before = views(items@);
                            items.push(s);
                            assert(views(items@) =~= before.push(lowercase(q@)));
                            self.pos = self.pos + 1;
                        },
                        Token::LParen => {
                            self.pos = self.pos + 1;
                        },
                    }
                }
                items
            },
            Token::Quoted(q) => {
                let s = to_lower(q.as_str());
                self.pos = self.pos + 1;
                let mut v: Vec<String> = Vec::new();
                v.push(s);
                assert(views(v@) =~= seq![lowercase(q@)]);
                v
            },
            Token::Word(w) => {
                let s = to_lower(w.as_str());
                self.pos = self.pos + 1;
                let mut v: Vec<String> = Vec::new();
                v.push(s);
                assert(views(v@) =~= seq![lowercase(w@)]);
                v
            },
            Token::RParen => {
                let v: Vec<String> = Vec::new();
                assert(views(v@) =~= Seq::<Seq<char>>::empty());
                v
            },
        }
    }

    /// Skip the remaining tokens until the matching RParen (nesting-aware).
    fn skip_to_rparen(&mut self)
        requires
            1 <= old(self).pos <= old(self).tokens@.len(),
        ensures
            final(self).tokens == old(self).tokens,
            final(self).pos == skip_group(old(self).toks(), old(self).pos as int, 1),
            final(self).pos <= final(self).tokens@.len(),
    {
        let ghost toks = self.toks();
        let ghost start = self.pos as int;
        let mut depth: usize = 1;
        proof { lemma_skip_group_pos(toks, start, 1); }
        loop
            invariant_except_break
                self.tokens == old(self).tokens,
                1 <= start,
                toks == self.toks(),
                start <= self.pos <= self.tokens@.len(),
                1 <= depth <= self.pos - start + 1,
                skip_group(toks, self.pos as int, depth as int) == skip_group(toks, start, 1),
            ensures
                self.tokens == old(self).tokens,
                toks == self.toks(),
                self.pos == skip_group(toks, start, 1),
                self.pos <= self.tokens@.len(),
            decreases self.tokens@.len() - self.pos,
        {
            if self.pos >= self.tokens.len() {
                break;
            }
            assert(toks[self.pos as int] == self.tokens@[self.pos as int]@);
            match &self.tokens[self.pos] {
                Token::LParen => {
                    depth = depth + 1;
                    self.pos = self.pos + 1;
                },
                Token::RParen => {
                    depth = depth - 1;
                    self.pos = self.pos + 1;
                    if depth == 0 {
                        break;
                    }
                },
                _ => {
                    self.pos = self.pos + 1;
                },
            }
        }
    }
}

/// Whether `kw` starts with "X-".
fn is_extension_kw(kw: &str) -> (r: bool)
    ensures
        r == is_extension(kw@),
{
    let cs = chars_of(kw);
    cs.len() >= 2 && cs[0] == 'X' && cs[1] == '-'
}

/// Cut a SYNTAX OID at its first `{`.
fn strip_syntax_len(w: &str) -> (r: String)
    ensures
        r@ == strip_len(w@),
{
    let cs = chars_of(w);
    let mut i: usize = 0;
    assert(cs@.skip(0) =~= cs@);
    while i < cs.len() && cs[i] != '{'
        invariant
            i <= cs@.len(),
            cs@ == w@,
            brace_pos(w@) == i + brace_pos(cs@.skip(i as int)),
        decreases cs@.len() - i,
    {
        assert(cs@.skip(i as int).drop_first() =~= cs@.skip(i + 1));
        i += 1;
    }
    proof {
        if i < cs@.len() {
            assert(cs@.skip(i as int)[0] == '{');
        } else {
            assert(cs@.skip(i as int).len() == 0);
        }
    }
    assert(cs@.skip(0) =~= cs@);
    let r = string_of_range(&cs, 0, i);
    assert(r@ =~= w@.take(i as int));
    r
}

fn lower_opt(o: Option<String>) -> (r: Option<String>)
    ensures
        opt_view(r) == opt_lower(opt_view(o)),
{
    match o {
        Some(w) => Some(to_lower(w.as_str())),
        None => None,
    }
}

/// Apply one attributeType keyword.
fn at_apply_keyword(p: &mut Parser, kw: &str, a: &mut AttributeType)
    requires
        old(p).pos <= old(p).tokens@.len(),
    ensures
        final(p).tokens == old(p).tokens,
        final(p).pos <= final(p).tokens@.len(),
        (final(a)@, final(p).pos as int) == at_keyword(old(p).toks(), old(p).pos as int, kw@, old(a)@),
{
    let ghost toks = p.toks();
    let ghost pos = p.pos as int;
    proof { lemma_qdescrs_pos(toks, pos); }
    if str_eq(kw, "NAME") {
        a.names = p.qdescrs();
    } else if str_eq(kw, "DESC") {
        p.qdescrs();
    } else if str_eq(kw, "SUP") {
        a.sup = lower_opt(p.word_raw());
    } else if str_eq(kw, "SYNTAX") {
        let w = p.word_raw();
        a.syntax = match w {
            Some(w) => Some(strip_syntax_len(w.as_str())),
            None => None,
        };
    } else if str_eq(kw, "EQUALITY") || str_eq(kw, "ORDERING") || str_eq(kw, "SUBSTR") {
        p.word_raw();
    } else if str_eq(kw, "SINGLE-VALUE") {
        a.single_value = true;
    } else if str_eq(kw, "NO-USER-MODIFICATION") {
        a.no_user_mod = true;
    } else if str_eq(kw, "COLLECTIVE") || str_eq(kw, "OBSOLETE") {
    } else if str_eq(kw, "USAGE") {
        if let Some(u) = p.word_raw() {
            let lu = to_lower(u.as_str());
            a.is_operational = !str_eq(lu.as_str(), "userapplications");
        }
    } else if is_extension_kw(kw) {
        p.qdescrs();
    }
}

/// Apply one objectClass keyword.
fn oc_apply_keyword(p: &mut Parser, kw: &str, o: &mut ObjectClass)
    requires
        old(p).pos <= old(p).tokens@.len(),
    ensures
        final(p).tokens == old(p).tokens,
        final(p).pos <= final(p).tokens@.len(),
        (final(o)@, final(p).pos as int) == oc_keyword(old(p).toks(), old(p).pos as int, kw@, old(o)@),
{
    let ghost toks = p.toks();
    let ghost pos = p.pos as int;
    proof { lemma_qdescrs_pos(toks, pos); }
    if str_eq(kw, "NAME") {
        o.first_name = p.first_descr();
        o.names = p.qdescrs();
    } else if str_eq(kw, "DESC") {
        p.qdescrs();
    } else if str_eq(kw, "SUP") {
        o.sup = p.qdescrs();
    } else if str_eq(kw, "ABSTRACT") {
        o.kind = OcKind::Abstract;
    } else if str_eq(kw, "STRUCTURAL") {
        o.kind = OcKind::StructuralClass;
    } else if str_eq(kw, "AUXILIARY") {
        o.kind = OcKind::Auxiliary;
    } else if str_eq(kw, "MUST") {
        o.must = p.qdescrs();
    } else if str_eq(kw, "MAY") {
        o.may = p.qdescrs();
    } else if str_eq(kw, "OBSOLETE") {
    } else if is_extension_kw(kw) {
        p.qdescrs();
    }
}

/// Parse an attributeTypes value; `None` unless it starts with `(` followed by an OID.
pub fn parse_attribute_type(s: &str) -> (r: Option<AttributeType>)
    ensures
        match r {
            Some(a) => parse_at_spec(s@) == Some(a@),
            None => parse_at_spec(s@) is None,
        },
{
    let tokens = tokenize(s);
    let ghost toks = token_views(tokens@);
    let mut p = Parser { tokens: &tokens, pos: 0 };
    if tokens.len() == 0 {
        return None;
    }
    assert(toks[0] == tokens@[0]@);
    match &tokens[0] {
        Token::LParen => {},
        _ => {
            return None;
        },
    }
    p.pos = 1;
    let oid = match p.word_raw() {
        Some(o) => o,
        None => {
            return None;
        },
    };
    let mut a = AttributeType {
        oid,
        names: Vec::new(),
        sup: None,
        syntax: None,
        single_value: false,
        no_user_mod: false,
        is_operational: false,
    };
    let ghost a0 = a@;
    assert(views(Seq::<String>::empty()) =~= Seq::<Seq<char>>::empty());
    loop
        invariant_except_break
            p.tokens == &tokens,
            toks == p.toks(),
            p.pos <= tokens@.len(),
            a@.oid == a0.oid,
            at_loop(toks, p.pos as int, a@) == at_loop(toks, 2, a0),
        ensures
            at_loop(toks, 2, a0) == a@,
            a@.oid == a0.oid,
        decreases tokens@.len() - p.pos,
    {
        if p.at_end() {
            break;
        }
        let pos = p.pos;
        assert(toks[pos as int] == tokens@[pos as int]@);
        match &tokens[pos] {
            Token::RParen => {
                break;
            },
            Token::Word(w) => {
                let kw = to_upper(w.as_str());
                p.pos = pos + 1;
                at_apply_keyword(&mut p, kw.as_str(), &mut a);
                if p.pos <= pos {
                    p.pos = pos + 1;
                }
            },
            Token::LParen => {
                p.pos = pos + 1;
                p.skip_to_rparen();
                if p.pos <= pos {
                    p.pos = pos + 1;
                }
            },
            Token::Quoted(_) => {
                p.pos = pos + 1;
            },
        }
    }
    if a.names.len() == 0 {
        let mut names: Vec<String> = Vec::new();
        names.push(to_lower(a.oid.as_str()));
        a.names = names;
        assert(views(a.names@) =~= seq![lowercase(a0.oid)]);
    }
    Some(a)
}

/// Parse an objectClasses value; `None` unless it starts with `(` followed by an OID.
pub fn parse_object_class(s: &str) -> (r: Option<ObjectClass>)
    ensures
        match r {
            Some(o) => parse_oc_spec(s@) == Some(o@),
            None => parse_oc_spec(s@) is None,
        },
{
    let tokens = tokenize(s);
    let ghost toks = token_views(tokens@);
    let mut p = Parser { tokens: &tokens, pos: 0 };
    if tokens.len() == 0 {
        return None;
    }
    assert(toks[0] == tokens@[0]@);
    match &tokens[0] {
        Token::LParen => {},
        _ => {
            return None;
        },
    }
    p.pos = 1;
    let oid = match p.word_raw() {
        Some(o) => o,
        None => {
            return None;
        },
    };
    let mut o = ObjectClass {
        oid,
        names: Vec::new(),
        first_name: String::new(),
        sup: Vec::new(),
        kind: OcKind::StructuralClass,
        must: Vec::new(),
        may: Vec::new(),
    };
    let ghost o0 = o@;
    assert(views(Seq::<String>::empty()) =~= Seq::<Seq<char>>::empty());
    loop
        invariant_except_break
            p.tokens == &tokens,
            toks == p.toks(),
            p.pos <= tokens@.len(),
            o@.oid == o0.oid,
            oc_loop(toks, p.pos as int, o@) == oc_loop(toks, 2, o0),
        ensures
            oc_loop(toks, 2, o0) == o@,
            o@.oid == o0.oid,
        decreases tokens@.len() - p.pos,
    {
        if p.at_end() {
            break;
        }
        let pos = p.pos;
        assert(toks[pos as int] == tokens@[pos as int]@);
        match &tokens[pos] {
            Token::RParen => {
                break;
            },
            Token::Word(w) => {
                let kw = to_upper(w.as_str());
                p.pos = pos + 1;
                oc_apply_keyword(&mut p, kw.as_str(), &mut o);
                if p.pos <= pos {
                    p.pos = pos + 1;
                }
            },
            Token::LParen => {
                p.pos = pos + 1;
                p.skip_to_rparen();
                if p.pos <= pos {
                    p.pos = pos + 1;
                }
            },
            Token::Quoted(_) => {
                p.pos = pos + 1;
            },
        }
    }
    if o.names.len() == 0 {
        let mut names: Vec<String> = Vec::new();
        names.push(to_lower(o.oid.as_str()));
        o.names = names;
        o.first_name = to_lower(o.oid.as_str());
        assert(views(o.names@) =~= seq![lowercase(o0.oid)]);
    }
    Some(o)
}


/// `x` is the lowercasing of some string.
pub open spec fn lowered(x: Seq<char>) -> bool {
    exists|y: Seq<char>| x == #[trigger] lowercase(y)
}

/// Every item of `s` is the lowercasing of some string.
pub open spec fn all_lowered(s: Seq<Seq<char>>) -> bool {
    forall|i: int| 0 <= i < s.len() ==> lowered(#[trigger] s[i])
}

proof fn lemma_qlist_lowered(toks: Seq<TokenView>, pos: int, items: Seq<Seq<char>>)
    requires
        all_lowered(items),
    ensures
        all_lowered(qlist(toks, pos, items).0),
    decreases toks.len() - pos,
{
    if 0 <= pos < toks.len() {
        match toks[pos] {
            TokenView::Word(w) => {
                assert(lowered(lowercase(w)));
                assert(all_lowered(items.push(lowercase(w))));
                lemma_qlist_lowered(toks, pos + 1, items.push(lowercase(w)));
            },
            TokenView::Quoted(q) => {
                assert(lowered(lowercase(q)));
                assert(all_lowered(items.push(lowercase(q))));
                lemma_qlist_lowered(toks, pos + 1, items.push(lowercase(q)));
            },
            TokenView::LParen => lemma_qlist_lowered(toks, pos + 1, items),
            TokenView::RParen => {},
        }
    }
}

proof fn lemma_qdescrs_lowered(toks: Seq<TokenView>, pos: int)
    ensures
        all_lowered(qdescrs(toks, pos).0),
{
    if 0 <= pos < toks.len() {
        match toks[pos] {
            TokenView::LParen => lemma_qlist_lowered(toks, pos + 1, Seq::empty()),
            TokenView::Quoted(q) => assert(lowered(seq![lowercase(q)][0])),
            TokenView::Word(w) => assert(lowered(seq![lowercase(w)][0])),
            TokenView::RParen => {},
        }
    }
}

proof fn lemma_oc_loop_lowered(toks: Seq<TokenView>, pos: int, o: ObjectClassView)
    requires
        all_lowered(o.must),
        all_lowered(o.may),
    ensures
        all_lowered(oc_loop(toks, pos, o).must),
        all_lowered(oc_loop(toks, pos, o).may),
    decreases toks.len() - pos,
{
    if 0 <= pos < toks.len() {
        match toks[pos] {
            TokenView::Word(w) => {
                let (o2, q) = oc_keyword(toks, pos + 1, uppercase(w), o);
                lemma_qdescrs_lowered(toks, pos + 1);
                lemma_oc_loop_lowered(toks, if pos < q <= toks.len() { q } else { pos + 1 }, o2);
            },
            TokenView::LParen => {
                let q = skip_group(toks, pos + 1, 1);
                lemma_oc_loop_lowered(toks, if pos < q <= toks.len() { q } else { pos + 1 }, o);
            },
            TokenView::Quoted(_) => lemma_oc_loop_lowered(toks, pos + 1, o),
            TokenView::RParen => {},
        }
    }
}

/// The MUST and MAY names of a parsed objectClass are lowercased schema words.
pub proof fn lemma_parse_oc_lowered(s: Seq<char>)
    ensures
        parse_oc_spec(s) matches Some(o) ==> all_lowered(o.must) && all_lowered(o.may),
{
    let toks = tokens(s);
    if toks.len() > 0 && toks[0] is LParen {
        if let Some(oid) = word_at(toks, 1) {
            lemma_oc_loop_lowered(
                toks,
                2,
                ObjectClassView {
                    oid,
                    names: Seq::empty(),
                    first_name: Seq::empty(),
                    sup: Seq::empty(),
                    kind: OcKind::StructuralClass,
                    must: Seq::empty(),
                    may: Seq::empty(),
                },
            );
        }
    }
}


/// Token `p` is the keyword USAGE followed by an argument other than userApplications (in any
/// letter case).
pub open spec fn operational_usage_at(toks: Seq<TokenView>, p: int) -> bool {
    &&& 0 <= p < toks.len()
    &&& toks[p] matches TokenView::Word(w) && uppercase(w) == "USAGE"@
    &&& word_at(toks, p + 1) matches Some(u) && lowercase(u) != "userapplications"@
}

/// The USAGE keyword marks an attribute operational exactly when its argument, lowercased,
/// is not `userapplications`; an explicit `USAGE userApplications` leaves it a user attribute.
pub proof fn law_usage_keyword(toks: Seq<TokenView>, p: int, a: AttributeTypeView, u: Seq<char>)
    requires
        word_at(toks, p) == Some(u),
    ensures
        lowercase(u) == "userapplications"@ ==> !at_keyword(toks, p, "USAGE"@, a).0.is_operational,
        lowercase(u) != "userapplications"@ ==> at_keyword(toks, p, "USAGE"@, a).0.is_operational,
{
    reveal_strlit("USAGE");
    reveal_strlit("NAME");
    reveal_strlit("DESC");
    reveal_strlit("SUP");
    reveal_strlit("SYNTAX");
    reveal_strlit("EQUALITY");
    reveal_strlit("ORDERING");
    reveal_strlit("SUBSTR");
    reveal_strlit("SINGLE-VALUE");
    reveal_strlit("NO-USER-MODIFICATION");
    reveal_strlit("COLLECTIVE");
    reveal_strlit("OBSOLETE");
    // USAGE is the only keyword of five letters
    assert("USAGE"@.len() == 5 && "NAME"@.len() == 4 && "DESC"@.len() == 4 && "SUP"@.len() == 3);
    assert("SYNTAX"@.len() == 6 && "EQUALITY"@.len() == 8 && "ORDERING"@.len() == 8 && "SUBSTR"@.len() == 6);
    assert("SINGLE-VALUE"@.len() == 12 && "NO-USER-MODIFICATION"@.len() == 20);
    assert("COLLECTIVE"@.len() == 10 && "OBSOLETE"@.len() == 8);
}

proof fn lemma_at_loop_operational(toks: Seq<TokenView>, pos: int, a: AttributeTypeView)
    ensures
        at_loop(toks, pos, a).is_operational ==> a.is_operational || exists|p: int| pos <= p && #[trigger] operational_usage_at(toks, p),
    decreases toks.len() - pos,
{
    if 0 <= pos < toks.len() {
        match toks[pos] {
            TokenView::Word(w) => {
                let (a2, q) = at_keyword(toks, pos + 1, uppercase(w), a);
                let next = if pos < q <= toks.len() { q } else { pos + 1 };
                lemma_at_loop_operational(toks, next, a2);
                if a2.is_operational && !a.is_operational {
                    reveal_strlit("USAGE");
                    if uppercase(w) == "USAGE"@ {
                        assert(operational_usage_at(toks, pos));
                    }
                }
            },
            TokenView::LParen => {
                let q = skip_group(toks, pos + 1, 1);
                lemma_at_loop_operational(toks, if pos < q <= toks.len() { q } else { pos + 1 }, a);
            },
            TokenView::Quoted(_) => lemma_at_loop_operational(toks, pos + 1, a),
            TokenView::RParen => {},
        }
    }
}

/// A parsed attributeType is operational only when its description has a USAGE keyword whose
/// argument is not userApplications: a description whose every USAGE argument is
/// userApplications (in any letter case) gives a user attribute.
pub proof fn law_operational_needs_other_usage(s: Seq<char>)
    ensures
        parse_at_spec(s) matches Some(a) && a.is_operational ==> exists|p: int| #[trigger] operational_usage_at(tokens(s), p),
{
    let toks = tokens(s);
    if toks.len() > 0 && toks[0] is LParen {
        if let Some(oid) = word_at(toks, 1) {
            lemma_at_loop_operational(
                toks,
                2,
                AttributeTypeView {
                    oid,
                    names: Seq::empty(),
                    sup: None,
                    syntax: None,
                    single_value: false,
                    no_user_mod: false,
                    is_operational: false,
                },
            );
        }
    }
}

} // verus!
