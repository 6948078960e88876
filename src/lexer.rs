//! The tokenizer: splits a source text into classified, located tokens.

use crate::cursor::{char_len, char_width, Cursor};
use crate::span::{span_of, Offset, Span};
use vstd::prelude::*;
use vstd::string::StringSliceAdditionalSpecFns;

verus! {

/// A lexed token: its kind and where it stands in the text.
#[derive(Debug)]
pub struct Token {
    pub kind: TokenKind,
    pub span: Span,
}

/// What a token is.
#[derive(Clone, Copy, Debug, PartialEq, Eq, Structural)]
pub enum TokenKind {
    Ident,
    Literal { kind: LiteralKind },
    Semic,
    OpenParen,
    CloseParen,
    OpenBrace,
    CloseBrace,
    Whitespace,
    Unknown,
    Eof,
}

/// What a literal token is.
#[derive(Clone, Copy, Debug, PartialEq, Eq, Structural)]
pub enum LiteralKind {
    Int,
}

/// Byte range `(start, end)` of the leftmost match of the regular expression
/// `pattern` in `hay`, or none.
pub uninterp spec fn leftmost_match(pattern: Seq<char>, hay: Seq<u8>) -> Option<(usize, usize)>;

/// Relies on `regex::bytes::Regex::new`, which compiles `pattern`, and on
/// `Regex::find`, which gives the byte range of the leftmost match in `hay`.
/// A pattern that does not compile matches nothing.
#[verifier::external_body]
fn find_match(pattern: &str, hay: &[u8]) -> (r: Option<(usize, usize)>)
    ensures
        r == leftmost_match(pattern@, hay@),
        r matches Some((s, e)) ==> s <= e <= hay@.len(),
{
    match regex::bytes::Regex::new(pattern) {
        Ok(re) => re.find(hay).map(|m| (m.start(), m.end())),
        Err(_) => None,
    }
}

/// Number of lexical rules.
pub const RULE_COUNT: usize = 8;

/// Kind of the token that rule `i` recognizes.
pub open spec fn rule_kind(i: int) -> TokenKind {
    if i == 0 {
        TokenKind::Ident
    } else if i == 1 {
        TokenKind::Literal { kind: LiteralKind::Int }
    } else if i == 2 {
        TokenKind::Semic
    } else if i == 3 {
        TokenKind::OpenParen
    } else if i == 4 {
        TokenKind::CloseParen
    } else if i == 5 {
        TokenKind::OpenBrace
    } else if i == 6 {
        TokenKind::CloseBrace
    } else {
        TokenKind::Whitespace
    }
}

/// Pattern of rule `i`, anchored at the start of the text.
pub open spec fn rule_pattern(i: int) -> Seq<char> {
    if i == 0 {
        r"^[a-zA-Z_]\w*\b"@
    } else if i == 1 {
        r"^[0-9]+\b"@
    } else if i == 2 {
        r"^;"@
    } else if i == 3 {
        r"^\("@
    } else if i == 4 {
        r"^\)"@
    } else if i == 5 {
        r"^\{"@
    } else if i == 6 {
        r"^\}"@
    } else {
        r"^\s+"@
    }
}

fn rule(i: usize) -> (r: (TokenKind, &'static str))
    requires
        i < RULE_COUNT,
    ensures
        r.0 == rule_kind(i as int),
        r.1@ == rule_pattern(i as int),
{
    if i == 0 {
        (TokenKind::Ident, r"^[a-zA-Z_]\w*\b")
    } else if i == 1 {
        (TokenKind::Literal { kind: LiteralKind::Int }, r"^[0-9]+\b")
    } else if i == 2 {
        (TokenKind::Semic, r"^;")
    } else if i == 3 {
        (TokenKind::OpenParen, r"^\(")
    } else if i == 4 {
        (TokenKind::CloseParen, r"^\)")
    } else if i == 5 {
        (TokenKind::OpenBrace, r"^\{")
    } else if i == 6 {
        (TokenKind::CloseBrace, r"^\}")
    } else {
        (TokenKind::Whitespace, r"^\s+")
    }
}

/// Length of the token that a match `m` of a rule gives on a remainder of
/// `rest_len` bytes: the match must start at 0, be non-empty and fit.
pub open spec fn accepted(m: Option<(usize, usize)>, rest_len: nat) -> Option<nat> {
    match m {
        Some((s, e)) => if s == 0 && 0 < e && e <= rest_len {
            Some(e as nat)
        } else {
            None
        },
        None => None,
    }
}

/// The first of rules `i..` whose match in `matches` is accepted, with the
/// length it gives.
pub open spec fn first_accepted(matches: Seq<Option<(usize, usize)>>, rest_len: nat, i: int) -> Option<
    (TokenKind, nat),
>
    decreases RULE_COUNT - i,
{
    if i < 0 || i >= RULE_COUNT || i >= matches.len() {
        None
    } else {
        match accepted(matches[i], rest_len) {
            Some(n) => Some((rule_kind(i), n)),
            None => first_accepted(matches, rest_len, i + 1),
        }
    }
}

/// Kind and length of a token, given what each rule matched on a remainder
/// of `rest_len` bytes and the width of its first character: the first
/// accepted rule, or else that one character as `Unknown`.
pub open spec fn pick_token(matches: Seq<Option<(usize, usize)>>, rest_len: nat, width: nat) -> (
    TokenKind,
    nat,
) {
    match first_accepted(matches, rest_len, 0) {
        Some(t) => t,
        None => (TokenKind::Unknown, width),
    }
}

/// What each rule matches in `rest`, in rule order.
pub open spec fn rule_matches(rest: Seq<u8>) -> Seq<Option<(usize, usize)>> {
    Seq::new(RULE_COUNT as nat, |i: int| leftmost_match(rule_pattern(i), rest))
}

/// Kind and length of the token at the start of `rest`.
pub open spec fn next_token(rest: Seq<u8>) -> (TokenKind, nat) {
    pick_token(rule_matches(rest), rest.len(), char_len(rest))
}

/// Chooses the token kind and length from what each rule matched (in rule
/// order) on a remainder of `rest_len` bytes whose first character is
/// `width` bytes wide.
pub fn select_token(matches: &[Option<(usize, usize)>], rest_len: usize, width: usize) -> (r: (
    TokenKind,
    usize,
))
    ensures
        (r.0, r.1 as nat) == pick_token(matches@, rest_len as nat, width as nat),
{
    let mut i: usize = 0;
    while i < RULE_COUNT && i < matches.len()
        invariant
            i <= RULE_COUNT,
            first_accepted(matches@, rest_len as nat, 0) == first_accepted(
                matches@,
                rest_len as nat,
                i as int,
            ),
        decreases RULE_COUNT - i,
    {
        if let Some((s, e)) = matches[i] {
            if s == 0 && 0 < e && e <= rest_len {
                let (kind, _) = rule(i);
                return (kind, e);
            }
        }
        i = i + 1;
    }
    (TokenKind::Unknown, width)
}

/// Tokens of `text` from byte `pos` on, each as (kind, start, end).
pub open spec fn lex_from(text: Seq<u8>, pos: nat) -> Seq<(TokenKind, nat, nat)>
    decreases text.len() - pos,
{
    if pos >= text.len() {
        seq![]
    } else {
        let (k, n) = next_token(text.subrange(pos as int, text.len() as int));
        if n == 0 || pos + n > text.len() {
            seq![]
        } else {
            seq![(k, pos, pos + n)] + lex_from(text, pos + n)
        }
    }
}

/// Tokens of the whole text, each as (kind, start, end).
pub open spec fn lex(text: Seq<u8>) -> Seq<(TokenKind, nat, nat)> {
    lex_from(text, 0)
}

/// Whether `tok` is the token `t` given as (kind, start, end).
pub open spec fn token_is(tok: Token, t: (TokenKind, nat, nat)) -> bool {
    &&& tok.kind == t.0
    &&& (tok.span.start(), tok.span.width()) == span_of(t.1 as int, t.2 as int)
}

proof fn lemma_first_accepted_bounds(matches: Seq<Option<(usize, usize)>>, rest_len: nat, i: int)
    ensures
        first_accepted(matches, rest_len, i) matches Some((_, n)) ==> 0 < n <= rest_len,
    decreases RULE_COUNT - i,
{
    if 0 <= i < RULE_COUNT {
        lemma_first_accepted_bounds(matches, rest_len, i + 1);
    }
}

proof fn lemma_next_token_bounds(rest: Seq<u8>)
    requires
        rest.len() > 0,
    ensures
        0 < next_token(rest).1 <= rest.len(),
{
    lemma_first_accepted_bounds(rule_matches(rest), rest.len(), 0);
}

impl<'a> Cursor<'a> {
    /// Reads the next token and moves past it; at the end of the text gives
    /// an `Eof` token with the dummy span and stays put.
    pub fn advance_token(&mut self) -> (r: Token)
        requires
            old(self).wf(),
            old(self).text().len() <= u32::MAX,
        ensures
            final(self).wf(),
            final(self).text() == old(self).text(),
            old(self).pos() == old(self).text().len() ==> {
                &&& r.kind == TokenKind::Eof
                &&& r.span.start() == 0
                &&& r.span.width() == 0
                &&& final(self).pos() == old(self).pos()
            },
            old(self).pos() < old(self).text().len() ==> {
                let (k, n) = next_token(old(self).rest());
                &&& token_is(r, (k, old(self).pos(), old(self).pos() + n))
                &&& final(self).pos() == old(self).pos() + n
            },
    {
        if self.is_eof() {
            return Token { kind: TokenKind::Eof, span: Span::default() };
        }
        proof {
            self.lemma_wf();
        }
        let rest = self.at_curr_pt();
        let start = self.curr_pt();
        let mut matches: Vec<Option<(usize, usize)>> = Vec::new();
        let mut i: usize = 0;
        while i < RULE_COUNT
            invariant
                i <= RULE_COUNT,
                matches@.len() == i,
                forall|j: int| 0 <= j < i ==> matches@[j] == #[trigger] rule_matches(rest@)[j],
            decreases RULE_COUNT - i,
        {
            let (_, pattern) = rule(i);
            matches.push(find_match(pattern, rest));
            i = i + 1;
        }
        assert(matches@ =~= rule_matches(rest@));
        let (kind, n) = select_token(matches.as_slice(), rest.len(), char_width(rest));
        proof {
            lemma_next_token_bounds(rest@);
        }
        let span = Span::new(Offset(start as u32), Offset((start + n) as u32));
        self.advance(n);
        Token { kind, span }
    }
}

/// All tokens of `input`, in order, the end marker left out.
pub fn tokenize(input: &str) -> (r: Vec<Token>)
    requires
        input.spec_bytes().len() <= u32::MAX,
    ensures
        r@.len() == lex(input.spec_bytes()).len(),
        forall|i: int| 0 <= i < r@.len() ==> token_is(#[trigger] r@[i], lex(input.spec_bytes())[i]),
{
    let mut cursor = Cursor::new(input);
    let mut out: Vec<Token> = Vec::new();
    let ghost text = input.spec_bytes();
    let ghost mut done: Seq<(TokenKind, nat, nat)> = seq![];
    while !cursor.is_eof()
        invariant
            cursor.wf(),
            cursor.text() == text,
            text.len() <= u32::MAX,
            lex(text) == done + lex_from(text, cursor.pos()),
            out@.len() == done.len(),
            forall|i: int| 0 <= i < out@.len() ==> token_is(#[trigger] out@[i], done[i]),
        decreases text.len() - cursor.pos(),
    {
        let ghost pos = cursor.pos();
        let ghost (k, n) = next_token(cursor.rest());
        proof {
            cursor.lemma_wf();
            lemma_next_token_bounds(cursor.rest());
        }
        let tok = cursor.advance_token();
        proof {
            assert(lex_from(text, pos) == seq![(k, pos, pos + n)] + lex_from(text, pos + n));
            assert(done.push((k, pos, pos + n)) + lex_from(text, pos + n) =~= done + lex_from(text, pos));
            done = done.push((k, pos, (pos + n) as nat));
        }
        out.push(tok);
    }
    proof {
        assert(done + lex_from(text, cursor.pos()) =~= done);
    }
    out
}

/// The bytes of `text` that the tokens `toks` cover, one after another.
pub open spec fn joined(text: Seq<u8>, toks: Seq<(TokenKind, nat, nat)>) -> Seq<u8>
    decreases toks.len(),
{
    if toks.len() == 0 {
        seq![]
    } else {
        text.subrange(toks[0].1 as int, toks[0].2 as int) + joined(text, toks.drop_first())
    }
}

proof fn lemma_lex_from_covers(text: Seq<u8>, pos: nat)
    requires
        pos <= text.len(),
    ensures
        joined(text, lex_from(text, pos)) == text.subrange(pos as int, text.len() as int),
    decreases text.len() - pos,
{
    if pos < text.len() {
        let rest = text.subrange(pos as int, text.len() as int);
        lemma_next_token_bounds(rest);
        let (k, n) = next_token(rest);
        lemma_lex_from_covers(text, pos + n);
        let toks = lex_from(text, pos);
        assert(toks.drop_first() =~= lex_from(text, pos + n));
        assert(text.subrange(pos as int, (pos + n) as int) + text.subrange(
            (pos + n) as int,
            text.len() as int,
        ) =~= rest);
    } else {
        assert(text.subrange(pos as int, text.len() as int) =~= Seq::<u8>::empty());
    }
}

proof fn lemma_lex_from_ordered(text: Seq<u8>, pos: nat)
    ensures
        forall|i: int|
            0 <= i < lex_from(text, pos).len() ==> {
                let t = #[trigger] lex_from(text, pos)[i];
                pos <= t.1 < t.2 <= text.len()
            },
    decreases text.len() - pos,
{
    if pos < text.len() {
        let rest = text.subrange(pos as int, text.len() as int);
        lemma_next_token_bounds(rest);
        let (k, n) = next_token(rest);
        lemma_lex_from_ordered(text, pos + n);
        let toks = lex_from(text, pos);
        assert forall|i: int| 0 < i < toks.len() implies toks[i] == lex_from(text, pos + n)[i - 1] by {}
    }
}

proof fn lemma_lex_from_contiguous(text: Seq<u8>, pos: nat)
    requires
        pos <= text.len(),
    ensures
        lex_from(text, pos).len() == 0 <==> pos == text.len(),
        lex_from(text, pos).len() > 0 ==> lex_from(text, pos)[0].1 == pos,
        lex_from(text, pos).len() > 0 ==> lex_from(text, pos).last().2 == text.len(),
        forall|i: int|
            0 <= i < lex_from(text, pos).len() - 1 ==> (#[trigger] lex_from(text, pos)[i]).2
                == lex_from(text, pos)[i + 1].1,
    decreases text.len() - pos,
{
    if pos < text.len() {
        let rest = text.subrange(pos as int, text.len() as int);
        lemma_next_token_bounds(rest);
        let (k, n) = next_token(rest);
        lemma_lex_from_contiguous(text, pos + n);
        let toks = lex_from(text, pos);
        let tail = lex_from(text, pos + n);
        assert forall|i: int| 0 < i < toks.len() implies toks[i] == tail[i - 1] by {}
        if tail.len() > 0 {
            assert(toks.last() == tail.last());
        }
    }
}

/// Concatenating the bytes under every token, in order, gives back the
/// text, and each token starts where the one before it ends; each token narrower than 65536 bytes has a span whose offsets are
/// exactly its start and end.
pub proof fn lemma_lossless_covering(text: Seq<u8>)
    ensures
        joined(text, lex(text)) == text,
        lex(text).len() == 0 <==> text.len() == 0,
        lex(text).len() > 0 ==> lex(text)[0].1 == 0 && lex(text).last().2 == text.len(),
        forall|i: int|
            0 <= i < lex(text).len() - 1 ==> (#[trigger] lex(text)[i]).2 == lex(text)[i + 1].1,
        forall|i: int|
            0 <= i < lex(text).len() ==> {
                let t = #[trigger] lex(text)[i];
                t.2 - t.1 < 0x10000 ==> span_of(t.1 as int, t.2 as int) == (t.1 as int, t.2 - t.1)
            },
{
    lemma_lex_from_covers(text, 0);
    lemma_lex_from_ordered(text, 0);
    lemma_lex_from_contiguous(text, 0);
    assert(text.subrange(0, text.len() as int) =~= text);
}

} // verus!
