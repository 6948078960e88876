use cfront::cursor::{char_width, Cursor};
use cfront::lexer::{select_token, tokenize, LiteralKind, Token, TokenKind};

fn text_of<'a>(src: &'a str, tok: &Token) -> &'a str {
    let d = tok.span.data();
    &src[d.lo.0 as usize..d.hi.0 as usize]
}

#[test]
fn known_token_sequence() {
    let src = "int main ( ) { return 2 ; }";
    let toks: Vec<Token> = tokenize(src)
        .into_iter()
        .filter(|t| t.kind != TokenKind::Whitespace)
        .collect();
    let expected = vec![
        (TokenKind::Ident, "int"),
        (TokenKind::Ident, "main"),
        (TokenKind::OpenParen, "("),
        (TokenKind::CloseParen, ")"),
        (TokenKind::OpenBrace, "{"),
        (TokenKind::Ident, "return"),
        (TokenKind::Literal { kind: LiteralKind::Int }, "2"),
        (TokenKind::Semic, ";"),
        (TokenKind::CloseBrace, "}"),
    ];
    assert_eq!(toks.len(), expected.len());
    for (tok, (kind, text)) in toks.iter().zip(expected.iter()) {
        assert_eq!(tok.kind, *kind);
        assert_eq!(text_of(src, tok), *text);
    }
}

#[test]
fn single_character_fallback() {
    let toks = tokenize("@");
    assert_eq!(toks.len(), 1);
    assert_eq!(toks[0].kind, TokenKind::Unknown);
    let d = toks[0].span.data();
    assert_eq!(d.lo.0, 0);
    assert_eq!(d.hi.0, 1);
}

#[test]
fn unknown_multibyte_character_is_one_token() {
    let src = "é;";
    let toks = tokenize(src);
    assert_eq!(toks.len(), 2);
    assert_eq!(toks[0].kind, TokenKind::Unknown);
    assert_eq!(text_of(src, &toks[0]), "é");
    assert_eq!(toks[1].kind, TokenKind::Semic);
}

#[test]
fn empty_input_gives_no_tokens() {
    assert!(tokenize("").is_empty());
}

#[test]
fn lossless_covering_on_mixed_text() {
    let src = "int x_1 = 42;\n\t@@ foo(){ }\r\n 7abc";
    let toks = tokenize(src);
    let mut joined = String::new();
    let mut expected_start: u32 = 0;
    for tok in &toks {
        let d = tok.span.data();
        assert_eq!(d.lo.0, expected_start);
        assert!(d.hi.0 > d.lo.0);
        expected_start = d.hi.0;
        joined.push_str(text_of(src, tok));
    }
    assert_eq!(joined, src);
}

#[test]
fn identifier_and_whitespace_widths() {
    let src = "abc_9   12";
    let toks = tokenize(src);
    assert_eq!(toks.len(), 3);
    assert_eq!(toks[0].kind, TokenKind::Ident);
    assert_eq!(text_of(src, &toks[0]), "abc_9");
    assert_eq!(toks[1].kind, TokenKind::Whitespace);
    assert_eq!(text_of(src, &toks[1]), "   ");
    assert_eq!(toks[2].kind, TokenKind::Literal { kind: LiteralKind::Int });
    assert_eq!(text_of(src, &toks[2]), "12");
}

#[test]
fn digits_followed_by_letters_are_not_an_integer() {
    let src = "7abc";
    let toks = tokenize(src);
    assert_eq!(toks[0].kind, TokenKind::Unknown);
    assert_eq!(text_of(src, &toks[0]), "7");
    assert_eq!(toks[1].kind, TokenKind::Ident);
    assert_eq!(text_of(src, &toks[1]), "abc");
}

#[test]
fn cursor_advances_and_reports_eof() {
    let mut c = Cursor::new("ab;");
    assert!(!c.is_eof());
    assert_eq!(c.curr_pt(), 0);
    c.advance(2);
    assert_eq!(c.curr_pt(), 2);
    assert_eq!(c.at_curr_pt(), b";");
    c.bump();
    assert!(c.is_eof());
    assert_eq!(c.at_curr_pt(), b"");
}

#[test]
fn cursor_bump_takes_a_whole_character() {
    let mut c = Cursor::new("€x");
    c.bump();
    assert_eq!(c.curr_pt(), 3);
}

#[test]
fn advance_token_at_end_gives_eof() {
    let mut c = Cursor::new(";");
    let t = c.advance_token();
    assert_eq!(t.kind, TokenKind::Semic);
    let t = c.advance_token();
    assert_eq!(t.kind, TokenKind::Eof);
    let d = t.span.data();
    assert_eq!((d.lo.0, d.hi.0), (0, 0));
    assert_eq!(c.curr_pt(), 1);
}

#[test]
fn select_token_takes_the_first_accepted_rule() {
    let m = [None, Some((0, 3)), Some((0, 1))];
    assert_eq!(
        select_token(&m, 5, 1),
        (TokenKind::Literal { kind: LiteralKind::Int }, 3)
    );
}

#[test]
fn select_token_skips_matches_that_are_empty_late_or_too_long() {
    let m = [Some((0, 0)), Some((1, 2)), Some((0, 9)), None, None, None, None, Some((0, 2))];
    assert_eq!(select_token(&m, 4, 1), (TokenKind::Whitespace, 2));
}

#[test]
fn select_token_falls_back_to_one_character() {
    let m = [None; 8];
    assert_eq!(select_token(&m, 4, 2), (TokenKind::Unknown, 2));
}

#[test]
fn char_width_follows_the_leading_byte() {
    assert_eq!(char_width(b""), 0);
    assert_eq!(char_width(b"a"), 1);
    assert_eq!(char_width("é".as_bytes()), 2);
    assert_eq!(char_width("€".as_bytes()), 3);
    assert_eq!(char_width("😀".as_bytes()), 4);
    assert_eq!(char_width(&[0xF0, 0x9F]), 2);
}
