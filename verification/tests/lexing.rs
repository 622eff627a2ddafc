use tiny_2ltt::errors::Error;
use tiny_2ltt::lexer::{lex, Token};

fn toks(src: &str) -> Vec<(Token, (usize, usize))> {
    lex(src).unwrap().into_iter().map(|s| (s.tok, s.span)).collect()
}

fn lex_err(src: &str) -> String {
    match lex(src) {
        Err(Error::Parse(m)) => m,
        other => panic!("expected a parse error, got {other:?}"),
    }
}

#[test]
fn tokens_carry_byte_spans() {
    assert_eq!(
        toks("let x = 5;"),
        vec![
            (Token::Let, (0, 3)),
            (Token::Ident("x".to_string()), (4, 5)),
            (Token::Eq, (6, 7)),
            (Token::Num(5), (8, 9)),
            (Token::Semi, (9, 10)),
        ]
    );
}

#[test]
fn keywords_and_longer_words() {
    assert_eq!(
        toks("let letx in fn Nat Bool Code eval true false if then else"),
        vec![
            (Token::Let, (0, 3)),
            (Token::Ident("letx".to_string()), (4, 8)),
            (Token::In, (9, 11)),
            (Token::Fn, (12, 14)),
            (Token::NatTy, (15, 18)),
            (Token::BoolTy, (19, 23)),
            (Token::Code, (24, 28)),
            (Token::Eval, (29, 33)),
            (Token::True, (34, 38)),
            (Token::False, (39, 44)),
            (Token::If, (45, 47)),
            (Token::Then, (48, 52)),
            (Token::Else, (53, 57)),
        ]
    );
}

#[test]
fn longest_operator_wins() {
    let kinds: Vec<Token> = toks("== => -> = - < > + * : ; , . ( ) [ ] \\ ~")
        .into_iter()
        .map(|(t, _)| t)
        .collect();
    assert_eq!(
        kinds,
        vec![
            Token::EqEq,
            Token::FatArrow,
            Token::Arrow,
            Token::Eq,
            Token::Minus,
            Token::Lt,
            Token::Gt,
            Token::Plus,
            Token::Star,
            Token::Colon,
            Token::Semi,
            Token::Comma,
            Token::Dot,
            Token::LParen,
            Token::RParen,
            Token::LBracket,
            Token::RBracket,
            Token::Lambda,
            Token::Tilde,
        ]
    );
}

#[test]
fn comments_and_blanks_are_skipped() {
    assert_eq!(toks("-- a comment ü\n\t x\r\n"), vec![(Token::Ident("x".to_string()), (18, 19))]);
    assert_eq!(toks("--"), vec![]);
    assert_eq!(toks("a--b\nc").len(), 2);
}

#[test]
fn identifiers_take_primes_digits_and_underscores() {
    assert_eq!(
        toks("a'b_1 _ x2"),
        vec![
            (Token::Ident("a'b_1".to_string()), (0, 5)),
            (Token::Ident("_".to_string()), (6, 7)),
            (Token::Ident("x2".to_string()), (8, 10)),
        ]
    );
}

#[test]
fn number_then_word() {
    assert_eq!(
        toks("123abc"),
        vec![(Token::Num(123), (0, 3)), (Token::Ident("abc".to_string()), (3, 6))]
    );
}

#[test]
fn largest_number_fits() {
    assert_eq!(toks("9223372036854775807"), vec![(Token::Num(i64::MAX), (0, 19))]);
}

#[test]
fn too_large_number_is_an_error() {
    assert_eq!(lex_err("1 + 9223372036854775808"), "unexpected character at 4..23");
}

#[test]
fn unknown_character_is_an_error() {
    assert_eq!(lex_err("x # y"), "unexpected character at 2..3");
    assert_eq!(lex_err("'"), "unexpected character at 0..1");
}

#[test]
fn non_ascii_character_is_an_error_over_its_bytes() {
    assert_eq!(lex_err("ab é"), "unexpected character at 3..5");
}

#[test]
fn empty_source_has_no_tokens() {
    assert!(lex("").unwrap().is_empty());
    assert!(lex("   \n ").unwrap().is_empty());
}

#[test]
fn each_token_lexes_back_alone() {
    let src = "let x == y -> 12 letx (a') \\ z_1 => ~<b>";
    for (tok, (a, b)) in toks(src) {
        assert_eq!(toks(&src[a..b]), vec![(tok, (0, b - a))]);
    }
}

#[test]
fn bytes_between_tokens_are_blanks_or_comments() {
    let src = "  x -- a comment\n\t+ 1 -- end";
    let spans: Vec<(usize, usize)> = toks(src).into_iter().map(|(_, s)| s).collect();
    assert_eq!(spans, vec![(2, 3), (18, 19), (20, 21)]);
    assert_eq!(&src[3..18], " -- a comment\n\t");
    assert_eq!(&src[21..], " -- end");
}

#[test]
fn spanned_tokens_clone() {
    let t = lex("let").unwrap();
    let c = t[0].clone();
    assert_eq!(c.tok, Token::Let);
    assert_eq!(c.span, (0, 3));
}
