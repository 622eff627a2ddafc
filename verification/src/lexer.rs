use vstd::prelude::*;
use vstd::string::*;

use crate::errors::{parse_error, Error, SErr};
use crate::text::{dec_int, dec_nat, push_i64, push_str, push_string, push_usize, string_of};

verus! {

/// The tokens of the surface language.
#[derive(Debug, Clone, PartialEq, Eq)]
pub enum Token {
    Let,
    In,
    If,
    Then,
    Else,
    True,
    False,
    Eval,
    NatTy,
    BoolTy,
    Code,
    Fn,
    FatArrow,
    Arrow,
    Eq,
    EqEq,
    Lt,
    Gt,
    Plus,
    Minus,
    Star,
    Colon,
    Semi,
    Comma,
    Dot,
    LParen,
    RParen,
    LBracket,
    RBracket,
    Lambda,
    Tilde,
    Num(i64),
    Ident(String),
}

/// The model of a token: an identifier is a sequence of characters.
pub enum STok {
    Let,
    In,
    If,
    Then,
    Else,
    True,
    False,
    Eval,
    NatTy,
    BoolTy,
    Code,
    Fn,
    FatArrow,
    Arrow,
    Eq,
    EqEq,
    Lt,
    Gt,
    Plus,
    Minus,
    Star,
    Colon,
    Semi,
    Comma,
    Dot,
    LParen,
    RParen,
    LBracket,
    RBracket,
    Lambda,
    Tilde,
    Num(i64),
    Ident(Seq<char>),
}

impl View for Token {
    type V = STok;

    open spec fn view(&self) -> STok {
        match self {
            Token::Let => STok::Let,
            Token::In => STok::In,
            Token::If => STok::If,
            Token::Then => STok::Then,
            Token::Else => STok::Else,
            Token::True => STok::True,
            Token::False => STok::False,
            Token::Eval => STok::Eval,
            Token::NatTy => STok::NatTy,
            Token::BoolTy => STok::BoolTy,
            Token::Code => STok::Code,
            Token::Fn => STok::Fn,
            Token::FatArrow => STok::FatArrow,
            Token::Arrow => STok::Arrow,
            Token::Eq => STok::Eq,
            Token::EqEq => STok::EqEq,
            Token::Lt => STok::Lt,
            Token::Gt => STok::Gt,
            Token::Plus => STok::Plus,
            Token::Minus => STok::Minus,
            Token::Star => STok::Star,
            Token::Colon => STok::Colon,
            Token::Semi => STok::Semi,
            Token::Comma => STok::Comma,
            Token::Dot => STok::Dot,
            Token::LParen => STok::LParen,
            Token::RParen => STok::RParen,
            Token::LBracket => STok::LBracket,
            Token::RBracket => STok::RBracket,
            Token::Lambda => STok::Lambda,
            Token::Tilde => STok::Tilde,
            Token::Num(n) => STok::Num(*n),
            Token::Ident(s) => STok::Ident(s@),
        }
    }
}

/// A token with the byte range of the source it was read from.
#[derive(Debug)]
pub struct Spanned {
    pub tok: Token,
    pub span: (usize, usize),
}

impl View for Spanned {
    type V = (STok, usize, usize);

    open spec fn view(&self) -> (STok, usize, usize) {
        (self.tok@, self.span.0, self.span.1)
    }
}

impl Clone for Spanned {
    /// A copy of the token and its range.
    fn clone(&self) -> (r: Self)
        ensures
            r@ == self@,
    {
        Spanned { tok: copy_token(&self.tok), span: (self.span.0, self.span.1) }
    }
}

/// The models of a list of tokens.
pub open spec fn toks_view(v: Seq<Spanned>) -> Seq<(STok, usize, usize)> {
    v.map_values(|x: Spanned| x@)
}

/// A copy of a token.
pub(crate) fn copy_token(t: &Token) -> (r: Token)
    ensures
        r == *t,
{
    match t {
        Token::Let => Token::Let,
        Token::In => Token::In,
        Token::If => Token::If,
        Token::Then => Token::Then,
        Token::Else => Token::Else,
        Token::True => Token::True,
        Token::False => Token::False,
        Token::Eval => Token::Eval,
        Token::NatTy => Token::NatTy,
        Token::BoolTy => Token::BoolTy,
        Token::Code => Token::Code,
        Token::Fn => Token::Fn,
        Token::FatArrow => Token::FatArrow,
        Token::Arrow => Token::Arrow,
        Token::Eq => Token::Eq,
        Token::EqEq => Token::EqEq,
        Token::Lt => Token::Lt,
        Token::Gt => Token::Gt,
        Token::Plus => Token::Plus,
        Token::Minus => Token::Minus,
        Token::Star => Token::Star,
        Token::Colon => Token::Colon,
        Token::Semi => Token::Semi,
        Token::Comma => Token::Comma,
        Token::Dot => Token::Dot,
        Token::LParen => Token::LParen,
        Token::RParen => Token::RParen,
        Token::LBracket => Token::LBracket,
        Token::RBracket => Token::RBracket,
        Token::Lambda => Token::Lambda,
        Token::Tilde => Token::Tilde,
        Token::Num(n) => Token::Num(*n),
        Token::Ident(s) => Token::Ident(s.clone()),
    }
}

// ---------------------------------------------------------------------------
// The lexical grammar, on the bytes of the source.

/// Blanks: space, tab, carriage return, line feed, form feed.
pub open spec fn is_space(b: u8) -> bool {
    b == 32 || b == 9 || b == 13 || b == 10 || b == 12
}

pub open spec fn is_digit(b: u8) -> bool {
    48 <= b <= 57
}

/// `[a-zA-Z_]`
pub open spec fn is_ident_start(b: u8) -> bool {
    (65 <= b <= 90) || (97 <= b <= 122) || b == 95
}

/// `[a-zA-Z0-9_']`
pub open spec fn is_ident_char(b: u8) -> bool {
    is_ident_start(b) || is_digit(b) || b == 39
}

pub open spec fn not_newline(b: u8) -> bool {
    b != 10
}

/// The end of the longest run of bytes from `i` on that satisfy `p`.
pub open spec fn run_end(s: Seq<u8>, i: nat, p: spec_fn(u8) -> bool) -> nat
    decreases s.len() - i,
{
    if i < s.len() && p(s[i as int]) {
        run_end(s, i + 1, p)
    } else {
        i
    }
}

/// The decimal value of the digits `s[i..j]`.
pub open spec fn digits_value(s: Seq<u8>, i: nat, j: nat) -> nat
    decreases j - i,
{
    if j <= i {
        0
    } else {
        digits_value(s, i, (j - 1) as nat) * 10 + (s[j - 1] - 48) as nat
    }
}

/// The characters of the bytes `s[i..j]`.
pub open spec fn word_chars(s: Seq<u8>, i: nat, j: nat) -> Seq<char> {
    s.subrange(i as int, j as int).map_values(|b: u8| b as char)
}

/// The keyword spelled by `w`, if it is one.
pub open spec fn keyword(w: Seq<char>) -> Option<STok> {
    if w == "let"@ {
        Some(STok::Let)
    } else if w == "in"@ {
        Some(STok::In)
    } else if w == "if"@ {
        Some(STok::If)
    } else if w == "then"@ {
        Some(STok::Then)
    } else if w == "else"@ {
        Some(STok::Else)
    } else if w == "true"@ {
        Some(STok::True)
    } else if w == "false"@ {
        Some(STok::False)
    } else if w == "eval"@ {
        Some(STok::Eval)
    } else if w == "Nat"@ {
        Some(STok::NatTy)
    } else if w == "Bool"@ {
        Some(STok::BoolTy)
    } else if w == "Code"@ {
        Some(STok::Code)
    } else if w == "fn"@ {
        Some(STok::Fn)
    } else {
        None
    }
}

/// The token made of the single byte `b`, if there is one (`-` and `=` may
/// start longer tokens and are not among these).
pub open spec fn single(b: u8) -> Option<STok> {
    if b == 60 {
        Some(STok::Lt)
    } else if b == 62 {
        Some(STok::Gt)
    } else if b == 43 {
        Some(STok::Plus)
    } else if b == 42 {
        Some(STok::Star)
    } else if b == 58 {
        Some(STok::Colon)
    } else if b == 59 {
        Some(STok::Semi)
    } else if b == 44 {
        Some(STok::Comma)
    } else if b == 46 {
        Some(STok::Dot)
    } else if b == 40 {
        Some(STok::LParen)
    } else if b == 41 {
        Some(STok::RParen)
    } else if b == 91 {
        Some(STok::LBracket)
    } else if b == 93 {
        Some(STok::RBracket)
    } else if b == 92 {
        Some(STok::Lambda)
    } else if b == 126 {
        Some(STok::Tilde)
    } else {
        None
    }
}

/// The number of bytes of the UTF-8 character whose first byte is `b`.
pub open spec fn char_width(b: u8) -> nat {
    if b < 0xC0 {
        1
    } else if b < 0xE0 {
        2
    } else if b < 0xF0 {
        3
    } else {
        4
    }
}

/// What the longest match at position `i` gives.
pub enum Scan {
    /// Blanks or a comment, ending before the given position.
    Skip(nat),
    /// A token ending before the given position.
    Tok(STok, nat),
    /// No token can start here; the offending text ends before the position.
    Bad(nat),
}

/// The longest match at `i` (`i < s.len()`): blanks, a `--` comment to the end
/// of the line, the longest operator, a number that fits in an `i64`, or the
/// longest word, which is a keyword if it spells one.
pub open spec fn scan(s: Seq<u8>, i: nat) -> Scan {
    let b = s[i as int];
    let next_is = |c: u8| i + 1 < s.len() && s[i + 1 as int] == c;
    if is_space(b) {
        Scan::Skip(i + 1)
    } else if b == 45 {
        if next_is(45) {
            Scan::Skip(run_end(s, i + 2, |c: u8| not_newline(c)))
        } else if next_is(62) {
            Scan::Tok(STok::Arrow, i + 2)
        } else {
            Scan::Tok(STok::Minus, i + 1)
        }
    } else if b == 61 {
        if next_is(61) {
            Scan::Tok(STok::EqEq, i + 2)
        } else if next_is(62) {
            Scan::Tok(STok::FatArrow, i + 2)
        } else {
            Scan::Tok(STok::Eq, i + 1)
        }
    } else if single(b) is Some {
        Scan::Tok(single(b)->0, i + 1)
    } else if is_digit(b) {
        let j = run_end(s, i, |c: u8| is_digit(c));
        let v = digits_value(s, i, j);
        if v <= i64::MAX {
            Scan::Tok(STok::Num(v as i64), j)
        } else {
            Scan::Bad(j)
        }
    } else if is_ident_start(b) {
        let j = run_end(s, i + 1, |c: u8| is_ident_char(c));
        let w = word_chars(s, i, j);
        match keyword(w) {
            Some(k) => Scan::Tok(k, j),
            None => Scan::Tok(STok::Ident(w), j),
        }
    } else {
        let w = char_width(b);
        Scan::Bad(if i + w <= s.len() { i + w } else { s.len() })
    }
}

pub proof fn lemma_run_end(s: Seq<u8>, i: nat, p: spec_fn(u8) -> bool)
    requires
        i <= s.len(),
    ensures
        i <= run_end(s, i, p) <= s.len(),
        forall|k: int| i <= k < run_end(s, i, p) ==> p(#[trigger] s[k]),
        run_end(s, i, p) < s.len() ==> !p(s[run_end(s, i, p) as int]),
    decreases s.len() - i,
{
    if i < s.len() && p(s[i as int]) {
        lemma_run_end(s, i + 1, p);
    }
}

/// Every match at `i` ends after `i` and within `s`.
pub proof fn lemma_scan_progress(s: Seq<u8>, i: nat)
    requires
        i < s.len(),
    ensures
        match scan(s, i) {
            Scan::Skip(j) => i < j <= s.len(),
            Scan::Tok(_, j) => i < j <= s.len(),
            Scan::Bad(j) => i < j <= s.len(),
        },
{
    let b = s[i as int];
    if b == 45 && i + 1 < s.len() && s[i + 1 as int] == 45 {
        lemma_run_end(s, i + 2, |c: u8| not_newline(c));
    } else if is_digit(b) {
        lemma_run_end(s, i, |c: u8| is_digit(c));
    } else if is_ident_start(b) {
        lemma_run_end(s, i + 1, |c: u8| is_ident_char(c));
    }
}

/// The message of a lexical error over the byte range `i..j`.
pub open spec fn bad_char_msg(i: nat, j: nat) -> Seq<char> {
    "unexpected character at "@ + dec_nat(i) + ".."@ + dec_nat(j)
}

/// The tokens of `s` from position `i` on, each with its byte range, or the
/// error at the first place where no token can start.
pub open spec fn lex_from(s: Seq<u8>, i: nat) -> Result<Seq<(STok, usize, usize)>, SErr>
    decreases s.len() - i,
{
    if i >= s.len() {
        Ok(Seq::empty())
    } else {
        proof {
            lemma_scan_progress(s, i);
        }
        match scan(s, i) {
            Scan::Skip(j) => lex_from(s, j),
            Scan::Tok(t, j) => match lex_from(s, j) {
                Ok(rest) => Ok(seq![(t, i as usize, j as usize)] + rest),
                Err(e) => Err(e),
            },
            Scan::Bad(j) => Err(SErr::Parse(bad_char_msg(i, j))),
        }
    }
}

/// A run that stops at `j` ends at `j`.
pub proof fn lemma_run_end_exact(s: Seq<u8>, i: nat, j: nat, p: spec_fn(u8) -> bool)
    requires
        i <= j <= s.len(),
        forall|k: int| i <= k < j ==> p(#[trigger] s[k]),
        j == s.len() || !p(s[j as int]),
    ensures
        run_end(s, i, p) == j,
    decreases j - i,
{
    if i < j {
        lemma_run_end_exact(s, i + 1, j, p);
    }
}

/// The decimal value of digits does not depend on where they stand.
proof fn lemma_digits_shift(s: Seq<u8>, i: nat, m: nat)
    requires
        i + m <= s.len(),
    ensures
        digits_value(s.subrange(i as int, s.len() as int), 0, m) == digits_value(s, i, i + m),
    decreases m,
{
    if m > 0 {
        lemma_digits_shift(s, i, (m - 1) as nat);
        assert(s.subrange(i as int, s.len() as int)[m - 1] == s[i + m - 1]);
    }
}

/// A token read at `i`, cut out of the source, is read alone as the same
/// token: the longest match at `i` does not depend on what follows it.
proof fn lemma_token_alone(s: Seq<u8>, i: nat)
    requires
        i < s.len(),
        s.len() <= usize::MAX,
    ensures
        scan(s, i) matches Scan::Tok(t, j) ==> lex_from(s.subrange(i as int, j as int), 0) == Ok::<
            _,
            SErr,
        >(seq![(t, 0usize, (j - i) as usize)]),
{
    lemma_scan_progress(s, i);
    if let Scan::Tok(t, j) = scan(s, i) {
        let w = s.subrange(i as int, j as int);
        let n = (j - i) as nat;
        let b = s[i as int];
        assert(w[0] == b);
        if is_digit(b) {
            lemma_run_end(s, i, |c: u8| is_digit(c));
            assert forall|k: int| 0 <= k < n implies is_digit(#[trigger] w[k]) by {
                assert(w[k] == s[i + k]);
            }
            lemma_run_end_exact(w, 0, n, |c: u8| is_digit(c));
            let tail = s.subrange(i as int, s.len() as int);
            lemma_digits_shift(s, i, n);
            assert forall|m: nat| m <= n implies digits_value(w, 0, m) == digits_value(tail, 0, m) by {
                lemma_digits_prefix(w, tail, m);
            }
        } else if is_ident_start(b) && !(b == 45 || b == 61 || single(b) is Some || is_space(b)) {
            lemma_run_end(s, i + 1, |c: u8| is_ident_char(c));
            assert forall|k: int| 1 <= k < n implies is_ident_char(#[trigger] w[k]) by {
                assert(w[k] == s[i + k]);
            }
            lemma_run_end_exact(w, 1, n, |c: u8| is_ident_char(c));
            assert(w.subrange(0, n as int) =~= s.subrange(i as int, j as int));
        } else if b == 45 || b == 61 {
            if j == i + 2 {
                assert(w[1] == s[i + 1 as int]);
            }
        }
        assert(scan(w, 0) == Scan::Tok(t, n));
        lemma_scan_progress(w, 0);
        assert(lex_from(w, n) == Ok::<_, SErr>(Seq::<(STok, usize, usize)>::empty()));
        assert(seq![(t, 0usize, n as usize)] + Seq::<(STok, usize, usize)>::empty() =~= seq![
            (t, 0usize, n as usize),
        ]);
    }
}

/// Digit values agree on sequences that agree on the digits read.
proof fn lemma_digits_prefix(a: Seq<u8>, b: Seq<u8>, m: nat)
    requires
        m <= a.len(),
        m <= b.len(),
        forall|k: int| 0 <= k < m ==> a[k] == b[k],
    ensures
        digits_value(a, 0, m) == digits_value(b, 0, m),
    decreases m,
{
    if m > 0 {
        lemma_digits_prefix(a, b, (m - 1) as nat);
    }
}

/// Each token, cut out of the source by its byte range, is read alone as
/// that same token.
pub proof fn law_tokens_read_back(s: Seq<u8>, i: nat)
    requires
        s.len() <= usize::MAX,
    ensures
        lex_from(s, i) matches Ok(v) ==> forall|k: int|
            0 <= k < v.len() ==> lex_from(s.subrange(v[k].1 as int, v[k].2 as int), 0) == Ok::<
                _,
                SErr,
            >(seq![(#[trigger] v[k].0, 0usize, (v[k].2 - v[k].1) as usize)]),
    decreases s.len() - i,
{
    if i < s.len() {
        lemma_scan_progress(s, i);
        match scan(s, i) {
            Scan::Skip(j) => law_tokens_read_back(s, j),
            Scan::Tok(t, j) => {
                law_tokens_read_back(s, j);
                lemma_token_alone(s, i);
                if let Ok(rest) = lex_from(s, j) {
                    let v = seq![(t, i as usize, j as usize)] + rest;
                    assert forall|k: int| 0 <= k < v.len() implies lex_from(
                        s.subrange(v[k].1 as int, v[k].2 as int),
                        0,
                    ) == Ok::<_, SErr>(seq![(#[trigger] v[k].0, 0usize, (v[k].2 - v[k].1) as usize)]) by {
                        if k > 0 {
                            assert(v[k] == rest[k - 1]);
                        }
                    }
                }
            },
            Scan::Bad(_) => {},
        }
    }
}

/// The byte ranges of the tokens read from `i` on lie in order within
/// `s[i..]`, each non-empty, and none overlaps the next.
#[verifier::spinoff_prover]
pub proof fn law_spans_in_order(s: Seq<u8>, i: nat)
    requires
        s.len() <= usize::MAX,
    ensures
        lex_from(s, i) matches Ok(v) ==> {
            &&& forall|k: int| 0 <= k < v.len() ==> i <= #[trigger] v[k].1 < v[k].2 <= s.len()
            &&& forall|k: int| 0 <= k < v.len() - 1 ==> #[trigger] v[k].2 <= v[k + 1].1
        },
    decreases s.len() - i,
{
    if i < s.len() {
        lemma_scan_progress(s, i);
        match scan(s, i) {
            Scan::Skip(j) => law_spans_in_order(s, j),
            Scan::Tok(t, j) => {
                law_spans_in_order(s, j);
                if let Ok(rest) = lex_from(s, j) {
                    let v = seq![(t, i as usize, j as usize)] + rest;
                    assert forall|k: int| 0 <= k < v.len() implies i <= #[trigger] v[k].1 < v[k].2
                        <= s.len() by {
                        if k > 0 {
                            assert(v[k] == rest[k - 1]);
                        }
                    }
                    assert forall|k: int| 0 <= k < v.len() - 1 implies #[trigger] v[k].2 <= v[k
                        + 1].1 by {
                        assert(v[k + 1] == rest[k]);
                        if k > 0 {
                            assert(v[k] == rest[k - 1]);
                        }
                    }
                }
            },
            Scan::Bad(_) => {},
        }
    }
}

/// From `i` to `j` there are only blanks and `--` comments, each comment
/// running to the end of its line.
pub open spec fn blanks(s: Seq<u8>, i: nat, j: nat) -> bool
    decreases j - i,
{
    if i >= j {
        i == j
    } else if i < s.len() && is_space(s[i as int]) {
        blanks(s, i + 1, j)
    } else if i + 1 < s.len() && s[i as int] == 45 && s[i + 1 as int] == 45 {
        let e = run_end(s, i + 2, |c: u8| not_newline(c));
        proof {
            lemma_run_end(s, i + 2, |c: u8| not_newline(c));
        }
        e <= j && blanks(s, e, j)
    } else {
        false
    }
}

proof fn lemma_blanks_ordered(s: Seq<u8>, i: nat, j: nat)
    requires
        blanks(s, i, j),
    ensures
        i <= j,
{
}

/// What the lexer skips is blanks and comments: before the first token,
/// between each token and the next, and after the last.
#[verifier::spinoff_prover]
pub proof fn law_gaps_are_blanks(s: Seq<u8>, i: nat)
    requires
        i <= s.len(),
        s.len() <= usize::MAX,
    ensures
        lex_from(s, i) matches Ok(v) ==> {
            &&& v.len() == 0 ==> blanks(s, i, s.len())
            &&& v.len() > 0 ==> blanks(s, i, v[0].1 as nat) && blanks(
                s,
                v[v.len() - 1].2 as nat,
                s.len(),
            )
            &&& forall|k: int|
                0 <= k < v.len() - 1 ==> blanks(s, (#[trigger] v[k]).2 as nat, v[k + 1].1 as nat)
        },
    decreases s.len() - i,
{
    if i < s.len() {
        lemma_scan_progress(s, i);
        match scan(s, i) {
            Scan::Skip(j) => {
                law_gaps_are_blanks(s, j);
                if let Ok(v) = lex_from(s, j) {
                    let x: nat = if v.len() == 0 { s.len() } else { v[0].1 as nat };
                    lemma_blanks_ordered(s, j, x);
                    if s[i as int] == 45 {
                        lemma_run_end(s, i + 2, |c: u8| not_newline(c));
                    }
                    assert(blanks(s, i, x));
                }
            },
            Scan::Tok(t, j) => {
                law_gaps_are_blanks(s, j);
                if let Ok(rest) = lex_from(s, j) {
                    let v = seq![(t, i as usize, j as usize)] + rest;
                    law_spans_in_order(s, j);
                    assert(v[0].1 as nat == i);
                    assert(v[0].2 as nat == j);
                    if rest.len() > 0 {
                        assert(v[v.len() - 1] == rest[rest.len() - 1]);
                    }
                    assert forall|k: int| 0 <= k < v.len() - 1 implies blanks(
                        s,
                        (#[trigger] v[k]).2 as nat,
                        v[k + 1].1 as nat,
                    ) by {
                        assert(v[k + 1] == rest[k]);
                        if k > 0 {
                            assert(v[k] == rest[k - 1]);
                        }
                    }
                }
            },
            Scan::Bad(_) => {},
        }
    }
}

/// The model of the result of the lexer.
pub open spec fn lexed_view(r: Result<Vec<Spanned>, Error>) -> Result<
    Seq<(STok, usize, usize)>,
    SErr,
> {
    match r {
        Ok(v) => Ok(toks_view(v@)),
        Err(e) => Err(e@),
    }
}

/// `p` before the tokens of `r`, if `r` holds tokens.
pub open spec fn prepend_toks(
    p: Seq<(STok, usize, usize)>,
    r: Result<Seq<(STok, usize, usize)>, SErr>,
) -> Result<Seq<(STok, usize, usize)>, SErr> {
    match r {
        Ok(x) => Ok(p + x),
        Err(e) => Err(e),
    }
}

// ---------------------------------------------------------------------------
// The lexer.

/// The end of the run of bytes from `i` on that satisfy `p`, which `test`
/// decides.
fn digits_end(s: &[u8], i: usize) -> (j: usize)
    requires
        i <= s@.len(),
    ensures
        j == run_end(s@, i as nat, |c: u8| is_digit(c)),
{
    let mut j = i;
    while j < s.len() && s[j] >= 48 && s[j] <= 57
        invariant
            i <= j <= s@.len(),
            run_end(s@, i as nat, |c: u8| is_digit(c)) == run_end(
                s@,
                j as nat,
                |c: u8| is_digit(c),
            ),
        decreases s@.len() - j,
    {
        j = j + 1;
    }
    j
}

fn ident_byte(b: u8) -> (r: bool)
    ensures
        r == is_ident_char(b),
{
    (65 <= b && b <= 90) || (97 <= b && b <= 122) || b == 95 || (48 <= b && b <= 57) || b == 39
}

fn ident_end(s: &[u8], i: usize) -> (j: usize)
    requires
        i <= s@.len(),
    ensures
        j == run_end(s@, i as nat, |c: u8| is_ident_char(c)),
{
    let mut j = i;
    while j < s.len() && ident_byte(s[j])
        invariant
            i <= j <= s@.len(),
            run_end(s@, i as nat, |c: u8| is_ident_char(c)) == run_end(
                s@,
                j as nat,
                |c: u8| is_ident_char(c),
            ),
        decreases s@.len() - j,
    {
        j = j + 1;
    }
    j
}

fn line_end(s: &[u8], i: usize) -> (j: usize)
    requires
        i <= s@.len(),
    ensures
        j == run_end(s@, i as nat, |c: u8| not_newline(c)),
{
    let mut j = i;
    while j < s.len() && s[j] != 10
        invariant
            i <= j <= s@.len(),
            run_end(s@, i as nat, |c: u8| not_newline(c)) == run_end(
                s@,
                j as nat,
                |c: u8| not_newline(c),
            ),
        decreases s@.len() - j,
    {
        j = j + 1;
    }
    j
}

/// The value of the digits `s[i..j]`, or `None` when it exceeds `i64::MAX`.
fn number_value(s: &[u8], i: usize, j: usize) -> (r: Option<i64>)
    requires
        i <= j <= s@.len(),
        forall|k: int| i <= k < j ==> is_digit(#[trigger] s@[k]),
    ensures
        match r {
            Some(v) => digits_value(s@, i as nat, j as nat) <= i64::MAX && v == digits_value(
                s@,
                i as nat,
                j as nat,
            ),
            None => digits_value(s@, i as nat, j as nat) > i64::MAX,
        },
{
    let mut v: i64 = 0;
    let mut k = i;
    while k < j
        invariant
            i <= k <= j <= s@.len(),
            forall|m: int| i <= m < j ==> is_digit(#[trigger] s@[m]),
            v == digits_value(s@, i as nat, k as nat),
            v <= i64::MAX,
        decreases j - k,
    {
        let d = (s[k] - 48) as i64;
        assert(is_digit(s@[k as int]));
        if v > 922337203685477580 || (v == 922337203685477580 && d > 7) {
            proof {
                let dv = digits_value(s@, i as nat, (k + 1) as nat);
                assert(dv == v * 10 + d);
                assert(dv > i64::MAX) by (nonlinear_arith)
                    requires
                        dv == v * 10 + d,
                        v > 922337203685477580 || (v == 922337203685477580 && d > 7),
                        0 <= d,
                ;
                lemma_digits_grow(s@, i as nat, (k + 1) as nat, j as nat);
            }
            return None;
        }
        assert(v * 10 + d <= i64::MAX) by (nonlinear_arith)
            requires
                0 <= v,
                0 <= d <= 9,
                !(v > 922337203685477580 || (v == 922337203685477580 && d > 7)),
        ;
        v = v * 10 + d;
        k = k + 1;
    }
    Some(v)
}

/// More digits never make a smaller number.
proof fn lemma_digits_grow(s: Seq<u8>, i: nat, k: nat, j: nat)
    requires
        i <= k <= j <= s.len(),
        forall|m: int| i <= m < j ==> is_digit(#[trigger] s[m]),
    ensures
        digits_value(s, i, k) <= digits_value(s, i, j),
    decreases j - k,
{
    if k < j {
        lemma_digits_grow(s, i, k, (j - 1) as nat);
        let a = digits_value(s, i, (j - 1) as nat);
        assert(is_digit(s[j - 1]));
        assert(a <= a * 10 + (s[j - 1] - 48) as nat) by (nonlinear_arith)
            requires
                0 <= a,
        ;
    }
}

/// Whether `w` spells the keyword `kw`.
fn spells(w: &String, kw: &str) -> (r: bool)
    ensures
        r == (w@ == kw@),
{
    let k = string_of(kw);
    *w == k
}

/// The keyword spelled by `w`, or the identifier `w`.
fn word_token(w: String) -> (t: Token)
    ensures
        t@ == (match keyword(w@) {
            Some(k) => k,
            None => STok::Ident(w@),
        }),
{
    if spells(&w, "let") {
        Token::Let
    } else if spells(&w, "in") {
        Token::In
    } else if spells(&w, "if") {
        Token::If
    } else if spells(&w, "then") {
        Token::Then
    } else if spells(&w, "else") {
        Token::Else
    } else if spells(&w, "true") {
        Token::True
    } else if spells(&w, "false") {
        Token::False
    } else if spells(&w, "eval") {
        Token::Eval
    } else if spells(&w, "Nat") {
        Token::NatTy
    } else if spells(&w, "Bool") {
        Token::BoolTy
    } else if spells(&w, "Code") {
        Token::Code
    } else if spells(&w, "fn") {
        Token::Fn
    } else {
        Token::Ident(w)
    }
}

fn single_token(b: u8) -> (t: Option<Token>)
    ensures
        match t {
            Some(x) => single(b) == Some(x@),
            None => single(b) is None,
        },
{
    if b == 60 {
        Some(Token::Lt)
    } else if b == 62 {
        Some(Token::Gt)
    } else if b == 43 {
        Some(Token::Plus)
    } else if b == 42 {
        Some(Token::Star)
    } else if b == 58 {
        Some(Token::Colon)
    } else if b == 59 {
        Some(Token::Semi)
    } else if b == 44 {
        Some(Token::Comma)
    } else if b == 46 {
        Some(Token::Dot)
    } else if b == 40 {
        Some(Token::LParen)
    } else if b == 41 {
        Some(Token::RParen)
    } else if b == 91 {
        Some(Token::LBracket)
    } else if b == 93 {
        Some(Token::RBracket)
    } else if b == 92 {
        Some(Token::Lambda)
    } else if b == 126 {
        Some(Token::Tilde)
    } else {
        None
    }
}

/// The result of one step of the lexer.
enum Step {
    Skip(usize),
    Tok(Token, usize),
    Bad(usize),
}

/// The longest match at `i`.
fn scan_at(s: &[u8], i: usize) -> (r: Step)
    requires
        i < s@.len(),
    ensures
        match r {
            Step::Skip(j) => scan(s@, i as nat) == Scan::Skip(j as nat),
            Step::Tok(t, j) => scan(s@, i as nat) == Scan::Tok(t@, j as nat),
            Step::Bad(j) => scan(s@, i as nat) == Scan::Bad(j as nat),
        },
{
    let b = s[i];
    let n = s.len();
    if b == 32 || b == 9 || b == 13 || b == 10 || b == 12 {
        Step::Skip(i + 1)
    } else if b == 45 {
        if i + 1 < n && s[i + 1] == 45 {
            Step::Skip(line_end(s, i + 2))
        } else if i + 1 < n && s[i + 1] == 62 {
            Step::Tok(Token::Arrow, i + 2)
        } else {
            Step::Tok(Token::Minus, i + 1)
        }
    } else if b == 61 {
        if i + 1 < n && s[i + 1] == 61 {
            Step::Tok(Token::EqEq, i + 2)
        } else if i + 1 < n && s[i + 1] == 62 {
            Step::Tok(Token::FatArrow, i + 2)
        } else {
            Step::Tok(Token::Eq, i + 1)
        }
    } else if let Some(t) = single_token(b) {
        Step::Tok(t, i + 1)
    } else if 48 <= b && b <= 57 {
        let j = digits_end(s, i);
        proof {
            lemma_run_end(s@, i as nat, |c: u8| is_digit(c));
        }
        match number_value(s, i, j) {
            Some(v) => Step::Tok(Token::Num(v), j),
            None => Step::Bad(j),
        }
    } else if (65 <= b && b <= 90) || (97 <= b && b <= 122) || b == 95 {
        let j = ident_end(s, i + 1);
        proof {
            lemma_run_end(s@, (i + 1) as nat, |c: u8| is_ident_char(c));
        }
        let mut w = String::new();
        let mut k = i;
        while k < j
            invariant
                i <= k <= j <= s@.len(),
                w@ =~= word_chars(s@, i as nat, k as nat),
            decreases j - k,
        {
            w.push(s[k] as char);
            k = k + 1;
        }
        Step::Tok(word_token(w), j)
    } else {
        let w: usize = if b < 0xC0 {
            1
        } else if b < 0xE0 {
            2
        } else if b < 0xF0 {
            3
        } else {
            4
        };
        Step::Bad(if w <= n - i { i + w } else { n })
    }
}

/// The message of a lexical error over the byte range `i..j`.
fn bad_char_error(i: usize, j: usize) -> (e: Error)
    ensures
        e@ == SErr::Parse(bad_char_msg(i as nat, j as nat)),
{
    let mut m = String::new();
    push_str(&mut m, "unexpected character at ");
    push_usize(&mut m, i);
    push_str(&mut m, "..");
    push_usize(&mut m, j);
    assert(m@ =~= bad_char_msg(i as nat, j as nat));
    parse_error(m)
}

/// The tokens of a source text, each with its byte range; blanks and `--`
/// comments are skipped.  Fails at the first place where no token starts, or
/// at a number too large for an `i64`.
pub fn lex(src: &str) -> (r: Result<Vec<Spanned>, Error>)
    ensures
        lexed_view(r) == lex_from(src.spec_bytes(), 0),
{
    let s = src.as_bytes();
    let n = s.len();
    let mut out: Vec<Spanned> = Vec::new();
    let mut i: usize = 0;
    assert(toks_view(out@) =~= Seq::empty());
    assert(prepend_toks(Seq::empty(), lex_from(s@, 0)) =~= lex_from(s@, 0)) by {
        match lex_from(s@, 0) {
            Ok(x) => assert(Seq::<(STok, usize, usize)>::empty() + x =~= x),
            Err(_) => {},
        }
    }
    while i < n
        invariant
            i <= n == s@.len(),
            s@ == src.spec_bytes(),
            lex_from(s@, 0) == prepend_toks(toks_view(out@), lex_from(s@, i as nat)),
        decreases n - i,
    {
        proof {
            lemma_scan_progress(s@, i as nat);
        }
        match scan_at(s, i) {
            Step::Skip(j) => {
                i = j;
            },
            Step::Tok(t, j) => {
                let ghost old_out = toks_view(out@);
                out.push(Spanned { tok: t, span: (i, j) });
                proof {
                    assert(toks_view(out@) =~= old_out.push((t@, i, j)));
                    match lex_from(s@, j as nat) {
                        Ok(x) => {
                            assert(old_out + (seq![(t@, i, j)] + x) =~= old_out.push((t@, i, j))
                                + x);
                        },
                        Err(_) => {},
                    }
                }
                i = j;
            },
            Step::Bad(j) => {
                let e = bad_char_error(i, j);
                assert(lex_from(s@, i as nat) == Err::<Seq<(STok, usize, usize)>, _>(e@));
                return Err(e);
            },
        }
    }
    assert(toks_view(out@) + Seq::<(STok, usize, usize)>::empty() =~= toks_view(out@));
    Ok(out)
}


// ---------------------------------------------------------------------------
// How tokens are named in messages.

/// The name of a token in messages: its variant, with a number or an
/// identifier in brackets (an identifier in double quotes).
pub open spec fn tok_debug(t: STok) -> Seq<char> {
    match t {
        STok::Let => "Let"@,
        STok::In => "In"@,
        STok::If => "If"@,
        STok::Then => "Then"@,
        STok::Else => "Else"@,
        STok::True => "True"@,
        STok::False => "False"@,
        STok::Eval => "Eval"@,
        STok::NatTy => "NatTy"@,
        STok::BoolTy => "BoolTy"@,
        STok::Code => "Code"@,
        STok::Fn => "Fn"@,
        STok::FatArrow => "FatArrow"@,
        STok::Arrow => "Arrow"@,
        STok::Eq => "Eq"@,
        STok::EqEq => "EqEq"@,
        STok::Lt => "Lt"@,
        STok::Gt => "Gt"@,
        STok::Plus => "Plus"@,
        STok::Minus => "Minus"@,
        STok::Star => "Star"@,
        STok::Colon => "Colon"@,
        STok::Semi => "Semi"@,
        STok::Comma => "Comma"@,
        STok::Dot => "Dot"@,
        STok::LParen => "LParen"@,
        STok::RParen => "RParen"@,
        STok::LBracket => "LBracket"@,
        STok::RBracket => "RBracket"@,
        STok::Lambda => "Lambda"@,
        STok::Tilde => "Tilde"@,
        STok::Num(n) => "Num("@ + dec_int(n as int) + ")"@,
        STok::Ident(s) => "Ident(\""@ + s + "\")"@,
    }
}

/// The name of a token that may be missing: `Some(..)` or `None`.
pub open spec fn opt_tok_debug(o: Option<STok>) -> Seq<char> {
    match o {
        Some(t) => "Some("@ + tok_debug(t) + ")"@,
        None => "None"@,
    }
}

fn tok_name(t: &Token) -> (s: &'static str)
    requires
        !(t is Num || t is Ident),
    ensures
        s@ == tok_debug(t@),
{
    match t {
        Token::Let => "Let",
        Token::In => "In",
        Token::If => "If",
        Token::Then => "Then",
        Token::Else => "Else",
        Token::True => "True",
        Token::False => "False",
        Token::Eval => "Eval",
        Token::NatTy => "NatTy",
        Token::BoolTy => "BoolTy",
        Token::Code => "Code",
        Token::Fn => "Fn",
        Token::FatArrow => "FatArrow",
        Token::Arrow => "Arrow",
        Token::Eq => "Eq",
        Token::EqEq => "EqEq",
        Token::Lt => "Lt",
        Token::Gt => "Gt",
        Token::Plus => "Plus",
        Token::Minus => "Minus",
        Token::Star => "Star",
        Token::Colon => "Colon",
        Token::Semi => "Semi",
        Token::Comma => "Comma",
        Token::Dot => "Dot",
        Token::LParen => "LParen",
        Token::RParen => "RParen",
        Token::LBracket => "LBracket",
        Token::RBracket => "RBracket",
        Token::Lambda => "Lambda",
        Token::Tilde => "Tilde",
        Token::Num(_) => "Num",
        Token::Ident(_) => "Ident",
    }
}

/// Appends the name of a token to `out`.
pub(crate) fn push_tok_debug(out: &mut String, t: &Token)
    ensures
        final(out)@ == old(out)@ + tok_debug(t@),
{
    match t {
        Token::Num(n) => {
            push_str(out, "Num(");
            push_i64(out, *n);
            push_str(out, ")");
            assert(final(out)@ =~= old(out)@ + tok_debug(t@));
        },
        Token::Ident(s) => {
            push_str(out, "Ident(\"");
            push_string(out, s);
            push_str(out, "\")");
            assert(final(out)@ =~= old(out)@ + tok_debug(t@));
        },
        _ => push_str(out, tok_name(t)),
    }
}

/// Appends the name of a token that may be missing to `out`.
pub(crate) fn push_opt_tok_debug(out: &mut String, t: Option<&Token>)
    ensures
        final(out)@ == old(out)@ + opt_tok_debug(
            match t {
                Some(x) => Some(x@),
                None => None,
            },
        ),
{
    match t {
        Some(x) => {
            push_str(out, "Some(");
            push_tok_debug(out, x);
            push_str(out, ")");
            assert(final(out)@ =~= old(out)@ + opt_tok_debug(Some(x@)));
        },
        None => push_str(out, "None"),
    }
}

/// A number for each kind of token; tokens with a payload share theirs.
pub open spec fn kind(t: STok) -> nat {
    match t {
        STok::Let => 0,
        STok::In => 1,
        STok::If => 2,
        STok::Then => 3,
        STok::Else => 4,
        STok::True => 5,
        STok::False => 6,
        STok::Eval => 7,
        STok::NatTy => 8,
        STok::BoolTy => 9,
        STok::Code => 10,
        STok::Fn => 11,
        STok::FatArrow => 12,
        STok::Arrow => 13,
        STok::Eq => 14,
        STok::EqEq => 15,
        STok::Lt => 16,
        STok::Gt => 17,
        STok::Plus => 18,
        STok::Minus => 19,
        STok::Star => 20,
        STok::Colon => 21,
        STok::Semi => 22,
        STok::Comma => 23,
        STok::Dot => 24,
        STok::LParen => 25,
        STok::RParen => 26,
        STok::LBracket => 27,
        STok::RBracket => 28,
        STok::Lambda => 29,
        STok::Tilde => 30,
        STok::Num(_) => 31,
        STok::Ident(_) => 32,
    }
}

/// Whether two tokens are of the same kind; for a token without payload,
/// whether they are equal.
pub(crate) fn same_kind(a: &Token, b: &Token) -> (r: bool)
    ensures
        r == (kind(a@) == kind(b@)),
        !(b@ is Num || b@ is Ident) ==> (r == (a@ == b@)),
{
    token_kind(a) == token_kind(b)
}

fn token_kind(t: &Token) -> (k: u8)
    ensures
        k as nat == kind(t@),
{
    match t {
        Token::Let => 0,
        Token::In => 1,
        Token::If => 2,
        Token::Then => 3,
        Token::Else => 4,
        Token::True => 5,
        Token::False => 6,
        Token::Eval => 7,
        Token::NatTy => 8,
        Token::BoolTy => 9,
        Token::Code => 10,
        Token::Fn => 11,
        Token::FatArrow => 12,
        Token::Arrow => 13,
        Token::Eq => 14,
        Token::EqEq => 15,
        Token::Lt => 16,
        Token::Gt => 17,
        Token::Plus => 18,
        Token::Minus => 19,
        Token::Star => 20,
        Token::Colon => 21,
        Token::Semi => 22,
        Token::Comma => 23,
        Token::Dot => 24,
        Token::LParen => 25,
        Token::RParen => 26,
        Token::LBracket => 27,
        Token::RBracket => 28,
        Token::Lambda => 29,
        Token::Tilde => 30,
        Token::Num(_) => 31,
        Token::Ident(_) => 32,
    }
}

} // verus!
