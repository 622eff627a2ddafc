use std::rc::Rc;
use vstd::prelude::*;
use vstd::string::*;

use crate::errors::SErr;
use crate::lexer::{
    is_ident_char, is_ident_start, keyword, lemma_run_end_exact, lex_from, run_end, scan, word_chars,
    Scan, STok,
};
use crate::parse::{g_ty, g_ty_atom, lexed_toks, speek};
use crate::pretty::ty_text;
use crate::syntax::Ty;

verus! {

// What the printer writes for a type, the lexer and the parser read back.

/// The bytes of a text of ASCII characters.
pub open spec fn ascii_bytes(cs: Seq<char>) -> Seq<u8> {
    cs.map_values(|c: char| c as u8)
}

/// `s` between parentheses when `w` holds.
pub open spec fn tparen(w: bool, s: Seq<STok>) -> Seq<STok> {
    if w {
        seq![STok::LParen] + s + seq![STok::RParen]
    } else {
        s
    }
}

/// The tokens of the text of a type at precedence `prec`.
pub open spec fn ty_toks(t: Ty, prec: nat) -> Seq<STok>
    decreases t,
{
    match t {
        Ty::Nat => seq![STok::NatTy],
        Ty::Bool => seq![STok::BoolTy],
        Ty::Code(inner) => tparen(prec > 10, seq![STok::Code] + ty_toks(*inner, 11)),
        Ty::Arr(a, b) => tparen(prec > 0, ty_toks(*a, 1) + seq![STok::Arrow] + ty_toks(*b, 0)),
    }
}

pub(crate) proof fn lemma_ty_toks_nonempty(t: Ty, prec: nat)
    ensures
        ty_toks(t, prec).len() >= 1,
    decreases t,
{
    match t {
        Ty::Code(inner) => lemma_ty_toks_nonempty(inner@, 11),
        Ty::Arr(a, b) => lemma_ty_toks_nonempty(a@, 1),
        _ => {},
    }
}

// ---------------------------------------------------------------------------
// Parsing the tokens of a printed type.

/// At a precedence of at least 1 the tokens of a type form an atom.
proof fn lemma_parse_atom(ts: Seq<STok>, p: nat, t: Ty, prec: nat)
    requires
        prec >= 1,
        p + ty_toks(t, prec).len() <= ts.len(),
        ts.subrange(p as int, p + ty_toks(t, prec).len() as int) == ty_toks(t, prec),
    ensures
        g_ty_atom(ts, p) == Ok::<_, SErr>((t, p + ty_toks(t, prec).len())),
    decreases t, 1nat,
{
    let toks = ty_toks(t, prec);
    let n: int = toks.len() as int;
    let q: int = p as int;
    assert(ts[q] == toks[0]) by {
        lemma_ty_toks_nonempty(t, prec);
        assert(ts.subrange(q, q + n)[0] == ts[q]);
    }
    match t {
        Ty::Nat => {},
        Ty::Bool => {},
        Ty::Code(inner) => {
            let it = ty_toks(inner@, 11);
            if prec > 10 {
                // `( Code inner )`
                assert(ts.subrange(q + 2, q + 2 + it.len()) =~= it) by {
                    assert forall|k: int| 0 <= k < it.len() implies ts.subrange(q + 2,
                        q + 2 + it.len(),
                    )[k] == it[k] by {
                        assert(toks[k + 2] == it[k]);
                        assert(ts.subrange(q, q + n)[k + 2] == ts[q + 2 + k]);
                    }
                }
                assert(ts[q + 1] == STok::Code) by {
                    assert(ts.subrange(q, q + n)[1] == ts[q + 1]);
                }
                assert(ts[q + 2 + it.len()] == STok::RParen) by {
                    assert(ts.subrange(q, q + n)[n - 1] == ts[q + n - 1]);
                }
                lemma_parse_atom(ts, p + 2, inner@, 11);
                assert(g_ty_atom(ts, p + 1) == Ok::<_, SErr>(
                    (Ty::Code(Rc::new(inner@)), p + 2 + it.len()),
                ));
                assert(g_ty(ts, p + 1) == Ok::<_, SErr>((t, p + 2 + it.len())));
            } else {
                // `Code inner`
                assert(ts.subrange(q + 1, q + 1 + it.len()) =~= it) by {
                    assert forall|k: int| 0 <= k < it.len() implies ts.subrange(q + 1,
                        q + 1 + it.len(),
                    )[k] == it[k] by {
                        assert(toks[k + 1] == it[k]);
                        assert(ts.subrange(q, q + n)[k + 1] == ts[q + 1 + k]);
                    }
                }
                lemma_parse_atom(ts, p + 1, inner@, 11);
            }
        },
        Ty::Arr(a, b) => {
            // `( a -> b )`
            let body = ty_toks(a@, 1) + seq![STok::Arrow] + ty_toks(b@, 0);
            assert(ts.subrange(q + 1, q + 1 + body.len()) =~= ty_toks(t, 0)) by {
                assert forall|k: int| 0 <= k < body.len() implies ts.subrange(q + 1,
                    q + 1 + body.len(),
                )[k] == body[k] by {
                    assert(toks[k + 1] == body[k]);
                    assert(ts.subrange(q, q + n)[k + 1] == ts[q + 1 + k]);
                }
            }
            assert(ts[q + 1 + body.len()] == STok::RParen) by {
                assert(ts.subrange(q, q + n)[n - 1] == ts[q + n - 1]);
            }
            lemma_parse_ty(ts, p + 1, t);
        },
    }
}

/// The tokens of a type, followed by anything but an arrow, parse as that type.
pub(crate) proof fn lemma_parse_ty(ts: Seq<STok>, p: nat, t: Ty)
    requires
        p + ty_toks(t, 0).len() <= ts.len(),
        ts.subrange(p as int, p + ty_toks(t, 0).len() as int) == ty_toks(t, 0),
        speek(ts, p + ty_toks(t, 0).len()) != Some(STok::Arrow),
    ensures
        g_ty(ts, p) == Ok::<_, SErr>((t, p + ty_toks(t, 0).len())),
    decreases t, 0nat,
{
    let toks = ty_toks(t, 0);
    let n: int = toks.len() as int;
    let q: int = p as int;
    assert(ts[q] == toks[0]) by {
        lemma_ty_toks_nonempty(t, 0);
        assert(ts.subrange(q, q + n)[0] == ts[q]);
    }
    match t {
        Ty::Nat => assert(g_ty_atom(ts, p) == Ok::<_, SErr>((t, p + 1))),
        Ty::Bool => assert(g_ty_atom(ts, p) == Ok::<_, SErr>((t, p + 1))),
        Ty::Code(inner) => {
            let it = ty_toks(inner@, 11);
            assert(ts.subrange(q + 1, q + 1 + it.len()) =~= it) by {
                assert forall|k: int| 0 <= k < it.len() implies ts.subrange(q + 1,
                    q + 1 + it.len(),
                )[k] == it[k] by {
                    assert(toks[k + 1] == it[k]);
                    assert(ts.subrange(q, q + n)[k + 1] == ts[q + 1 + k]);
                }
            }
            lemma_parse_atom(ts, p + 1, inner@, 11);
        },
        Ty::Arr(a, b) => {
            let at = ty_toks(a@, 1);
            let bt = ty_toks(b@, 0);
            lemma_ty_toks_nonempty(a@, 1);
            assert(ts.subrange(q, q + at.len()) =~= at) by {
                assert forall|k: int| 0 <= k < at.len() implies ts.subrange(q, q + at.len())[k] == at[k] by {
                    assert(toks[k] == at[k]);
                    assert(ts.subrange(q, q + n)[k] == ts[q + k]);
                }
            }
            assert(ts[q + at.len()] == STok::Arrow) by {
                assert(toks[at.len() as int] == STok::Arrow);
                assert(ts.subrange(q, q + n)[at.len() as int] == ts[q + at.len()]);
            }
            assert(ts.subrange(q + at.len() + 1, q + at.len() + 1 + bt.len()) =~= bt) by {
                assert forall|k: int| 0 <= k < bt.len() implies ts.subrange(q + at.len() + 1,
                    q + at.len() + 1 + bt.len(),
                )[k] == bt[k] by {
                    assert(toks[at.len() + 1 + k] == bt[k]);
                    assert(ts.subrange(q, q + n)[at.len() + 1 + k] == ts[q + at.len() + 1
                        + k]);
                }
            }
            lemma_parse_atom(ts, p, a@, 1);
            lemma_parse_ty(ts, p + at.len() + 1, b@);
        },
    }
}

// ---------------------------------------------------------------------------
// Lexing the text of a printed type.

/// The kinds of the tokens read from position `i` on.
pub open spec fn lex_kinds(s: Seq<u8>, i: nat) -> Result<Seq<STok>, SErr> {
    match lex_from(s, i) {
        Ok(v) => Ok(lexed_toks(v)),
        Err(e) => Err(e),
    }
}

/// `k` before the tokens of `r`, if `r` holds tokens.
pub open spec fn prepend_kinds(k: Seq<STok>, r: Result<Seq<STok>, SErr>) -> Result<
    Seq<STok>,
    SErr,
> {
    match r {
        Ok(x) => Ok(k + x),
        Err(e) => Err(e),
    }
}

/// No word goes on at position `j`.
pub open spec fn word_ends(s: Seq<u8>, j: nat) -> bool {
    j >= s.len() || !is_ident_char(s[j as int])
}

pub(crate) proof fn lemma_prepend_kinds(x: Seq<STok>, y: Seq<STok>, r: Result<Seq<STok>, SErr>)
    ensures
        prepend_kinds(x, prepend_kinds(y, r)) == prepend_kinds(x + y, r),
{
    if let Ok(z) = r {
        assert(x + (y + z) =~= (x + y) + z);
    }
}

pub(crate) proof fn lemma_lex_tok(s: Seq<u8>, i: nat, k: STok, j: nat)
    requires
        i < s.len(),
        scan(s, i) == Scan::Tok(k, j),
    ensures
        lex_kinds(s, i) == prepend_kinds(seq![k], lex_kinds(s, j)),
{
    if let Ok(rest) = lex_from(s, j) {
        assert(lexed_toks(seq![(k, i as usize, j as usize)] + rest) =~= seq![k] + lexed_toks(
            rest,
        ));
    }
}

pub(crate) proof fn lemma_lex_skip(s: Seq<u8>, i: nat, j: nat)
    requires
        i < s.len(),
        scan(s, i) == Scan::Skip(j),
    ensures
        lex_kinds(s, i) == lex_kinds(s, j),
{
}

/// A word spelled `w` that is a keyword, and that nothing continues, is read
/// as that keyword.
proof fn lemma_scan_word(s: Seq<u8>, i: nat, w: Seq<char>, k: STok)
    requires
        1 <= w.len(),
        i + w.len() <= s.len(),
        is_ident_start(s[i as int]),
        forall|m: int| i <= m < i + w.len() ==> is_ident_char(#[trigger] s[m]),
        word_ends(s, i + w.len()),
        word_chars(s, i, i + w.len()) == w,
        keyword(w) == Some(k),
    ensures
        scan(s, i) == Scan::Tok(k, i + w.len()),
{
    lemma_run_end_exact(s, i + 1, i + w.len(), |c: u8| is_ident_char(c));
}

proof fn lemma_keywords()
    ensures
        keyword("Nat"@) == Some(STok::NatTy),
        keyword("Bool"@) == Some(STok::BoolTy),
        keyword("Code"@) == Some(STok::Code),
{
    reveal_strlit("let");
    reveal_strlit("in");
    reveal_strlit("if");
    reveal_strlit("then");
    reveal_strlit("else");
    reveal_strlit("true");
    reveal_strlit("false");
    reveal_strlit("eval");
    reveal_strlit("Nat");
    reveal_strlit("Bool");
    reveal_strlit("Code");
    reveal_strlit("fn");
    let others = seq!["let"@, "in"@, "if"@, "then"@, "else"@, "true"@, "false"@, "eval"@];
    assert forall|j: int| 0 <= j < others.len() implies others[j] != "Nat"@ && others[j] != "Bool"@
        && others[j] != "Code"@ by {
        assert(others[j][0] != 'N' && others[j][0] != 'B' && others[j][0] != 'C');
    }
    assert(others[0] == "let"@ && others[1] == "in"@ && others[2] == "if"@ && others[3] == "then"@
        && others[4] == "else"@ && others[5] == "true"@ && others[6] == "false"@ && others[7]
        == "eval"@);
    assert("Nat"@ != "Bool"@ && "Nat"@ != "Code"@ && "Bool"@ != "Code"@) by {
        assert("Nat"@[0] != "Bool"@[0] && "Nat"@[0] != "Code"@[0] && "Bool"@[0] != "Code"@[0]);
    }
}

/// The bytes of `w` at `i`, followed by no more of a word, are its keyword.
proof fn lemma_lex_keyword(s: Seq<u8>, i: nat, w: Seq<char>, k: STok)
    requires
        w == "Nat"@ || w == "Bool"@ || w == "Code"@,
        keyword(w) == Some(k),
        i + w.len() <= s.len(),
        s.subrange(i as int, i + w.len() as int) == ascii_bytes(w),
        word_ends(s, i + w.len()),
    ensures
        lex_kinds(s, i) == prepend_kinds(seq![k], lex_kinds(s, i + w.len())),
{
    reveal_strlit("Nat");
    reveal_strlit("Bool");
    reveal_strlit("Code");
    let n: int = w.len() as int;
    let q: int = i as int;
    assert forall|m: int| 0 <= m < n implies s[q + m] == (w[m] as u8) by {
        assert(s.subrange(q, q + n)[m] == s[q + m]);
    }
    assert(s[q] == (w[0] as u8));
    assert forall|m: int| i <= m < i + w.len() implies is_ident_char(#[trigger] s[m]) by {
        assert(s[q + (m - q)] == (w[m - q] as u8));
    }
    assert(word_chars(s, i, i + w.len()) =~= w);
    lemma_scan_word(s, i, w, k);
    lemma_lex_tok(s, i, k, i + w.len());
}

pub(crate) proof fn lemma_ascii_concat(x: Seq<char>, y: Seq<char>)
    ensures
        ascii_bytes(x + y) == ascii_bytes(x) + ascii_bytes(y),
{
    assert(ascii_bytes(x + y) =~= ascii_bytes(x) + ascii_bytes(y));
}

/// A piece of what stands at `i` stands at `i` plus its offset.
pub(crate) proof fn lemma_piece(s: Seq<u8>, i: int, whole: Seq<u8>, o: int, piece: Seq<u8>)
    requires
        0 <= i,
        0 <= o,
        o + piece.len() <= whole.len(),
        i + whole.len() <= s.len(),
        s.subrange(i, i + whole.len()) == whole,
        whole.subrange(o, o + piece.len()) == piece,
    ensures
        s.subrange(i + o, i + o + piece.len()) == piece,
{
    assert forall|m: int| 0 <= m < piece.len() implies s.subrange(i + o, i + o + piece.len())[m]
        == piece[m] by {
        assert(whole.subrange(o, o + piece.len())[m] == whole[o + m]);
        assert(s.subrange(i, i + whole.len())[o + m] == s[i + o + m]);
    }
    assert(s.subrange(i + o, i + o + piece.len()) =~= piece);
}

/// The byte `k` of what stands at `i`.
pub(crate) proof fn lemma_byte(s: Seq<u8>, i: int, whole: Seq<u8>, k: int)
    requires
        0 <= i,
        0 <= k < whole.len(),
        i + whole.len() <= s.len(),
        s.subrange(i, i + whole.len()) == whole,
    ensures
        s[i + k] == whole[k],
{
    assert(s.subrange(i, i + whole.len())[k] == s[i + k]);
}

/// What the lemmas on lexing the text of a type require.
pub open spec fn text_at(s: Seq<u8>, i: nat, t: Ty, prec: nat) -> bool {
    &&& i + ty_text(t, prec).len() <= s.len()
    &&& s.subrange(i as int, i + ty_text(t, prec).len() as int) == ascii_bytes(ty_text(t, prec))
    &&& word_ends(s, i + ty_text(t, prec).len())
}

/// What the lemmas on lexing the text of a type ensure.
pub open spec fn lexes_to_toks(s: Seq<u8>, i: nat, t: Ty, prec: nat) -> bool {
    lex_kinds(s, i) == prepend_kinds(ty_toks(t, prec), lex_kinds(s, i + ty_text(t, prec).len()))
}

/// Whether the text of `t` at `prec` is in parentheses.
pub open spec fn wraps(t: Ty, prec: nat) -> bool {
    match t {
        Ty::Code(_) => prec > 10,
        Ty::Arr(_, _) => prec > 0,
        _ => false,
    }
}

/// The text of a type, followed by no more of a word, lexes to the tokens of
/// that type.
pub(crate) proof fn lemma_lex_ty(s: Seq<u8>, i: nat, t: Ty, prec: nat)
    requires
        text_at(s, i, t, prec),
    ensures
        lexes_to_toks(s, i, t, prec),
    decreases t, prec, 1nat,
{
    if wraps(t, prec) {
        lemma_lex_paren(s, i, t, prec);
    } else {
        match t {
            Ty::Nat => {
                lemma_keywords();
                lemma_lex_keyword(s, i, "Nat"@, STok::NatTy);
            },
            Ty::Bool => {
                lemma_keywords();
                lemma_lex_keyword(s, i, "Bool"@, STok::BoolTy);
            },
            Ty::Code(inner) => lemma_lex_code(s, i, t, prec),
            Ty::Arr(a, b) => lemma_lex_arr(s, i, t, prec),
        }
    }
}

/// `( body )`, where the body is the text at precedence 0.
proof fn lemma_lex_paren(s: Seq<u8>, i: nat, t: Ty, prec: nat)
    requires
        text_at(s, i, t, prec),
        wraps(t, prec),
    ensures
        lexes_to_toks(s, i, t, prec),
    decreases t, prec, 0nat,
{
    let txt = ty_text(t, prec);
    let whole = ascii_bytes(txt);
    let m = txt.len();
    let q: int = i as int;
    let body = ty_text(t, 0);
    let bl = body.len();
    reveal_strlit("(");
    reveal_strlit(")");
    assert(txt == "("@ + body + ")"@);
    lemma_ascii_concat("("@, body);
    lemma_ascii_concat("("@ + body, ")"@);
    assert(whole[0] == 40u8);
    assert(whole[bl as int + 1] == 41u8);
    lemma_byte(s, q, whole, 0);
    lemma_byte(s, q, whole, bl as int + 1);
    lemma_lex_tok(s, i, STok::LParen, i + 1);
    assert(whole.subrange(1, 1 + bl as int) =~= ascii_bytes(body));
    lemma_piece(s, q, whole, 1, ascii_bytes(body));
    lemma_lex_ty(s, i + 1, t, 0);
    lemma_lex_tok(s, i + 1 + bl, STok::RParen, i + 2 + bl);
    lemma_prepend_kinds(ty_toks(t, 0), seq![STok::RParen], lex_kinds(s, i + m));
    lemma_prepend_kinds(
        seq![STok::LParen],
        ty_toks(t, 0) + seq![STok::RParen],
        lex_kinds(s, i + m),
    );
    assert(ty_toks(t, prec) =~= seq![STok::LParen] + (ty_toks(t, 0) + seq![STok::RParen]));
}

/// `Code inner`
proof fn lemma_lex_code(s: Seq<u8>, i: nat, t: Ty, prec: nat)
    requires
        text_at(s, i, t, prec),
        t is Code,
        !wraps(t, prec),
    ensures
        lexes_to_toks(s, i, t, prec),
    decreases t, prec, 0nat,
{
    let txt = ty_text(t, prec);
    let whole = ascii_bytes(txt);
    let m = txt.len();
    let q: int = i as int;
    if let Ty::Code(inner) = t {
        let it = ty_text(inner@, 11);
        reveal_strlit("Code ");
        reveal_strlit("Code");
        assert(txt == "Code "@ + it);
        lemma_ascii_concat("Code "@, it);
        assert(whole.subrange(0, 4) =~= ascii_bytes("Code"@));
        lemma_piece(s, q, whole, 0, ascii_bytes("Code"@));
        assert(whole[4] == 32u8);
        lemma_byte(s, q, whole, 4);
        lemma_keywords();
        lemma_lex_keyword(s, i, "Code"@, STok::Code);
        lemma_lex_skip(s, i + 4, i + 5);
        assert(whole.subrange(5, 5 + it.len() as int) =~= ascii_bytes(it));
        lemma_piece(s, q, whole, 5, ascii_bytes(it));
        lemma_lex_ty(s, i + 5, inner@, 11);
        lemma_prepend_kinds(seq![STok::Code], ty_toks(inner@, 11), lex_kinds(s, i + m));
    }
}

/// `a -> b`
proof fn lemma_lex_arr(s: Seq<u8>, i: nat, t: Ty, prec: nat)
    requires
        text_at(s, i, t, prec),
        t is Arr,
        !wraps(t, prec),
    ensures
        lexes_to_toks(s, i, t, prec),
    decreases t, prec, 0nat,
{
    let txt = ty_text(t, prec);
    let whole = ascii_bytes(txt);
    let m = txt.len();
    let q: int = i as int;
    if let Ty::Arr(a, b) = t {
        let at = ty_text(a@, 1);
        let bt = ty_text(b@, 0);
        let na = at.len();
        reveal_strlit(" -> ");
        assert(txt == at + " -> "@ + bt);
        lemma_ascii_concat(at, " -> "@);
        lemma_ascii_concat(at + " -> "@, bt);
        assert(whole.subrange(0, na as int) =~= ascii_bytes(at));
        lemma_piece(s, q, whole, 0, ascii_bytes(at));
        assert(whole[na as int] == 32u8);
        assert(whole[na as int + 1] == 45u8);
        assert(whole[na as int + 2] == 62u8);
        assert(whole[na as int + 3] == 32u8);
        lemma_byte(s, q, whole, na as int);
        lemma_byte(s, q, whole, na as int + 1);
        lemma_byte(s, q, whole, na as int + 2);
        lemma_byte(s, q, whole, na as int + 3);
        lemma_lex_ty(s, i, a@, 1);
        lemma_lex_skip(s, i + na, i + na + 1);
        lemma_lex_tok(s, i + na + 1, STok::Arrow, i + na + 3);
        lemma_lex_skip(s, i + na + 3, i + na + 4);
        assert(whole.subrange(na as int + 4, na as int + 4 + bt.len() as int) =~= ascii_bytes(bt));
        lemma_piece(s, q, whole, na as int + 4, ascii_bytes(bt));
        lemma_lex_ty(s, i + na + 4, b@, 0);
        lemma_prepend_kinds(seq![STok::Arrow], ty_toks(b@, 0), lex_kinds(s, i + m));
        lemma_prepend_kinds(
            ty_toks(a@, 1),
            seq![STok::Arrow] + ty_toks(b@, 0),
            lex_kinds(s, i + m),
        );
        assert(ty_toks(t, prec) =~= ty_toks(a@, 1) + (seq![STok::Arrow] + ty_toks(b@, 0)));
    }
}

// ---------------------------------------------------------------------------
// The law.

pub(crate) proof fn lemma_ty_text_ascii(t: Ty, prec: nat)
    ensures
        vstd::utf8::is_ascii_chars(ty_text(t, prec)),
    decreases t,
{
    reveal_strlit("Nat");
    reveal_strlit("Bool");
    reveal_strlit("Code ");
    reveal_strlit(" -> ");
    reveal_strlit("(");
    reveal_strlit(")");
    let txt = ty_text(t, prec);
    let body = match t {
        Ty::Code(inner) => {
            lemma_ty_text_ascii(inner@, 11);
            vstd::utf8::is_ascii_chars_concat(
                "Code "@ + ty_text(inner@, 11),
                "Code "@,
                ty_text(inner@, 11),
            );
            "Code "@ + ty_text(inner@, 11)
        },
        Ty::Arr(a, b) => {
            lemma_ty_text_ascii(a@, 1);
            lemma_ty_text_ascii(b@, 0);
            vstd::utf8::is_ascii_chars_concat(
                ty_text(a@, 1) + " -> "@,
                ty_text(a@, 1),
                " -> "@,
            );
            vstd::utf8::is_ascii_chars_concat(
                ty_text(a@, 1) + " -> "@ + ty_text(b@, 0),
                ty_text(a@, 1) + " -> "@,
                ty_text(b@, 0),
            );
            ty_text(a@, 1) + " -> "@ + ty_text(b@, 0)
        },
        _ => txt,
    };
    if wraps(t, prec) {
        assert(txt == "("@ + body + ")"@);
        vstd::utf8::is_ascii_chars_concat("("@ + body, "("@, body);
        vstd::utf8::is_ascii_chars_concat("("@ + body + ")"@, "("@ + body, ")"@);
    }
}

/// A printed type reads back as itself: the text that [`crate::pretty::ty`]
/// writes for a type lexes, and its tokens parse, all of them, to that type.
pub proof fn law_printed_types_read_back(s: &str, t: Ty)
    requires
        s@ == ty_text(t, 0),
    ensures
        lex_from(s.spec_bytes(), 0) matches Ok(toks) && g_ty(lexed_toks(toks), 0) == Ok::<_, SErr>(
            (t, toks.len()),
        ),
{
    lemma_ty_text_ascii(t, 0);
    is_ascii_spec_bytes(s);
    let b = s.spec_bytes();
    assert(b =~= ascii_bytes(ty_text(t, 0)));
    assert(b.subrange(0, b.len() as int) =~= b);
    lemma_lex_ty(b, 0, t, 0);
    let ts = ty_toks(t, 0);
    assert(lex_from(b, b.len()) == Ok::<_, SErr>(Seq::<(STok, usize, usize)>::empty()));
    assert(lexed_toks(Seq::<(STok, usize, usize)>::empty()) =~= Seq::<STok>::empty());
    assert(lex_kinds(b, 0) == Ok::<_, SErr>(ts)) by {
        assert(ts + Seq::<STok>::empty() =~= ts);
    }
    assert(ts.subrange(0, ts.len() as int) =~= ts);
    lemma_parse_ty(ts, 0, t);
}

} // verus!
