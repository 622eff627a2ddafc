use vstd::prelude::*;
use vstd::string::*;
use vstd::utf8::{is_ascii_chars, is_ascii_chars_concat};

use crate::errors::SErr;
use crate::lexer::{
    digits_value, is_digit, is_ident_char, is_ident_start, keyword, lemma_run_end_exact, lex_from,
    scan, single, word_chars, STok, Scan,
};
use crate::parse::{
    atom_start, expr_spec, g_add_rest, g_app_rest, g_cmp_rest, g_eat, g_expr, g_expr_add,
    g_expr_ann, g_expr_app, g_expr_atom, g_expr_cmp, g_expr_let, g_expr_mul, g_expr_pre, g_ident,
    g_lambda, g_mul_rest, g_opt_ann, g_params, g_ty, lexed_toks, speek, wrap_lams,
};
use crate::pretty::{op_prec_spec, tm_text, ty_text};
use crate::readback::{
    ascii_bytes, lemma_ascii_concat, lemma_byte, lemma_lex_skip, lemma_lex_tok, lemma_lex_ty,
    lemma_parse_ty, lemma_piece, lemma_prepend_kinds, lemma_ty_text_ascii, lex_kinds,
    prepend_kinds, tparen, ty_toks, word_ends,
};
use crate::syntax::{binop_str, BinOp, STm};
use crate::text::{dec_nat, digit_char};

verus! {

// What the printer writes for a term, the parser reads back, without the
// annotations of binders, which the printer leaves out.

/// A term without the annotations of its `\` and `let` binders.
pub open spec fn erase(t: STm) -> STm
    decreases t,
{
    match t {
        STm::Lam(n, _, b) => STm::Lam(n, None, Box::new(erase(*b))),
        STm::App(f, a) => STm::App(Box::new(erase(*f)), Box::new(erase(*a))),
        STm::Let(n, _, v, b) => STm::Let(n, None, Box::new(erase(*v)), Box::new(erase(*b))),
        STm::Bin(op, a, b) => STm::Bin(op, Box::new(erase(*a)), Box::new(erase(*b))),
        STm::If(c, th, el) => STm::If(Box::new(erase(*c)), Box::new(erase(*th)), Box::new(erase(*el))),
        STm::Quote(e) => STm::Quote(Box::new(erase(*e))),
        STm::Splice(e) => STm::Splice(Box::new(erase(*e))),
        STm::Ann(e, ty) => STm::Ann(Box::new(erase(*e)), ty),
        _ => t,
    }
}

/// The token of an operator.
pub open spec fn op_tok(op: BinOp) -> STok {
    match op {
        BinOp::Add => STok::Plus,
        BinOp::Sub => STok::Minus,
        BinOp::Mul => STok::Star,
        BinOp::Eq => STok::EqEq,
    }
}

/// The precedence of an operator.
pub open spec fn op_level(op: BinOp) -> nat {
    match op {
        BinOp::Eq => 10,
        BinOp::Add => 20,
        BinOp::Sub => 20,
        BinOp::Mul => 30,
    }
}

/// The tokens of the text of a term at precedence `prec`.
pub open spec fn tm_toks(t: STm, prec: nat) -> Seq<STok>
    decreases t,
{
    match t {
        STm::Var(n) => seq![STok::Ident(n)],
        STm::NatLit(i) => seq![STok::Num(i)],
        STm::BoolLit(b) => if b {
            seq![STok::True]
        } else {
            seq![STok::False]
        },
        STm::Lam(n, _, b) => tparen(
            prec > 0,
            seq![STok::Lambda, STok::Ident(n), STok::Dot] + tm_toks(*b, 0),
        ),
        STm::App(f, a) => tparen(prec > 40, tm_toks(*f, 40) + tm_toks(*a, 41)),
        STm::Let(n, _, v, b) => tparen(
            prec > 0,
            seq![STok::Let, STok::Ident(n), STok::Eq] + tm_toks(*v, 0) + seq![STok::In] + tm_toks(
                *b,
                0,
            ),
        ),
        STm::Bin(op, a, b) => tparen(
            prec > op_level(op),
            tm_toks(*a, if op == BinOp::Eq { 11 } else { op_level(op) }) + seq![op_tok(op)]
                + tm_toks(*b, op_level(op) + 1),
        ),
        STm::If(c, th, el) => tparen(
            prec > 0,
            seq![STok::If] + tm_toks(*c, 0) + seq![STok::Then] + tm_toks(*th, 0) + seq![STok::Else]
                + tm_toks(*el, 0),
        ),
        STm::Quote(e) => seq![STok::Lt] + tm_toks(*e, 0) + seq![STok::Gt],
        STm::Splice(e) => seq![STok::Tilde] + tm_toks(*e, 50),
        STm::Ann(e, ty) => tparen(prec > 0, tm_toks(*e, 11) + seq![STok::Colon] + ty_toks(ty, 0)),
    }
}

/// The level of the grammar at which the text of `t` at `prec` stands: 5 for
/// a binder or an ascription, 4 for `==`, 3 for `+` and `-`, 2 for `*`, 1
/// for an application, and 0 for an atom, a quote, a splice or a term in
/// parentheses.
pub open spec fn lvl(t: STm, p: nat) -> nat {
    match t {
        STm::Lam(..) => if p == 0 { 5 } else { 0 },
        STm::Let(..) => if p == 0 { 5 } else { 0 },
        STm::If(..) => if p == 0 { 5 } else { 0 },
        STm::Ann(..) => if p == 0 { 5 } else { 0 },
        STm::Bin(op, _, _) => if p <= op_level(op) {
            if op == BinOp::Eq { 4 } else if op == BinOp::Mul { 2 } else { 3 }
        } else {
            0
        },
        STm::App(..) => if p <= 40 { 1 } else { 0 },
        _ => 0,
    }
}

/// Whether the text of `t` at `p` is in parentheses.
pub open spec fn wrapped(t: STm, p: nat) -> bool {
    lvl(t, p) == 0 && !(t is Var || t is NatLit || t is BoolLit || t is Quote || t is Splice)
}

/// The order in which the lemmas below pass a term on to one another.
pub open spec fn rank(level: nat, t: STm, p: nat) -> nat {
    if wrapped(t, p) { level + 6 } else { level }
}

/// The token after `post` begins, if any.
pub open spec fn first(post: Seq<STok>) -> Option<STok> {
    if post.len() > 0 { Some(post[0]) } else { None }
}

/// Tokens that end an expression.
pub open spec fn stops(f: Option<STok>) -> bool {
    ||| f is None
    ||| f == Some(STok::RParen)
    ||| f == Some(STok::Gt)
    ||| f == Some(STok::In)
    ||| f == Some(STok::Then)
    ||| f == Some(STok::Else)
}

proof fn lemma_nonempty(t: STm, p: nat)
    ensures
        tm_toks(t, p).len() >= 1,
        lvl(t, p) <= 4 ==> atom_start(Some(tm_toks(t, p)[0])),
    decreases t,
{
    match t {
        STm::App(f, a) => lemma_nonempty(*f, 40),
        STm::Bin(op, a, b) => lemma_nonempty(*a, if op == BinOp::Eq { 11 } else { op_level(op) }),
        _ => {},
    }
}

proof fn lemma_at(ts: Seq<STok>, pre: Seq<STok>, x: Seq<STok>, post: Seq<STok>, k: int)
    requires
        ts == pre + x + post,
        0 <= k < x.len(),
    ensures
        speek(ts, (pre.len() + k) as nat) == Some(x[k]),
{
    assert(ts[pre.len() + k] == x[k]);
}

proof fn lemma_after(ts: Seq<STok>, pre: Seq<STok>, x: Seq<STok>, post: Seq<STok>)
    requires
        ts == pre + x + post,
    ensures
        speek(ts, pre.len() + x.len()) == first(post),
{
    if post.len() > 0 {
        assert(ts[pre.len() + x.len() as int] == post[0]);
    }
}

/// An atom, a quote, a splice or a term in parentheses.
#[verifier::spinoff_prover]
#[verifier::rlimit(100)]
proof fn lemma_pre(ts: Seq<STok>, pre: Seq<STok>, t: STm, p: nat, post: Seq<STok>)
    requires
        ts == pre + tm_toks(t, p) + post,
        lvl(t, p) == 0,
    ensures
        g_expr_pre(ts, pre.len()) == Ok::<_, SErr>((erase(t), pre.len() + tm_toks(t, p).len())),
    decreases t, rank(0, t, p),
{
    let q = pre.len();
    let x = tm_toks(t, p);
    lemma_at(ts, pre, x, post, 0);
    match t {
        STm::Var(n) => {
            assert(g_expr_atom(ts, q) == Ok::<_, SErr>((t, q + 1)));
        },
        STm::NatLit(_) => {
            assert(g_expr_atom(ts, q) == Ok::<_, SErr>((t, q + 1)));
        },
        STm::BoolLit(b) => {
            assert(g_expr_atom(ts, q) == Ok::<_, SErr>((t, q + 1)));
        },
        STm::Quote(e) => {
            let te = tm_toks(*e, 0);
            assert(ts =~= (pre + seq![STok::Lt]) + te + (seq![STok::Gt] + post));
            lemma_expr(ts, pre + seq![STok::Lt], *e, 0, seq![STok::Gt] + post);
            lemma_at(ts, pre, x, post, x.len() - 1);
        },
        STm::Splice(e) => {
            let te = tm_toks(*e, 50);
            assert(ts =~= (pre + seq![STok::Tilde]) + te + post);
            lemma_pre(ts, pre + seq![STok::Tilde], *e, 50, post);
        },
        _ => {
            let inner = tm_toks(t, 0);
            assert(x == seq![STok::LParen] + inner + seq![STok::RParen]);
            assert(ts =~= (pre + seq![STok::LParen]) + inner + (seq![STok::RParen] + post));
            lemma_expr(ts, pre + seq![STok::LParen], t, 0, seq![STok::RParen] + post);
            lemma_at(ts, pre, x, post, x.len() - 1);
        },
    }
}

/// An application, or what binds tighter.
#[verifier::spinoff_prover]
#[verifier::rlimit(100)]
proof fn lemma_app(ts: Seq<STok>, pre: Seq<STok>, t: STm, p: nat, post: Seq<STok>)
    requires
        ts == pre + tm_toks(t, p) + post,
        lvl(t, p) <= 1,
    ensures
        g_expr_app(ts, pre.len()) == g_app_rest(ts, pre.len() + tm_toks(t, p).len(), erase(t)),
    decreases t, rank(1, t, p),
{
    let q = pre.len();
    let x = tm_toks(t, p);
    if lvl(t, p) == 1 {
        if let STm::App(f, a) = t {
            let tf = tm_toks(*f, 40);
            let ta = tm_toks(*a, 41);
            assert(x == tf + ta);
            assert(ts =~= pre + tf + (ta + post));
            lemma_app(ts, pre, *f, 40, ta + post);
            assert(ts =~= (pre + tf) + ta + post);
            lemma_pre(ts, pre + tf, *a, 41, post);
            lemma_nonempty(*a, 41);
            lemma_at(ts, pre + tf, ta, post, 0);
        }
    } else {
        lemma_pre(ts, pre, t, p, post);
    }
}

/// A product, or what binds tighter.
#[verifier::spinoff_prover]
#[verifier::rlimit(100)]
proof fn lemma_mul(ts: Seq<STok>, pre: Seq<STok>, t: STm, p: nat, post: Seq<STok>)
    requires
        ts == pre + tm_toks(t, p) + post,
        lvl(t, p) <= 2,
        !atom_start(first(post)),
    ensures
        g_expr_mul(ts, pre.len()) == g_mul_rest(ts, pre.len() + tm_toks(t, p).len(), erase(t)),
    decreases t, rank(2, t, p),
{
    let q = pre.len();
    let x = tm_toks(t, p);
    if lvl(t, p) == 2 {
        if let STm::Bin(op, a, b) = t {
            let ta = tm_toks(*a, 30);
            let tb = tm_toks(*b, 31);
            assert(op == BinOp::Mul);
            assert(x == ta + seq![STok::Star] + tb);
            assert(ts =~= pre + ta + (seq![STok::Star] + tb + post));
            lemma_mul(ts, pre, *a, 30, seq![STok::Star] + tb + post);
            lemma_after(ts, pre, ta, seq![STok::Star] + tb + post);
            assert(ts =~= (pre + ta + seq![STok::Star]) + tb + post);
            lemma_app(ts, pre + ta + seq![STok::Star], *b, 31, post);
            lemma_after(ts, pre + ta + seq![STok::Star], tb, post);
            lemma_nonempty(*b, 31);
        }
    } else {
        lemma_app(ts, pre, t, p, post);
        lemma_after(ts, pre, x, post);
        lemma_nonempty(t, p);
    }
}

/// A sum or difference, or what binds tighter.
#[verifier::spinoff_prover]
#[verifier::rlimit(100)]
proof fn lemma_add(ts: Seq<STok>, pre: Seq<STok>, t: STm, p: nat, post: Seq<STok>)
    requires
        ts == pre + tm_toks(t, p) + post,
        lvl(t, p) <= 3,
        !atom_start(first(post)),
        first(post) != Some(STok::Star),
    ensures
        g_expr_add(ts, pre.len()) == g_add_rest(ts, pre.len() + tm_toks(t, p).len(), erase(t)),
    decreases t, rank(3, t, p),
{
    let q = pre.len();
    let x = tm_toks(t, p);
    if lvl(t, p) == 3 {
        if let STm::Bin(op, a, b) = t {
            let ta = tm_toks(*a, 20);
            let tb = tm_toks(*b, 21);
            let o = seq![op_tok(op)];
            assert(op == BinOp::Add || op == BinOp::Sub);
            assert(x == ta + o + tb);
            assert(ts =~= pre + ta + (o + tb + post));
            lemma_add(ts, pre, *a, 20, o + tb + post);
            lemma_after(ts, pre, ta, o + tb + post);
            assert(ts =~= (pre + ta + o) + tb + post);
            lemma_mul(ts, pre + ta + o, *b, 21, post);
            lemma_after(ts, pre + ta + o, tb, post);
            lemma_nonempty(*b, 21);
        }
    } else {
        lemma_mul(ts, pre, t, p, post);
        lemma_after(ts, pre, x, post);
        lemma_nonempty(t, p);
    }
}

/// A comparison, or what binds tighter.
/// A comparison, or what binds tighter.
#[verifier::spinoff_prover]
proof fn lemma_compare(ts: Seq<STok>, pre: Seq<STok>, t: STm, p: nat, post: Seq<STok>)
    requires
        ts == pre + tm_toks(t, p) + post,
        lvl(t, p) <= 4,
        !atom_start(first(post)),
        first(post) != Some(STok::Star),
        first(post) != Some(STok::Plus),
        first(post) != Some(STok::Minus),
    ensures
        g_expr_cmp(ts, pre.len()) == g_cmp_rest(ts, pre.len() + tm_toks(t, p).len(), erase(t)),
    decreases t, rank(4, t, p),
{
    let q = pre.len();
    let x = tm_toks(t, p);
    if lvl(t, p) == 4 {
        lemma_compare_eq(ts, pre, t, p, post);
    } else {
        lemma_add(ts, pre, t, p, post);
        lemma_after(ts, pre, x, post);
        lemma_nonempty(t, p);
        assert(g_add_rest(ts, q + x.len(), erase(t)) == Ok::<_, SErr>((erase(t), q + x.len())));
    }
}

/// An equality test.
#[verifier::spinoff_prover]
#[verifier::rlimit(100)]
proof fn lemma_compare_eq(ts: Seq<STok>, pre: Seq<STok>, t: STm, p: nat, post: Seq<STok>)
    requires
        ts == pre + tm_toks(t, p) + post,
        lvl(t, p) == 4,
        !atom_start(first(post)),
        first(post) != Some(STok::Star),
        first(post) != Some(STok::Plus),
        first(post) != Some(STok::Minus),
    ensures
        g_expr_cmp(ts, pre.len()) == g_cmp_rest(ts, pre.len() + tm_toks(t, p).len(), erase(t)),
    decreases t, 0nat,
{
    let q = pre.len();
    let x = tm_toks(t, p);
    if let STm::Bin(op, a, b) = t {
        let ta = tm_toks(*a, 11);
        let tb = tm_toks(*b, 11);
        let o = seq![STok::EqEq];
        assert(op == BinOp::Eq);
        assert(x == ta + o + tb);
        assert(ts =~= pre + ta + (o + tb + post));
        lemma_add(ts, pre, *a, 11, o + tb + post);
        lemma_after(ts, pre, ta, o + tb + post);
        assert(ts =~= (pre + ta + o) + tb + post);
        lemma_add(ts, pre + ta + o, *b, 11, post);
        lemma_after(ts, pre + ta + o, tb, post);
        lemma_nonempty(*b, 11);
        let m = q + ta.len();
        let end = q + x.len();
        assert(g_add_rest(ts, m, erase(*a)) == Ok::<_, SErr>((erase(*a), m)));
        assert(g_expr_add(ts, q) == Ok::<_, SErr>((erase(*a), m)));
        assert(g_add_rest(ts, end, erase(*b)) == Ok::<_, SErr>((erase(*b), end)));
        assert(g_expr_add(ts, m + 1) == Ok::<_, SErr>((erase(*b), end)));
        assert(g_cmp_rest(ts, m, erase(*a)) == g_cmp_rest(ts, end, erase(t)));
    }
}

/// A whole expression, followed by a token that ends it.
#[verifier::spinoff_prover]
#[verifier::rlimit(100)]
proof fn lemma_expr(ts: Seq<STok>, pre: Seq<STok>, t: STm, p: nat, post: Seq<STok>)
    requires
        ts == pre + tm_toks(t, p) + post,
        stops(first(post)),
    ensures
        g_expr(ts, pre.len()) == Ok::<_, SErr>((erase(t), pre.len() + tm_toks(t, p).len())),
    decreases t, rank(5, t, p),
{
    let q = pre.len();
    let x = tm_toks(t, p);
    lemma_nonempty(t, p);
    lemma_at(ts, pre, x, post, 0);
    lemma_after(ts, pre, x, post);
    if lvl(t, p) == 5 {
        match t {
            STm::Lam(..) => lemma_expr_lam(ts, pre, t, p, post),
            STm::Let(..) => lemma_expr_let(ts, pre, t, p, post),
            STm::If(..) => lemma_expr_if(ts, pre, t, p, post),
            STm::Ann(..) => lemma_expr_ann(ts, pre, t, p, post),
            _ => {},
        }
    } else {
        let n = x.len();
        lemma_compare(ts, pre, t, p, post);
        assert(g_cmp_rest(ts, q + n, erase(t)) == Ok::<_, SErr>((erase(t), q + n)));
        assert(g_expr_ann(ts, q) == Ok::<_, SErr>((erase(t), q + n)));
        assert(g_expr_let(ts, q) == g_expr_ann(ts, q));
    }
}

#[verifier::spinoff_prover]
#[verifier::rlimit(100)]
proof fn lemma_expr_lam(ts: Seq<STok>, pre: Seq<STok>, t: STm, p: nat, post: Seq<STok>)
    requires
        ts == pre + tm_toks(t, p) + post,
        stops(first(post)),
        lvl(t, p) == 5,
        t is Lam,
    ensures
        g_expr(ts, pre.len()) == Ok::<_, SErr>((erase(t), pre.len() + tm_toks(t, p).len())),
    decreases t, 0nat,
{
    let q = pre.len();
    let x = tm_toks(t, p);
    lemma_nonempty(t, p);
    lemma_at(ts, pre, x, post, 0);
    lemma_after(ts, pre, x, post);
    if let STm::Lam(n, ann, b) = t {
        let tb = tm_toks(*b, 0);
        let head = seq![STok::Lambda, STok::Ident(n), STok::Dot];
        assert(x == head + tb);
        assert(ts =~= (pre + head) + tb + post);
        lemma_expr(ts, pre + head, *b, 0, post);
        lemma_at(ts, pre, x, post, 1);
        lemma_at(ts, pre, x, post, 2);
        let ps = seq![(n, None::<crate::syntax::Ty>)];
        reveal_with_fuel(wrap_lams, 2);
        assert(ps + Seq::<(Seq<char>, Option<crate::syntax::Ty>)>::empty() =~= ps);
        assert(ps.drop_first() =~= Seq::<(Seq<char>, Option<crate::syntax::Ty>)>::empty());
        assert(wrap_lams(ps, erase(*b)) == STm::Lam(n, None, Box::new(erase(*b))));
        assert(g_params(ts, q + 2) == Ok::<_, SErr>((Seq::<(Seq<char>, Option<crate::syntax::Ty>)>::empty(), q + 2)));
        assert(g_opt_ann(ts, q + 2) == Ok::<_, SErr>((None::<crate::syntax::Ty>, q + 2)));
        assert(g_eat(ts, q + 1, STok::LParen) == (false, q + 1));
        assert(g_ident(ts, q + 1) == Ok::<_, SErr>((n, q + 2)));
        assert(g_params(ts, q + 1) == Ok::<_, SErr>((ps, q + 2)));
        assert(g_eat(ts, q + 2, STok::Dot) == (true, q + 3));
        assert(g_lambda(ts, q) == Ok::<_, SErr>((wrap_lams(ps, erase(*b)), q + x.len())));
    }
}

#[verifier::spinoff_prover]
#[verifier::rlimit(100)]
proof fn lemma_expr_let(ts: Seq<STok>, pre: Seq<STok>, t: STm, p: nat, post: Seq<STok>)
    requires
        ts == pre + tm_toks(t, p) + post,
        stops(first(post)),
        lvl(t, p) == 5,
        t is Let,
    ensures
        g_expr(ts, pre.len()) == Ok::<_, SErr>((erase(t), pre.len() + tm_toks(t, p).len())),
    decreases t, 0nat,
{
    let q = pre.len();
    let x = tm_toks(t, p);
    lemma_nonempty(t, p);
    lemma_at(ts, pre, x, post, 0);
    lemma_after(ts, pre, x, post);
    if let STm::Let(n, ann, v, b) = t {
        let tv = tm_toks(*v, 0);
        let tb = tm_toks(*b, 0);
        let head = seq![STok::Let, STok::Ident(n), STok::Eq];
        assert(x == head + tv + seq![STok::In] + tb);
        lemma_at(ts, pre, x, post, 1);
        lemma_at(ts, pre, x, post, 2);
        assert(ts =~= (pre + head) + tv + (seq![STok::In] + tb + post));
        lemma_expr(ts, pre + head, *v, 0, seq![STok::In] + tb + post);
        lemma_after(ts, pre + head, tv, seq![STok::In] + tb + post);
        assert(ts =~= (pre + head + tv + seq![STok::In]) + tb + post);
        lemma_expr(ts, pre + head + tv + seq![STok::In], *b, 0, post);
    }
}

#[verifier::spinoff_prover]
#[verifier::rlimit(100)]
proof fn lemma_expr_if(ts: Seq<STok>, pre: Seq<STok>, t: STm, p: nat, post: Seq<STok>)
    requires
        ts == pre + tm_toks(t, p) + post,
        stops(first(post)),
        lvl(t, p) == 5,
        t is If,
    ensures
        g_expr(ts, pre.len()) == Ok::<_, SErr>((erase(t), pre.len() + tm_toks(t, p).len())),
    decreases t, 0nat,
{
    let q = pre.len();
    let x = tm_toks(t, p);
    lemma_nonempty(t, p);
    lemma_at(ts, pre, x, post, 0);
    lemma_after(ts, pre, x, post);
    if let STm::If(c, th, el) = t {
        let tc = tm_toks(*c, 0);
        let tt = tm_toks(*th, 0);
        let te = tm_toks(*el, 0);
        let i = seq![STok::If];
        let th_ = seq![STok::Then];
        let el_ = seq![STok::Else];
        assert(x == i + tc + th_ + tt + el_ + te);
        assert(ts =~= (pre + i) + tc + (th_ + tt + el_ + te + post));
        lemma_expr(ts, pre + i, *c, 0, th_ + tt + el_ + te + post);
        lemma_after(ts, pre + i, tc, th_ + tt + el_ + te + post);
        assert(ts =~= (pre + i + tc + th_) + tt + (el_ + te + post));
        lemma_expr(ts, pre + i + tc + th_, *th, 0, el_ + te + post);
        lemma_after(ts, pre + i + tc + th_, tt, el_ + te + post);
        assert(ts =~= (pre + i + tc + th_ + tt + el_) + te + post);
        lemma_expr(ts, pre + i + tc + th_ + tt + el_, *el, 0, post);
    }
}

#[verifier::spinoff_prover]
#[verifier::rlimit(100)]
proof fn lemma_expr_ann(ts: Seq<STok>, pre: Seq<STok>, t: STm, p: nat, post: Seq<STok>)
    requires
        ts == pre + tm_toks(t, p) + post,
        stops(first(post)),
        lvl(t, p) == 5,
        t is Ann,
    ensures
        g_expr(ts, pre.len()) == Ok::<_, SErr>((erase(t), pre.len() + tm_toks(t, p).len())),
    decreases t, 0nat,
{
    let q = pre.len();
    let x = tm_toks(t, p);
    lemma_nonempty(t, p);
    lemma_at(ts, pre, x, post, 0);
    lemma_after(ts, pre, x, post);
    if let STm::Ann(e, ty) = t {
        let te = tm_toks(*e, 11);
        let tt = ty_toks(ty, 0);
        let c = seq![STok::Colon];
        assert(x == te + c + tt);
        lemma_nonempty(*e, 11);
        assert(ts =~= pre + te + (c + tt + post));
        lemma_at(ts, pre, te, c + tt + post, 0);
        lemma_compare(ts, pre, *e, 11, c + tt + post);
        lemma_after(ts, pre, te, c + tt + post);
        assert(ts =~= (pre + te + c) + tt + post);
        lemma_type_after(ts, pre + te + c, ty, post);
        let m = q + te.len();
        assert(g_cmp_rest(ts, m, erase(*e)) == Ok::<_, SErr>((erase(*e), m)));
        assert(g_expr_cmp(ts, q) == Ok::<_, SErr>((erase(*e), m)));
        assert(g_expr_ann(ts, q) == Ok::<_, SErr>((erase(t), q + x.len())));
        assert(g_expr_let(ts, q) == g_expr_ann(ts, q));
    }
}

/// The tokens of a type, followed by a token that ends an expression, parse
/// as that type.
proof fn lemma_type_after(ts: Seq<STok>, pre: Seq<STok>, ty: crate::syntax::Ty, post: Seq<STok>)
    requires
        ts == pre + ty_toks(ty, 0) + post,
        stops(first(post)),
    ensures
        g_ty(ts, pre.len()) == Ok::<_, SErr>((ty, pre.len() + ty_toks(ty, 0).len())),
{
    let tt = ty_toks(ty, 0);
    let r = pre.len();
    assert(ts.subrange(r as int, r + tt.len() as int) =~= tt);
    lemma_after(ts, pre, tt, post);
    lemma_parse_ty(ts, r, ty);
}

/// The tokens of a printed term parse back to that term, without the
/// annotations of its binders, and are read to the end.
pub proof fn law_printed_term_tokens_parse_back(t: STm)
    ensures
        g_expr(tm_toks(t, 0), 0) == Ok::<_, SErr>((erase(t), tm_toks(t, 0).len())),
{
    let e = Seq::<STok>::empty();
    assert(tm_toks(t, 0) =~= e + tm_toks(t, 0) + e);
    lemma_expr(tm_toks(t, 0), e, t, 0, e);
}

// ---------------------------------------------------------------------------
// Lexing the text of a printed term.

/// The bytes of `txt` stand at `i` in `s`.
pub open spec fn at(s: Seq<u8>, i: nat, txt: Seq<char>) -> bool {
    i + txt.len() <= s.len() && s.subrange(i as int, i + txt.len() as int) == ascii_bytes(txt)
}

/// Lexing from `i` reads the tokens `ks` out of `txt` and goes on after it.
pub open spec fn lexes(s: Seq<u8>, i: nat, txt: Seq<char>, ks: Seq<STok>) -> bool {
    lex_kinds(s, i) == prepend_kinds(ks, lex_kinds(s, i + txt.len()))
}

/// A name that the lexer reads as an identifier: a word of ASCII letters,
/// digits, `_` and `'` that starts with a letter or `_` and is no keyword.
pub open spec fn is_name(n: Seq<char>) -> bool {
    &&& n.len() >= 1
    &&& n[0] <= '\u{7f}' && is_ident_start(n[0] as u8)
    &&& forall|k: int| 0 <= k < n.len() ==> #[trigger] n[k] <= '\u{7f}' && is_ident_char(n[k] as u8)
    &&& keyword(n) is None
}

/// A term whose text the lexer reads back: every name is a name and every
/// number is at least 0.
pub open spec fn printable(t: STm) -> bool
    decreases t,
{
    match t {
        STm::Var(n) => is_name(n),
        STm::NatLit(i) => i >= 0,
        STm::BoolLit(_) => true,
        STm::Lam(n, _, b) => is_name(n) && printable(*b),
        STm::App(f, a) => printable(*f) && printable(*a),
        STm::Let(n, _, v, b) => is_name(n) && printable(*v) && printable(*b),
        STm::Bin(_, a, b) => printable(*a) && printable(*b),
        STm::If(c, th, el) => printable(*c) && printable(*th) && printable(*el),
        STm::Quote(e) => printable(*e),
        STm::Splice(e) => printable(*e),
        STm::Ann(e, _) => printable(*e),
    }
}

proof fn lemma_split(s: Seq<u8>, i: nat, x: Seq<char>, y: Seq<char>)
    requires
        at(s, i, x + y),
    ensures
        at(s, i, x),
        at(s, i + x.len(), y),
{
    lemma_ascii_concat(x, y);
    let w = ascii_bytes(x + y);
    assert(w.subrange(0, x.len() as int) =~= ascii_bytes(x));
    assert(w.subrange(x.len() as int, (x.len() + y.len()) as int) =~= ascii_bytes(y));
    lemma_piece(s, i as int, w, 0, ascii_bytes(x));
    lemma_piece(s, i as int, w, x.len() as int, ascii_bytes(y));
}

proof fn lemma_cat(s: Seq<u8>, i: nat, x: Seq<char>, y: Seq<char>, kx: Seq<STok>, ky: Seq<STok>)
    requires
        lexes(s, i, x, kx),
        lexes(s, i + x.len(), y, ky),
    ensures
        lexes(s, i, x + y, kx + ky),
{
    lemma_prepend_kinds(kx, ky, lex_kinds(s, i + x.len() + y.len()));
}

/// The byte at `i + k`, and that it is ASCII.
proof fn lemma_char(s: Seq<u8>, i: nat, txt: Seq<char>, k: int)
    requires
        at(s, i, txt),
        0 <= k < txt.len(),
    ensures
        s[i + k] == (txt[k] as u8),
{
    lemma_byte(s, i as int, ascii_bytes(txt), k);
}

proof fn lemma_ascii_char(c: char)
    requires
        c <= '\u{7f}',
    ensures
        ((c as u8) as char) == c,
{
}

/// A word of identifier characters, followed by no more of a word, is read
/// as its keyword, or else as an identifier.
proof fn lemma_lex_word(s: Seq<u8>, i: nat, w: Seq<char>)
    requires
        at(s, i, w),
        word_ends(s, i + w.len()),
        w.len() >= 1,
        w[0] <= '\u{7f}' && is_ident_start(w[0] as u8),
        forall|k: int| 0 <= k < w.len() ==> #[trigger] w[k] <= '\u{7f}' && is_ident_char(w[k] as u8),
    ensures
        lexes(
            s,
            i,
            w,
            seq![
                match keyword(w) {
                    Some(k) => k,
                    None => STok::Ident(w),
                },
            ],
        ),
{
    let n = w.len();
    let q = i as int;
    lemma_char(s, i, w, 0);
    assert forall|m: int| i + 1 <= m < i + n implies is_ident_char(#[trigger] s[m]) by {
        lemma_char(s, i, w, m - q);
    }
    lemma_run_end_exact(s, i + 1, i + n, |c: u8| is_ident_char(c));
    assert forall|m: int| 0 <= m < n implies #[trigger] word_chars(s, i, i + n)[m] == w[m] by {
        lemma_char(s, i, w, m);
        assert(s.subrange(q, q + n)[m] == s[q + m]);
        assert(word_chars(s, i, i + n)[m] == (s.subrange(q, q + n)[m] as char));
        assert(w[m] <= '\u{7f}');
        lemma_ascii_char(w[m]);
    }
    assert(word_chars(s, i, i + n) =~= w);
    let k = match keyword(w) {
        Some(k) => k,
        None => STok::Ident(w),
    };
    assert(scan(s, i) == Scan::Tok(k, i + n));
    lemma_lex_tok(s, i, k, i + n);
}


pub(crate) proof fn lemma_dec_digits(m: nat)
    ensures
        forall|k: int|
            0 <= k < dec_nat(m).len() ==> #[trigger] dec_nat(m)[k] <= '\u{7f}' && is_digit(
                dec_nat(m)[k] as u8,
            ) && is_ident_char(dec_nat(m)[k] as u8),
    decreases m,
{
    if m >= 10 {
        lemma_dec_digits(m / 10);
        assert forall|k: int| 0 <= k < dec_nat(m).len() implies #[trigger] dec_nat(m)[k] <= '\u{7f}'
            && is_digit(dec_nat(m)[k] as u8) && is_ident_char(dec_nat(m)[k] as u8) by {
            if k < dec_nat(m / 10).len() {
                assert(dec_nat(m)[k] == dec_nat(m / 10)[k]);
            }
        }
    }
}

proof fn lemma_dec_value(s: Seq<u8>, i: nat, m: nat)
    requires
        at(s, i, dec_nat(m)),
    ensures
        digits_value(s, i, i + dec_nat(m).len()) == m,
    decreases m,
{
    let d = dec_nat(m);
    let last = (d.len() - 1) as int;
    lemma_char(s, i, d, last);
    let r = (m % 10) as nat;
    assert((digit_char(r) as u8) == r + 48);
    if m >= 10 {
        let h = dec_nat(m / 10);
        assert(d == h + seq![digit_char(r)]);
        lemma_split(s, i, h, seq![digit_char(r)]);
        lemma_dec_value(s, i, m / 10);
        assert(d[last] == digit_char(r));
        assert(digits_value(s, i, i + d.len()) == digits_value(s, i, i + h.len()) * 10 + r);
        assert((m / 10) * 10 + r == m);
    } else {
        assert(d == seq![digit_char(m)]);
        assert(digits_value(s, i, i) == 0);
    }
}

/// A number in decimal, followed by no more of a word, is read as that
/// number.
proof fn lemma_lex_num(s: Seq<u8>, i: nat, k: i64)
    requires
        k >= 0,
        at(s, i, dec_nat(k as nat)),
        word_ends(s, i + dec_nat(k as nat).len()),
    ensures
        lexes(s, i, dec_nat(k as nat), seq![STok::Num(k)]),
{
    let d = dec_nat(k as nat);
    let n = d.len();
    let q = i as int;
    lemma_dec_digits(k as nat);
    lemma_char(s, i, d, 0);
    assert forall|m: int| i <= m < i + n implies is_digit(#[trigger] s[m]) by {
        lemma_char(s, i, d, m - q);
    }
    lemma_run_end_exact(s, i, i + n, |c: u8| is_digit(c));
    lemma_dec_value(s, i, k as nat);
    assert(scan(s, i) == Scan::Tok(STok::Num(k), i + n));
    lemma_lex_tok(s, i, STok::Num(k), i + n);
}

proof fn lemma_keywords_of_terms()
    ensures
        keyword("true"@) == Some(STok::True),
        keyword("false"@) == Some(STok::False),
        keyword("let"@) == Some(STok::Let),
        keyword("in"@) == Some(STok::In),
        keyword("if"@) == Some(STok::If),
        keyword("then"@) == Some(STok::Then),
        keyword("else"@) == Some(STok::Else),
{
    reveal_strlit("let");
    reveal_strlit("in");
    reveal_strlit("if");
    reveal_strlit("then");
    reveal_strlit("else");
    reveal_strlit("true");
    reveal_strlit("false");
    reveal_strlit("eval");
    reveal_strlit("Nat");
    reveal_strlit("Bool");
    reveal_strlit("Code");
    reveal_strlit("fn");
    assert("false"@.len() == 5);
    assert("if"@[1] != "in"@[1]);
    assert("true"@[1] != "then"@[1]);
    assert("else"@[0] != "then"@[0]);
    assert("true"@[0] != "else"@[0]);
}

/// The next character of the text is no part of a word.
proof fn lemma_follow(s: Seq<u8>, j: nat, y: Seq<char>)
    requires
        at(s, j, y),
        y.len() > 0,
        y[0] <= '\u{7f}',
        !is_ident_char(y[0] as u8),
    ensures
        word_ends(s, j),
{
    lemma_char(s, j, y, 0);
}

/// A keyword followed by a blank.
proof fn lemma_lex_kw_space(s: Seq<u8>, i: nat, w: Seq<char>, k: STok)
    requires
        at(s, i, w + " "@),
        keyword(w) == Some(k),
        w.len() >= 1,
        w[0] <= '\u{7f}' && is_ident_start(w[0] as u8),
        forall|m: int| 0 <= m < w.len() ==> #[trigger] w[m] <= '\u{7f}' && is_ident_char(w[m] as u8),
    ensures
        lexes(s, i, w + " "@, seq![k]),
{
    reveal_strlit(" ");
    lemma_split(s, i, w, " "@);
    lemma_follow(s, i + w.len(), " "@);
    lemma_lex_word(s, i, w);
    lemma_char(s, i + w.len(), " "@, 0);
    lemma_lex_skip(s, i + w.len(), i + w.len() + 1);
}

/// A blank and a keyword followed by a blank.
proof fn lemma_lex_blank_kw(s: Seq<u8>, i: nat, w: Seq<char>, k: STok)
    requires
        at(s, i, " "@ + (w + " "@)),
        keyword(w) == Some(k),
        w.len() >= 1,
        w[0] <= '\u{7f}' && is_ident_start(w[0] as u8),
        forall|m: int| 0 <= m < w.len() ==> #[trigger] w[m] <= '\u{7f}' && is_ident_char(w[m] as u8),
    ensures
        lexes(s, i, " "@ + (w + " "@), seq![k]),
{
    reveal_strlit(" ");
    lemma_split(s, i, " "@, w + " "@);
    lemma_char(s, i, " "@, 0);
    lemma_lex_skip(s, i, i + 1);
    lemma_lex_kw_space(s, i + 1, w, k);
}

/// A one-character token.
proof fn lemma_lex_one(s: Seq<u8>, i: nat, c: char, k: STok)
    requires
        at(s, i, seq![c]),
        c <= '\u{7f}',
        single(c as u8) == Some(k),
    ensures
        lexes(s, i, seq![c], seq![k]),
{
    lemma_char(s, i, seq![c], 0);
    lemma_lex_tok(s, i, k, i + 1);
}

/// A blank, which is skipped.
proof fn lemma_lex_blank(s: Seq<u8>, i: nat)
    requires
        at(s, i, seq![' ']),
    ensures
        lexes(s, i, seq![' '], Seq::<STok>::empty()),
{
    lemma_char(s, i, seq![' '], 0);
    lemma_lex_skip(s, i, i + 1);
    if let Ok(x) = lex_kinds(s, i + 1) {
        assert(Seq::<STok>::empty() + x =~= x);
    }
}

/// A token between blanks: `=`, `:`, `-`, `+`, `*` or `==`.
proof fn lemma_lex_padded(s: Seq<u8>, i: nat, mid: Seq<char>, k: STok)
    requires
        at(s, i, seq![' '] + mid + seq![' ']),
        (mid == seq!['='] && k == STok::Eq) || (mid == seq![':'] && k == STok::Colon) || (mid
            == seq!['-'] && k == STok::Minus) || (mid == seq!['+'] && k == STok::Plus) || (mid
            == seq!['*'] && k == STok::Star) || (mid == seq!['=', '='] && k == STok::EqEq),
    ensures
        lexes(s, i, seq![' '] + mid + seq![' '], seq![k]),
{
    let txt = seq![' '] + mid + seq![' '];
    let n = txt.len();
    assert forall|m: int| 0 <= m < n implies s[i + m] == (#[trigger] txt[m] as u8) by {
        lemma_char(s, i, txt, m);
    }
    assert(txt[0] == ' ');
    assert(txt[1] == mid[0]);
    assert(txt[n - 1] == ' ');
    if mid.len() == 2 {
        assert(txt[2] == '=');
    } else {
        assert(txt[2] == ' ');
    }
    lemma_lex_skip(s, i, i + 1);
    lemma_lex_tok(s, i + 1, k, i + 1 + mid.len());
    lemma_lex_skip(s, i + 1 + mid.len(), i + 2 + mid.len());
}


/// The literal pieces of the text of a term, character by character.
pub(crate) proof fn lemma_literals()
    ensures
        "\\"@ == seq!['\\'],
        "<"@ == seq!['<'],
        ">"@ == seq!['>'],
        "~"@ == seq!['~'],
        "("@ == seq!['('],
        ")"@ == seq![')'],
        " "@ == seq![' '],
        ". "@ == seq!['.', ' '],
        " = "@ == seq![' '] + seq!['='] + seq![' '],
        " : "@ == seq![' '] + seq![':'] + seq![' '],
        "let "@ == "let"@ + " "@,
        "if "@ == "if"@ + " "@,
        " in "@ == " "@ + ("in"@ + " "@),
        " then "@ == " "@ + ("then"@ + " "@),
        " else "@ == " "@ + ("else"@ + " "@),
        "+"@ == seq!['+'],
        "-"@ == seq!['-'],
        "*"@ == seq!['*'],
        "=="@ == seq!['=', '='],
        "true"@ == seq!['t', 'r', 'u', 'e'],
        "false"@ == seq!['f', 'a', 'l', 's', 'e'],
        "let"@ == seq!['l', 'e', 't'],
        "in"@ == seq!['i', 'n'],
        "if"@ == seq!['i', 'f'],
        "then"@ == seq!['t', 'h', 'e', 'n'],
        "else"@ == seq!['e', 'l', 's', 'e'],
{
    reveal_strlit("\\");
    reveal_strlit("<");
    reveal_strlit(">");
    reveal_strlit("~");
    reveal_strlit("(");
    reveal_strlit(")");
    reveal_strlit(" ");
    reveal_strlit(". ");
    reveal_strlit(" = ");
    reveal_strlit(" : ");
    reveal_strlit("let ");
    reveal_strlit("if ");
    reveal_strlit(" in ");
    reveal_strlit(" then ");
    reveal_strlit(" else ");
    reveal_strlit("+");
    reveal_strlit("-");
    reveal_strlit("*");
    reveal_strlit("==");
    reveal_strlit("true");
    reveal_strlit("false");
    reveal_strlit("let");
    reveal_strlit("in");
    reveal_strlit("if");
    reveal_strlit("then");
    reveal_strlit("else");
    assert(" = "@ =~= seq![' '] + seq!['='] + seq![' ']);
    assert(" : "@ =~= seq![' '] + seq![':'] + seq![' ']);
    assert("let "@ =~= "let"@ + " "@);
    assert("if "@ =~= "if"@ + " "@);
    assert(" in "@ =~= " "@ + ("in"@ + " "@));
    assert(" then "@ =~= " "@ + ("then"@ + " "@));
    assert(" else "@ =~= " "@ + ("else"@ + " "@));
}

/// `. ` is read as a dot.
proof fn lemma_lex_dot(s: Seq<u8>, i: nat)
    requires
        at(s, i, ". "@),
    ensures
        lexes(s, i, ". "@, seq![STok::Dot]),
{
    lemma_literals();
    lemma_split(s, i, seq!['.'], seq![' ']);
    assert(seq!['.'] + seq![' '] =~= seq!['.', ' ']);
    lemma_lex_one(s, i, '.', STok::Dot);
    lemma_lex_blank(s, i + 1);
    lemma_cat(s, i, seq!['.'], seq![' '], seq![STok::Dot], Seq::<STok>::empty());
    assert(seq![STok::Dot] + Seq::<STok>::empty() =~= seq![STok::Dot]);
}

/// An operator between blanks.
proof fn lemma_lex_op(s: Seq<u8>, i: nat, op: BinOp)
    requires
        at(s, i, " "@ + binop_str(op) + " "@),
    ensures
        lexes(s, i, " "@ + binop_str(op) + " "@, seq![op_tok(op)]),
{
    lemma_literals();
    lemma_lex_padded(s, i, binop_str(op), op_tok(op));
}

/// A name is read as an identifier.
proof fn lemma_lex_name(s: Seq<u8>, i: nat, n: Seq<char>)
    requires
        at(s, i, n),
        word_ends(s, i + n.len()),
        is_name(n),
    ensures
        lexes(s, i, n, seq![STok::Ident(n)]),
{
    lemma_lex_word(s, i, n);
}

/// The text of a type is read as its tokens.
proof fn lemma_lex_type(s: Seq<u8>, i: nat, ty: crate::syntax::Ty)
    requires
        at(s, i, ty_text(ty, 0)),
        word_ends(s, i + ty_text(ty, 0).len()),
    ensures
        lexes(s, i, ty_text(ty, 0), ty_toks(ty, 0)),
{
    lemma_lex_ty(s, i, ty, 0);
}

/// The text of a printable term, followed by no more of a word, is read as
/// the tokens of that term.
proof fn lemma_lex_tm(s: Seq<u8>, i: nat, t: STm, prec: nat)
    requires
        printable(t),
        at(s, i, tm_text(t, prec)),
        word_ends(s, i + tm_text(t, prec).len()),
    ensures
        lexes(s, i, tm_text(t, prec), tm_toks(t, prec)),
    decreases t, prec, 1nat,
{
    if wrapped(t, prec) {
        lemma_lex_paren(s, i, t, prec);
    } else {
        match t {
            STm::Var(n) => lemma_lex_name(s, i, n),
            STm::NatLit(k) => {
                assert(tm_text(t, prec) == dec_nat(k as nat));
                lemma_lex_num(s, i, k);
            },
            STm::BoolLit(b) => {
                lemma_literals();
                lemma_keywords_of_terms();
                if b {
                    lemma_lex_word(s, i, "true"@);
                } else {
                    lemma_lex_word(s, i, "false"@);
                }
            },
            STm::Lam(..) => lemma_lex_lam(s, i, t, prec),
            STm::App(..) => lemma_lex_app(s, i, t, prec),
            STm::Let(..) => lemma_lex_let(s, i, t, prec),
            STm::Bin(..) => lemma_lex_bin(s, i, t, prec),
            STm::If(..) => lemma_lex_if(s, i, t, prec),
            STm::Quote(..) => lemma_lex_quote(s, i, t, prec),
            STm::Splice(..) => lemma_lex_splice(s, i, t, prec),
            STm::Ann(..) => lemma_lex_ann(s, i, t, prec),
        }
    }
}

#[verifier::spinoff_prover]
#[verifier::rlimit(100)]
proof fn lemma_lex_lam(s: Seq<u8>, i: nat, t: STm, prec: nat)
    requires
        printable(t),
        at(s, i, tm_text(t, prec)),
        word_ends(s, i + tm_text(t, prec).len()),
        t is Lam && !wrapped(t, prec),
    ensures
        lexes(s, i, tm_text(t, prec), tm_toks(t, prec)),
    decreases t, prec, 0nat,
{
    lemma_literals();
    if let STm::Lam(n, _, b) = t {
        let x0 = "\\"@;
        let k0 = seq![STok::Lambda];
        let x1 = n;
        let k1 = seq![STok::Ident(n)];
        let x2 = ". "@;
        let k2 = seq![STok::Dot];
        let x3 = tm_text(*b, 0);
        let k3 = tm_toks(*b, 0);
        let p0 = x0;
        let p1 = p0 + x1;
        let p2 = p1 + x2;
        let p3 = p2 + x3;
        assert(tm_text(t, prec) =~= p3);
        lemma_split(s, i, p2, x3);
        lemma_split(s, i, p1, x2);
        lemma_split(s, i, p0, x1);
        lemma_follow(s, i + p1.len(), x2);
        lemma_lex_one(s, i, '\\', STok::Lambda);
        lemma_lex_name(s, i + p0.len(), n);
        lemma_lex_dot(s, i + p1.len());
        lemma_lex_tm(s, i + p2.len(), *b, 0);
        let q0 = k0;
        let q1 = q0 + k1;
        lemma_cat(s, i, p0, x1, q0, k1);
        let q2 = q1 + k2;
        lemma_cat(s, i, p1, x2, q1, k2);
        let q3 = q2 + k3;
        lemma_cat(s, i, p2, x3, q2, k3);
        assert(tm_toks(t, prec) =~= q3);
    }
}

#[verifier::spinoff_prover]
#[verifier::rlimit(100)]
proof fn lemma_lex_app(s: Seq<u8>, i: nat, t: STm, prec: nat)
    requires
        printable(t),
        at(s, i, tm_text(t, prec)),
        word_ends(s, i + tm_text(t, prec).len()),
        t is App && !wrapped(t, prec),
    ensures
        lexes(s, i, tm_text(t, prec), tm_toks(t, prec)),
    decreases t, prec, 0nat,
{
    lemma_literals();
    if let STm::App(f, a) = t {
        let x0 = tm_text(*f, 40);
        let k0 = tm_toks(*f, 40);
        let x1 = " "@;
        let k1 = Seq::<STok>::empty();
        let x2 = tm_text(*a, 41);
        let k2 = tm_toks(*a, 41);
        let p0 = x0;
        let p1 = p0 + x1;
        let p2 = p1 + x2;
        assert(tm_text(t, prec) =~= p2);
        lemma_split(s, i, p1, x2);
        lemma_split(s, i, p0, x1);
        lemma_follow(s, i + p0.len(), x1);
        lemma_lex_tm(s, i, *f, 40);
        lemma_lex_blank(s, i + p0.len());
        lemma_lex_tm(s, i + p1.len(), *a, 41);
        let q0 = k0;
        let q1 = q0 + k1;
        lemma_cat(s, i, p0, x1, q0, k1);
        let q2 = q1 + k2;
        lemma_cat(s, i, p1, x2, q1, k2);
        assert(tm_toks(t, prec) =~= q2);
    }
}

#[verifier::spinoff_prover]
#[verifier::rlimit(100)]
proof fn lemma_lex_let(s: Seq<u8>, i: nat, t: STm, prec: nat)
    requires
        printable(t),
        at(s, i, tm_text(t, prec)),
        word_ends(s, i + tm_text(t, prec).len()),
        t is Let && !wrapped(t, prec),
    ensures
        lexes(s, i, tm_text(t, prec), tm_toks(t, prec)),
    decreases t, prec, 0nat,
{
    lemma_literals();
    if let STm::Let(n, _, v, b) = t {
        let x0 = "let "@;
        let k0 = seq![STok::Let];
        let x1 = n;
        let k1 = seq![STok::Ident(n)];
        let x2 = " = "@;
        let k2 = seq![STok::Eq];
        let x3 = tm_text(*v, 0);
        let k3 = tm_toks(*v, 0);
        let x4 = " in "@;
        let k4 = seq![STok::In];
        let x5 = tm_text(*b, 0);
        let k5 = tm_toks(*b, 0);
        let p0 = x0;
        let p1 = p0 + x1;
        let p2 = p1 + x2;
        let p3 = p2 + x3;
        let p4 = p3 + x4;
        let p5 = p4 + x5;
        assert(tm_text(t, prec) =~= p5);
        lemma_split(s, i, p4, x5);
        lemma_split(s, i, p3, x4);
        lemma_split(s, i, p2, x3);
        lemma_split(s, i, p1, x2);
        lemma_split(s, i, p0, x1);
        lemma_follow(s, i + p1.len(), x2);
        lemma_follow(s, i + p3.len(), x4);
        lemma_lex_kw_space(s, i, "let"@, STok::Let);
        lemma_lex_name(s, i + p0.len(), n);
        lemma_lex_padded(s, i + p1.len(), seq!['='], STok::Eq);
        lemma_lex_tm(s, i + p2.len(), *v, 0);
        lemma_lex_blank_kw(s, i + p3.len(), "in"@, STok::In);
        lemma_lex_tm(s, i + p4.len(), *b, 0);
        let q0 = k0;
        let q1 = q0 + k1;
        lemma_cat(s, i, p0, x1, q0, k1);
        let q2 = q1 + k2;
        lemma_cat(s, i, p1, x2, q1, k2);
        let q3 = q2 + k3;
        lemma_cat(s, i, p2, x3, q2, k3);
        let q4 = q3 + k4;
        lemma_cat(s, i, p3, x4, q3, k4);
        let q5 = q4 + k5;
        lemma_cat(s, i, p4, x5, q4, k5);
        assert(tm_toks(t, prec) =~= q5);
    }
}

#[verifier::spinoff_prover]
#[verifier::rlimit(100)]
proof fn lemma_lex_bin(s: Seq<u8>, i: nat, t: STm, prec: nat)
    requires
        printable(t),
        at(s, i, tm_text(t, prec)),
        word_ends(s, i + tm_text(t, prec).len()),
        t is Bin && !wrapped(t, prec),
    ensures
        lexes(s, i, tm_text(t, prec), tm_toks(t, prec)),
    decreases t, prec, 0nat,
{
    lemma_literals();
    if let STm::Bin(op, a, b) = t {
        let x0 = tm_text(*a, op_prec_spec(op).1 as nat);
        let k0 = tm_toks(*a, op_prec_spec(op).1 as nat);
        let x1 = " "@ + binop_str(op) + " "@;
        let k1 = seq![op_tok(op)];
        let x2 = tm_text(*b, op_prec_spec(op).2 as nat);
        let k2 = tm_toks(*b, op_prec_spec(op).2 as nat);
        let p0 = x0;
        let p1 = p0 + x1;
        let p2 = p1 + x2;
        assert(tm_text(t, prec) =~= p2);
        lemma_split(s, i, p1, x2);
        lemma_split(s, i, p0, x1);
        lemma_follow(s, i + p0.len(), x1);
        lemma_lex_tm(s, i, *a, op_prec_spec(op).1 as nat);
        lemma_lex_op(s, i + p0.len(), op);
        lemma_lex_tm(s, i + p1.len(), *b, op_prec_spec(op).2 as nat);
        let q0 = k0;
        let q1 = q0 + k1;
        lemma_cat(s, i, p0, x1, q0, k1);
        let q2 = q1 + k2;
        lemma_cat(s, i, p1, x2, q1, k2);
        assert(tm_toks(t, prec) =~= q2);
    }
}

#[verifier::spinoff_prover]
#[verifier::rlimit(100)]
proof fn lemma_lex_if(s: Seq<u8>, i: nat, t: STm, prec: nat)
    requires
        printable(t),
        at(s, i, tm_text(t, prec)),
        word_ends(s, i + tm_text(t, prec).len()),
        t is If && !wrapped(t, prec),
    ensures
        lexes(s, i, tm_text(t, prec), tm_toks(t, prec)),
    decreases t, prec, 0nat,
{
    lemma_literals();
    if let STm::If(c, th, el) = t {
        let x0 = "if "@;
        let k0 = seq![STok::If];
        let x1 = tm_text(*c, 0);
        let k1 = tm_toks(*c, 0);
        let x2 = " then "@;
        let k2 = seq![STok::Then];
        let x3 = tm_text(*th, 0);
        let k3 = tm_toks(*th, 0);
        let x4 = " else "@;
        let k4 = seq![STok::Else];
        let x5 = tm_text(*el, 0);
        let k5 = tm_toks(*el, 0);
        let p0 = x0;
        let p1 = p0 + x1;
        let p2 = p1 + x2;
        let p3 = p2 + x3;
        let p4 = p3 + x4;
        let p5 = p4 + x5;
        assert(tm_text(t, prec) =~= p5);
        lemma_split(s, i, p4, x5);
        lemma_split(s, i, p3, x4);
        lemma_split(s, i, p2, x3);
        lemma_split(s, i, p1, x2);
        lemma_split(s, i, p0, x1);
        lemma_follow(s, i + p1.len(), x2);
        lemma_follow(s, i + p3.len(), x4);
        lemma_lex_kw_space(s, i, "if"@, STok::If);
        lemma_lex_tm(s, i + p0.len(), *c, 0);
        lemma_lex_blank_kw(s, i + p1.len(), "then"@, STok::Then);
        lemma_lex_tm(s, i + p2.len(), *th, 0);
        lemma_lex_blank_kw(s, i + p3.len(), "else"@, STok::Else);
        lemma_lex_tm(s, i + p4.len(), *el, 0);
        let q0 = k0;
        let q1 = q0 + k1;
        lemma_cat(s, i, p0, x1, q0, k1);
        let q2 = q1 + k2;
        lemma_cat(s, i, p1, x2, q1, k2);
        let q3 = q2 + k3;
        lemma_cat(s, i, p2, x3, q2, k3);
        let q4 = q3 + k4;
        lemma_cat(s, i, p3, x4, q3, k4);
        let q5 = q4 + k5;
        lemma_cat(s, i, p4, x5, q4, k5);
        assert(tm_toks(t, prec) =~= q5);
    }
}

#[verifier::spinoff_prover]
#[verifier::rlimit(100)]
proof fn lemma_lex_quote(s: Seq<u8>, i: nat, t: STm, prec: nat)
    requires
        printable(t),
        at(s, i, tm_text(t, prec)),
        word_ends(s, i + tm_text(t, prec).len()),
        t is Quote,
    ensures
        lexes(s, i, tm_text(t, prec), tm_toks(t, prec)),
    decreases t, prec, 0nat,
{
    lemma_literals();
    if let STm::Quote(e) = t {
        let x0 = "<"@;
        let k0 = seq![STok::Lt];
        let x1 = tm_text(*e, 0);
        let k1 = tm_toks(*e, 0);
        let x2 = ">"@;
        let k2 = seq![STok::Gt];
        let p0 = x0;
        let p1 = p0 + x1;
        let p2 = p1 + x2;
        assert(tm_text(t, prec) =~= p2);
        lemma_split(s, i, p1, x2);
        lemma_split(s, i, p0, x1);
        lemma_follow(s, i + p1.len(), x2);
        lemma_lex_one(s, i, '<', STok::Lt);
        lemma_lex_tm(s, i + p0.len(), *e, 0);
        lemma_lex_one(s, i + p1.len(), '>', STok::Gt);
        let q0 = k0;
        let q1 = q0 + k1;
        lemma_cat(s, i, p0, x1, q0, k1);
        let q2 = q1 + k2;
        lemma_cat(s, i, p1, x2, q1, k2);
        assert(tm_toks(t, prec) =~= q2);
    }
}

#[verifier::spinoff_prover]
#[verifier::rlimit(100)]
proof fn lemma_lex_splice(s: Seq<u8>, i: nat, t: STm, prec: nat)
    requires
        printable(t),
        at(s, i, tm_text(t, prec)),
        word_ends(s, i + tm_text(t, prec).len()),
        t is Splice,
    ensures
        lexes(s, i, tm_text(t, prec), tm_toks(t, prec)),
    decreases t, prec, 0nat,
{
    lemma_literals();
    if let STm::Splice(e) = t {
        let x0 = "~"@;
        let k0 = seq![STok::Tilde];
        let x1 = tm_text(*e, 50);
        let k1 = tm_toks(*e, 50);
        let p0 = x0;
        let p1 = p0 + x1;
        assert(tm_text(t, prec) =~= p1);
        lemma_split(s, i, p0, x1);
        lemma_lex_one(s, i, '~', STok::Tilde);
        lemma_lex_tm(s, i + p0.len(), *e, 50);
        let q0 = k0;
        let q1 = q0 + k1;
        lemma_cat(s, i, p0, x1, q0, k1);
        assert(tm_toks(t, prec) =~= q1);
    }
}

#[verifier::spinoff_prover]
#[verifier::rlimit(100)]
proof fn lemma_lex_ann(s: Seq<u8>, i: nat, t: STm, prec: nat)
    requires
        printable(t),
        at(s, i, tm_text(t, prec)),
        word_ends(s, i + tm_text(t, prec).len()),
        t is Ann && !wrapped(t, prec),
    ensures
        lexes(s, i, tm_text(t, prec), tm_toks(t, prec)),
    decreases t, prec, 0nat,
{
    lemma_literals();
    if let STm::Ann(e, ty) = t {
        let x0 = tm_text(*e, 11);
        let k0 = tm_toks(*e, 11);
        let x1 = " : "@;
        let k1 = seq![STok::Colon];
        let x2 = ty_text(ty, 0);
        let k2 = ty_toks(ty, 0);
        let p0 = x0;
        let p1 = p0 + x1;
        let p2 = p1 + x2;
        assert(tm_text(t, prec) =~= p2);
        lemma_split(s, i, p1, x2);
        lemma_split(s, i, p0, x1);
        lemma_follow(s, i + p0.len(), x1);
        lemma_lex_tm(s, i, *e, 11);
        lemma_lex_padded(s, i + p0.len(), seq![':'], STok::Colon);
        lemma_lex_type(s, i + p1.len(), ty);
        let q0 = k0;
        let q1 = q0 + k1;
        lemma_cat(s, i, p0, x1, q0, k1);
        let q2 = q1 + k2;
        lemma_cat(s, i, p1, x2, q1, k2);
        assert(tm_toks(t, prec) =~= q2);
    }
}

#[verifier::spinoff_prover]
#[verifier::rlimit(100)]
proof fn lemma_lex_paren(s: Seq<u8>, i: nat, t: STm, prec: nat)
    requires
        printable(t),
        at(s, i, tm_text(t, prec)),
        word_ends(s, i + tm_text(t, prec).len()),
        wrapped(t, prec),
    ensures
        lexes(s, i, tm_text(t, prec), tm_toks(t, prec)),
    decreases t, prec, 0nat,
{
    lemma_literals();
    {
        let x0 = "("@;
        let k0 = seq![STok::LParen];
        let x1 = tm_text(t, 0);
        let k1 = tm_toks(t, 0);
        let x2 = ")"@;
        let k2 = seq![STok::RParen];
        let p0 = x0;
        let p1 = p0 + x1;
        let p2 = p1 + x2;
        assert(tm_text(t, prec) =~= p2);
        lemma_split(s, i, p1, x2);
        lemma_split(s, i, p0, x1);
        lemma_follow(s, i + p1.len(), x2);
        lemma_lex_one(s, i, '(', STok::LParen);
        lemma_lex_tm(s, i + p0.len(), t, 0);
        lemma_lex_one(s, i + p1.len(), ')', STok::RParen);
        let q0 = k0;
        let q1 = q0 + k1;
        lemma_cat(s, i, p0, x1, q0, k1);
        let q2 = q1 + k2;
        lemma_cat(s, i, p1, x2, q1, k2);
        assert(tm_toks(t, prec) =~= q2);
    }
}

proof fn lemma_char_low(c: char)
    ensures
        '\0' <= c,
{
}

proof fn lemma_cat_ascii(x: Seq<char>, y: Seq<char>)
    requires
        is_ascii_chars(x),
        is_ascii_chars(y),
    ensures
        is_ascii_chars(x + y),
{
    is_ascii_chars_concat(x + y, x, y);
}

proof fn lemma_literals_ascii()
    ensures
        is_ascii_chars("\\"@),
        is_ascii_chars("<"@),
        is_ascii_chars(">"@),
        is_ascii_chars("~"@),
        is_ascii_chars("("@),
        is_ascii_chars(")"@),
        is_ascii_chars(" "@),
        is_ascii_chars(". "@),
        is_ascii_chars(" = "@),
        is_ascii_chars(" : "@),
        is_ascii_chars("let "@),
        is_ascii_chars("if "@),
        is_ascii_chars(" in "@),
        is_ascii_chars(" then "@),
        is_ascii_chars(" else "@),
        is_ascii_chars("+"@),
        is_ascii_chars("-"@),
        is_ascii_chars("*"@),
        is_ascii_chars("=="@),
        is_ascii_chars("true"@),
        is_ascii_chars("false"@),
{
    lemma_literals();
    reveal_strlit("let ");
    reveal_strlit("if ");
    reveal_strlit(" in ");
    reveal_strlit(" then ");
    reveal_strlit(" else ");
}

/// The text of a printable term is ASCII.
proof fn lemma_tm_ascii(t: STm, prec: nat)
    requires
        printable(t),
    ensures
        is_ascii_chars(tm_text(t, prec)),
    decreases t, prec,
{
    lemma_literals_ascii();
    if wrapped(t, prec) {
        lemma_tm_ascii(t, 0);
        lemma_cat_ascii("("@, tm_text(t, 0));
        lemma_cat_ascii("("@ + tm_text(t, 0), ")"@);
        assert(tm_text(t, prec) == "("@ + tm_text(t, 0) + ")"@);
    } else {
        match t {
            STm::Var(n) => {
                assert forall|k: int| 0 <= k < n.len() implies '\0' <= #[trigger] n[k] <= '\u{7f}' by {
                    assert(n[k] <= '\u{7f}');
                    lemma_char_low(n[k]);
                }
            },
            STm::NatLit(k) => {
                lemma_dec_digits(k as nat);
                let d = dec_nat(k as nat);
                assert forall|m: int| 0 <= m < d.len() implies '\0' <= #[trigger] d[m] <= '\u{7f}' by {
                    assert(d[m] <= '\u{7f}');
                    lemma_char_low(d[m]);
                }
            },
            STm::BoolLit(_) => {},
            STm::Lam(n, _, b) => {
                assert forall|k: int| 0 <= k < n.len() implies '\0' <= #[trigger] n[k] <= '\u{7f}' by {
                    assert(n[k] <= '\u{7f}');
                    lemma_char_low(n[k]);
                }
                lemma_tm_ascii(*b, 0);
                lemma_cat_ascii("\\"@, n);
                lemma_cat_ascii("\\"@ + n, ". "@);
                lemma_cat_ascii("\\"@ + n + ". "@, tm_text(*b, 0));
            },
            STm::App(f, a) => {
                lemma_tm_ascii(*f, 40);
                lemma_tm_ascii(*a, 41);
                lemma_cat_ascii(tm_text(*f, 40), " "@);
                lemma_cat_ascii(tm_text(*f, 40) + " "@, tm_text(*a, 41));
            },
            STm::Let(n, _, v, b) => {
                assert forall|k: int| 0 <= k < n.len() implies '\0' <= #[trigger] n[k] <= '\u{7f}' by {
                    assert(n[k] <= '\u{7f}');
                    lemma_char_low(n[k]);
                }
                lemma_tm_ascii(*v, 0);
                lemma_tm_ascii(*b, 0);
                let x = "let "@ + n;
                lemma_cat_ascii("let "@, n);
                lemma_cat_ascii(x, " = "@);
                lemma_cat_ascii(x + " = "@, tm_text(*v, 0));
                lemma_cat_ascii(x + " = "@ + tm_text(*v, 0), " in "@);
                lemma_cat_ascii(x + " = "@ + tm_text(*v, 0) + " in "@, tm_text(*b, 0));
            },
            STm::Bin(op, a, b) => {
                let (pp, lp, rp) = op_prec_spec(op);
                lemma_tm_ascii(*a, lp as nat);
                lemma_tm_ascii(*b, rp as nat);
                let x = tm_text(*a, lp as nat);
                lemma_cat_ascii(x, " "@);
                lemma_cat_ascii(x + " "@, binop_str(op));
                lemma_cat_ascii(x + " "@ + binop_str(op), " "@);
                lemma_cat_ascii(x + " "@ + binop_str(op) + " "@, tm_text(*b, rp as nat));
            },
            STm::If(c, th, el) => {
                lemma_tm_ascii(*c, 0);
                lemma_tm_ascii(*th, 0);
                lemma_tm_ascii(*el, 0);
                let x = "if "@ + tm_text(*c, 0);
                lemma_cat_ascii("if "@, tm_text(*c, 0));
                lemma_cat_ascii(x, " then "@);
                lemma_cat_ascii(x + " then "@, tm_text(*th, 0));
                lemma_cat_ascii(x + " then "@ + tm_text(*th, 0), " else "@);
                lemma_cat_ascii(x + " then "@ + tm_text(*th, 0) + " else "@, tm_text(*el, 0));
            },
            STm::Quote(e) => {
                lemma_tm_ascii(*e, 0);
                lemma_cat_ascii("<"@, tm_text(*e, 0));
                lemma_cat_ascii("<"@ + tm_text(*e, 0), ">"@);
            },
            STm::Splice(e) => {
                lemma_tm_ascii(*e, 50);
                lemma_cat_ascii("~"@, tm_text(*e, 50));
            },
            STm::Ann(e, ty) => {
                lemma_tm_ascii(*e, 11);
                lemma_ty_text_ascii(ty, 0);
                lemma_cat_ascii(tm_text(*e, 11), " : "@);
                lemma_cat_ascii(tm_text(*e, 11) + " : "@, ty_text(ty, 0));
            },
        }
    }
}

/// A printed term reads back as itself, without the annotations of its
/// binders: when every name in it is an identifier that is no keyword and
/// every number is at least 0, the text that [`crate::pretty::tm`] writes
/// for it lexes, and parses as a whole expression, to that term with the
/// annotations of its `\` and `let` binders left out.
pub proof fn law_printed_terms_read_back(s: &str, t: STm)
    requires
        printable(t),
        s@ == tm_text(t, 0),
    ensures
        expr_spec(s.spec_bytes()) == Ok::<_, SErr>(erase(t)),
{
    lemma_tm_ascii(t, 0);
    is_ascii_spec_bytes(s);
    let b = s.spec_bytes();
    let txt = tm_text(t, 0);
    assert(b =~= ascii_bytes(txt));
    assert(b.subrange(0, txt.len() as int) =~= b);
    lemma_lex_tm(b, 0, t, 0);
    assert(lex_from(b, b.len()) == Ok::<_, SErr>(Seq::<(STok, usize, usize)>::empty()));
    assert(lexed_toks(Seq::<(STok, usize, usize)>::empty()) =~= Seq::<STok>::empty());
    let ts = tm_toks(t, 0);
    assert(ts + Seq::<STok>::empty() =~= ts);
    assert(lex_kinds(b, 0) == Ok::<_, SErr>(ts));
    law_printed_term_tokens_parse_back(t);
}

} // verus!
