use vstd::prelude::*;

use crate::syntax::{binop_str, BinOp, STm, Tm, Ty};
use crate::text::{dec_int, push_i64, push_str, push_string};

verus! {

/// `s` in parentheses when `w` holds, else `s` itself.
pub open spec fn paren(w: bool, s: Seq<char>) -> Seq<char> {
    if w {
        "("@ + s + ")"@
    } else {
        s
    }
}

/// How a type is written in a context of precedence `prec`: arrows associate
/// to the right, and `Code` binds tighter than arrows.
pub open spec fn ty_text(t: Ty, prec: nat) -> Seq<char>
    decreases t,
{
    match t {
        Ty::Nat => "Nat"@,
        Ty::Bool => "Bool"@,
        Ty::Code(inner) => paren(prec > 10, "Code "@ + ty_text(*inner, 11)),
        Ty::Arr(a, b) => paren(prec > 0, ty_text(*a, 1) + " -> "@ + ty_text(*b, 0)),
    }
}

/// How a type is written on its own.
pub fn ty(t: &Ty) -> (s: String)
    ensures
        s@ == ty_text(*t, 0),
{
    let mut s = String::new();
    fmt_ty(t, 0, &mut s);
    assert(s@ =~= ty_text(*t, 0));
    s
}

/// How a term is written on its own.
pub fn tm(t: &Tm) -> (s: String)
    ensures
        s@ == tm_text(t@, 0),
{
    let mut s = String::new();
    fmt_tm(t, 0, &mut s);
    assert(s@ =~= tm_text(t@, 0));
    s
}

/// Appends `(` to `out` when `w` holds.
fn open_paren(w: bool, out: &mut String)
    ensures
        final(out)@ == old(out)@ + (if w { "("@ } else { Seq::empty() }),
{
    if w {
        push_str(out, "(");
    } else {
        assert(old(out)@ + Seq::<char>::empty() =~= old(out)@);
    }
}

/// Appends `)` to `out` when `w` holds.
fn close_paren(w: bool, out: &mut String)
    ensures
        final(out)@ == old(out)@ + (if w { ")"@ } else { Seq::empty() }),
{
    if w {
        push_str(out, ")");
    } else {
        assert(old(out)@ + Seq::<char>::empty() =~= old(out)@);
    }
}

/// A lemma: wrapping by pieces is wrapping the whole.
proof fn lemma_paren(w: bool, pre: Seq<char>, s: Seq<char>)
    ensures
        pre + (if w { "("@ } else { Seq::empty() }) + s + (if w { ")"@ } else { Seq::empty() })
            =~= pre + paren(w, s),
{
}

/// Appends the text of a type at precedence `prec` to `out`.
fn fmt_ty(t: &Ty, prec: u8, out: &mut String)
    ensures
        final(out)@ == old(out)@ + ty_text(*t, prec as nat),
    decreases t,
{
    match t {
        Ty::Nat => push_str(out, "Nat"),
        Ty::Bool => push_str(out, "Bool"),
        Ty::Code(inner) => {
            let wrap = prec > 10;
            let ghost o0 = out@;
            open_paren(wrap, out);
            let ghost o1 = out@;
            push_str(out, "Code ");
            fmt_ty(inner, 11, out);
            let ghost o2 = out@;
            close_paren(wrap, out);
            proof {
                let body = "Code "@ + ty_text(inner@, 11);
                assert(o2 =~= o1 + body);
                lemma_paren(wrap, o0, body);
            }
        },
        Ty::Arr(a, b) => {
            let wrap = prec > 0;
            let ghost o0 = out@;
            open_paren(wrap, out);
            let ghost o1 = out@;
            fmt_ty(a, 1, out);
            push_str(out, " -> ");
            fmt_ty(b, 0, out);
            let ghost o2 = out@;
            close_paren(wrap, out);
            proof {
                let body = ty_text(a@, 1) + " -> "@ + ty_text(b@, 0);
                assert(o2 =~= o1 + body);
                lemma_paren(wrap, o0, body);
            }
        },
    }
}

/// Precedence levels of terms.
pub const P_BOT: u8 = 0;

pub const P_EQ: u8 = 10;

pub const P_ADD: u8 = 20;

pub const P_MUL: u8 = 30;

pub const P_APP: u8 = 40;

pub const P_PRE: u8 = 50;

/// The precedence of an operator, and those of its left and right operands:
/// `==` does not associate, `+`, `-` and `*` associate to the left.
pub open spec fn op_prec_spec(op: BinOp) -> (u8, u8, u8) {
    match op {
        BinOp::Eq => (10, 11, 11),
        BinOp::Add => (20, 20, 21),
        BinOp::Sub => (20, 20, 21),
        BinOp::Mul => (30, 30, 31),
    }
}

fn op_prec(op: BinOp) -> (r: (u8, u8, u8))
    ensures
        r == op_prec_spec(op),
{
    match op {
        BinOp::Eq => (P_EQ, P_EQ + 1, P_EQ + 1),
        BinOp::Add | BinOp::Sub => (P_ADD, P_ADD, P_ADD + 1),
        BinOp::Mul => (P_MUL, P_MUL, P_MUL + 1),
    }
}

/// How a term is written in a context of precedence `prec`.  Annotations of
/// binders are not written.
pub open spec fn tm_text(t: STm, prec: nat) -> Seq<char>
    decreases t,
{
    match t {
        STm::Var(n) => n,
        STm::NatLit(i) => dec_int(i as int),
        STm::BoolLit(b) => if b {
            "true"@
        } else {
            "false"@
        },
        STm::Lam(n, _, b) => paren(prec > 0, "\\"@ + n + ". "@ + tm_text(*b, 0)),
        STm::App(f, a) => paren(prec > 40, tm_text(*f, 40) + " "@ + tm_text(*a, 41)),
        STm::Let(n, _, v, b) => paren(
            prec > 0,
            "let "@ + n + " = "@ + tm_text(*v, 0) + " in "@ + tm_text(*b, 0),
        ),
        STm::Bin(op, a, b) => {
            let (p, lp, rp) = op_prec_spec(op);
            paren(
                prec > p,
                tm_text(*a, lp as nat) + " "@ + binop_str(op) + " "@ + tm_text(*b, rp as nat),
            )
        },
        STm::If(c, th, el) => paren(
            prec > 0,
            "if "@ + tm_text(*c, 0) + " then "@ + tm_text(*th, 0) + " else "@ + tm_text(*el, 0),
        ),
        STm::Quote(e) => "<"@ + tm_text(*e, 0) + ">"@,
        STm::Splice(e) => "~"@ + tm_text(*e, 50),
        STm::Ann(e, ty) => paren(prec > 0, tm_text(*e, 11) + " : "@ + ty_text(ty, 0)),
    }
}

/// Appends the text of a term at precedence `prec` to `out`.
#[verifier::spinoff_prover]
#[verifier::rlimit(40)]
fn fmt_tm(t: &Tm, prec: u8, out: &mut String)
    ensures
        final(out)@ == old(out)@ + tm_text(t@, prec as nat),
    decreases t,
{
    let ghost o0 = out@;
    match t {
        Tm::Var(n) => push_string(out, n),
        Tm::NatLit(n) => push_i64(out, *n),
        Tm::BoolLit(b) => {
            if *b {
                push_str(out, "true");
            } else {
                push_str(out, "false");
            }
        },
        Tm::Lam(n, _, b) => {
            let wrap = prec > P_BOT;
            open_paren(wrap, out);
            let ghost o1 = out@;
            push_str(out, "\\");
            push_string(out, n);
            push_str(out, ". ");
            fmt_tm(b, P_BOT, out);
            let ghost o2 = out@;
            close_paren(wrap, out);
            proof {
                let body = "\\"@ + n@ + ". "@ + tm_text(b@, 0);
                assert(o2 =~= o1 + body);
                lemma_paren(wrap, o0, body);
            }
        },
        Tm::App(f, a) => {
            let wrap = prec > P_APP;
            open_paren(wrap, out);
            let ghost o1 = out@;
            fmt_tm(f, P_APP, out);
            push_str(out, " ");
            fmt_tm(a, P_APP + 1, out);
            let ghost o2 = out@;
            close_paren(wrap, out);
            proof {
                let body = tm_text(f@, 40) + " "@ + tm_text(a@, 41);
                assert(o2 =~= o1 + body);
                lemma_paren(wrap, o0, body);
            }
        },
        Tm::Let(n, _, v, b) => {
            let wrap = prec > P_BOT;
            open_paren(wrap, out);
            let ghost o1 = out@;
            push_str(out, "let ");
            push_string(out, n);
            push_str(out, " = ");
            fmt_tm(v, P_BOT, out);
            push_str(out, " in ");
            fmt_tm(b, P_BOT, out);
            let ghost o2 = out@;
            close_paren(wrap, out);
            proof {
                let body = "let "@ + n@ + " = "@ + tm_text(v@, 0) + " in "@ + tm_text(b@, 0);
                assert(o2 =~= o1 + body);
                lemma_paren(wrap, o0, body);
            }
        },
        Tm::Bin(op, a, b) => {
            let (p, lp, rp) = op_prec(*op);
            let wrap = prec > p;
            open_paren(wrap, out);
            let ghost o1 = out@;
            fmt_tm(a, lp, out);
            push_str(out, " ");
            push_str(out, op.as_str());
            push_str(out, " ");
            fmt_tm(b, rp, out);
            let ghost o2 = out@;
            close_paren(wrap, out);
            proof {
                let body = tm_text(a@, lp as nat) + " "@ + binop_str(*op) + " "@ + tm_text(
                    b@,
                    rp as nat,
                );
                assert(o2 =~= o1 + body);
                lemma_paren(wrap, o0, body);
            }
        },
        Tm::If(c, th, el) => {
            let wrap = prec > P_BOT;
            open_paren(wrap, out);
            let ghost o1 = out@;
            push_str(out, "if ");
            fmt_tm(c, P_BOT, out);
            push_str(out, " then ");
            fmt_tm(th, P_BOT, out);
            push_str(out, " else ");
            fmt_tm(el, P_BOT, out);
            let ghost o2 = out@;
            close_paren(wrap, out);
            proof {
                let body = "if "@ + tm_text(c@, 0) + " then "@ + tm_text(th@, 0) + " else "@
                    + tm_text(el@, 0);
                assert(o2 =~= o1 + body);
                lemma_paren(wrap, o0, body);
            }
        },
        Tm::Quote(e) => {
            push_str(out, "<");
            fmt_tm(e, P_BOT, out);
            push_str(out, ">");
        },
        Tm::Splice(e) => {
            push_str(out, "~");
            fmt_tm(e, P_PRE, out);
        },
        Tm::Ann(e, ty) => {
            let wrap = prec > P_BOT;
            open_paren(wrap, out);
            let ghost o1 = out@;
            fmt_tm(e, P_EQ + 1, out);
            push_str(out, " : ");
            fmt_ty(ty, 0, out);
            let ghost o2 = out@;
            close_paren(wrap, out);
            proof {
                let body = tm_text(e@, 11) + " : "@ + ty_text(ty@, 0);
                assert(o2 =~= o1 + body);
                lemma_paren(wrap, o0, body);
            }
        },
    }
    assert(final(out)@ =~= o0 + tm_text(t@, prec as nat));
}

} // verus!
