use std::rc::Rc;
use vstd::prelude::*;
use vstd::string::*;

use crate::errors::{parse_error, rview, Error, SErr};
use crate::lexer::{
    copy_token, kind, lex, lex_from, opt_tok_debug, push_opt_tok_debug, push_tok_debug, same_kind,
    tok_debug, toks_view, STok, Spanned, Token,
};
use crate::syntax::{ann_view, copy_ann, BinOp, Decl, SDecl, STm, Tm, Ty};
use crate::text::push_str;

verus! {

// ---------------------------------------------------------------------------
// The grammar, on the models of the tokens.  Each rule reads from a position
// and gives what it read with the position after it, or the first error.
//
// The grammar is read by recursive descent; each rule that reads again from a
// later position checks first that the position has moved on (`fwd`), which
// every rule guarantees, so that the recursion visibly ends.

/// The result of a rule: what was read and where reading stopped.
pub type PRes<T> = Result<(T, nat), SErr>;

/// The token at position `p`, if any.
pub open spec fn speek(ts: Seq<STok>, p: nat) -> Option<STok> {
    if p < ts.len() {
        Some(ts[p as int])
    } else {
        None
    }
}

/// Position `q` is after `p` and within the tokens.
pub open spec fn fwd(ts: Seq<STok>, p: nat, q: nat) -> bool {
    p < q <= ts.len()
}

/// The outcome of a rule whose sub-rule did not move on; no rule gets here.
pub open spec fn stuck<T>() -> PRes<T> {
    Err(SErr::Parse(Seq::empty()))
}

pub open spec fn expected_msg(t: STok, got: Option<STok>) -> Seq<char> {
    "expected "@ + tok_debug(t) + ", got "@ + opt_tok_debug(got)
}

/// The token at `p` is of the kind of `t`: the same token, payloads aside.
pub open spec fn next_of_kind(ts: Seq<STok>, p: nat, t: STok) -> bool {
    speek(ts, p) matches Some(k) && kind(k) == kind(t)
}

/// Reads the token `t` (one without payload).
pub open spec fn g_expect(ts: Seq<STok>, p: nat, t: STok) -> PRes<()> {
    if speek(ts, p) == Some(t) {
        Ok(((), p + 1))
    } else {
        Err(SErr::Parse(expected_msg(t, speek(ts, p))))
    }
}

/// Reads the token `t` if it is next.
pub open spec fn g_eat(ts: Seq<STok>, p: nat, t: STok) -> (bool, nat) {
    if speek(ts, p) == Some(t) {
        (true, p + 1)
    } else {
        (false, p)
    }
}

/// Reads an identifier.
pub open spec fn g_ident(ts: Seq<STok>, p: nat) -> PRes<Seq<char>> {
    match speek(ts, p) {
        Some(STok::Ident(s)) => Ok((s, p + 1)),
        o => Err(SErr::Parse("expected identifier, got "@ + opt_tok_debug(o))),
    }
}

/// `ty ::= ty_atom ("->" ty)?`: arrows associate to the right.
pub open spec fn g_ty(ts: Seq<STok>, p: nat) -> PRes<Ty>
    decreases ts.len() - p, 1nat,
{
    match g_ty_atom(ts, p) {
        Err(e) => Err(e),
        Ok((a, p1)) => if speek(ts, p1) == Some(STok::Arrow) {
            if fwd(ts, p, p1 + 1) {
                match g_ty(ts, p1 + 1) {
                    Err(e) => Err(e),
                    Ok((b, p2)) => Ok((Ty::Arr(Rc::new(a), Rc::new(b)), p2)),
                }
            } else {
                stuck()
            }
        } else {
            Ok((a, p1))
        },
    }
}

/// `ty_atom ::= "Nat" | "Bool" | "Code" ty_atom | "(" ty ")"`
pub open spec fn g_ty_atom(ts: Seq<STok>, p: nat) -> PRes<Ty>
    decreases ts.len() - p, 0nat,
{
    match speek(ts, p) {
        Some(STok::NatTy) => Ok((Ty::Nat, p + 1)),
        Some(STok::BoolTy) => Ok((Ty::Bool, p + 1)),
        Some(STok::Code) => match g_ty_atom(ts, p + 1) {
            Err(e) => Err(e),
            Ok((i, p1)) => Ok((Ty::Code(Rc::new(i)), p1)),
        },
        Some(STok::LParen) => match g_ty(ts, p + 1) {
            Err(e) => Err(e),
            Ok((t, p1)) => match g_expect(ts, p1, STok::RParen) {
                Err(e) => Err(e),
                Ok((_, p2)) => Ok((t, p2)),
            },
        },
        o => Err(SErr::Parse("expected type, got "@ + opt_tok_debug(o))),
    }
}

/// An optional annotation `(":" ty)?`.
pub open spec fn g_opt_ann(ts: Seq<STok>, p: nat) -> PRes<Option<Ty>> {
    if speek(ts, p) == Some(STok::Colon) {
        match g_ty(ts, p + 1) {
            Err(e) => Err(e),
            Ok((t, p1)) => Ok((Some(t), p1)),
        }
    } else {
        Ok((None, p))
    }
}

/// Lambdas over the parameters `ps`, the first outermost, around `body`.
pub open spec fn wrap_lams(ps: Seq<(Seq<char>, Option<Ty>)>, body: STm) -> STm
    decreases ps.len(),
{
    if ps.len() == 0 {
        body
    } else {
        STm::Lam(ps[0].0, ps[0].1, Box::new(wrap_lams(ps.drop_first(), body)))
    }
}

/// `expr ::= expr_let`
pub open spec fn g_expr(ts: Seq<STok>, p: nat) -> PRes<STm>
    decreases ts.len() - p, 13nat,
{
    g_expr_let(ts, p)
}

/// `let x (: ty)? = expr in expr`, `if expr then expr else expr`,
/// `(\ | fn) params (. | =>) expr`, or an annotated expression.
pub open spec fn g_expr_let(ts: Seq<STok>, p: nat) -> PRes<STm>
    decreases ts.len() - p, 12nat,
{
    match speek(ts, p) {
        Some(STok::Let) => match g_ident(ts, p + 1) {
            Err(e) => Err(e),
            Ok((n, p1)) => match g_opt_ann(ts, p1) {
                Err(e) => Err(e),
                Ok((ann, p2)) => match g_expect(ts, p2, STok::Eq) {
                    Err(e) => Err(e),
                    Ok((_, p3)) => if fwd(ts, p, p3) {
                        match g_expr(ts, p3) {
                            Err(e) => Err(e),
                            Ok((v, p4)) => match g_expect(ts, p4, STok::In) {
                                Err(e) => Err(e),
                                Ok((_, p5)) => if fwd(ts, p, p5) {
                                    match g_expr(ts, p5) {
                                        Err(e) => Err(e),
                                        Ok((b, p6)) => Ok(
                                            (STm::Let(n, ann, Box::new(v), Box::new(b)), p6),
                                        ),
                                    }
                                } else {
                                    stuck()
                                },
                            },
                        }
                    } else {
                        stuck()
                    },
                },
            },
        },
        Some(STok::If) => match g_expr(ts, p + 1) {
            Err(e) => Err(e),
            Ok((c, p1)) => match g_expect(ts, p1, STok::Then) {
                Err(e) => Err(e),
                Ok((_, p2)) => if fwd(ts, p, p2) {
                    match g_expr(ts, p2) {
                        Err(e) => Err(e),
                        Ok((t, p3)) => match g_expect(ts, p3, STok::Else) {
                            Err(e) => Err(e),
                            Ok((_, p4)) => if fwd(ts, p, p4) {
                                match g_expr(ts, p4) {
                                    Err(e) => Err(e),
                                    Ok((el, p5)) => Ok(
                                        (STm::If(Box::new(c), Box::new(t), Box::new(el)), p5),
                                    ),
                                }
                            } else {
                                stuck()
                            },
                        },
                    }
                } else {
                    stuck()
                },
            },
        },
        Some(STok::Lambda) => g_lambda(ts, p),
        Some(STok::Fn) => g_lambda(ts, p),
        _ => g_expr_ann(ts, p),
    }
}

/// A lambda, from its `\` or `fn` at `p`: its parameters, then `.` or `=>`,
/// then the body.
pub open spec fn g_lambda(ts: Seq<STok>, p: nat) -> PRes<STm>
    decreases ts.len() - p, 11nat,
{
    if p < ts.len() {
        match g_params(ts, p + 1) {
            Err(e) => Err(e),
            Ok((ps, p1)) => {
                let (dot, p2) = g_eat(ts, p1, STok::Dot);
                let sep = if dot {
                    Ok(((), p2))
                } else {
                    g_expect(ts, p1, STok::FatArrow)
                };
                match sep {
                    Err(e) => Err(e),
                    Ok((_, p3)) => if fwd(ts, p, p3) {
                        match g_expr(ts, p3) {
                            Err(e) => Err(e),
                            Ok((b, p4)) => Ok((wrap_lams(ps, b), p4)),
                        }
                    } else {
                        stuck()
                    },
                }
            },
        }
    } else {
        stuck()
    }
}

/// The parameters of a lambda, up to `.` or `=>`: each an identifier with an
/// optional annotation, possibly in parentheses.
pub open spec fn g_params(ts: Seq<STok>, p: nat) -> PRes<Seq<(Seq<char>, Option<Ty>)>>
    decreases ts.len() - p, 0nat,
{
    if speek(ts, p) == Some(STok::Dot) || speek(ts, p) == Some(STok::FatArrow) {
        Ok((Seq::empty(), p))
    } else {
        let (paren, p1) = g_eat(ts, p, STok::LParen);
        match g_ident(ts, p1) {
            Err(e) => Err(e),
            Ok((n, p2)) => match g_opt_ann(ts, p2) {
                Err(e) => Err(e),
                Ok((ann, p3)) => {
                    let close = if paren {
                        g_expect(ts, p3, STok::RParen)
                    } else {
                        Ok(((), p3))
                    };
                    match close {
                        Err(e) => Err(e),
                        Ok((_, p4)) => if fwd(ts, p, p4) {
                            match g_params(ts, p4) {
                                Err(e) => Err(e),
                                Ok((rest, p5)) => Ok((seq![(n, ann)] + rest, p5)),
                            }
                        } else {
                            stuck()
                        },
                    }
                },
            },
        }
    }
}

/// `expr_cmp (":" ty)?`
pub open spec fn g_expr_ann(ts: Seq<STok>, p: nat) -> PRes<STm>
    decreases ts.len() - p, 11nat,
{
    match g_expr_cmp(ts, p) {
        Err(e) => Err(e),
        Ok((e, p1)) => if speek(ts, p1) == Some(STok::Colon) {
            match g_ty(ts, p1 + 1) {
                Err(err) => Err(err),
                Ok((t, p2)) => Ok((STm::Ann(Box::new(e), t), p2)),
            }
        } else {
            Ok((e, p1))
        },
    }
}

/// `expr_add ("==" expr_add)*`, grouped to the left.
pub open spec fn g_expr_cmp(ts: Seq<STok>, p: nat) -> PRes<STm>
    decreases ts.len() - p, 10nat,
{
    match g_expr_add(ts, p) {
        Err(e) => Err(e),
        Ok((lhs, p1)) => if p <= p1 <= ts.len() {
            g_cmp_rest(ts, p1, lhs)
        } else {
            stuck()
        },
    }
}

pub open spec fn g_cmp_rest(ts: Seq<STok>, p: nat, lhs: STm) -> PRes<STm>
    decreases ts.len() - p, 9nat,
{
    if speek(ts, p) == Some(STok::EqEq) {
        match g_expr_add(ts, p + 1) {
            Err(e) => Err(e),
            Ok((rhs, p1)) => if fwd(ts, p, p1) {
                g_cmp_rest(ts, p1, STm::Bin(BinOp::Eq, Box::new(lhs), Box::new(rhs)))
            } else {
                stuck()
            },
        }
    } else {
        Ok((lhs, p))
    }
}

/// `expr_mul (("+" | "-") expr_mul)*`, grouped to the left.
pub open spec fn g_expr_add(ts: Seq<STok>, p: nat) -> PRes<STm>
    decreases ts.len() - p, 8nat,
{
    match g_expr_mul(ts, p) {
        Err(e) => Err(e),
        Ok((lhs, p1)) => if p <= p1 <= ts.len() {
            g_add_rest(ts, p1, lhs)
        } else {
            stuck()
        },
    }
}

/// The additive operator a token stands for.
pub open spec fn add_op(t: Option<STok>) -> Option<BinOp> {
    match t {
        Some(STok::Plus) => Some(BinOp::Add),
        Some(STok::Minus) => Some(BinOp::Sub),
        _ => None,
    }
}

pub open spec fn g_add_rest(ts: Seq<STok>, p: nat, lhs: STm) -> PRes<STm>
    decreases ts.len() - p, 7nat,
{
    match add_op(speek(ts, p)) {
        Some(op) => match g_expr_mul(ts, p + 1) {
            Err(e) => Err(e),
            Ok((rhs, p1)) => if fwd(ts, p, p1) {
                g_add_rest(ts, p1, STm::Bin(op, Box::new(lhs), Box::new(rhs)))
            } else {
                stuck()
            },
        },
        None => Ok((lhs, p)),
    }
}

/// `expr_app ("*" expr_app)*`, grouped to the left.
pub open spec fn g_expr_mul(ts: Seq<STok>, p: nat) -> PRes<STm>
    decreases ts.len() - p, 6nat,
{
    match g_expr_app(ts, p) {
        Err(e) => Err(e),
        Ok((lhs, p1)) => if p <= p1 <= ts.len() {
            g_mul_rest(ts, p1, lhs)
        } else {
            stuck()
        },
    }
}

pub open spec fn g_mul_rest(ts: Seq<STok>, p: nat, lhs: STm) -> PRes<STm>
    decreases ts.len() - p, 5nat,
{
    if speek(ts, p) == Some(STok::Star) {
        match g_expr_app(ts, p + 1) {
            Err(e) => Err(e),
            Ok((rhs, p1)) => if fwd(ts, p, p1) {
                g_mul_rest(ts, p1, STm::Bin(BinOp::Mul, Box::new(lhs), Box::new(rhs)))
            } else {
                stuck()
            },
        }
    } else {
        Ok((lhs, p))
    }
}

/// Whether a token can start an argument of an application.
pub open spec fn atom_start(t: Option<STok>) -> bool {
    match t {
        Some(STok::Ident(_)) => true,
        Some(STok::Num(_)) => true,
        Some(STok::True) => true,
        Some(STok::False) => true,
        Some(STok::LParen) => true,
        Some(STok::Tilde) => true,
        Some(STok::Lt) => true,
        _ => false,
    }
}

/// `expr_pre expr_pre*`: application, grouped to the left.
pub open spec fn g_expr_app(ts: Seq<STok>, p: nat) -> PRes<STm>
    decreases ts.len() - p, 4nat,
{
    match g_expr_pre(ts, p) {
        Err(e) => Err(e),
        Ok((head, p1)) => if p <= p1 <= ts.len() {
            g_app_rest(ts, p1, head)
        } else {
            stuck()
        },
    }
}

pub open spec fn g_app_rest(ts: Seq<STok>, p: nat, head: STm) -> PRes<STm>
    decreases ts.len() - p, 3nat,
{
    if atom_start(speek(ts, p)) {
        match g_expr_pre(ts, p) {
            Err(e) => Err(e),
            Ok((arg, p1)) => if fwd(ts, p, p1) {
                g_app_rest(ts, p1, STm::App(Box::new(head), Box::new(arg)))
            } else {
                stuck()
            },
        }
    } else {
        Ok((head, p))
    }
}

/// `"~" expr_pre | "<" expr ">" | expr_atom`
pub open spec fn g_expr_pre(ts: Seq<STok>, p: nat) -> PRes<STm>
    decreases ts.len() - p, 2nat,
{
    match speek(ts, p) {
        Some(STok::Tilde) => match g_expr_pre(ts, p + 1) {
            Err(e) => Err(e),
            Ok((e, p1)) => Ok((STm::Splice(Box::new(e)), p1)),
        },
        Some(STok::Lt) => match g_expr(ts, p + 1) {
            Err(e) => Err(e),
            Ok((e, p1)) => match g_expect(ts, p1, STok::Gt) {
                Err(err) => Err(err),
                Ok((_, p2)) => Ok((STm::Quote(Box::new(e)), p2)),
            },
        },
        _ => g_expr_atom(ts, p),
    }
}

/// A number, `true`, `false`, a variable, or an expression in parentheses.
pub open spec fn g_expr_atom(ts: Seq<STok>, p: nat) -> PRes<STm>
    decreases ts.len() - p, 1nat,
{
    match speek(ts, p) {
        Some(STok::Num(n)) => Ok((STm::NatLit(n), p + 1)),
        Some(STok::True) => Ok((STm::BoolLit(true), p + 1)),
        Some(STok::False) => Ok((STm::BoolLit(false), p + 1)),
        Some(STok::Ident(s)) => Ok((STm::Var(s), p + 1)),
        Some(STok::LParen) => match g_expr(ts, p + 1) {
            Err(e) => Err(e),
            Ok((e, p1)) => match g_expect(ts, p1, STok::RParen) {
                Err(err) => Err(err),
                Ok((_, p2)) => Ok((e, p2)),
            },
        },
        o => Err(SErr::Parse("expected atom, got "@ + opt_tok_debug(o))),
    }
}

/// `"let" x ":" ty "=" expr ";"` or `"eval" expr ";"`
pub open spec fn g_decl(ts: Seq<STok>, p: nat) -> PRes<SDecl> {
    match speek(ts, p) {
        Some(STok::Let) => match g_ident(ts, p + 1) {
            Err(e) => Err(e),
            Ok((n, p1)) => match g_expect(ts, p1, STok::Colon) {
                Err(e) => Err(e),
                Ok((_, p2)) => match g_ty(ts, p2) {
                    Err(e) => Err(e),
                    Ok((ty, p3)) => match g_expect(ts, p3, STok::Eq) {
                        Err(e) => Err(e),
                        Ok((_, p4)) => match g_expr(ts, p4) {
                            Err(e) => Err(e),
                            Ok((body, p5)) => match g_expect(ts, p5, STok::Semi) {
                                Err(e) => Err(e),
                                Ok((_, p6)) => Ok((SDecl::Let(n, ty, body), p6)),
                            },
                        },
                    },
                },
            },
        },
        Some(STok::Eval) => match g_expr(ts, p + 1) {
            Err(e) => Err(e),
            Ok((body, p1)) => match g_expect(ts, p1, STok::Semi) {
                Err(e) => Err(e),
                Ok((_, p2)) => Ok((SDecl::Eval(body), p2)),
            },
        },
        o => Err(SErr::Parse("expected `let` or `eval`, got "@ + opt_tok_debug(o))),
    }
}

/// Declarations up to the end of the tokens.
pub open spec fn g_decls(ts: Seq<STok>, p: nat) -> PRes<Seq<SDecl>>
    decreases ts.len() - p,
{
    if p >= ts.len() {
        Ok((Seq::empty(), p))
    } else {
        match g_decl(ts, p) {
            Err(e) => Err(e),
            Ok((d, p1)) => if fwd(ts, p, p1) {
                match g_decls(ts, p1) {
                    Err(e) => Err(e),
                    Ok((rest, p2)) => Ok((seq![d] + rest, p2)),
                }
            } else {
                stuck()
            },
        }
    }
}

/// The kinds of the tokens, without their ranges.
pub open spec fn lexed_toks(v: Seq<(STok, usize, usize)>) -> Seq<STok> {
    v.map_values(|x: (STok, usize, usize)| x.0)
}

/// The declarations of a program, given the bytes of its source.
pub open spec fn program_spec(src: Seq<u8>) -> Result<Seq<SDecl>, SErr> {
    match lex_from(src, 0) {
        Err(e) => Err(e),
        Ok(toks) => match g_decls(lexed_toks(toks), 0) {
            Err(e) => Err(e),
            Ok((ds, _)) => Ok(ds),
        },
    }
}

pub open spec fn trailing_msg(t: Option<STok>) -> Seq<char> {
    "trailing tokens after expression: "@ + opt_tok_debug(t)
}

/// The expression that makes up a whole source text.
pub open spec fn expr_spec(src: Seq<u8>) -> Result<STm, SErr> {
    match lex_from(src, 0) {
        Err(e) => Err(e),
        Ok(toks) => {
            let ts = lexed_toks(toks);
            match g_expr(ts, 0) {
                Err(e) => Err(e),
                Ok((e, p)) => if p < ts.len() {
                    Err(SErr::Parse(trailing_msg(speek(ts, p))))
                } else {
                    Ok(e)
                },
            }
        },
    }
}

// Every rule moves forward: a type or an expression is at least one token,
// and the loops of operators and parameters never move back.  So the checks
// `fwd` in the grammar always pass, and `stuck` is never the outcome.

proof fn lemma_opt_ann_moves(ts: Seq<STok>, p: nat)
    requires
        p <= ts.len(),
    ensures
        g_opt_ann(ts, p) matches Ok((_, q)) ==> p <= q <= ts.len(),
{
    if speek(ts, p) == Some(STok::Colon) {
        lemma_ty_moves(ts, p + 1);
    }
}

proof fn lemma_ty_moves(ts: Seq<STok>, p: nat)
    ensures
        g_ty(ts, p) matches Ok((_, q)) ==> p < q <= ts.len(),
    decreases ts.len() - p, 1nat,
{
    lemma_ty_atom_moves(ts, p);
    if let Ok((a, p1)) = g_ty_atom(ts, p) {
        if speek(ts, p1) == Some(STok::Arrow) && fwd(ts, p, p1 + 1) {
            lemma_ty_moves(ts, p1 + 1);
        }
    }
}

proof fn lemma_ty_atom_moves(ts: Seq<STok>, p: nat)
    ensures
        g_ty_atom(ts, p) matches Ok((_, q)) ==> p < q <= ts.len(),
    decreases ts.len() - p, 0nat,
{
    match speek(ts, p) {
        Some(STok::Code) => lemma_ty_atom_moves(ts, p + 1),
        Some(STok::LParen) => lemma_ty_moves(ts, p + 1),
        _ => {},
    }
}

proof fn lemma_expr_moves(ts: Seq<STok>, p: nat)
    ensures
        g_expr(ts, p) matches Ok((_, q)) ==> p < q <= ts.len(),
    decreases ts.len() - p, 13nat,
{
    lemma_expr_let_moves(ts, p);
}

proof fn lemma_expr_let_moves(ts: Seq<STok>, p: nat)
    ensures
        g_expr_let(ts, p) matches Ok((_, q)) ==> p < q <= ts.len(),
    decreases ts.len() - p, 12nat,
{
    match speek(ts, p) {
        Some(STok::Let) => {
            if let Ok((n, p1)) = g_ident(ts, p + 1) {
                lemma_opt_ann_moves(ts, p1);
                if let Ok((ann, p2)) = g_opt_ann(ts, p1) {
                    if let Ok((_, p3)) = g_expect(ts, p2, STok::Eq) {
                        if fwd(ts, p, p3) {
                            lemma_expr_moves(ts, p3);
                            if let Ok((v, p4)) = g_expr(ts, p3) {
                                if let Ok((_, p5)) = g_expect(ts, p4, STok::In) {
                                    if fwd(ts, p, p5) {
                                        lemma_expr_moves(ts, p5);
                                    }
                                }
                            }
                        }
                    }
                }
            }
        },
        Some(STok::If) => {
            lemma_expr_moves(ts, p + 1);
            if let Ok((c, p1)) = g_expr(ts, p + 1) {
                if let Ok((_, p2)) = g_expect(ts, p1, STok::Then) {
                    if fwd(ts, p, p2) {
                        lemma_expr_moves(ts, p2);
                        if let Ok((t, p3)) = g_expr(ts, p2) {
                            if let Ok((_, p4)) = g_expect(ts, p3, STok::Else) {
                                if fwd(ts, p, p4) {
                                    lemma_expr_moves(ts, p4);
                                }
                            }
                        }
                    }
                }
            }
        },
        Some(STok::Lambda) => lemma_lambda_moves(ts, p),
        Some(STok::Fn) => lemma_lambda_moves(ts, p),
        _ => lemma_expr_ann_moves(ts, p),
    }
}

proof fn lemma_lambda_moves(ts: Seq<STok>, p: nat)
    ensures
        g_lambda(ts, p) matches Ok((_, q)) ==> p < q <= ts.len(),
    decreases ts.len() - p, 11nat,
{
    if p < ts.len() {
        lemma_params_moves(ts, p + 1);
        if let Ok((ps, p1)) = g_params(ts, p + 1) {
            let (dot, p2) = g_eat(ts, p1, STok::Dot);
            let sep = if dot {
                Ok(((), p2))
            } else {
                g_expect(ts, p1, STok::FatArrow)
            };
            if let Ok((_, p3)) = sep {
                if fwd(ts, p, p3) {
                    lemma_expr_moves(ts, p3);
                }
            }
        }
    }
}

proof fn lemma_params_moves(ts: Seq<STok>, p: nat)
    requires
        p <= ts.len(),
    ensures
        g_params(ts, p) matches Ok((_, q)) ==> p <= q <= ts.len(),
    decreases ts.len() - p, 0nat,
{
    if !(speek(ts, p) == Some(STok::Dot) || speek(ts, p) == Some(STok::FatArrow)) {
        let (paren, p1) = g_eat(ts, p, STok::LParen);
        if let Ok((n, p2)) = g_ident(ts, p1) {
            lemma_opt_ann_moves(ts, p2);
            if let Ok((ann, p3)) = g_opt_ann(ts, p2) {
                let close = if paren {
                    g_expect(ts, p3, STok::RParen)
                } else {
                    Ok(((), p3))
                };
                if let Ok((_, p4)) = close {
                    if fwd(ts, p, p4) {
                        lemma_params_moves(ts, p4);
                    }
                }
            }
        }
    }
}

proof fn lemma_expr_ann_moves(ts: Seq<STok>, p: nat)
    ensures
        g_expr_ann(ts, p) matches Ok((_, q)) ==> p < q <= ts.len(),
    decreases ts.len() - p, 11nat,
{
    lemma_expr_cmp_moves(ts, p);
    if let Ok((e, p1)) = g_expr_cmp(ts, p) {
        if speek(ts, p1) == Some(STok::Colon) {
            lemma_ty_moves(ts, p1 + 1);
        }
    }
}

proof fn lemma_expr_cmp_moves(ts: Seq<STok>, p: nat)
    ensures
        g_expr_cmp(ts, p) matches Ok((_, q)) ==> p < q <= ts.len(),
    decreases ts.len() - p, 10nat,
{
    lemma_expr_add_moves(ts, p);
    if let Ok((lhs, p1)) = g_expr_add(ts, p) {
        lemma_cmp_rest_moves(ts, p1, lhs);
    }
}

proof fn lemma_cmp_rest_moves(ts: Seq<STok>, p: nat, lhs: STm)
    requires
        p <= ts.len(),
    ensures
        g_cmp_rest(ts, p, lhs) matches Ok((_, q)) ==> p <= q <= ts.len(),
    decreases ts.len() - p, 9nat,
{
    if speek(ts, p) == Some(STok::EqEq) {
        lemma_expr_add_moves(ts, p + 1);
        if let Ok((rhs, p1)) = g_expr_add(ts, p + 1) {
            if fwd(ts, p, p1) {
                lemma_cmp_rest_moves(ts, p1, STm::Bin(BinOp::Eq, Box::new(lhs), Box::new(rhs)));
            }
        }
    }
}

proof fn lemma_expr_add_moves(ts: Seq<STok>, p: nat)
    ensures
        g_expr_add(ts, p) matches Ok((_, q)) ==> p < q <= ts.len(),
    decreases ts.len() - p, 8nat,
{
    lemma_expr_mul_moves(ts, p);
    if let Ok((lhs, p1)) = g_expr_mul(ts, p) {
        lemma_add_rest_moves(ts, p1, lhs);
    }
}

proof fn lemma_add_rest_moves(ts: Seq<STok>, p: nat, lhs: STm)
    requires
        p <= ts.len(),
    ensures
        g_add_rest(ts, p, lhs) matches Ok((_, q)) ==> p <= q <= ts.len(),
    decreases ts.len() - p, 7nat,
{
    if let Some(op) = add_op(speek(ts, p)) {
        lemma_expr_mul_moves(ts, p + 1);
        if let Ok((rhs, p1)) = g_expr_mul(ts, p + 1) {
            if fwd(ts, p, p1) {
                lemma_add_rest_moves(ts, p1, STm::Bin(op, Box::new(lhs), Box::new(rhs)));
            }
        }
    }
}

proof fn lemma_expr_mul_moves(ts: Seq<STok>, p: nat)
    ensures
        g_expr_mul(ts, p) matches Ok((_, q)) ==> p < q <= ts.len(),
    decreases ts.len() - p, 6nat,
{
    lemma_expr_app_moves(ts, p);
    if let Ok((lhs, p1)) = g_expr_app(ts, p) {
        lemma_mul_rest_moves(ts, p1, lhs);
    }
}

proof fn lemma_mul_rest_moves(ts: Seq<STok>, p: nat, lhs: STm)
    requires
        p <= ts.len(),
    ensures
        g_mul_rest(ts, p, lhs) matches Ok((_, q)) ==> p <= q <= ts.len(),
    decreases ts.len() - p, 5nat,
{
    if speek(ts, p) == Some(STok::Star) {
        lemma_expr_app_moves(ts, p + 1);
        if let Ok((rhs, p1)) = g_expr_app(ts, p + 1) {
            if fwd(ts, p, p1) {
                lemma_mul_rest_moves(ts, p1, STm::Bin(BinOp::Mul, Box::new(lhs), Box::new(rhs)));
            }
        }
    }
}

proof fn lemma_expr_app_moves(ts: Seq<STok>, p: nat)
    ensures
        g_expr_app(ts, p) matches Ok((_, q)) ==> p < q <= ts.len(),
    decreases ts.len() - p, 4nat,
{
    lemma_expr_pre_moves(ts, p);
    if let Ok((head, p1)) = g_expr_pre(ts, p) {
        lemma_app_rest_moves(ts, p1, head);
    }
}

proof fn lemma_app_rest_moves(ts: Seq<STok>, p: nat, head: STm)
    requires
        p <= ts.len(),
    ensures
        g_app_rest(ts, p, head) matches Ok((_, q)) ==> p <= q <= ts.len(),
    decreases ts.len() - p, 3nat,
{
    if atom_start(speek(ts, p)) {
        lemma_expr_pre_moves(ts, p);
        if let Ok((arg, p1)) = g_expr_pre(ts, p) {
            if fwd(ts, p, p1) {
                lemma_app_rest_moves(ts, p1, STm::App(Box::new(head), Box::new(arg)));
            }
        }
    }
}

proof fn lemma_expr_pre_moves(ts: Seq<STok>, p: nat)
    ensures
        g_expr_pre(ts, p) matches Ok((_, q)) ==> p < q <= ts.len(),
    decreases ts.len() - p, 2nat,
{
    match speek(ts, p) {
        Some(STok::Tilde) => lemma_expr_pre_moves(ts, p + 1),
        Some(STok::Lt) => lemma_expr_moves(ts, p + 1),
        _ => lemma_expr_atom_moves(ts, p),
    }
}

proof fn lemma_expr_atom_moves(ts: Seq<STok>, p: nat)
    ensures
        g_expr_atom(ts, p) matches Ok((_, q)) ==> p < q <= ts.len(),
    decreases ts.len() - p, 1nat,
{
    if speek(ts, p) == Some(STok::LParen) {
        lemma_expr_moves(ts, p + 1);
    }
}

/// Each declaration is at least one token.
proof fn lemma_decl_moves(ts: Seq<STok>, p: nat)
    ensures
        g_decl(ts, p) matches Ok((_, q)) ==> p < q <= ts.len(),
{
    match speek(ts, p) {
        Some(STok::Let) => {
            if let Ok((n, p1)) = g_ident(ts, p + 1) {
                if let Ok((_, p2)) = g_expect(ts, p1, STok::Colon) {
                    lemma_ty_moves(ts, p2);
                    if let Ok((ty, p3)) = g_ty(ts, p2) {
                        if let Ok((_, p4)) = g_expect(ts, p3, STok::Eq) {
                            lemma_expr_moves(ts, p4);
                        }
                    }
                }
            }
        },
        Some(STok::Eval) => lemma_expr_moves(ts, p + 1),
        _ => {},
    }
}

/// Every type, expression and declaration that the parser reads takes at
/// least one token and stays within the tokens, so no rule loops in place.
pub proof fn law_rules_move_forward(ts: Seq<STok>, p: nat)
    ensures
        g_ty(ts, p) matches Ok((_, q)) ==> p < q <= ts.len(),
        g_expr(ts, p) matches Ok((_, q)) ==> p < q <= ts.len(),
        g_decl(ts, p) matches Ok((_, q)) ==> p < q <= ts.len(),
{
    lemma_ty_moves(ts, p);
    lemma_expr_moves(ts, p);
    lemma_decl_moves(ts, p);
}

// Steps of the left-associative loops, one at a time.

proof fn lemma_add_rest_step(ts: Seq<STok>, q: nat, lhs: STm)
    requires
        add_op(speek(ts, q)) is Some,
    ensures
        g_add_rest(ts, q, lhs) == (match g_expr_mul(ts, q + 1) {
            Err(e) => Err(e),
            Ok((rhs, q1)) => if fwd(ts, q, q1) {
                g_add_rest(
                    ts,
                    q1,
                    STm::Bin(add_op(speek(ts, q))->0, Box::new(lhs), Box::new(rhs)),
                )
            } else {
                stuck()
            },
        }),
{
}

proof fn lemma_app_rest_step(ts: Seq<STok>, q: nat, head: STm)
    requires
        atom_start(speek(ts, q)),
    ensures
        g_app_rest(ts, q, head) == (match g_expr_pre(ts, q) {
            Err(e) => Err(e),
            Ok((arg, q1)) => if fwd(ts, q, q1) {
                g_app_rest(ts, q1, STm::App(Box::new(head), Box::new(arg)))
            } else {
                stuck()
            },
        }),
{
}

proof fn lemma_app_rest_end(ts: Seq<STok>, q: nat, head: STm)
    requires
        !atom_start(speek(ts, q)),
    ensures
        g_app_rest(ts, q, head) == Ok::<_, SErr>((head, q)),
{
}

proof fn lemma_add_rest_end(ts: Seq<STok>, q: nat, lhs: STm)
    requires
        add_op(speek(ts, q)) is None,
    ensures
        g_add_rest(ts, q, lhs) == Ok::<_, SErr>((lhs, q)),
{
}

proof fn lemma_decls_step(ts: Seq<STok>, q: nat)
    requires
        q < ts.len(),
    ensures
        g_decls(ts, q) == (match g_decl(ts, q) {
            Err(e) => Err(e),
            Ok((d, q1)) => if fwd(ts, q, q1) {
                match g_decls(ts, q1) {
                    Err(e) => Err(e),
                    Ok((rest, q2)) => Ok((seq![d] + rest, q2)),
                }
            } else {
                stuck()
            },
        }),
{
}

// ---------------------------------------------------------------------------
// The parser.

/// The model of what a rule read, and where it stopped.
pub open spec fn parsed<T: View>(r: Result<T, Error>, p: usize) -> PRes<T::V> {
    match r {
        Ok(x) => Ok((x@, p as nat)),
        Err(e) => Err(e@),
    }
}

/// The kinds of a list of tokens.
pub open spec fn kinds(v: Seq<Spanned>) -> Seq<STok> {
    v.map_values(|x: Spanned| x.tok@)
}

/// A recursive-descent parser over a list of tokens.
struct Parser {
    toks: Vec<Spanned>,
    pos: usize,
}

impl Parser {
    spec fn ts(&self) -> Seq<STok> {
        kinds(self.toks@)
    }

    spec fn at(&self) -> nat {
        self.pos as nat
    }

    spec fn wf(&self) -> bool {
        self.pos <= self.toks@.len()
    }

    /// The same tokens, and a position within them.
    spec fn follows(&self, before: Parser) -> bool {
        &&& self.toks == before.toks
        &&& self.pos <= self.toks@.len()
    }

    fn new(toks: Vec<Spanned>) -> (p: Self)
        ensures
            p.toks == toks,
            p.pos == 0,
    {
        Self { toks, pos: 0 }
    }

    fn eof(&self) -> (r: bool)
        ensures
            r == (self.pos >= self.toks@.len()),
    {
        self.pos >= self.toks.len()
    }

    fn peek(&self) -> (r: Option<&Token>)
        ensures
            match r {
                Some(t) => speek(self.ts(), self.at()) == Some(t@),
                None => speek(self.ts(), self.at()) is None,
            },
    {
        if self.pos < self.toks.len() {
            Some(&self.toks[self.pos].tok)
        } else {
            None
        }
    }

    fn advance(&mut self) -> (r: Option<Token>)
        requires
            old(self).wf(),
        ensures
            final(self).follows(*old(self)),
            match r {
                Some(t) => speek(old(self).ts(), old(self).at()) == Some(t@) && final(self).pos
                    == old(self).pos + 1,
                None => speek(old(self).ts(), old(self).at()) is None && final(self).pos
                    == old(self).pos,
            },
    {
        if self.pos < self.toks.len() {
            let t = copy_token(&self.toks[self.pos].tok);
            self.pos = self.pos + 1;
            Some(t)
        } else {
            None
        }
    }

    /// Reads the next token if it is of the kind of `t` (a payload is not
    /// compared); else fails and stays where it is.
    fn expect(&mut self, t: &Token) -> (r: Result<(), Error>)
        requires
            old(self).wf(),
        ensures
            final(self).follows(*old(self)),
            r is Ok <==> next_of_kind(old(self).ts(), old(self).at(), t@),
            r is Ok ==> final(self).pos == old(self).pos + 1,
            r matches Err(e) ==> final(self).pos == old(self).pos && e@ == SErr::Parse(
                expected_msg(t@, speek(old(self).ts(), old(self).at())),
            ),
            !(t@ is Num || t@ is Ident) ==> parsed(r, final(self).pos) == g_expect(
                old(self).ts(),
                old(self).at(),
                t@,
            ),
    {
        let hit = match self.peek() {
            Some(tk) => same_kind(tk, t),
            None => false,
        };
        if hit {
            self.advance();
            Ok(())
        } else {
            {
                let mut m = String::new();
                push_str(&mut m, "expected ");
                push_tok_debug(&mut m, t);
                push_str(&mut m, ", got ");
                push_opt_tok_debug(&mut m, self.peek());
                assert(m@ =~= expected_msg(t@, speek(self.ts(), self.at())));
                Err(parse_error(m))
            }
        }
    }

    /// Reads the next token if it is of the kind of `t` (a payload is not
    /// compared), and says whether it did.
    fn eat(&mut self, t: &Token) -> (r: bool)
        requires
            old(self).wf(),
        ensures
            final(self).follows(*old(self)),
            r == next_of_kind(old(self).ts(), old(self).at(), t@),
            final(self).pos == if r { old(self).pos + 1 } else { old(self).pos as int },
            !(t@ is Num || t@ is Ident) ==> (r, final(self).pos as nat) == g_eat(
                old(self).ts(),
                old(self).at(),
                t@,
            ),
    {
        let hit = match self.peek() {
            Some(tk) => same_kind(tk, t),
            None => false,
        };
        if hit {
            self.advance();
            true
        } else {
            false
        }
    }

    fn ident(&mut self) -> (r: Result<String, Error>)
        requires
            old(self).wf(),
        ensures
            final(self).follows(*old(self)),
            parsed(r, final(self).pos) == g_ident(old(self).ts(), old(self).at()),
    {
        let t = self.advance();
        match t {
            Some(Token::Ident(s)) => Ok(s),
            other => {
                let mut m = String::new();
                push_str(&mut m, "expected identifier, got ");
                push_opt_tok_debug(&mut m, other.as_ref());
                assert(m@ =~= "expected identifier, got "@ + opt_tok_debug(
                    speek(old(self).ts(), old(self).at()),
                ));
                Err(parse_error(m))
            },
        }
    }

    fn fail_with(&self, what: &str) -> (e: Error)
        ensures
            e@ == SErr::Parse(what@ + opt_tok_debug(speek(self.ts(), self.at()))),
    {
        let mut m = String::new();
        push_str(&mut m, what);
        push_opt_tok_debug(&mut m, self.peek());
        parse_error(m)
    }

    fn ty(&mut self) -> (r: Result<Ty, Error>)
        requires
            old(self).wf(),
        ensures
            final(self).follows(*old(self)),
            parsed(r, final(self).pos) == g_ty(old(self).ts(), old(self).at()),
            r is Ok ==> old(self).pos < final(self).pos,
        decreases old(self).toks@.len() - old(self).pos, 1nat,
    {
        let a = self.ty_atom()?;
        if self.eat(&Token::Arrow) {
            let b = self.ty()?;
            Ok(Ty::arr(a, b))
        } else {
            Ok(a)
        }
    }

    fn ty_atom(&mut self) -> (r: Result<Ty, Error>)
        requires
            old(self).wf(),
        ensures
            final(self).follows(*old(self)),
            parsed(r, final(self).pos) == g_ty_atom(old(self).ts(), old(self).at()),
            r is Ok ==> old(self).pos < final(self).pos,
        decreases old(self).toks@.len() - old(self).pos, 0nat,
    {
        match self.peek() {
            Some(Token::NatTy) => {
                self.advance();
                Ok(Ty::Nat)
            },
            Some(Token::BoolTy) => {
                self.advance();
                Ok(Ty::Bool)
            },
            Some(Token::Code) => {
                self.advance();
                let inner = self.ty_atom()?;
                Ok(Ty::code(inner))
            },
            Some(Token::LParen) => {
                self.advance();
                let t = self.ty()?;
                self.expect(&Token::RParen)?;
                Ok(t)
            },
            _ => Err(self.fail_with("expected type, got ")),
        }
    }

    fn opt_ann(&mut self) -> (r: Result<Option<Rc<Ty>>, Error>)
        requires
            old(self).wf(),
        ensures
            final(self).follows(*old(self)),
            r is Ok ==> old(self).pos <= final(self).pos,
            match r {
                Ok(a) => g_opt_ann(old(self).ts(), old(self).at()) == Ok::<_, SErr>(
                    (ann_view(a), final(self).pos as nat),
                ),
                Err(e) => g_opt_ann(old(self).ts(), old(self).at()) == Err::<
                    (Option<Ty>, nat),
                    _,
                >(e@),
            },
    {
        if self.eat(&Token::Colon) {
            let t = self.ty()?;
            Ok(Some(Rc::new(t)))
        } else {
            Ok(None)
        }
    }

    fn expr(&mut self) -> (r: Result<Tm, Error>)
        requires
            old(self).wf(),
        ensures
            final(self).follows(*old(self)),
            parsed(r, final(self).pos) == g_expr(old(self).ts(), old(self).at()),
            r is Ok ==> old(self).pos < final(self).pos,
        decreases old(self).toks@.len() - old(self).pos, 13nat,
    {
        self.expr_let()
    }

    fn expr_let(&mut self) -> (r: Result<Tm, Error>)
        requires
            old(self).wf(),
        ensures
            final(self).follows(*old(self)),
            parsed(r, final(self).pos) == g_expr_let(old(self).ts(), old(self).at()),
            r is Ok ==> old(self).pos < final(self).pos,
        decreases old(self).toks@.len() - old(self).pos, 12nat,
    {
        match self.peek() {
            Some(Token::Let) => {
                self.advance();
                let n = self.ident()?;
                let ann = self.opt_ann()?;
                self.expect(&Token::Eq)?;
                let v = self.expr()?;
                self.expect(&Token::In)?;
                let b = self.expr()?;
                Ok(Tm::Let(n, ann, Rc::new(v), Rc::new(b)))
            },
            Some(Token::If) => {
                self.advance();
                let c = self.expr()?;
                self.expect(&Token::Then)?;
                let t = self.expr()?;
                self.expect(&Token::Else)?;
                let e = self.expr()?;
                Ok(Tm::If(Rc::new(c), Rc::new(t), Rc::new(e)))
            },
            Some(Token::Lambda) | Some(Token::Fn) => self.lambda(),
            _ => self.expr_ann(),
        }
    }

    fn lambda(&mut self) -> (r: Result<Tm, Error>)
        requires
            old(self).wf(),
            speek(old(self).ts(), old(self).at()) == Some(STok::Lambda) || speek(
                old(self).ts(),
                old(self).at(),
            ) == Some(STok::Fn),
        ensures
            final(self).follows(*old(self)),
            parsed(r, final(self).pos) == g_lambda(old(self).ts(), old(self).at()),
            r is Ok ==> old(self).pos < final(self).pos,
        decreases old(self).toks@.len() - old(self).pos, 11nat,
    {
        self.advance();
        let ghost p0 = self.at();
        let ghost ts = self.ts();
        let mut params: Vec<(String, Option<Rc<Ty>>)> = Vec::new();
        assert(params_view(params@) =~= Seq::empty());
        assert(g_params(ts, p0) == prepend_params(Seq::empty(), g_params(ts, p0))) by {
            match g_params(ts, p0) {
                Ok((x, q)) => assert(Seq::<(Seq<char>, Option<Ty>)>::empty() + x =~= x),
                Err(_) => {},
            }
        }
        while !matches!(self.peek(), Some(Token::Dot) | Some(Token::FatArrow))
            invariant
                self.wf(),
                self.ts() == ts,
                self.toks == old(self).toks,
                p0 <= self.pos,
                p0 == old(self).pos + 1,
                g_params(ts, p0) == prepend_params(params_view(params@), g_params(ts, self.at())),
            decreases self.toks@.len() - self.pos,
        {
            let ghost q = self.at();
            let has_paren = self.eat(&Token::LParen);
            let n = self.ident()?;
            let ann = self.opt_ann()?;
            if has_paren {
                self.expect(&Token::RParen)?;
            }
            let ghost old_params = params_view(params@);
            params.push((n, ann));
            proof {
                assert(params_view(params@) =~= old_params.push((n@, ann_view(ann))));
                match g_params(ts, self.at()) {
                    Ok((x, q5)) => {
                        assert(old_params + (seq![(n@, ann_view(ann))] + x) =~= old_params.push(
                            (n@, ann_view(ann)),
                        ) + x);
                    },
                    Err(_) => {},
                }
            }
        }
        assert(g_params(ts, self.at()) == Ok::<_, SErr>(
            (Seq::<(Seq<char>, Option<Ty>)>::empty(), self.at()),
        ));
        assert(params_view(params@) + Seq::<(Seq<char>, Option<Ty>)>::empty() =~= params_view(
            params@,
        ));
        if !self.eat(&Token::Dot) {
            self.expect(&Token::FatArrow)?;
        }
        let mut body = self.expr()?;
        let ghost b0 = body@;
        let ghost ps = params_view(params@);
        let mut i = params.len();
        assert(ps.subrange(i as int, i as int) =~= Seq::empty());
        while i > 0
            invariant
                i <= params@.len(),
                ps == params_view(params@),
                body@ == wrap_lams(ps.subrange(i as int, ps.len() as int), b0),
            decreases i,
        {
            let n = params[i - 1].0.clone();
            let ann = copy_ann(&params[i - 1].1);
            body = Tm::Lam(n, ann, Rc::new(body));
            assert(ps.subrange(i - 1, ps.len() as int).drop_first() =~= ps.subrange(
                i as int,
                ps.len() as int,
            ));
            i = i - 1;
        }
        assert(ps.subrange(0, ps.len() as int) =~= ps);
        Ok(body)
    }

    fn expr_ann(&mut self) -> (r: Result<Tm, Error>)
        requires
            old(self).wf(),
        ensures
            final(self).follows(*old(self)),
            parsed(r, final(self).pos) == g_expr_ann(old(self).ts(), old(self).at()),
            r is Ok ==> old(self).pos < final(self).pos,
        decreases old(self).toks@.len() - old(self).pos, 11nat,
    {
        let e = self.expr_cmp()?;
        if self.eat(&Token::Colon) {
            let t = self.ty()?;
            Ok(Tm::Ann(Rc::new(e), Rc::new(t)))
        } else {
            Ok(e)
        }
    }

    fn expr_cmp(&mut self) -> (r: Result<Tm, Error>)
        requires
            old(self).wf(),
        ensures
            final(self).follows(*old(self)),
            parsed(r, final(self).pos) == g_expr_cmp(old(self).ts(), old(self).at()),
            r is Ok ==> old(self).pos < final(self).pos,
        decreases old(self).toks@.len() - old(self).pos, 10nat,
    {
        let mut lhs = self.expr_add()?;
        let ghost ts = self.ts();
        let ghost goal = g_cmp_rest(ts, self.at(), lhs@);
        while matches!(self.peek(), Some(Token::EqEq))
            invariant
                self.wf(),
                self.ts() == ts,
                self.toks == old(self).toks,
                old(self).pos < self.pos,
                g_expr_cmp(old(self).ts(), old(self).at()) == goal,
                goal == g_cmp_rest(ts, self.at(), lhs@),
            decreases self.toks@.len() - self.pos,
        {
            self.advance();
            let rhs = self.expr_add()?;
            lhs = Tm::Bin(BinOp::Eq, Rc::new(lhs), Rc::new(rhs));
        }
        Ok(lhs)
    }

    fn expr_add(&mut self) -> (r: Result<Tm, Error>)
        requires
            old(self).wf(),
        ensures
            final(self).follows(*old(self)),
            parsed(r, final(self).pos) == g_expr_add(old(self).ts(), old(self).at()),
            r is Ok ==> old(self).pos < final(self).pos,
        decreases old(self).toks@.len() - old(self).pos, 8nat,
    {
        let mut lhs = self.expr_mul()?;
        let ghost ts = self.ts();
        let ghost goal = g_add_rest(ts, self.at(), lhs@);
        let mut next = self.add_op_here();
        while next.is_some()
            invariant
                self.wf(),
                self.ts() == ts,
                self.toks == old(self).toks,
                old(self).pos < self.pos,
                g_expr_add(old(self).ts(), old(self).at()) == goal,
                goal == g_add_rest(ts, self.at(), lhs@),
                next == add_op(speek(ts, self.at())),
            decreases self.toks@.len() - self.pos,
        {
            let op = next.unwrap();
            proof {
                lemma_add_rest_step(ts, self.at(), lhs@);
            }
            self.advance();
            let rhs = self.expr_mul()?;
            lhs = Tm::Bin(op, Rc::new(lhs), Rc::new(rhs));
            next = self.add_op_here();
        }
        proof {
            lemma_add_rest_end(ts, self.at(), lhs@);
        }
        Ok(lhs)
    }

    fn add_op_here(&self) -> (r: Option<BinOp>)
        ensures
            r == add_op(speek(self.ts(), self.at())),
    {
        match self.peek() {
            Some(Token::Plus) => Some(BinOp::Add),
            Some(Token::Minus) => Some(BinOp::Sub),
            _ => None,
        }
    }

    fn expr_mul(&mut self) -> (r: Result<Tm, Error>)
        requires
            old(self).wf(),
        ensures
            final(self).follows(*old(self)),
            parsed(r, final(self).pos) == g_expr_mul(old(self).ts(), old(self).at()),
            r is Ok ==> old(self).pos < final(self).pos,
        decreases old(self).toks@.len() - old(self).pos, 6nat,
    {
        let mut lhs = self.expr_app()?;
        let ghost ts = self.ts();
        let ghost goal = g_mul_rest(ts, self.at(), lhs@);
        while matches!(self.peek(), Some(Token::Star))
            invariant
                self.wf(),
                self.ts() == ts,
                self.toks == old(self).toks,
                old(self).pos < self.pos,
                g_expr_mul(old(self).ts(), old(self).at()) == goal,
                goal == g_mul_rest(ts, self.at(), lhs@),
            decreases self.toks@.len() - self.pos,
        {
            self.advance();
            let rhs = self.expr_app()?;
            lhs = Tm::Bin(BinOp::Mul, Rc::new(lhs), Rc::new(rhs));
        }
        Ok(lhs)
    }

    fn expr_app(&mut self) -> (r: Result<Tm, Error>)
        requires
            old(self).wf(),
        ensures
            final(self).follows(*old(self)),
            parsed(r, final(self).pos) == g_expr_app(old(self).ts(), old(self).at()),
            r is Ok ==> old(self).pos < final(self).pos,
        decreases old(self).toks@.len() - old(self).pos, 4nat,
    {
        let mut head = self.expr_pre()?;
        let ghost ts = self.ts();
        let ghost goal = g_app_rest(ts, self.at(), head@);
        while self.is_atom_start()
            invariant
                self.wf(),
                self.ts() == ts,
                self.toks == old(self).toks,
                old(self).pos < self.pos,
                g_expr_app(old(self).ts(), old(self).at()) == goal,
                goal == g_app_rest(ts, self.at(), head@),
            decreases self.toks@.len() - self.pos,
        {
            proof {
                lemma_app_rest_step(ts, self.at(), head@);
            }
            let arg = self.expr_pre()?;
            head = Tm::App(Rc::new(head), Rc::new(arg));
        }
        proof {
            lemma_app_rest_end(ts, self.at(), head@);
        }
        Ok(head)
    }

    fn expr_pre(&mut self) -> (r: Result<Tm, Error>)
        requires
            old(self).wf(),
        ensures
            final(self).follows(*old(self)),
            parsed(r, final(self).pos) == g_expr_pre(old(self).ts(), old(self).at()),
            r is Ok ==> old(self).pos < final(self).pos,
        decreases old(self).toks@.len() - old(self).pos, 2nat,
    {
        match self.peek() {
            Some(Token::Tilde) => {
                self.advance();
                let e = self.expr_pre()?;
                Ok(Tm::Splice(Rc::new(e)))
            },
            Some(Token::Lt) => {
                self.advance();
                let e = self.expr()?;
                self.expect(&Token::Gt)?;
                Ok(Tm::Quote(Rc::new(e)))
            },
            _ => self.expr_atom(),
        }
    }

    fn is_atom_start(&self) -> (r: bool)
        ensures
            r == atom_start(speek(self.ts(), self.at())),
    {
        matches!(
            self.peek(),
            Some(Token::Ident(_)) | Some(Token::Num(_)) | Some(Token::True) | Some(Token::False)
                | Some(Token::LParen) | Some(Token::Tilde) | Some(Token::Lt)
        )
    }

    fn expr_atom(&mut self) -> (r: Result<Tm, Error>)
        requires
            old(self).wf(),
        ensures
            final(self).follows(*old(self)),
            parsed(r, final(self).pos) == g_expr_atom(old(self).ts(), old(self).at()),
            r is Ok ==> old(self).pos < final(self).pos,
        decreases old(self).toks@.len() - old(self).pos, 1nat,
    {
        match self.peek() {
            Some(Token::Num(n)) => {
                let v = *n;
                self.advance();
                Ok(Tm::NatLit(v))
            },
            Some(Token::True) => {
                self.advance();
                Ok(Tm::BoolLit(true))
            },
            Some(Token::False) => {
                self.advance();
                Ok(Tm::BoolLit(false))
            },
            Some(Token::Ident(s)) => {
                let n = s.clone();
                self.advance();
                Ok(Tm::Var(n))
            },
            Some(Token::LParen) => {
                self.advance();
                let e = self.expr()?;
                self.expect(&Token::RParen)?;
                Ok(e)
            },
            _ => Err(self.fail_with("expected atom, got ")),
        }
    }

    fn decl(&mut self) -> (r: Result<Decl, Error>)
        requires
            old(self).wf(),
        ensures
            final(self).follows(*old(self)),
            parsed(r, final(self).pos) == g_decl(old(self).ts(), old(self).at()),
            r is Ok ==> old(self).pos < final(self).pos,
    {
        match self.peek() {
            Some(Token::Let) => {
                self.advance();
                let n = self.ident()?;
                self.expect(&Token::Colon)?;
                let ty = self.ty()?;
                self.expect(&Token::Eq)?;
                let body = self.expr()?;
                self.expect(&Token::Semi)?;
                Ok(Decl::Let(n, Rc::new(ty), Rc::new(body)))
            },
            Some(Token::Eval) => {
                self.advance();
                let e = self.expr()?;
                self.expect(&Token::Semi)?;
                Ok(Decl::Eval(Rc::new(e)))
            },
            _ => Err(self.fail_with("expected `let` or `eval`, got ")),
        }
    }
}

/// The models of a list of lambda parameters.
pub open spec fn params_view(v: Seq<(String, Option<Rc<Ty>>)>) -> Seq<(Seq<char>, Option<Ty>)> {
    v.map_values(|x: (String, Option<Rc<Ty>>)| (x.0@, ann_view(x.1)))
}

/// `pre` before the parameters read by `r`.
pub open spec fn prepend_params(
    pre: Seq<(Seq<char>, Option<Ty>)>,
    r: PRes<Seq<(Seq<char>, Option<Ty>)>>,
) -> PRes<Seq<(Seq<char>, Option<Ty>)>> {
    match r {
        Ok((x, q)) => Ok((pre + x, q)),
        Err(e) => Err(e),
    }
}

/// `pre` before the declarations read by `r`.
pub open spec fn prepend_decls(pre: Seq<SDecl>, r: PRes<Seq<SDecl>>) -> PRes<Seq<SDecl>> {
    match r {
        Ok((x, q)) => Ok((pre + x, q)),
        Err(e) => Err(e),
    }
}

/// The models of a list of declarations.
pub open spec fn decls_view(v: Seq<Decl>) -> Seq<SDecl> {
    v.map_values(|d: Decl| d@)
}

/// The model of the result of [`parse_program`].
pub open spec fn program_view(r: Result<Vec<Decl>, Error>) -> Result<Seq<SDecl>, SErr> {
    match r {
        Ok(v) => Ok(decls_view(v@)),
        Err(e) => Err(e@),
    }
}

proof fn lemma_kinds(v: Seq<Spanned>)
    ensures
        lexed_toks(toks_view(v)) =~= kinds(v),
{
}

/// The declarations of a program.
pub fn parse_program(src: &str) -> (r: Result<Vec<Decl>, Error>)
    ensures
        program_view(r) == program_spec(src.spec_bytes()),
{
    let toks = lex(src)?;
    proof {
        lemma_kinds(toks@);
    }
    let mut p = Parser::new(toks);
    let ghost ts = p.ts();
    let mut decls: Vec<Decl> = Vec::new();
    assert(prepend_decls(Seq::empty(), g_decls(ts, 0)) == g_decls(ts, 0)) by {
        match g_decls(ts, 0) {
            Ok((x, q)) => assert(Seq::<SDecl>::empty() + x =~= x),
            Err(_) => {},
        }
    }
    while !p.eof()
        invariant
            p.wf(),
            program_spec(src.spec_bytes()) == (match g_decls(ts, 0) {
                Err(e) => Err(e),
                Ok((ds, _)) => Ok(ds),
            }),
            p.ts() == ts,
            g_decls(ts, 0) == prepend_decls(decls_view(decls@), g_decls(ts, p.at())),
        decreases p.toks@.len() - p.pos,
    {
        let ghost q = p.at();
        proof {
            lemma_decls_step(ts, q);
        }
        let d = p.decl()?;
        let ghost old_ds = decls_view(decls@);
        decls.push(d);
        proof {
            assert(decls_view(decls@) =~= old_ds.push(d@));
            match g_decls(ts, p.at()) {
                Ok((x, q2)) => {
                    assert(old_ds + (seq![d@] + x) =~= old_ds.push(d@) + x);
                },
                Err(_) => {},
            }
        }
    }
    assert(decls_view(decls@) + Seq::<SDecl>::empty() =~= decls_view(decls@));
    Ok(decls)
}

/// The expression that makes up a whole source text; tokens left after it
/// are an error.
pub fn parse_expr(src: &str) -> (r: Result<Tm, Error>)
    ensures
        rview(r) == expr_spec(src.spec_bytes()),
{
    let toks = lex(src)?;
    proof {
        lemma_kinds(toks@);
    }
    let mut p = Parser::new(toks);
    let e = p.expr()?;
    if !p.eof() {
        let mut m = String::new();
        push_str(&mut m, "trailing tokens after expression: ");
        push_opt_tok_debug(&mut m, p.peek());
        assert(m@ =~= trailing_msg(speek(p.ts(), p.at())));
        return Err(parse_error(m));
    }
    Ok(e)
}

} // verus!
