use vstd::prelude::*;

use crate::driver::show_val_spec;
use crate::eval::{
    apply_spec, env_lookup, eval0_spec, eval1_spec, fresh_spec, fresh_stem,
    trim_numeric, trim_underscores, SEntry, SVal, VScope,
};
use crate::pretty::{op_prec_spec, tm_text, ty_text};
use crate::readterm::{lemma_dec_digits, lemma_literals};
use crate::lexer::{
    is_ident_char, is_ident_start, lemma_run_end, lemma_scan_progress, lex_from, scan, STok, Scan,
};
use crate::parse::{
    add_op, atom_start, fwd, g_add_rest, g_app_rest, g_cmp_rest, g_decl, g_decls, g_eat,
    g_expect, g_expr, g_expr_add, g_expr_ann, g_expr_app, g_expr_atom, g_expr_cmp, g_expr_let,
    g_expr_mul, g_expr_pre, g_ident, g_lambda, g_mul_rest, g_opt_ann, g_params, g_ty, lexed_toks,
    program_spec, speek, wrap_lams,
};
use crate::syntax::{binop_str, BinOp, SDecl, STm, Ty};
use crate::text::{dec_int, dec_nat};

verus! {

// The text the driver prints holds a line feed only at the end of each
// line: names come from the lexer, which never puts a line feed in one, and
// evaluation only ever makes names out of names.

/// `s` holds no line feed.
pub open spec fn no_lf(s: Seq<char>) -> bool {
    forall|k: int| 0 <= k < s.len() ==> #[trigger] s[k] != '\n'
}

/// Every name in a term holds no line feed.
pub open spec fn names_ok(t: STm) -> bool
    decreases t,
{
    match t {
        STm::Var(n) => no_lf(n),
        STm::NatLit(_) => true,
        STm::BoolLit(_) => true,
        STm::Lam(n, _, b) => no_lf(n) && names_ok(*b),
        STm::App(f, a) => names_ok(*f) && names_ok(*a),
        STm::Let(n, _, v, b) => no_lf(n) && names_ok(*v) && names_ok(*b),
        STm::Bin(_, a, b) => names_ok(*a) && names_ok(*b),
        STm::If(c, t, e) => names_ok(*c) && names_ok(*t) && names_ok(*e),
        STm::Quote(e) => names_ok(*e),
        STm::Splice(e) => names_ok(*e),
        STm::Ann(e, _) => names_ok(*e),
    }
}

/// Every name in a value, in closures' scopes too, holds no line feed.
pub open spec fn val_named(v: SVal) -> bool
    decreases v, 1nat,
{
    match v {
        SVal::Code(t) => names_ok(t),
        SVal::Lam(env, p, body) => scope_named(env) && no_lf(p) && names_ok(body),
        _ => true,
    }
}

/// Every name in a scope holds no line feed.
pub open spec fn scope_named(s: VScope) -> bool
    decreases s, 0nat,
{
    if s.len() == 0 {
        true
    } else {
        proof {
            assert(decreases_to!(s => s[s.len() - 1]));
        }
        &&& scope_named(s.drop_last())
        &&& no_lf(s[s.len() - 1].0)
        &&& match s[s.len() - 1].1 {
            SEntry::Val(v) => val_named(v),
            SEntry::CodeVar(fr) => no_lf(fr),
        }
    }
}

/// Every global value holds names without line feeds.
pub open spec fn globals_named(gl: Map<Seq<char>, SVal>) -> bool {
    forall|k: Seq<char>| gl.contains_key(k) ==> val_named(#[trigger] gl[k])
}

pub(crate) proof fn lemma_cat_lf(x: Seq<char>, y: Seq<char>)
    requires
        no_lf(x),
        no_lf(y),
    ensures
        no_lf(x + y),
{
    assert forall|k: int| 0 <= k < (x + y).len() implies #[trigger] (x + y)[k] != '\n' by {
        if k < x.len() {
            assert((x + y)[k] == x[k]);
        } else {
            assert((x + y)[k] == y[k - x.len()]);
        }
    }
}

proof fn lemma_literals_lf()
    ensures
        no_lf("\\"@),
        no_lf("<"@),
        no_lf(">"@),
        no_lf("~"@),
        no_lf("("@),
        no_lf(")"@),
        no_lf(" "@),
        no_lf(". "@),
        no_lf(" = "@),
        no_lf(" : "@),
        no_lf("let "@),
        no_lf("if "@),
        no_lf(" in "@),
        no_lf(" then "@),
        no_lf(" else "@),
        no_lf("+"@),
        no_lf("-"@),
        no_lf("*"@),
        no_lf("=="@),
        no_lf("true"@),
        no_lf("false"@),
        no_lf("Nat"@),
        no_lf("Bool"@),
        no_lf("Code "@),
        no_lf(" -> "@),
        no_lf("x"@),
        no_lf("_"@),
{
    lemma_literals();
    reveal_strlit("let ");
    reveal_strlit("if ");
    reveal_strlit(" in ");
    reveal_strlit(" then ");
    reveal_strlit(" else ");
    reveal_strlit("Nat");
    reveal_strlit("Bool");
    reveal_strlit("Code ");
    reveal_strlit(" -> ");
    reveal_strlit("x");
    reveal_strlit("_");
}

proof fn lemma_dec_lf(m: nat)
    ensures
        no_lf(dec_nat(m)),
{
    lemma_dec_digits(m);
}

proof fn lemma_dec_int_lf(i: int)
    ensures
        no_lf(dec_int(i)),
{
    lemma_literals_lf();
    if i < 0 {
        lemma_dec_lf((-i) as nat);
        lemma_cat_lf("-"@, dec_nat((-i) as nat));
    } else {
        lemma_dec_lf(i as nat);
    }
}

pub(crate) proof fn lemma_ty_text_lf(t: Ty, prec: nat)
    ensures
        no_lf(ty_text(t, prec)),
    decreases t,
{
    lemma_literals_lf();
    match t {
        Ty::Code(inner) => {
            lemma_ty_text_lf(inner@, 11);
            lemma_cat_lf("Code "@, ty_text(inner@, 11));
            lemma_cat_lf("("@, "Code "@ + ty_text(inner@, 11));
            lemma_cat_lf("("@ + ("Code "@ + ty_text(inner@, 11)), ")"@);
        },
        Ty::Arr(a, b) => {
            lemma_ty_text_lf(a@, 1);
            lemma_ty_text_lf(b@, 0);
            let body = ty_text(a@, 1) + " -> "@ + ty_text(b@, 0);
            lemma_cat_lf(ty_text(a@, 1), " -> "@);
            lemma_cat_lf(ty_text(a@, 1) + " -> "@, ty_text(b@, 0));
            lemma_cat_lf("("@, body);
            lemma_cat_lf("("@ + body, ")"@);
        },
        _ => {},
    }
}

/// The text of a term whose names hold no line feed holds none.
pub(crate) proof fn lemma_tm_text_lf(t: STm, prec: nat)
    requires
        names_ok(t),
    ensures
        no_lf(tm_text(t, prec)),
    decreases t,
{
    lemma_literals_lf();
    let body: Seq<char> = match t {
        STm::Var(n) => n,
        STm::NatLit(i) => {
            lemma_dec_int_lf(i as int);
            dec_int(i as int)
        },
        STm::BoolLit(b) => if b { "true"@ } else { "false"@ },
        STm::Lam(n, _, b) => {
            lemma_tm_text_lf(*b, 0);
            lemma_cat_lf("\\"@, n);
            lemma_cat_lf("\\"@ + n, ". "@);
            lemma_cat_lf("\\"@ + n + ". "@, tm_text(*b, 0));
            "\\"@ + n + ". "@ + tm_text(*b, 0)
        },
        STm::App(f, a) => {
            lemma_tm_text_lf(*f, 40);
            lemma_tm_text_lf(*a, 41);
            lemma_cat_lf(tm_text(*f, 40), " "@);
            lemma_cat_lf(tm_text(*f, 40) + " "@, tm_text(*a, 41));
            tm_text(*f, 40) + " "@ + tm_text(*a, 41)
        },
        STm::Let(n, _, v, b) => {
            lemma_tm_text_lf(*v, 0);
            lemma_tm_text_lf(*b, 0);
            let x = "let "@ + n;
            lemma_cat_lf("let "@, n);
            lemma_cat_lf(x, " = "@);
            lemma_cat_lf(x + " = "@, tm_text(*v, 0));
            lemma_cat_lf(x + " = "@ + tm_text(*v, 0), " in "@);
            lemma_cat_lf(x + " = "@ + tm_text(*v, 0) + " in "@, tm_text(*b, 0));
            x + " = "@ + tm_text(*v, 0) + " in "@ + tm_text(*b, 0)
        },
        STm::Bin(op, a, b) => {
            let (pp, lp, rp) = op_prec_spec(op);
            lemma_tm_text_lf(*a, lp as nat);
            lemma_tm_text_lf(*b, rp as nat);
            let x = tm_text(*a, lp as nat);
            lemma_cat_lf(x, " "@);
            lemma_cat_lf(x + " "@, binop_str(op));
            lemma_cat_lf(x + " "@ + binop_str(op), " "@);
            lemma_cat_lf(x + " "@ + binop_str(op) + " "@, tm_text(*b, rp as nat));
            x + " "@ + binop_str(op) + " "@ + tm_text(*b, rp as nat)
        },
        STm::If(c, th, el) => {
            lemma_tm_text_lf(*c, 0);
            lemma_tm_text_lf(*th, 0);
            lemma_tm_text_lf(*el, 0);
            let x = "if "@ + tm_text(*c, 0);
            lemma_cat_lf("if "@, tm_text(*c, 0));
            lemma_cat_lf(x, " then "@);
            lemma_cat_lf(x + " then "@, tm_text(*th, 0));
            lemma_cat_lf(x + " then "@ + tm_text(*th, 0), " else "@);
            lemma_cat_lf(x + " then "@ + tm_text(*th, 0) + " else "@, tm_text(*el, 0));
            x + " then "@ + tm_text(*th, 0) + " else "@ + tm_text(*el, 0)
        },
        STm::Quote(e) => {
            lemma_tm_text_lf(*e, 0);
            lemma_cat_lf("<"@, tm_text(*e, 0));
            lemma_cat_lf("<"@ + tm_text(*e, 0), ">"@);
            "<"@ + tm_text(*e, 0) + ">"@
        },
        STm::Splice(e) => {
            lemma_tm_text_lf(*e, 50);
            lemma_cat_lf("~"@, tm_text(*e, 50));
            "~"@ + tm_text(*e, 50)
        },
        STm::Ann(e, ty) => {
            lemma_tm_text_lf(*e, 11);
            lemma_ty_text_lf(ty, 0);
            lemma_cat_lf(tm_text(*e, 11), " : "@);
            lemma_cat_lf(tm_text(*e, 11) + " : "@, ty_text(ty, 0));
            tm_text(*e, 11) + " : "@ + ty_text(ty, 0)
        },
    };
    lemma_cat_lf("("@, body);
    lemma_cat_lf("("@ + body, ")"@);
}

/// How a value whose names hold no line feed is shown holds none.
pub(crate) proof fn lemma_show_val_lf(v: SVal)
    requires
        val_named(v),
    ensures
        no_lf(show_val_spec(v)),
{
    lemma_literals_lf();
    match v {
        SVal::Nat(n) => lemma_dec_int_lf(n as int),
        SVal::Bool(_) => {},
        SVal::Code(t) => {
            lemma_tm_text_lf(t, 0);
            lemma_cat_lf("<"@, tm_text(t, 0));
            lemma_cat_lf("<"@ + tm_text(t, 0), ">"@);
        },
        SVal::Lam(_, p, body) => {
            lemma_tm_text_lf(body, 0);
            lemma_cat_lf("\\"@, p);
            lemma_cat_lf("\\"@ + p, ". "@);
            lemma_cat_lf("\\"@ + p + ". "@, tm_text(body, 0));
        },
    }
}

proof fn lemma_trim_numeric_lf(s: Seq<char>)
    requires
        no_lf(s),
    ensures
        no_lf(trim_numeric(s)),
    decreases s.len(),
{
    if s.len() > 0 {
        assert forall|k: int| 0 <= k < s.drop_last().len() implies #[trigger] s.drop_last()[k]
            != '\n' by {
            assert(s.drop_last()[k] == s[k]);
        }
        lemma_trim_numeric_lf(s.drop_last());
    }
}

proof fn lemma_trim_underscores_lf(s: Seq<char>)
    requires
        no_lf(s),
    ensures
        no_lf(trim_underscores(s)),
    decreases s.len(),
{
    if s.len() > 0 {
        assert forall|k: int| 0 <= k < s.drop_last().len() implies #[trigger] s.drop_last()[k]
            != '\n' by {
            assert(s.drop_last()[k] == s[k]);
        }
        lemma_trim_underscores_lf(s.drop_last());
    }
}

/// A fresh name made from a name without line feeds holds none.
proof fn lemma_fresh_lf(base: Seq<char>, c: nat)
    requires
        no_lf(base),
    ensures
        fresh_spec(base, c) matches Ok(n) ==> no_lf(n),
{
    lemma_literals_lf();
    lemma_trim_numeric_lf(base);
    lemma_trim_underscores_lf(trim_numeric(base));
    lemma_dec_lf(c);
    lemma_cat_lf(fresh_stem(base), "_"@);
    lemma_cat_lf(fresh_stem(base) + "_"@, dec_nat(c));
}

proof fn lemma_scope_named_push(s: VScope, n: Seq<char>, e: SEntry)
    requires
        scope_named(s),
        no_lf(n),
        match e {
            SEntry::Val(v) => val_named(v),
            SEntry::CodeVar(fr) => no_lf(fr),
        },
    ensures
        scope_named(s.push((n, e))),
{
    assert(s.push((n, e)).drop_last() =~= s);
}

proof fn lemma_scope_named_lookup(s: VScope, n: Seq<char>)
    requires
        scope_named(s),
    ensures
        match env_lookup(s, n) {
            Some(SEntry::Val(v)) => val_named(v),
            Some(SEntry::CodeVar(fr)) => no_lf(fr),
            None => true,
        },
    decreases s.len(),
{
    if s.len() > 0 && s.last().0 != n {
        lemma_scope_named_lookup(s.drop_last(), n);
    }
}

/// Evaluation at stage 0 keeps names without line feeds.
pub(crate) proof fn lemma_eval0_named(
    fuel: nat,
    gl: Map<Seq<char>, SVal>,
    c: nat,
    env: VScope,
    t: STm,
)
    requires
        globals_named(gl),
        scope_named(env),
        names_ok(t),
    ensures
        eval0_spec(fuel, gl, c, env, t).0 matches Ok(v) ==> val_named(v),
    decreases fuel, 1nat,
{
    if fuel > 0 {
        let f = (fuel - 1) as nat;
        match t {
            STm::Var(n) => {
                lemma_scope_named_lookup(env, n);
            },
            STm::App(fx, a) => {
                lemma_eval0_named(f, gl, c, env, *fx);
                let (rf, c1) = eval0_spec(f, gl, c, env, *fx);
                if let Ok(vf) = rf {
                    lemma_eval0_named(f, gl, c1, env, *a);
                    let (ra, c2) = eval0_spec(f, gl, c1, env, *a);
                    if let Ok(va) = ra {
                        lemma_apply_named(f, gl, c2, vf, va);
                    }
                }
            },
            STm::Let(n, _, v, b) => {
                lemma_eval0_named(f, gl, c, env, *v);
                let (rv, c1) = eval0_spec(f, gl, c, env, *v);
                if let Ok(vv) = rv {
                    lemma_scope_named_push(env, n, SEntry::Val(vv));
                    lemma_eval0_named(f, gl, c1, env.push((n, SEntry::Val(vv))), *b);
                }
            },
            STm::If(cnd, th, el) => {
                let (rc, c1) = eval0_spec(f, gl, c, env, *cnd);
                lemma_eval0_named(f, gl, c1, env, *th);
                lemma_eval0_named(f, gl, c1, env, *el);
            },
            STm::Quote(e) => {
                lemma_eval1_named(f, gl, c, env, *e);
            },
            STm::Ann(e, _) => {
                lemma_eval0_named(f, gl, c, env, *e);
            },
            _ => {},
        }
    }
}

proof fn lemma_apply_named(fuel: nat, gl: Map<Seq<char>, SVal>, c: nat, f: SVal, a: SVal)
    requires
        globals_named(gl),
        val_named(f),
        val_named(a),
    ensures
        apply_spec(fuel, gl, c, f, a).0 matches Ok(v) ==> val_named(v),
    decreases fuel, 2nat,
{
    if let SVal::Lam(env, p, body) = f {
        lemma_scope_named_push(env, p, SEntry::Val(a));
        lemma_eval0_named(fuel, gl, c, env.push((p, SEntry::Val(a))), body);
    }
}

proof fn lemma_eval1_named(fuel: nat, gl: Map<Seq<char>, SVal>, c: nat, env: VScope, t: STm)
    requires
        globals_named(gl),
        scope_named(env),
        names_ok(t),
    ensures
        eval1_spec(fuel, gl, c, env, t).0 matches Ok(r) ==> names_ok(r),
    decreases fuel, 1nat,
{
    if fuel > 0 {
        let f = (fuel - 1) as nat;
        match t {
            STm::Var(n) => {
                lemma_scope_named_lookup(env, n);
            },
            STm::Lam(n, ann, b) => {
                lemma_fresh_lf(n, c);
                if let Ok(fr) = fresh_spec(n, c) {
                    lemma_scope_named_push(env, n, SEntry::CodeVar(fr));
                    lemma_eval1_named(f, gl, c + 1, env.push((n, SEntry::CodeVar(fr))), *b);
                }
            },
            STm::App(fx, a) => {
                lemma_eval1_named(f, gl, c, env, *fx);
                let (_, c1) = eval1_spec(f, gl, c, env, *fx);
                lemma_eval1_named(f, gl, c1, env, *a);
            },
            STm::Let(n, ann, v, b) => {
                lemma_eval1_named(f, gl, c, env, *v);
                let (_, c1) = eval1_spec(f, gl, c, env, *v);
                lemma_fresh_lf(n, c1);
                if let Ok(fr) = fresh_spec(n, c1) {
                    lemma_scope_named_push(env, n, SEntry::CodeVar(fr));
                    lemma_eval1_named(f, gl, c1 + 1, env.push((n, SEntry::CodeVar(fr))), *b);
                }
            },
            STm::Bin(op, a, b) => {
                lemma_eval1_named(f, gl, c, env, *a);
                let (_, c1) = eval1_spec(f, gl, c, env, *a);
                lemma_eval1_named(f, gl, c1, env, *b);
            },
            STm::If(cnd, th, el) => {
                lemma_eval1_named(f, gl, c, env, *cnd);
                let (_, c1) = eval1_spec(f, gl, c, env, *cnd);
                lemma_eval1_named(f, gl, c1, env, *th);
                let (_, c2) = eval1_spec(f, gl, c1, env, *th);
                lemma_eval1_named(f, gl, c2, env, *el);
            },
            STm::Splice(e) => {
                lemma_eval0_named(f, gl, c, env, *e);
            },
            STm::Ann(e, _) => {
                lemma_eval1_named(f, gl, c, env, *e);
            },
            _ => {},
        }
    }
}

// ---------------------------------------------------------------------------
// The parser takes names only from identifiers.

/// No identifier among the tokens holds a line feed.
#[verifier::opaque]
pub open spec fn idents_named(ts: Seq<STok>) -> bool {
    forall|k: int| 0 <= k < ts.len() ==> (#[trigger] ts[k] matches STok::Ident(w) ==> no_lf(w))
}

/// No parameter name holds a line feed.
pub open spec fn params_named(ps: Seq<(Seq<char>, Option<Ty>)>) -> bool {
    forall|k: int| 0 <= k < ps.len() ==> no_lf(#[trigger] ps[k].0)
}

/// No name in the declarations holds a line feed.
pub open spec fn decls_named(ds: Seq<SDecl>) -> bool {
    forall|k: int|
        0 <= k < ds.len() ==> match #[trigger] ds[k] {
            SDecl::Let(n, _, b) => no_lf(n) && names_ok(b),
            SDecl::Eval(b) => names_ok(b),
        }
}

proof fn lemma_ident_named(ts: Seq<STok>, p: nat)
    requires
        idents_named(ts),
    ensures
        g_ident(ts, p) matches Ok((n, _)) ==> no_lf(n),
{
    reveal(idents_named);
    if p < ts.len() {
        assert(speek(ts, p) == Some(ts[p as int]));
    }
}

proof fn lemma_wrap_named(ps: Seq<(Seq<char>, Option<Ty>)>, b: STm)
    requires
        params_named(ps),
        names_ok(b),
    ensures
        names_ok(wrap_lams(ps, b)),
    decreases ps.len(),
{
    if ps.len() > 0 {
        assert(no_lf(ps[0].0));
        assert forall|k: int| 0 <= k < ps.drop_first().len() implies no_lf(
            #[trigger] ps.drop_first()[k].0,
        ) by {
            assert(ps.drop_first()[k] == ps[k + 1]);
        }
        lemma_wrap_named(ps.drop_first(), b);
    }
}

proof fn lemma_expr_named(ts: Seq<STok>, p: nat)
    requires
        idents_named(ts),
    ensures
        g_expr(ts, p) matches Ok((t, _)) ==> names_ok(t),
    decreases ts.len() - p, 13nat,
{
    lemma_expr_let_named(ts, p);
}

proof fn lemma_expr_let_named(ts: Seq<STok>, p: nat)
    requires
        idents_named(ts),
    ensures
        g_expr_let(ts, p) matches Ok((t, _)) ==> names_ok(t),
    decreases ts.len() - p, 12nat,
{
    match speek(ts, p) {
        Some(STok::Let) => {
            lemma_ident_named(ts, p + 1);
            if let Ok((n, p1)) = g_ident(ts, p + 1) {
                if let Ok((ann, p2)) = g_opt_ann(ts, p1) {
                    if let Ok((_, p3)) = g_expect(ts, p2, STok::Eq) {
                        if fwd(ts, p, p3) {
                            lemma_expr_named(ts, p3);
                            if let Ok((v, p4)) = g_expr(ts, p3) {
                                if let Ok((_, p5)) = g_expect(ts, p4, STok::In) {
                                    if fwd(ts, p, p5) {
                                        lemma_expr_named(ts, p5);
                                    }
                                }
                            }
                        }
                    }
                }
            }
        },
        Some(STok::If) => {
            lemma_expr_named(ts, p + 1);
            if let Ok((c, p1)) = g_expr(ts, p + 1) {
                if let Ok((_, p2)) = g_expect(ts, p1, STok::Then) {
                    if fwd(ts, p, p2) {
                        lemma_expr_named(ts, p2);
                        if let Ok((t, p3)) = g_expr(ts, p2) {
                            if let Ok((_, p4)) = g_expect(ts, p3, STok::Else) {
                                if fwd(ts, p, p4) {
                                    lemma_expr_named(ts, p4);
                                }
                            }
                        }
                    }
                }
            }
        },
        Some(STok::Lambda) => lemma_lambda_named(ts, p),
        Some(STok::Fn) => lemma_lambda_named(ts, p),
        _ => lemma_expr_ann_named(ts, p),
    }
}

proof fn lemma_lambda_named(ts: Seq<STok>, p: nat)
    requires
        idents_named(ts),
    ensures
        g_lambda(ts, p) matches Ok((t, _)) ==> names_ok(t),
    decreases ts.len() - p, 11nat,
{
    if p < ts.len() {
        lemma_params_named(ts, p + 1);
        if let Ok((ps, p1)) = g_params(ts, p + 1) {
            let (dot, p2) = g_eat(ts, p1, STok::Dot);
            let sep = if dot {
                Ok(((), p2))
            } else {
                g_expect(ts, p1, STok::FatArrow)
            };
            if let Ok((_, p3)) = sep {
                if fwd(ts, p, p3) {
                    lemma_expr_named(ts, p3);
                    if let Ok((b, p4)) = g_expr(ts, p3) {
                        lemma_wrap_named(ps, b);
                    }
                }
            }
        }
    }
}

proof fn lemma_params_named(ts: Seq<STok>, p: nat)
    requires
        idents_named(ts),
    ensures
        g_params(ts, p) matches Ok((ps, _)) ==> params_named(ps),
    decreases ts.len() - p, 0nat,
{
    if !(speek(ts, p) == Some(STok::Dot) || speek(ts, p) == Some(STok::FatArrow)) {
        let (paren, p1) = g_eat(ts, p, STok::LParen);
        lemma_ident_named(ts, p1);
        if let Ok((n, p2)) = g_ident(ts, p1) {
            if let Ok((ann, p3)) = g_opt_ann(ts, p2) {
                let close = if paren {
                    g_expect(ts, p3, STok::RParen)
                } else {
                    Ok(((), p3))
                };
                if let Ok((_, p4)) = close {
                    if fwd(ts, p, p4) {
                        lemma_params_named(ts, p4);
                        if let Ok((rest, p5)) = g_params(ts, p4) {
                            let ps = seq![(n, ann)] + rest;
                            assert forall|k: int| 0 <= k < ps.len() implies no_lf(
                                #[trigger] ps[k].0,
                            ) by {
                                if k > 0 {
                                    assert(ps[k] == rest[k - 1]);
                                }
                            }
                        }
                    }
                }
            }
        }
    } else {
        assert(params_named(Seq::<(Seq<char>, Option<Ty>)>::empty()));
    }
}

proof fn lemma_expr_ann_named(ts: Seq<STok>, p: nat)
    requires
        idents_named(ts),
    ensures
        g_expr_ann(ts, p) matches Ok((t, _)) ==> names_ok(t),
    decreases ts.len() - p, 11nat,
{
    lemma_expr_cmp_named(ts, p);
}

#[verifier::spinoff_prover]
#[verifier::rlimit(60)]
proof fn lemma_expr_cmp_named(ts: Seq<STok>, p: nat)
    requires
        idents_named(ts),
    ensures
        g_expr_cmp(ts, p) matches Ok((t, _)) ==> names_ok(t),
    decreases ts.len() - p, 10nat,
{
    lemma_expr_add_named(ts, p);
    if let Ok((lhs, p1)) = g_expr_add(ts, p) {
        if p <= p1 <= ts.len() {
            lemma_cmp_rest_named(ts, p1, lhs);
        }
    }
}

proof fn lemma_cmp_rest_named(ts: Seq<STok>, p: nat, lhs: STm)
    requires
        idents_named(ts),
        names_ok(lhs),
    ensures
        g_cmp_rest(ts, p, lhs) matches Ok((t, _)) ==> names_ok(t),
    decreases ts.len() - p, 9nat,
{
    if speek(ts, p) == Some(STok::EqEq) {
        lemma_expr_add_named(ts, p + 1);
        if let Ok((rhs, p1)) = g_expr_add(ts, p + 1) {
            if fwd(ts, p, p1) {
                lemma_cmp_rest_named(ts, p1, STm::Bin(BinOp::Eq, Box::new(lhs), Box::new(rhs)));
            }
        }
    }
}

#[verifier::spinoff_prover]
#[verifier::rlimit(60)]
proof fn lemma_expr_add_named(ts: Seq<STok>, p: nat)
    requires
        idents_named(ts),
    ensures
        g_expr_add(ts, p) matches Ok((t, _)) ==> names_ok(t),
    decreases ts.len() - p, 8nat,
{
    lemma_expr_mul_named(ts, p);
    if let Ok((lhs, p1)) = g_expr_mul(ts, p) {
        if p <= p1 <= ts.len() {
            lemma_add_rest_named(ts, p1, lhs);
        }
    }
}

proof fn lemma_add_rest_named(ts: Seq<STok>, p: nat, lhs: STm)
    requires
        idents_named(ts),
        names_ok(lhs),
    ensures
        g_add_rest(ts, p, lhs) matches Ok((t, _)) ==> names_ok(t),
    decreases ts.len() - p, 7nat,
{
    if let Some(op) = add_op(speek(ts, p)) {
        lemma_expr_mul_named(ts, p + 1);
        if let Ok((rhs, p1)) = g_expr_mul(ts, p + 1) {
            if fwd(ts, p, p1) {
                lemma_add_rest_named(ts, p1, STm::Bin(op, Box::new(lhs), Box::new(rhs)));
            }
        }
    }
}

#[verifier::spinoff_prover]
#[verifier::rlimit(60)]
proof fn lemma_expr_mul_named(ts: Seq<STok>, p: nat)
    requires
        idents_named(ts),
    ensures
        g_expr_mul(ts, p) matches Ok((t, _)) ==> names_ok(t),
    decreases ts.len() - p, 6nat,
{
    lemma_expr_app_named(ts, p);
    if let Ok((lhs, p1)) = g_expr_app(ts, p) {
        if p <= p1 <= ts.len() {
            lemma_mul_rest_named(ts, p1, lhs);
        }
    }
}

proof fn lemma_mul_rest_named(ts: Seq<STok>, p: nat, lhs: STm)
    requires
        idents_named(ts),
        names_ok(lhs),
    ensures
        g_mul_rest(ts, p, lhs) matches Ok((t, _)) ==> names_ok(t),
    decreases ts.len() - p, 5nat,
{
    if speek(ts, p) == Some(STok::Star) {
        lemma_expr_app_named(ts, p + 1);
        if let Ok((rhs, p1)) = g_expr_app(ts, p + 1) {
            if fwd(ts, p, p1) {
                lemma_mul_rest_named(ts, p1, STm::Bin(BinOp::Mul, Box::new(lhs), Box::new(rhs)));
            }
        }
    }
}

#[verifier::spinoff_prover]
#[verifier::rlimit(60)]
proof fn lemma_expr_app_named(ts: Seq<STok>, p: nat)
    requires
        idents_named(ts),
    ensures
        g_expr_app(ts, p) matches Ok((t, _)) ==> names_ok(t),
    decreases ts.len() - p, 4nat,
{
    lemma_expr_pre_named(ts, p);
    if let Ok((head, p1)) = g_expr_pre(ts, p) {
        if p <= p1 <= ts.len() {
            lemma_app_rest_named(ts, p1, head);
        }
    }
}

proof fn lemma_app_rest_named(ts: Seq<STok>, p: nat, head: STm)
    requires
        idents_named(ts),
        names_ok(head),
    ensures
        g_app_rest(ts, p, head) matches Ok((t, _)) ==> names_ok(t),
    decreases ts.len() - p, 3nat,
{
    if atom_start(speek(ts, p)) {
        lemma_expr_pre_named(ts, p);
        if let Ok((arg, p1)) = g_expr_pre(ts, p) {
            if fwd(ts, p, p1) {
                lemma_app_rest_named(ts, p1, STm::App(Box::new(head), Box::new(arg)));
            }
        }
    }
}

proof fn lemma_expr_pre_named(ts: Seq<STok>, p: nat)
    requires
        idents_named(ts),
    ensures
        g_expr_pre(ts, p) matches Ok((t, _)) ==> names_ok(t),
    decreases ts.len() - p, 2nat,
{
    match speek(ts, p) {
        Some(STok::Tilde) => lemma_expr_pre_named(ts, p + 1),
        Some(STok::Lt) => lemma_expr_named(ts, p + 1),
        _ => lemma_expr_atom_named(ts, p),
    }
}

proof fn lemma_expr_atom_named(ts: Seq<STok>, p: nat)
    requires
        idents_named(ts),
    ensures
        g_expr_atom(ts, p) matches Ok((t, _)) ==> names_ok(t),
    decreases ts.len() - p, 1nat,
{
    reveal(idents_named);
    if p < ts.len() {
        assert(speek(ts, p) == Some(ts[p as int]));
    }
    if speek(ts, p) == Some(STok::LParen) {
        lemma_expr_named(ts, p + 1);
    }
}

proof fn lemma_decl_named(ts: Seq<STok>, p: nat)
    requires
        idents_named(ts),
    ensures
        g_decl(ts, p) matches Ok((d, _)) ==> match d {
            SDecl::Let(n, _, b) => no_lf(n) && names_ok(b),
            SDecl::Eval(b) => names_ok(b),
        },
{
    match speek(ts, p) {
        Some(STok::Let) => {
            lemma_ident_named(ts, p + 1);
            if let Ok((n, p1)) = g_ident(ts, p + 1) {
                if let Ok((_, p2)) = g_expect(ts, p1, STok::Colon) {
                    if let Ok((ty, p3)) = g_ty(ts, p2) {
                        if let Ok((_, p4)) = g_expect(ts, p3, STok::Eq) {
                            lemma_expr_named(ts, p4);
                        }
                    }
                }
            }
        },
        Some(STok::Eval) => lemma_expr_named(ts, p + 1),
        _ => {},
    }
}

proof fn lemma_decls_named(ts: Seq<STok>, p: nat)
    requires
        idents_named(ts),
    ensures
        g_decls(ts, p) matches Ok((ds, _)) ==> decls_named(ds),
    decreases ts.len() - p,
{
    if p < ts.len() {
        lemma_decl_named(ts, p);
        if let Ok((d, p1)) = g_decl(ts, p) {
            if fwd(ts, p, p1) {
                lemma_decls_named(ts, p1);
                if let Ok((rest, p2)) = g_decls(ts, p1) {
                    let ds = seq![d] + rest;
                    assert forall|k: int| 0 <= k < ds.len() implies match #[trigger] ds[k] {
                        SDecl::Let(n, _, b) => no_lf(n) && names_ok(b),
                        SDecl::Eval(b) => names_ok(b),
                    } by {
                        if k > 0 {
                            assert(ds[k] == rest[k - 1]);
                        }
                    }
                }
            }
        }
    } else {
        assert(decls_named(Seq::<SDecl>::empty()));
    }
}

/// The lexer makes identifiers of identifier characters only, which are no
/// line feeds.
proof fn lemma_lex_named(s: Seq<u8>, i: nat)
    ensures
        lex_from(s, i) matches Ok(v) ==> idents_named(lexed_toks(v)),
    decreases s.len() - i,
{
    reveal(idents_named);
    if i < s.len() {
        lemma_scan_progress(s, i);
        match scan(s, i) {
            Scan::Skip(j) => lemma_lex_named(s, j),
            Scan::Tok(t, j) => {
                lemma_lex_named(s, j);
                if let Ok(rest) = lex_from(s, j) {
                    let v = seq![(t, i as usize, j as usize)] + rest;
                    if let STok::Ident(w) = t {
                        lemma_run_end(s, i + 1, |c: u8| is_ident_char(c));
                        assert forall|k: int| 0 <= k < w.len() implies #[trigger] w[k] != '\n' by {
                            assert(w[k] == (s.subrange(i as int, j as int)[k] as char));
                            assert(s.subrange(i as int, j as int)[k] == s[i + k]);
                            assert(is_ident_start(s[i as int]) || is_ident_char(s[i + k]));
                        }
                    }
                    reveal(idents_named);
                    let lv = lexed_toks(v);
                    assert forall|k: int| 0 <= k < lv.len() implies (#[trigger] lv[k] matches STok::Ident(
                        w,
                    ) ==> no_lf(w)) by {
                        if k > 0 {
                            assert(lv[k] == lexed_toks(rest)[k - 1]);
                        }
                    }
                }
            },
            Scan::Bad(_) => {},
        }
    }
}

/// What parsing a program gives holds no name with a line feed.
pub(crate) proof fn lemma_program_named(src: Seq<u8>)
    ensures
        program_spec(src) matches Ok(ds) ==> decls_named(ds),
{
    lemma_lex_named(src, 0);
    if let Ok(toks) = lex_from(src, 0) {
        lemma_decls_named(lexed_toks(toks), 0);
    }
}

} // verus!
