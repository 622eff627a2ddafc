use vstd::prelude::*;

use crate::elab::{
    check_by_infer, check_spec, infer_spec, law_check_accepts_inferred, let_ty, ty_lookup, TyScope,
};
use crate::errors::SErr;
use crate::eval::{
    apply_spec, depth_msg, env_lookup, eval0_spec, eval1_spec, exhausted_names_msg, fresh_spec,
    overflow_msg, SEntry, SVal, VScope,
};
use crate::syntax::{STm, Stage, Ty};

verus! {

// Well-typed terms do not go wrong: what the checker accepts at stage 0 runs
// to a value of its type, and what it accepts at stage 1 is generated, unless
// evaluation runs out of depth or of fresh names, or a number overflows.

/// The errors that typing does not rule out: running out of depth or of fresh
/// names, and arithmetic overflow.
pub open spec fn benign(e: SErr) -> bool {
    ||| e == SErr::Runtime(depth_msg())
    ||| e == SErr::Runtime(overflow_msg())
    ||| e == SErr::Runtime(exhausted_names_msg())
}

/// `v` is a value of type `t`, where `genv` types the global definitions: a
/// number, a boolean, code of any type, or a closure whose scope matches a
/// typing scope under which its body checks against the codomain.
pub open spec fn val_has_ty(genv: TyScope, v: SVal, t: Ty) -> bool
    decreases v, 1nat,
{
    match v {
        SVal::Nat(_) => t == Ty::Nat,
        SVal::Bool(_) => t == Ty::Bool,
        SVal::Code(_) => t is Code,
        SVal::Lam(env, p, body) => match t {
            Ty::Arr(a, b) => exists|d: TyScope|
                scope_typed(genv, d, env) && (#[trigger] check_spec(
                    genv + d.push((p, *a, Stage::Zero)),
                    Stage::Zero,
                    body,
                    *b,
                )) is Ok,
            _ => false,
        },
    }
}

/// The local scope `env` matches the typing scope `d` binding by binding: a
/// stage-0 binding holds a value of its type, a stage-1 binding a fresh name.
pub open spec fn scope_typed(genv: TyScope, d: TyScope, env: VScope) -> bool
    decreases env, 0nat,
{
    if env.len() == 0 {
        d.len() == 0
    } else {
        proof {
            assert(decreases_to!(env => env[env.len() - 1]));
        }
        &&& d.len() == env.len()
        &&& scope_typed(genv, d.drop_last(), env.drop_last())
        &&& d[d.len() - 1].0 == env[env.len() - 1].0
        &&& match env[env.len() - 1].1 {
            SEntry::Val(v) => d[d.len() - 1].2 == Stage::Zero && val_has_ty(
                genv,
                v,
                d[d.len() - 1].1,
            ),
            SEntry::CodeVar(_) => d[d.len() - 1].2 == Stage::One,
        }
    }
}

/// Every global of the typing scope `genv` is bound at stage 0 and has a
/// value of its type in `gl`.
pub open spec fn globals_typed(gl: Map<Seq<char>, SVal>, genv: TyScope) -> bool {
    forall|n: Seq<char>|
        #[trigger] ty_lookup(genv, n) matches Some((t, st)) ==> st == Stage::Zero
            && gl.contains_key(n) && val_has_ty(genv, gl[n], t)
}

proof fn lemma_scope_push(
    genv: TyScope,
    d: TyScope,
    env: VScope,
    n: Seq<char>,
    t: Ty,
    st: Stage,
    e: SEntry,
)
    requires
        scope_typed(genv, d, env),
        match e {
            SEntry::Val(v) => st == Stage::Zero && val_has_ty(genv, v, t),
            SEntry::CodeVar(_) => st == Stage::One,
        },
    ensures
        scope_typed(genv, d.push((n, t, st)), env.push((n, e))),
{
    assert(d.push((n, t, st)).drop_last() =~= d);
    assert(env.push((n, e)).drop_last() =~= env);
}

/// Looking a name up in a local scope agrees with looking it up in the typing
/// scope that it matches, on top of the globals.
proof fn lemma_lookup(genv: TyScope, d: TyScope, env: VScope, n: Seq<char>)
    requires
        scope_typed(genv, d, env),
    ensures
        match env_lookup(env, n) {
            Some(SEntry::Val(v)) => ty_lookup(genv + d, n) matches Some((t, st)) && st
                == Stage::Zero && val_has_ty(genv, v, t),
            Some(SEntry::CodeVar(_)) => ty_lookup(genv + d, n) matches Some((_, st)) && st
                == Stage::One,
            None => ty_lookup(genv + d, n) == ty_lookup(genv, n),
        },
    decreases env.len(),
{
    if env.len() == 0 {
        assert(genv + d =~= genv);
    } else {
        let g = genv + d;
        assert(g.drop_last() =~= genv + d.drop_last());
        assert(g[g.len() - 1] == d[d.len() - 1]);
        lemma_lookup(genv, d.drop_last(), env.drop_last(), n);
    }
}

/// What a run of a stage-0 term of type `ty` may end in.
pub open spec fn outcome0(genv: TyScope, r: Result<SVal, SErr>, ty: Ty) -> bool {
    match r {
        Ok(v) => val_has_ty(genv, v, ty),
        Err(e) => benign(e),
    }
}

/// What a run of a well-typed stage-1 term may end in.
pub open spec fn outcome1(r: Result<STm, SErr>) -> bool {
    match r {
        Ok(_) => true,
        Err(e) => benign(e),
    }
}

proof fn lemma_let_ty(env: TyScope, st: Stage, ann: Option<Ty>, v: STm)
    ensures
        let_ty(env, st, ann, v) matches Ok(vt) ==> check_spec(env, st, v, vt) is Ok,
{
    if ann is None {
        law_check_accepts_inferred(env, st, v);
    }
}

proof fn lemma_sound0(
    fuel: nat,
    gl: Map<Seq<char>, SVal>,
    c: nat,
    genv: TyScope,
    d: TyScope,
    env: VScope,
    t: STm,
    ty: Ty,
)
    requires
        globals_typed(gl, genv),
        scope_typed(genv, d, env),
        check_spec(genv + d, Stage::Zero, t, ty) is Ok,
    ensures
        outcome0(genv, eval0_spec(fuel, gl, c, env, t).0, ty),
    decreases fuel, 1nat,
{
    if fuel > 0 {
        let f = (fuel - 1) as nat;
        let g = genv + d;
        match t {
            STm::Var(n) => {
                lemma_lookup(genv, d, env, n);
            },
            STm::Lam(n, ann, b) => {
                match ty {
                    Ty::Arr(a, r) => {
                        assert(g.push((n, a@, Stage::Zero)) =~= genv + d.push((n, a@, Stage::Zero)));
                        assert(check_spec(genv + d.push((n, a@, Stage::Zero)), Stage::Zero, *b, r@)
                            is Ok);
                    },
                    _ => {},
                }
            },
            STm::App(fx, a) => {
                assert(check_by_infer(g, Stage::Zero, t, ty) is Ok);
                assert(infer_spec(g, Stage::Zero, t) == Ok::<_, SErr>(ty));
                assert(infer_spec(g, Stage::Zero, *fx) is Ok);
                let ft = infer_spec(g, Stage::Zero, *fx)->Ok_0;
                law_check_accepts_inferred(g, Stage::Zero, *fx);
                lemma_sound0(f, gl, c, genv, d, env, *fx, ft);
                let (rf, c1) = eval0_spec(f, gl, c, env, *fx);
                if let Ok(vf) = rf {
                    if let Ty::Arr(dom, cod) = ft {
                        lemma_sound0(f, gl, c1, genv, d, env, *a, dom@);
                        let (ra, c2) = eval0_spec(f, gl, c1, env, *a);
                        if let Ok(va) = ra {
                            lemma_apply(f, gl, c2, genv, vf, va, ft);
                        }
                    }
                }
            },
            STm::Let(n, ann, v, b) => {
                lemma_let_ty(g, Stage::Zero, ann, *v);
                let vt = let_ty(g, Stage::Zero, ann, *v)->Ok_0;
                lemma_sound0(f, gl, c, genv, d, env, *v, vt);
                let (rv, c1) = eval0_spec(f, gl, c, env, *v);
                if let Ok(vv) = rv {
                    lemma_scope_push(genv, d, env, n, vt, Stage::Zero, SEntry::Val(vv));
                    assert(g.push((n, vt, Stage::Zero)) =~= genv + d.push((n, vt, Stage::Zero)));
                    lemma_sound0(
                        f,
                        gl,
                        c1,
                        genv,
                        d.push((n, vt, Stage::Zero)),
                        env.push((n, SEntry::Val(vv))),
                        *b,
                        ty,
                    );
                }
            },
            STm::Bin(op, a, b) => {
                lemma_sound0(f, gl, c, genv, d, env, *a, Ty::Nat);
                let (ra, c1) = eval0_spec(f, gl, c, env, *a);
                if ra is Ok {
                    lemma_sound0(f, gl, c1, genv, d, env, *b, Ty::Nat);
                }
            },
            STm::If(cnd, th, el) => {
                lemma_sound0(f, gl, c, genv, d, env, *cnd, Ty::Bool);
                let (rc, c1) = eval0_spec(f, gl, c, env, *cnd);
                if rc is Ok {
                    lemma_sound0(f, gl, c1, genv, d, env, *th, ty);
                    lemma_sound0(f, gl, c1, genv, d, env, *el, ty);
                }
            },
            STm::Quote(e) => {
                if let Ty::Code(inner) = ty {
                    lemma_sound1(f, gl, c, genv, d, env, *e, inner@);
                }
            },
            STm::Ann(e, a) => {
                lemma_sound0(f, gl, c, genv, d, env, *e, a);
            },
            _ => {},
        }
    }
}

proof fn lemma_sound1(
    fuel: nat,
    gl: Map<Seq<char>, SVal>,
    c: nat,
    genv: TyScope,
    d: TyScope,
    env: VScope,
    t: STm,
    ty: Ty,
)
    requires
        globals_typed(gl, genv),
        scope_typed(genv, d, env),
        check_spec(genv + d, Stage::One, t, ty) is Ok,
    ensures
        outcome1(eval1_spec(fuel, gl, c, env, t).0),
    decreases fuel, 1nat,
{
    if fuel > 0 {
        let f = (fuel - 1) as nat;
        let g = genv + d;
        match t {
            STm::Var(n) => {
                lemma_lookup(genv, d, env, n);
            },
            STm::Lam(n, ann, b) => {
                let a: Ty = match ty {
                    Ty::Arr(a, r) => a@,
                    _ => ann->0,
                };
                let r: Ty = match ty {
                    Ty::Arr(a, r) => r@,
                    _ => infer_spec(g.push((n, a, Stage::One)), Stage::One, *b)->Ok_0,
                };
                if let Ty::Arr(a1, r1) = ty {
                    assert(check_spec(g.push((n, a, Stage::One)), Stage::One, *b, r) is Ok);
                } else {
                    assert(check_by_infer(g, Stage::One, t, ty) is Ok);
                    assert(infer_spec(g, Stage::One, t) is Ok);
                    law_check_accepts_inferred(g.push((n, a, Stage::One)), Stage::One, *b);
                }
                if let Ok(fr) = fresh_spec(n, c) {
                    lemma_scope_push(genv, d, env, n, a, Stage::One, SEntry::CodeVar(fr));
                    assert(g.push((n, a, Stage::One)) =~= genv + d.push((n, a, Stage::One)));
                    lemma_sound1(
                        f,
                        gl,
                        c + 1,
                        genv,
                        d.push((n, a, Stage::One)),
                        env.push((n, SEntry::CodeVar(fr))),
                        *b,
                        r,
                    );
                }
            },
            STm::App(fx, a) => {
                assert(check_by_infer(g, Stage::One, t, ty) is Ok);
                assert(infer_spec(g, Stage::One, t) == Ok::<_, SErr>(ty));
                assert(infer_spec(g, Stage::One, *fx) is Ok);
                let ft = infer_spec(g, Stage::One, *fx)->Ok_0;
                law_check_accepts_inferred(g, Stage::One, *fx);
                lemma_sound1(f, gl, c, genv, d, env, *fx, ft);
                let (rf, c1) = eval1_spec(f, gl, c, env, *fx);
                if rf is Ok {
                    if let Ty::Arr(dom, cod) = ft {
                        lemma_sound1(f, gl, c1, genv, d, env, *a, dom@);
                    }
                }
            },
            STm::Let(n, ann, v, b) => {
                lemma_let_ty(g, Stage::One, ann, *v);
                let vt = let_ty(g, Stage::One, ann, *v)->Ok_0;
                lemma_sound1(f, gl, c, genv, d, env, *v, vt);
                let (rv, c1) = eval1_spec(f, gl, c, env, *v);
                if rv is Ok {
                    if let Ok(fr) = fresh_spec(n, c1) {
                        lemma_scope_push(genv, d, env, n, vt, Stage::One, SEntry::CodeVar(fr));
                        assert(g.push((n, vt, Stage::One)) =~= genv + d.push((n, vt, Stage::One)));
                        lemma_sound1(
                            f,
                            gl,
                            c1 + 1,
                            genv,
                            d.push((n, vt, Stage::One)),
                            env.push((n, SEntry::CodeVar(fr))),
                            *b,
                            ty,
                        );
                    }
                }
            },
            STm::Bin(op, a, b) => {
                assert(check_by_infer(g, Stage::One, t, ty) is Ok);
                assert(infer_spec(g, Stage::One, t) is Ok);
                assert(check_spec(g, Stage::One, *a, Ty::Nat) is Ok);
                assert(check_spec(g, Stage::One, *b, Ty::Nat) is Ok);
                lemma_sound1(f, gl, c, genv, d, env, *a, Ty::Nat);
                let (ra, c1) = eval1_spec(f, gl, c, env, *a);
                if ra is Ok {
                    lemma_sound1(f, gl, c1, genv, d, env, *b, Ty::Nat);
                }
            },
            STm::If(cnd, th, el) => {
                lemma_sound1(f, gl, c, genv, d, env, *cnd, Ty::Bool);
                let (rc, c1) = eval1_spec(f, gl, c, env, *cnd);
                if rc is Ok {
                    lemma_sound1(f, gl, c1, genv, d, env, *th, ty);
                    let (rt, c2) = eval1_spec(f, gl, c1, env, *th);
                    if rt is Ok {
                        lemma_sound1(f, gl, c2, genv, d, env, *el, ty);
                    }
                }
            },
            STm::Splice(e) => {
                assert(check_by_infer(g, Stage::One, t, ty) is Ok);
                assert(infer_spec(g, Stage::One, t) == Ok::<_, SErr>(ty));
                assert(infer_spec(g, Stage::Zero, *e) is Ok);
                let code = infer_spec(g, Stage::Zero, *e)->Ok_0;
                law_check_accepts_inferred(g, Stage::Zero, *e);
                lemma_sound0(f, gl, c, genv, d, env, *e, code);
            },
            STm::Ann(e, a) => {
                lemma_sound1(f, gl, c, genv, d, env, *e, a);
            },
            _ => {},
        }
    }
}

proof fn lemma_apply(
    fuel: nat,
    gl: Map<Seq<char>, SVal>,
    c: nat,
    genv: TyScope,
    fv: SVal,
    av: SVal,
    ft: Ty,
)
    requires
        globals_typed(gl, genv),
        ft is Arr,
        val_has_ty(genv, fv, ft),
        val_has_ty(genv, av, ft->Arr_0@),
    ensures
        outcome0(genv, apply_spec(fuel, gl, c, fv, av).0, ft->Arr_1@),
    decreases fuel, 2nat,
{
    if let SVal::Lam(env, p, body) = fv {
        if let Ty::Arr(a, b) = ft {
            let d = choose|d: TyScope|
                scope_typed(genv, d, env) && (#[trigger] check_spec(
                    genv + d.push((p, *a, Stage::Zero)),
                    Stage::Zero,
                    body,
                    *b,
                )) is Ok;
            assert(scope_typed(genv, d, env));
            lemma_scope_push(genv, d, env, p, a@, Stage::Zero, SEntry::Val(av));
            lemma_sound0(
                fuel,
                gl,
                c,
                genv,
                d.push((p, a@, Stage::Zero)),
                env.push((p, SEntry::Val(av))),
                body,
                b@,
            );
        }
    }
}

/// Well-typed stage-0 terms do not go wrong.  When every global that the
/// typing scope `genv` names has a value of its type in `gl`, a term that
/// checks against `ty` at stage 0, or whose type is inferred to be `ty`
/// there, runs from an empty local scope to a value of type `ty`, or stops
/// only because evaluation ran out of depth or of fresh names or a number
/// overflowed: no error of shape or of stage happens, and every splice that
/// it runs gives code.
pub proof fn law_well_typed_terms_do_not_go_wrong(
    fuel: nat,
    gl: Map<Seq<char>, SVal>,
    c: nat,
    genv: TyScope,
    t: STm,
    ty: Ty,
)
    requires
        globals_typed(gl, genv),
        check_spec(genv, Stage::Zero, t, ty) is Ok || infer_spec(genv, Stage::Zero, t) == Ok::<
            _,
            SErr,
        >(ty),
    ensures
        outcome0(genv, eval0_spec(fuel, gl, c, Seq::empty(), t).0, ty),
{
    law_check_accepts_inferred(genv, Stage::Zero, t);
    let d = Seq::<(Seq<char>, Ty, Stage)>::empty();
    assert(genv + d =~= genv);
    lemma_sound0(fuel, gl, c, genv, d, Seq::empty(), t, ty);
}

} // verus!
