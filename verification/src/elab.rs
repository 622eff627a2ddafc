use std::rc::Rc;
use vstd::prelude::*;

use crate::errors::{rview, type_error, Error, SErr};
use crate::pretty::{ty as pretty_ty, ty_text};
use crate::syntax::{rc_clone, stage_str, ty_eq, BinOp, Name, STm, Stage, Tm, Ty};
use crate::text::{push_str, push_string};

verus! {

/// What the checker knows of a variable: its type and the stage it was
/// bound at.
#[derive(Debug, Clone)]
struct Binding {
    ty: Rc<Ty>,
    stage: Stage,
}

/// One binding of a scope, and the bindings made before it.
#[derive(Debug)]
struct Frame {
    name: Name,
    binding: Binding,
    rest: Option<Rc<Frame>>,
}

/// A typing scope: the variables in scope, the latest binding last.
#[derive(Debug, Clone, Default)]
pub struct Env {
    scope: Option<Rc<Frame>>,
}

/// A typing scope in the model: name, type and stage of each binding, the
/// latest last.
pub type TyScope = Seq<(Seq<char>, Ty, Stage)>;

spec fn frames_view(f: Option<Rc<Frame>>) -> TyScope
    decreases f,
{
    match f {
        None => Seq::empty(),
        Some(fr) => frames_view(fr.rest).push((fr.name@, *fr.binding.ty, fr.binding.stage)),
    }
}

impl View for Env {
    type V = TyScope;

    closed spec fn view(&self) -> TyScope {
        frames_view(self.scope)
    }
}

/// The latest binding of `n` in a scope, with its type and stage.
pub open spec fn ty_lookup(s: TyScope, n: Seq<char>) -> Option<(Ty, Stage)>
    decreases s.len(),
{
    if s.len() == 0 {
        None
    } else if s.last().0 == n {
        Some((s.last().1, s.last().2))
    } else {
        ty_lookup(s.drop_last(), n)
    }
}

impl Env {
    /// The empty scope.
    pub fn new() -> (e: Self)
        ensures
            e@ == Seq::<(Seq<char>, Ty, Stage)>::empty(),
    {
        Self { scope: None }
    }

    /// The scope extended by `n`, of type `ty`, bound at `stage`.
    fn push(&self, n: Name, ty: Rc<Ty>, stage: Stage) -> (e: Self)
        ensures
            e@ == self@.push((n@, *ty, stage)),
    {
        let rest = match &self.scope {
            Some(f) => Some(rc_clone(f)),
            None => None,
        };
        Self { scope: Some(Rc::new(Frame { name: n, binding: Binding { ty, stage }, rest })) }
    }

    /// Binds `n` to type `ty` at stage 0, over any earlier binding of `n`.
    pub fn bind(&mut self, n: Name, ty: Rc<Ty>)
        ensures
            final(self)@ == old(self)@.push((n@, *ty, Stage::Zero)),
    {
        let next = self.push(n, ty, Stage::Zero);
        *self = next;
    }

    /// The latest binding of `n`.
    fn lookup(&self, n: &Name) -> (b: Option<(Rc<Ty>, Stage)>)
        ensures
            match b {
                Some((t, s)) => ty_lookup(self@, n@) == Some((*t, s)),
                None => ty_lookup(self@, n@) is None,
            },
    {
        let mut cur: &Option<Rc<Frame>> = &self.scope;
        loop
            invariant
                ty_lookup(self@, n@) == ty_lookup(frames_view(*cur), n@),
            decreases *cur,
        {
            match cur {
                None => {
                    return None;
                },
                Some(f) => {
                    if f.name == *n {
                        return Some((rc_clone(&f.binding.ty), f.binding.stage));
                    }
                    proof {
                        let s = frames_view(*cur);
                        assert(s.drop_last() =~= frames_view(f.rest));
                    }
                    cur = &f.rest;
                },
            }
        }
    }
}

/// The message of a failed comparison of types.
pub open spec fn mismatch_msg(expected: Ty, got: Ty) -> Seq<char> {
    "expected "@ + ty_text(expected, 0) + ", got "@ + ty_text(got, 0)
}

/// The message of a lambda whose annotation is not the expected domain.
pub open spec fn lam_ann_msg(ann: Ty, dom: Ty) -> Seq<char> {
    "lambda parameter annotated "@ + ty_text(ann, 0) + ", expected "@ + ty_text(dom, 0)
}

/// The message of a variable used at the wrong stage.
pub open spec fn stage_msg(n: Seq<char>, bound: Stage, used: Stage) -> Seq<char> {
    "variable `"@ + n + "` bound at stage "@ + stage_str(bound) + " but used at stage "@
        + stage_str(used)
}

/// The message of an unbound variable.
pub open spec fn unbound_msg(n: Seq<char>) -> Seq<char> {
    "unbound variable `"@ + n + "`"@
}

/// The type of a `let`-bound value: its annotation, against which it is
/// checked, or else its inferred type.
pub open spec fn let_ty(env: TyScope, st: Stage, ann: Option<Ty>, v: STm) -> Result<Ty, SErr>
    decreases v, 3nat,
{
    match ann {
        Some(a) => match check_spec(env, st, v, a) {
            Ok(_) => Ok(a),
            Err(e) => Err(e),
        },
        None => infer_spec(env, st, v),
    }
}

/// Checking by inference: the inferred type must be the expected one.
pub open spec fn check_by_infer(env: TyScope, st: Stage, t: STm, ty: Ty) -> Result<(), SErr>
    decreases t, 1nat,
{
    match infer_spec(env, st, t) {
        Err(e) => Err(e),
        Ok(i) => if i == ty {
            Ok(())
        } else {
            Err(SErr::Type(mismatch_msg(ty, i)))
        },
    }
}

/// Bidirectional checking of `t` against `ty` at stage `st`: lambdas take
/// their domain from an arrow, a quote at stage 0 checks its body at stage 1
/// against the type of code, `if` and `let` pass the type inward; everything
/// else is inferred and compared.
pub open spec fn check_spec(env: TyScope, st: Stage, t: STm, ty: Ty) -> Result<(), SErr>
    decreases t, 2nat,
{
    match t {
        STm::Lam(n, ann, b) => match ty {
            Ty::Arr(a, r) => if ann is Some && ann->0 != *a {
                Err(SErr::Type(lam_ann_msg(ann->0, *a)))
            } else {
                check_spec(env.push((n, *a, st)), st, *b, *r)
            },
            _ => check_by_infer(env, st, t, ty),
        },
        STm::Quote(e) => match ty {
            Ty::Code(inner) => if st == Stage::Zero {
                check_spec(env, Stage::One, *e, *inner)
            } else {
                check_by_infer(env, st, t, ty)
            },
            _ => check_by_infer(env, st, t, ty),
        },
        STm::If(c, th, el) => match check_spec(env, st, *c, Ty::Bool) {
            Err(e) => Err(e),
            Ok(_) => match check_spec(env, st, *th, ty) {
                Err(e) => Err(e),
                Ok(_) => check_spec(env, st, *el, ty),
            },
        },
        STm::Let(n, ann, v, b) => match let_ty(env, st, ann, *v) {
            Err(e) => Err(e),
            Ok(vt) => check_spec(env.push((n, vt, st)), st, *b, ty),
        },
        _ => check_by_infer(env, st, t, ty),
    }
}

/// The type inferred for `t` at stage `st`.  A variable must be used at the
/// stage it was bound at; a quote is only allowed at stage 0 and gives code,
/// a splice only at stage 1 and needs code at stage 0.
pub open spec fn infer_spec(env: TyScope, st: Stage, t: STm) -> Result<Ty, SErr>
    decreases t, 0nat,
{
    match t {
        STm::Var(n) => match ty_lookup(env, n) {
            Some((ty, bst)) => if bst != st {
                Err(SErr::Type(stage_msg(n, bst, st)))
            } else {
                Ok(ty)
            },
            None => Err(SErr::Type(unbound_msg(n))),
        },
        STm::NatLit(_) => Ok(Ty::Nat),
        STm::BoolLit(_) => Ok(Ty::Bool),
        STm::Lam(n, ann, b) => match ann {
            Some(a) => match infer_spec(env.push((n, a, st)), st, *b) {
                Err(e) => Err(e),
                Ok(r) => Ok(Ty::Arr(Rc::new(a), Rc::new(r))),
            },
            None => Err(SErr::Type("cannot infer lambda without parameter annotation"@)),
        },
        STm::App(f, a) => match infer_spec(env, st, *f) {
            Err(e) => Err(e),
            Ok(ft) => match ft {
                Ty::Arr(dom, cod) => match check_spec(env, st, *a, *dom) {
                    Err(e) => Err(e),
                    Ok(_) => Ok(*cod),
                },
                _ => Err(SErr::Type("applying non-function of type "@ + ty_text(ft, 0))),
            },
        },
        STm::Let(n, ann, v, b) => match let_ty(env, st, ann, *v) {
            Err(e) => Err(e),
            Ok(vt) => infer_spec(env.push((n, vt, st)), st, *b),
        },
        STm::Bin(op, a, b) => match check_spec(env, st, *a, Ty::Nat) {
            Err(e) => Err(e),
            Ok(_) => match check_spec(env, st, *b, Ty::Nat) {
                Err(e) => Err(e),
                Ok(_) => Ok(
                    if op == BinOp::Eq {
                        Ty::Bool
                    } else {
                        Ty::Nat
                    },
                ),
            },
        },
        STm::If(c, th, el) => match check_spec(env, st, *c, Ty::Bool) {
            Err(e) => Err(e),
            Ok(_) => match infer_spec(env, st, *th) {
                Err(e) => Err(e),
                Ok(tt) => match check_spec(env, st, *el, tt) {
                    Err(e) => Err(e),
                    Ok(_) => Ok(tt),
                },
            },
        },
        STm::Quote(e) => if st != Stage::Zero {
            Err(SErr::Type("quote `<..>` is only valid at stage 0"@))
        } else {
            match infer_spec(env, Stage::One, *e) {
                Err(e) => Err(e),
                Ok(inner) => Ok(Ty::Code(Rc::new(inner))),
            }
        },
        STm::Splice(e) => if st != Stage::One {
            Err(SErr::Type("splice `~e` is only valid at stage 1"@))
        } else {
            match infer_spec(env, Stage::Zero, *e) {
                Err(e) => Err(e),
                Ok(code) => match code {
                    Ty::Code(inner) => Ok(*inner),
                    _ => Err(SErr::Type("splice of non-code type "@ + ty_text(code, 0))),
                },
            }
        },
        STm::Ann(e, ty) => match check_spec(env, st, *e, ty) {
            Err(e) => Err(e),
            Ok(_) => Ok(ty),
        },
    }
}

/// Checks a top-level definition against its declared type, at stage 0.
pub fn check_decl(env: &Env, t: &Tm, ty: &Rc<Ty>) -> (r: Result<(), Error>)
    ensures
        rview(r) == check_spec(env@, Stage::Zero, t@, ty@),
{
    check(env, Stage::Zero, t, ty)
}

/// Infers the type of a top-level term, at stage 0.
pub fn infer_top(env: &Env, t: &Tm) -> (r: Result<Rc<Ty>, Error>)
    ensures
        rview(r) == infer_spec(env@, Stage::Zero, t@),
{
    infer(env, Stage::Zero, t)
}

fn mismatch_error(expected: &Ty, got: &Ty) -> (e: Error)
    ensures
        e@ == SErr::Type(mismatch_msg(*expected, *got)),
{
    let mut m = String::new();
    push_str(&mut m, "expected ");
    let a = pretty_ty(expected);
    push_string(&mut m, &a);
    push_str(&mut m, ", got ");
    let b = pretty_ty(got);
    push_string(&mut m, &b);
    assert(m@ =~= mismatch_msg(*expected, *got));
    type_error(m)
}

fn lam_ann_error(ann: &Ty, dom: &Ty) -> (e: Error)
    ensures
        e@ == SErr::Type(lam_ann_msg(*ann, *dom)),
{
    let mut m = String::new();
    push_str(&mut m, "lambda parameter annotated ");
    let a = pretty_ty(ann);
    push_string(&mut m, &a);
    push_str(&mut m, ", expected ");
    let b = pretty_ty(dom);
    push_string(&mut m, &b);
    assert(m@ =~= lam_ann_msg(*ann, *dom));
    type_error(m)
}

fn message_with_ty(prefix: &str, t: &Ty) -> (e: Error)
    ensures
        e@ == SErr::Type(prefix@ + ty_text(*t, 0)),
{
    let mut m = String::new();
    push_str(&mut m, prefix);
    let a = pretty_ty(t);
    push_string(&mut m, &a);
    type_error(m)
}

fn plain_error(msg: &str) -> (e: Error)
    ensures
        e@ == SErr::Type(msg@),
{
    let mut m = String::new();
    push_str(&mut m, msg);
    assert(m@ =~= msg@);
    type_error(m)
}

/// The type of a `let`-bound value.
fn let_type(env: &Env, stage: Stage, ann: &Option<Rc<Ty>>, v: &Tm) -> (r: Result<Rc<Ty>, Error>)
    ensures
        rview(r) == let_ty(env@, stage, crate::syntax::ann_view(*ann), v@),
    decreases v, 3nat,
{
    match ann {
        Some(a) => {
            check(env, stage, v, a)?;
            Ok(rc_clone(a))
        },
        None => infer(env, stage, v),
    }
}

fn check_infer(env: &Env, stage: Stage, t: &Tm, ty: &Rc<Ty>) -> (r: Result<(), Error>)
    ensures
        rview(r) == check_by_infer(env@, stage, t@, ty@),
    decreases t, 1nat,
{
    let inferred = infer(env, stage, t)?;
    if !ty_eq(&inferred, ty) {
        return Err(mismatch_error(ty, &inferred));
    }
    Ok(())
}

fn check(env: &Env, stage: Stage, t: &Tm, ty: &Rc<Ty>) -> (r: Result<(), Error>)
    ensures
        rview(r) == check_spec(env@, stage, t@, ty@),
    decreases t, 2nat,
{
    match t {
        Tm::Lam(n, ann, b) => match &**ty {
            Ty::Arr(a, r) => {
                if let Some(ann_ty) = ann {
                    if !ty_eq(ann_ty, a) {
                        return Err(lam_ann_error(ann_ty, a));
                    }
                }
                let env2 = env.push(n.clone(), rc_clone(a), stage);
                check(&env2, stage, b, r)
            },
            _ => check_infer(env, stage, t, ty),
        },
        Tm::Quote(e) => match &**ty {
            Ty::Code(inner) => {
                if stage == Stage::Zero {
                    check(env, Stage::One, e, inner)
                } else {
                    check_infer(env, stage, t, ty)
                }
            },
            _ => check_infer(env, stage, t, ty),
        },
        Tm::If(c, th, el) => {
            check(env, stage, c, &Rc::new(Ty::Bool))?;
            check(env, stage, th, ty)?;
            check(env, stage, el, ty)
        },
        Tm::Let(n, ann, v, b) => {
            let v_ty = let_type(env, stage, ann, v)?;
            let env2 = env.push(n.clone(), v_ty, stage);
            check(&env2, stage, b, ty)
        },
        _ => check_infer(env, stage, t, ty),
    }
}

fn infer(env: &Env, stage: Stage, t: &Tm) -> (r: Result<Rc<Ty>, Error>)
    ensures
        rview(r) == infer_spec(env@, stage, t@),
    decreases t, 0nat,
{
    match t {
        Tm::Var(n) => match env.lookup(n) {
            Some((ty, bst)) => {
                if bst != stage {
                    let mut m = String::new();
                    push_str(&mut m, "variable `");
                    push_string(&mut m, n);
                    push_str(&mut m, "` bound at stage ");
                    push_str(&mut m, bst.as_str());
                    push_str(&mut m, " but used at stage ");
                    push_str(&mut m, stage.as_str());
                    assert(m@ =~= stage_msg(n@, bst, stage));
                    return Err(type_error(m));
                }
                Ok(ty)
            },
            None => {
                let mut m = String::new();
                push_str(&mut m, "unbound variable `");
                push_string(&mut m, n);
                push_str(&mut m, "`");
                assert(m@ =~= unbound_msg(n@));
                Err(type_error(m))
            },
        },
        Tm::NatLit(_) => Ok(Rc::new(Ty::Nat)),
        Tm::BoolLit(_) => Ok(Rc::new(Ty::Bool)),
        Tm::Lam(n, ann, b) => match ann {
            Some(a) => {
                let env2 = env.push(n.clone(), rc_clone(a), stage);
                let r = infer(&env2, stage, b)?;
                Ok(Rc::new(Ty::Arr(rc_clone(a), r)))
            },
            None => Err(plain_error("cannot infer lambda without parameter annotation")),
        },
        Tm::App(f, a) => {
            let ft = infer(env, stage, f)?;
            match &*ft {
                Ty::Arr(dom, cod) => {
                    check(env, stage, a, dom)?;
                    Ok(rc_clone(cod))
                },
                _ => Err(message_with_ty("applying non-function of type ", &ft)),
            }
        },
        Tm::Let(n, ann, v, b) => {
            let v_ty = let_type(env, stage, ann, v)?;
            let env2 = env.push(n.clone(), v_ty, stage);
            infer(&env2, stage, b)
        },
        Tm::Bin(op, a, b) => {
            let out_ty = match op {
                BinOp::Add | BinOp::Sub | BinOp::Mul => Ty::Nat,
                BinOp::Eq => Ty::Bool,
            };
            let in_ty = Rc::new(Ty::Nat);
            check(env, stage, a, &in_ty)?;
            check(env, stage, b, &in_ty)?;
            Ok(Rc::new(out_ty))
        },
        Tm::If(c, th, el) => {
            check(env, stage, c, &Rc::new(Ty::Bool))?;
            let tt = infer(env, stage, th)?;
            check(env, stage, el, &tt)?;
            Ok(tt)
        },
        Tm::Quote(e) => {
            if stage != Stage::Zero {
                return Err(plain_error("quote `<..>` is only valid at stage 0"));
            }
            let inner = infer(env, Stage::One, e)?;
            Ok(Rc::new(Ty::Code(inner)))
        },
        Tm::Splice(e) => {
            if stage != Stage::One {
                return Err(plain_error("splice `~e` is only valid at stage 1"));
            }
            let code = infer(env, Stage::Zero, e)?;
            match &*code {
                Ty::Code(inner) => Ok(rc_clone(inner)),
                _ => Err(message_with_ty("splice of non-code type ", &code)),
            }
        },
        Tm::Ann(e, ty) => {
            check(env, stage, e, ty)?;
            Ok(rc_clone(ty))
        },
    }
}


/// Typing rule of quotes: if `e : A` at stage 1, then `<e> : Code A` at
/// stage 0, both by inference and by checking; if `e` does not type-check
/// at stage 1, neither does `<e>` at stage 0, with the same error.
pub proof fn law_quote_typing(env: TyScope, e: STm, a: Ty)
    ensures
        infer_spec(env, Stage::One, e) == Ok::<_, SErr>(a) ==> infer_spec(
            env,
            Stage::Zero,
            STm::Quote(Box::new(e)),
        ) == Ok::<_, SErr>(Ty::Code(Rc::new(a))),
        check_spec(env, Stage::One, e, a) == Ok::<_, SErr>(()) ==> check_spec(
            env,
            Stage::Zero,
            STm::Quote(Box::new(e)),
            Ty::Code(Rc::new(a)),
        ) == Ok::<_, SErr>(()),
        infer_spec(env, Stage::One, e) matches Err(err) ==> infer_spec(
            env,
            Stage::Zero,
            STm::Quote(Box::new(e)),
        ) == Err::<Ty, _>(err),
{
}

/// Typing rule of splices: if `e : Code A` at stage 0, then `~e : A` at
/// stage 1; a splice of a term of another type, or of one that does not
/// type-check, is an error.
pub proof fn law_splice_typing(env: TyScope, e: STm, a: Ty)
    ensures
        infer_spec(env, Stage::Zero, e) == Ok::<_, SErr>(Ty::Code(Rc::new(a))) ==> infer_spec(
            env,
            Stage::One,
            STm::Splice(Box::new(e)),
        ) == Ok::<_, SErr>(a),
        infer_spec(env, Stage::Zero, e) matches Ok(c) ==> (!(c is Code) ==> infer_spec(
            env,
            Stage::One,
            STm::Splice(Box::new(e)),
        ) == Err::<Ty, _>(SErr::Type("splice of non-code type "@ + ty_text(c, 0)))),
        infer_spec(env, Stage::Zero, e) matches Err(err) ==> infer_spec(
            env,
            Stage::One,
            STm::Splice(Box::new(e)),
        ) == Err::<Ty, _>(err),
{
}

/// Typing rule of application: when `f` has type `A -> B`, `f a` has type
/// `B` exactly when the argument checks against `A`; the argument need not
/// have a type of its own (an unannotated lambda will do), and when it does
/// not check, that error is the application's.
pub proof fn law_application_typing(env: TyScope, st: Stage, f: STm, a: STm, dom: Ty, cod: Ty)
    requires
        infer_spec(env, st, f) == Ok::<_, SErr>(Ty::Arr(Rc::new(dom), Rc::new(cod))),
    ensures
        check_spec(env, st, a, dom) is Ok ==> infer_spec(
            env,
            st,
            STm::App(Box::new(f), Box::new(a)),
        ) == Ok::<_, SErr>(cod),
        check_spec(env, st, a, dom) matches Err(e) ==> infer_spec(
            env,
            st,
            STm::App(Box::new(f), Box::new(a)),
        ) == Err::<Ty, _>(e),
{
}

/// Typing rule of ascription: `e : T` has type `T` exactly when `e` checks
/// against `T`, whether or not a type can be inferred for `e` alone; when
/// `e` does not check, that error is the ascription's.
pub proof fn law_ascription_typing(env: TyScope, st: Stage, e: STm, ty: Ty)
    ensures
        check_spec(env, st, e, ty) is Ok ==> infer_spec(env, st, STm::Ann(Box::new(e), ty))
            == Ok::<_, SErr>(ty),
        check_spec(env, st, e, ty) matches Err(err) ==> infer_spec(
            env,
            st,
            STm::Ann(Box::new(e), ty),
        ) == Err::<Ty, _>(err),
{
}

/// An unannotated lambda has no type of its own, yet checks against any
/// function type whose codomain its body checks against: so it can be the
/// argument of an application or the term of an ascription.
pub proof fn law_unannotated_lambda_checks(
    env: TyScope,
    st: Stage,
    n: Seq<char>,
    b: STm,
    dom: Ty,
    cod: Ty,
)
    ensures
        infer_spec(env, st, STm::Lam(n, None, Box::new(b))) is Err,
        check_spec(env.push((n, dom, st)), st, b, cod) is Ok ==> check_spec(
            env,
            st,
            STm::Lam(n, None, Box::new(b)),
            Ty::Arr(Rc::new(dom), Rc::new(cod)),
        ) is Ok,
{
}

/// Typing rule of operators: a binary operation has a type exactly when
/// both operands check as numbers, and its type is `Bool` for `==` and
/// `Nat` for `+`, `-` and `*`.
pub proof fn law_operator_typing(env: TyScope, st: Stage, op: BinOp, a: STm, b: STm)
    ensures
        infer_spec(env, st, STm::Bin(op, Box::new(a), Box::new(b))) is Ok <==> (check_spec(
            env,
            st,
            a,
            Ty::Nat,
        ) is Ok && check_spec(env, st, b, Ty::Nat) is Ok),
        infer_spec(env, st, STm::Bin(op, Box::new(a), Box::new(b))) matches Ok(t) ==> t == (
        if op == BinOp::Eq {
            Ty::Bool
        } else {
            Ty::Nat
        }),
{
}

/// Quotes belong to stage 0 and splices to stage 1: a quote at stage 1 and a
/// splice at stage 0 are type errors.
pub proof fn law_stage_discipline(env: TyScope, e: STm)
    ensures
        infer_spec(env, Stage::One, STm::Quote(Box::new(e))) is Err,
        infer_spec(env, Stage::Zero, STm::Splice(Box::new(e))) is Err,
{
}

/// Checking agrees with inference: a term checks against the type inferred
/// for it.
pub proof fn law_check_accepts_inferred(env: TyScope, st: Stage, t: STm)
    ensures
        infer_spec(env, st, t) matches Ok(a) ==> check_spec(env, st, t, a) is Ok,
    decreases t,
{
    match t {
        STm::Lam(n, ann, b) => {
            if let Some(a) = ann {
                law_check_accepts_inferred(env.push((n, a, st)), st, *b);
            }
        },
        STm::Quote(e) => {
            if st == Stage::Zero {
                law_check_accepts_inferred(env, Stage::One, *e);
            }
        },
        STm::If(c, th, el) => {
            law_check_accepts_inferred(env, st, *th);
        },
        STm::Let(n, ann, v, b) => {
            if let Ok(vt) = let_ty(env, st, ann, *v) {
                law_check_accepts_inferred(env.push((n, vt, st)), st, *b);
            }
        },
        _ => {
            if let Ok(x) = infer_spec(env, st, t) {
                assert(check_spec(env, st, t, x) == check_by_infer(env, st, t, x));
            }
        },
    }
}

} // verus!
