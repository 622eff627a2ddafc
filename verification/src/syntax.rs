use std::rc::Rc;
use vstd::prelude::*;

use crate::text::string_of;

verus! {

/// A variable name.
pub type Name = String;

/// The name spelled by `s`.
pub fn name(s: &str) -> (n: Name)
    ensures
        n@ == s@,
{
    string_of(s)
}

/// Types: natural numbers, booleans, functions and code of a type.
#[derive(Debug, Clone, PartialEq, Eq)]
pub enum Ty {
    Nat,
    Bool,
    Arr(Rc<Ty>, Rc<Ty>),
    Code(Rc<Ty>),
}

impl View for Ty {
    type V = Ty;

    open spec fn view(&self) -> Ty {
        *self
    }
}

impl Ty {
    /// The function type from `a` to `b`.
    pub fn arr(a: Self, b: Self) -> (t: Self)
        ensures
            t == Ty::Arr(Rc::new(a), Rc::new(b)),
    {
        Self::Arr(Rc::new(a), Rc::new(b))
    }

    /// The type of code that computes an `a`.
    pub fn code(a: Self) -> (t: Self)
        ensures
            t == Ty::Code(Rc::new(a)),
    {
        Self::Code(Rc::new(a))
    }
}

/// `Rc::clone` gives another pointer to the same value; this is believed, not
/// proved.
#[verifier::external_body]
pub(crate) fn rc_clone<T>(r: &Rc<T>) -> (c: Rc<T>)
    ensures
        c == *r,
{
    Rc::clone(r)
}

/// Structural equality of types.
pub(crate) fn ty_eq(a: &Ty, b: &Ty) -> (r: bool)
    ensures
        r == (*a == *b),
    decreases a,
{
    match (a, b) {
        (Ty::Nat, Ty::Nat) => true,
        (Ty::Bool, Ty::Bool) => true,
        (Ty::Arr(a1, a2), Ty::Arr(b1, b2)) => ty_eq(a1, b1) && ty_eq(a2, b2),
        (Ty::Code(a1), Ty::Code(b1)) => ty_eq(a1, b1),
        _ => false,
    }
}

/// Binary operators on numbers.
#[derive(Debug, Clone, Copy, PartialEq, Eq, Structural)]
pub enum BinOp {
    Add,
    Sub,
    Mul,
    Eq,
}

/// The symbol of an operator.
pub open spec fn binop_str(op: BinOp) -> Seq<char> {
    match op {
        BinOp::Add => "+"@,
        BinOp::Sub => "-"@,
        BinOp::Mul => "*"@,
        BinOp::Eq => "=="@,
    }
}

impl BinOp {
    /// The symbol of the operator.
    pub fn as_str(self) -> (s: &'static str)
        ensures
            s@ == binop_str(self),
    {
        match self {
            Self::Add => "+",
            Self::Sub => "-",
            Self::Mul => "*",
            Self::Eq => "==",
        }
    }
}

/// Terms.
#[derive(Debug, Clone)]
pub enum Tm {
    Var(Name),
    NatLit(i64),
    BoolLit(bool),
    Lam(Name, Option<Rc<Ty>>, Rc<Tm>),
    App(Rc<Tm>, Rc<Tm>),
    Let(Name, Option<Rc<Ty>>, Rc<Tm>, Rc<Tm>),
    Bin(BinOp, Rc<Tm>, Rc<Tm>),
    If(Rc<Tm>, Rc<Tm>, Rc<Tm>),
    Quote(Rc<Tm>),
    Splice(Rc<Tm>),
    Ann(Rc<Tm>, Rc<Ty>),
}

/// The mathematical model of a term: names are sequences of characters.
pub enum STm {
    Var(Seq<char>),
    NatLit(i64),
    BoolLit(bool),
    Lam(Seq<char>, Option<Ty>, Box<STm>),
    App(Box<STm>, Box<STm>),
    Let(Seq<char>, Option<Ty>, Box<STm>, Box<STm>),
    Bin(BinOp, Box<STm>, Box<STm>),
    If(Box<STm>, Box<STm>, Box<STm>),
    Quote(Box<STm>),
    Splice(Box<STm>),
    Ann(Box<STm>, Ty),
}

/// The model of an optional annotation.
pub open spec fn ann_view(a: Option<Rc<Ty>>) -> Option<Ty> {
    match a {
        Some(t) => Some(*t),
        None => None,
    }
}

/// The model of a term.
pub open spec fn tm_view(t: Tm) -> STm
    decreases t,
{
    match t {
        Tm::Var(n) => STm::Var(n@),
        Tm::NatLit(i) => STm::NatLit(i),
        Tm::BoolLit(b) => STm::BoolLit(b),
        Tm::Lam(n, a, b) => STm::Lam(n@, ann_view(a), Box::new(tm_view(*b))),
        Tm::App(f, a) => STm::App(Box::new(tm_view(*f)), Box::new(tm_view(*a))),
        Tm::Let(n, a, v, b) => STm::Let(
            n@,
            ann_view(a),
            Box::new(tm_view(*v)),
            Box::new(tm_view(*b)),
        ),
        Tm::Bin(op, a, b) => STm::Bin(op, Box::new(tm_view(*a)), Box::new(tm_view(*b))),
        Tm::If(c, t, e) => STm::If(
            Box::new(tm_view(*c)),
            Box::new(tm_view(*t)),
            Box::new(tm_view(*e)),
        ),
        Tm::Quote(e) => STm::Quote(Box::new(tm_view(*e))),
        Tm::Splice(e) => STm::Splice(Box::new(tm_view(*e))),
        Tm::Ann(e, ty) => STm::Ann(Box::new(tm_view(*e)), *ty),
    }
}

impl View for Tm {
    type V = STm;

    open spec fn view(&self) -> STm {
        tm_view(*self)
    }
}

/// A copy of an optional annotation.
pub(crate) fn copy_ann(a: &Option<Rc<Ty>>) -> (r: Option<Rc<Ty>>)
    ensures
        ann_view(r) == ann_view(*a),
{
    match a {
        Some(t) => Some(rc_clone(t)),
        None => None,
    }
}

/// A copy of a term; the subterms are shared.
pub(crate) fn copy_tm(t: &Tm) -> (r: Tm)
    ensures
        r@ == t@,
{
    match t {
        Tm::Var(n) => Tm::Var(n.clone()),
        Tm::NatLit(i) => Tm::NatLit(*i),
        Tm::BoolLit(b) => Tm::BoolLit(*b),
        Tm::Lam(n, a, b) => Tm::Lam(n.clone(), copy_ann(a), rc_clone(b)),
        Tm::App(f, a) => Tm::App(rc_clone(f), rc_clone(a)),
        Tm::Let(n, a, v, b) => Tm::Let(n.clone(), copy_ann(a), rc_clone(v), rc_clone(b)),
        Tm::Bin(op, a, b) => Tm::Bin(*op, rc_clone(a), rc_clone(b)),
        Tm::If(c, th, el) => Tm::If(rc_clone(c), rc_clone(th), rc_clone(el)),
        Tm::Quote(e) => Tm::Quote(rc_clone(e)),
        Tm::Splice(e) => Tm::Splice(rc_clone(e)),
        Tm::Ann(e, ty) => Tm::Ann(rc_clone(e), rc_clone(ty)),
    }
}

/// Top-level declarations: a named, typed definition, or a term to evaluate.
#[derive(Debug, Clone)]
pub enum Decl {
    Let(Name, Rc<Ty>, Rc<Tm>),
    Eval(Rc<Tm>),
}

/// The model of a declaration.
pub enum SDecl {
    Let(Seq<char>, Ty, STm),
    Eval(STm),
}

impl View for Decl {
    type V = SDecl;

    open spec fn view(&self) -> SDecl {
        match self {
            Decl::Let(n, ty, t) => SDecl::Let(n@, **ty, tm_view(**t)),
            Decl::Eval(t) => SDecl::Eval(tm_view(**t)),
        }
    }
}

/// The two stages: 0 runs at compile time, 1 is the generated program.
#[derive(Debug, Clone, Copy, PartialEq, Eq, Structural)]
pub enum Stage {
    Zero,
    One,
}

/// How a stage is written.
pub open spec fn stage_str(s: Stage) -> Seq<char> {
    match s {
        Stage::Zero => "0"@,
        Stage::One => "1"@,
    }
}

impl Stage {
    /// How the stage is written: `0` or `1`.
    pub fn as_str(self) -> (s: &'static str)
        ensures
            s@ == stage_str(self),
    {
        match self {
            Self::Zero => "0",
            Self::One => "1",
        }
    }
}

} // verus!
