use std::rc::Rc;
use tiny_2ltt::parse::parse_program;
use tiny_2ltt::pretty;
use tiny_2ltt::syntax::{name, BinOp, Decl, Stage, Tm, Ty};

#[test]
fn types() {
    assert_eq!(pretty::ty(&Ty::Nat), "Nat");
    assert_eq!(pretty::ty(&Ty::arr(Ty::Nat, Ty::arr(Ty::Bool, Ty::Nat))), "Nat -> Bool -> Nat");
    assert_eq!(pretty::ty(&Ty::arr(Ty::arr(Ty::Nat, Ty::Nat), Ty::Nat)), "(Nat -> Nat) -> Nat");
    assert_eq!(pretty::ty(&Ty::code(Ty::arr(Ty::Nat, Ty::Nat))), "Code (Nat -> Nat)");
    assert_eq!(pretty::ty(&Ty::code(Ty::code(Ty::Bool))), "Code (Code Bool)");
    assert_eq!(pretty::ty(&Ty::arr(Ty::code(Ty::Nat), Ty::Nat)), "Code Nat -> Nat");
}

fn v(n: &str) -> Rc<Tm> {
    Rc::new(Tm::Var(name(n)))
}

#[test]
fn terms() {
    let app = Tm::App(Rc::new(Tm::App(v("f"), v("x"))), Rc::new(Tm::App(v("g"), v("y"))));
    assert_eq!(pretty::tm(&app), "f x (g y)");
    let lam = Tm::Lam(name("x"), Some(Rc::new(Ty::Nat)), v("x"));
    assert_eq!(pretty::tm(&lam), "\\x. x");
    let arg = Tm::App(v("f"), Rc::new(lam.clone()));
    assert_eq!(pretty::tm(&arg), "f (\\x. x)");
    let spl = Tm::Splice(Rc::new(Tm::App(v("f"), v("x"))));
    assert_eq!(pretty::tm(&spl), "~(f x)");
    let q = Tm::Quote(Rc::new(Tm::Let(name("y"), None, v("a"), v("y"))));
    assert_eq!(pretty::tm(&q), "<let y = a in y>");
    let ann = Tm::Bin(
        BinOp::Add,
        Rc::new(Tm::Ann(Rc::new(Tm::NatLit(1)), Rc::new(Ty::Nat))),
        Rc::new(Tm::NatLit(-2)),
    );
    assert_eq!(pretty::tm(&ann), "(1 : Nat) + -2");
    let iff = Tm::If(Rc::new(Tm::BoolLit(true)), Rc::new(Tm::NatLit(1)), Rc::new(Tm::NatLit(2)));
    assert_eq!(pretty::tm(&Tm::Bin(BinOp::Mul, Rc::new(iff), v("z"))), "(if true then 1 else 2) * z");
}

#[test]
fn operator_symbols() {
    assert_eq!(BinOp::Add.as_str(), "+");
    assert_eq!(BinOp::Sub.as_str(), "-");
    assert_eq!(BinOp::Mul.as_str(), "*");
    assert_eq!(BinOp::Eq.as_str(), "==");
    assert_eq!(Stage::Zero.as_str(), "0");
    assert_eq!(Stage::One.as_str(), "1");
}

#[test]
fn names_and_constructors() {
    assert_eq!(name("abc"), "abc");
    assert_eq!(Ty::arr(Ty::Nat, Ty::Bool), Ty::Arr(Rc::new(Ty::Nat), Rc::new(Ty::Bool)));
    assert_eq!(Ty::code(Ty::Nat), Ty::Code(Rc::new(Ty::Nat)));
}

#[test]
fn printed_types_parse_back() {
    let tys = vec![
        Ty::Nat,
        Ty::arr(Ty::arr(Ty::Nat, Ty::Nat), Ty::code(Ty::arr(Ty::Nat, Ty::Bool))),
        Ty::code(Ty::code(Ty::Bool)),
        Ty::arr(Ty::code(Ty::Nat), Ty::arr(Ty::Bool, Ty::Nat)),
    ];
    for t in tys {
        let src = format!("let x : {} = x;", pretty::ty(&t));
        match &parse_program(&src).unwrap()[0] {
            Decl::Let(_, read, _) => assert_eq!(**read, t),
            Decl::Eval(_) => panic!("expected a definition"),
        }
    }
}
