use std::rc::Rc;
use tiny_2ltt::elab::{check_decl, infer_top, Env};
use tiny_2ltt::errors::Error;
use tiny_2ltt::parse::parse_expr;
use tiny_2ltt::pretty;
use tiny_2ltt::syntax::{name, Ty};

fn infer(src: &str) -> Result<String, Error> {
    let t = parse_expr(src).unwrap();
    infer_top(&Env::new(), &t).map(|ty| pretty::ty(&ty))
}

fn type_err(src: &str) -> String {
    match infer(src) {
        Err(Error::Type(m)) => m,
        other => panic!("expected a type error, got {other:?}"),
    }
}

#[test]
fn literals_and_operators() {
    assert_eq!(infer("1 + 2").unwrap(), "Nat");
    assert_eq!(infer("1 == 2").unwrap(), "Bool");
    assert_eq!(infer("if true then 1 else 2").unwrap(), "Nat");
}

#[test]
fn quote_gives_code_at_stage_zero() {
    assert_eq!(infer("<1 + 2>").unwrap(), "Code Nat");
    assert_eq!(infer("<\\(x : Nat). x>").unwrap(), "Code (Nat -> Nat)");
}

#[test]
fn splice_takes_code_back_to_stage_one() {
    assert_eq!(infer("<~<true>>").unwrap(), "Code Bool");
    assert_eq!(infer("let c : Code Nat = <1> in <~c + 1>").unwrap(), "Code Nat");
}

#[test]
fn quote_at_stage_one_is_rejected() {
    assert_eq!(type_err("<<1>>"), "quote `<..>` is only valid at stage 0");
}

#[test]
fn splice_at_stage_zero_is_rejected() {
    assert_eq!(type_err("~x"), "splice `~e` is only valid at stage 1");
}

#[test]
fn splice_of_non_code() {
    assert_eq!(type_err("<~1>"), "splice of non-code type Nat");
}

#[test]
fn variables_keep_their_stage() {
    assert_eq!(
        type_err("\\(x : Nat). <x>"),
        "variable `x` bound at stage 0 but used at stage 1"
    );
    assert_eq!(
        type_err("<\\(y : Nat). ~y>"),
        "variable `y` bound at stage 1 but used at stage 0"
    );
}

#[test]
fn unbound_variable() {
    assert_eq!(type_err("z"), "unbound variable `z`");
}

#[test]
fn applying_a_number() {
    assert_eq!(type_err("1 2"), "applying non-function of type Nat");
}

#[test]
fn unannotated_lambda_cannot_be_inferred() {
    assert_eq!(type_err("\\x. x"), "cannot infer lambda without parameter annotation");
}

#[test]
fn mismatch_reports_both_types() {
    assert_eq!(type_err("if 1 then 2 else 3"), "expected Bool, got Nat");
    assert_eq!(type_err("(1 : Bool)"), "expected Bool, got Nat");
}

#[test]
fn checking_pushes_arrow_domains_into_lambdas() {
    let t = parse_expr("\\x. x + 1").unwrap();
    let ty = Rc::new(Ty::arr(Ty::Nat, Ty::Nat));
    assert!(check_decl(&Env::new(), &t, &ty).is_ok());
    let wrong = Rc::new(Ty::arr(Ty::Bool, Ty::Nat));
    match check_decl(&Env::new(), &parse_expr("\\(x : Nat). x").unwrap(), &wrong) {
        Err(Error::Type(m)) => assert_eq!(m, "lambda parameter annotated Nat, expected Bool"),
        other => panic!("unexpected {other:?}"),
    }
}

#[test]
fn quote_is_checked_against_code() {
    let t = parse_expr("<\\x. x>").unwrap();
    let ty = Rc::new(Ty::code(Ty::arr(Ty::Nat, Ty::Nat)));
    assert!(check_decl(&Env::new(), &t, &ty).is_ok());
}

#[test]
fn bound_names_are_visible_at_stage_zero() {
    let mut env = Env::new();
    env.bind(name("f"), Rc::new(Ty::arr(Ty::Nat, Ty::Bool)));
    let t = parse_expr("f 3").unwrap();
    assert_eq!(pretty::ty(&infer_top(&env, &t).unwrap()), "Bool");
    env.bind(name("f"), Rc::new(Ty::Nat));
    assert_eq!(pretty::ty(&infer_top(&env, &parse_expr("f").unwrap()).unwrap()), "Nat");
}

#[test]
fn what_is_inferred_also_checks() {
    for src in ["<1 + 2>", "let x = 1 in x", "if true then <1> else <2>", "(\\(x : Nat). x) 1"] {
        let t = parse_expr(src).unwrap();
        let ty = infer_top(&Env::new(), &t).unwrap();
        assert!(check_decl(&Env::new(), &t, &ty).is_ok(), "{src}");
    }
}

#[test]
fn recursive_definitions_see_themselves() {
    let out = tiny_2ltt::run_program(
        "let f : Nat -> Nat = \\n. if n == 0 then 0 else f (n - 1); eval f 3;",
    )
    .unwrap();
    assert_eq!(out, "let f : Nat -> Nat\n0 : Nat\n");
}

#[test]
fn programs_stop_at_the_first_type_error() {
    match tiny_2ltt::run_program("eval 1; eval 1 + true; eval 2;") {
        Err(Error::Type(m)) => assert_eq!(m, "expected Nat, got Bool"),
        other => panic!("unexpected {other:?}"),
    }
}
