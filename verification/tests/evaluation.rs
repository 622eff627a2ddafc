use tiny_2ltt::errors::Error;
use tiny_2ltt::eval::{eval0, fresh_name_from, val_to_tm, Env, Gen, Globals, Val};
use tiny_2ltt::parse::parse_expr;
use tiny_2ltt::pretty;
use tiny_2ltt::syntax::{name, Tm};

fn run(gl: &Globals, src: &str) -> Result<Val, Error> {
    let t = parse_expr(src).unwrap();
    let mut g = Gen::new();
    eval0(gl, &mut g, &Env::new(), &t)
}

fn show(src: &str) -> String {
    let v = run(&Globals::new(), src).unwrap();
    pretty::tm(&val_to_tm(&v))
}

fn runtime_err(src: &str) -> String {
    match run(&Globals::new(), src) {
        Err(Error::Runtime(m)) => m,
        other => panic!("expected a runtime error, got {other:?}"),
    }
}

#[test]
fn arithmetic_and_comparison() {
    assert_eq!(show("2 * (3 + 4) - 1"), "13");
    assert_eq!(show("3 == 3"), "true");
    assert_eq!(show("3 == 4"), "false");
}

#[test]
fn let_and_application() {
    assert_eq!(show("let f = \\x. x * x in f 7"), "49");
    assert_eq!(show("(\\x y. x - y) 10 4"), "6");
}

#[test]
fn quote_evaluates_only_the_splices() {
    assert_eq!(show("<1 + ~(<2> )>"), "<1 + 2>");
    assert_eq!(show("let c = <3 * 3> in <~c + ~c>"), "<3 * 3 + 3 * 3>");
}

#[test]
fn splice_of_quote_is_the_quoted_term_at_run_time() {
    assert_eq!(show("<~<1 + 2>>"), show("<1 + 2>"));
}

#[test]
fn binders_under_quotes_get_fresh_names() {
    assert_eq!(show("<\\x. \\x. x>"), "<\\x_0. \\x_1. x_1>");
    assert_eq!(show("<let y = 1 in y>"), "<let y_0 = 1 in y_0>");
}

#[test]
fn fresh_names_drop_trailing_digits_and_underscores() {
    assert_eq!(show("<\\x12. x12>"), "<\\x_0. x_0>");
    assert_eq!(show("<\\a1_. a1_>"), "<\\a1_0. a1_0>");
    assert_eq!(show("<\\__1. __1>"), "<\\x_0. x_0>");
}

#[test]
fn the_counter_carries_on_across_calls() {
    let gl = Globals::new();
    let mut g = Gen::new();
    let t = parse_expr("<\\x. x>").unwrap();
    let a = eval0(&gl, &mut g, &Env::new(), &t).unwrap();
    let b = eval0(&gl, &mut g, &Env::new(), &t).unwrap();
    assert_eq!(pretty::tm(&val_to_tm(&a)), "<\\x_0. x_0>");
    assert_eq!(pretty::tm(&val_to_tm(&b)), "<\\x_1. x_1>");
}

#[test]
fn residual_code_has_no_quote_splice_or_ascription() {
    let out = show("let f = \\c. <~c * (2 : Nat)> in f <~<1>>");
    assert_eq!(out, "<1 * 2>");
}

#[test]
fn globals_are_looked_up_and_redefined() {
    let mut gl = Globals::new();
    gl.bind(name("x"), Val::Nat(1));
    assert!(matches!(run(&gl, "x + 1").unwrap(), Val::Nat(2)));
    gl.bind(name("x"), Val::Nat(10));
    assert!(matches!(run(&gl, "x + 1").unwrap(), Val::Nat(11)));
    gl.bind(name("y"), Val::Bool(true));
    assert!(matches!(run(&gl, "x").unwrap(), Val::Nat(10)));
}

#[test]
fn locals_hide_globals() {
    let mut gl = Globals::new();
    gl.bind(name("x"), Val::Nat(1));
    assert!(matches!(run(&gl, "let x = 5 in x").unwrap(), Val::Nat(5)));
}

#[test]
fn value_read_back() {
    assert!(matches!(val_to_tm(&Val::Nat(3)), Tm::NatLit(3)));
    assert!(matches!(val_to_tm(&Val::Bool(false)), Tm::BoolLit(false)));
    assert_eq!(show("\\(x : Nat). x"), "\\x. x");
    assert_eq!(show("<1>"), "<1>");
}

#[test]
fn if_on_non_bool() {
    assert_eq!(runtime_err("if 1 then 2 else 3"), "if on non-bool");
}

#[test]
fn applying_non_function() {
    assert_eq!(runtime_err("1 2"), "applying non-function");
}

#[test]
fn binary_op_on_non_nat() {
    assert_eq!(runtime_err("true + 1"), "binary op on non-nat");
}

#[test]
fn overflow_is_an_error() {
    assert_eq!(runtime_err("9223372036854775807 + 1"), "integer overflow");
    assert_eq!(runtime_err("0 - 9223372036854775807 - 2"), "integer overflow");
    assert_eq!(runtime_err("4611686018427387904 * 2"), "integer overflow");
    assert_eq!(show("0 - 9223372036854775807 - 1"), "-9223372036854775808");
}

#[test]
fn splice_at_stage_zero() {
    assert_eq!(runtime_err("~x"), "splice at stage 0");
}

#[test]
fn nested_quote() {
    assert_eq!(runtime_err("<<1>>"), "nested quote at stage 1");
}

#[test]
fn splice_of_non_code_at_run_time() {
    assert_eq!(runtime_err("<~1>"), "splice of non-code");
}

#[test]
fn variables_used_at_the_wrong_stage() {
    assert_eq!(runtime_err("(\\x. <x>) 1"), "stage-0 variable `x` used at stage 1");
    assert_eq!(runtime_err("<\\x. ~x>"), "stage-1 variable `x` used at stage 0");
}

#[test]
fn unbound_variables() {
    assert_eq!(runtime_err("z"), "unbound variable `z`");
    assert_eq!(runtime_err("<z>"), "unbound stage-1 variable `z`");
}

#[test]
fn well_typed_terms_run_to_values_of_their_type() {
    let src = "let f : Nat -> Nat = \\x. x + 1;\neval f 2;\neval <\\(y : Nat). ~<y>>;";
    assert_eq!(
        tiny_2ltt::run_program(src).unwrap(),
        "let f : Nat -> Nat\n3 : Nat\n<\\y_0. y_0> : Code (Nat -> Nat)\n"
    );
}

#[test]
fn redefining_a_global_at_another_type_can_go_wrong() {
    let src = "let f : Nat = 1;\nlet g : Nat -> Nat = \\x. f;\nlet f : Bool = true;\neval g 0 + 1;";
    match tiny_2ltt::run_program(src) {
        Err(Error::Runtime(m)) => assert_eq!(m, "binary op on non-nat"),
        other => panic!("unexpected {:?}", other),
    }
}

#[test]
fn a_definition_that_uses_itself_at_once_is_unbound() {
    match tiny_2ltt::run_program("let x : Nat = x;") {
        Err(Error::Runtime(m)) => assert_eq!(m, "unbound variable `x`"),
        other => panic!("unexpected {:?}", other),
    }
}

#[test]
fn fresh_names_from_given_numeric_flags() {
    assert_eq!(fresh_name_from("y", &vec![false], 0), "y_0");
    assert_eq!(fresh_name_from("x12_", &vec![false, true, true, false], 3), "x12_3");
    assert_eq!(fresh_name_from("x_12", &vec![false, false, true, true], 3), "x_3");
    assert_eq!(fresh_name_from("42", &vec![true, true], 7), "x_7");
    assert_eq!(fresh_name_from("ab", &vec![false, true], 1), "a_1");
    assert_eq!(fresh_name_from("", &vec![], 5), "x_5");
}
