use tiny_2ltt::errors::Error;
use tiny_2ltt::parse::{parse_expr, parse_program};
use tiny_2ltt::pretty;
use tiny_2ltt::syntax::{BinOp, Decl, Tm, Ty};

fn show(src: &str) -> String {
    pretty::tm(&parse_expr(src).unwrap())
}

fn expr_err(src: &str) -> String {
    match parse_expr(src) {
        Err(Error::Parse(m)) => m,
        other => panic!("expected a parse error, got {other:?}"),
    }
}

fn prog_err(src: &str) -> String {
    match parse_program(src) {
        Err(Error::Parse(m)) => m,
        other => panic!("expected a parse error, got {other:?}"),
    }
}

#[test]
fn multiplication_binds_tighter_than_addition() {
    match parse_expr("1 + 2 * 3").unwrap() {
        Tm::Bin(BinOp::Add, a, b) => {
            assert!(matches!(*a, Tm::NatLit(1)));
            assert!(matches!(&*b, Tm::Bin(BinOp::Mul, _, _)));
        }
        other => panic!("unexpected {other:?}"),
    }
}

#[test]
fn operators_group_to_the_left() {
    assert_eq!(show("a - b - c"), "a - b - c");
    assert_eq!(show("a - (b - c)"), "a - (b - c)");
    assert_eq!(show("(1 == 2) == 3"), "(1 == 2) == 3");
    assert_eq!(show("1 == 2 == 3"), "(1 == 2) == 3");
}

#[test]
fn application_groups_to_the_left() {
    match parse_expr("f x y").unwrap() {
        Tm::App(f, y) => {
            assert!(matches!(&*y, Tm::Var(n) if n == "y"));
            assert!(matches!(&*f, Tm::App(_, _)));
        }
        other => panic!("unexpected {other:?}"),
    }
    assert_eq!(show("f (g x)"), "f (g x)");
}

#[test]
fn lambda_parameters_nest_to_the_right() {
    match parse_expr("\\x (y : Nat). x").unwrap() {
        Tm::Lam(x, None, body) => {
            assert_eq!(x, "x");
            match &*body {
                Tm::Lam(y, Some(t), inner) => {
                    assert_eq!(y, "y");
                    assert_eq!(**t, Ty::Nat);
                    assert!(matches!(&**inner, Tm::Var(n) if n == "x"));
                }
                other => panic!("unexpected {other:?}"),
            }
        }
        other => panic!("unexpected {other:?}"),
    }
}

#[test]
fn fn_arrow_syntax_and_bare_annotation() {
    assert_eq!(show("fn x y => x y"), "\\x. \\y. x y");
    assert!(matches!(parse_expr("fn x : Nat => x").unwrap(), Tm::Lam(_, Some(_), _)));
}

#[test]
fn lambda_without_parameters_is_its_body() {
    assert!(matches!(parse_expr("\\. 5").unwrap(), Tm::NatLit(5)));
}

#[test]
fn quotes_splices_and_annotations() {
    assert_eq!(show("<~x * ~(f y)>"), "<~x * ~(f y)>");
    assert_eq!(show("(1 : Nat) + 2"), "(1 : Nat) + 2");
    assert!(matches!(parse_expr("x : Code Nat").unwrap(), Tm::Ann(_, _)));
}

#[test]
fn let_and_if() {
    assert_eq!(
        show("let x : Nat = 1 in if x == 1 then true else false"),
        "let x = 1 in if x == 1 then true else false"
    );
}

#[test]
fn types_parse_with_arrows_to_the_right() {
    let decls = parse_program("let f : (Nat -> Nat) -> Code (Code Nat) -> Bool = 1;").unwrap();
    match &decls[0] {
        Decl::Let(n, ty, _) => {
            assert_eq!(n, "f");
            assert_eq!(pretty::ty(ty), "(Nat -> Nat) -> Code (Code Nat) -> Bool");
        }
        other => panic!("unexpected {other:?}"),
    }
}

#[test]
fn programs_are_lists_of_declarations() {
    let decls = parse_program("let x : Nat = 1; eval x; eval <x>;").unwrap();
    assert_eq!(decls.len(), 3);
    assert!(matches!(decls[1], Decl::Eval(_)));
}

#[test]
fn missing_operand() {
    assert_eq!(expr_err("1 +"), "expected atom, got None");
}

#[test]
fn missing_closing_bracket() {
    assert_eq!(expr_err("(1"), "expected RParen, got None");
    assert_eq!(expr_err("<1"), "expected Gt, got None");
}

#[test]
fn trailing_tokens() {
    assert_eq!(expr_err("1 2 )"), "trailing tokens after expression: Some(RParen)");
}

#[test]
fn let_needs_in() {
    assert_eq!(expr_err("let x = 1"), "expected In, got None");
    assert_eq!(expr_err("let 3 = 1 in x"), "expected identifier, got Some(Num(3))");
}

#[test]
fn declaration_errors() {
    assert_eq!(prog_err("foo;"), "expected `let` or `eval`, got Some(Ident(\"foo\"))");
    assert_eq!(prog_err("let : Nat = 1;"), "expected identifier, got Some(Colon)");
    assert_eq!(prog_err("let x : = 1;"), "expected type, got Some(Eq)");
    assert_eq!(prog_err("eval 1"), "expected Semi, got None");
}

#[test]
fn lexical_errors_come_first() {
    assert_eq!(prog_err("eval 1 # 2;"), "unexpected character at 7..8");
}

#[test]
fn printed_terms_parse_back_without_binder_annotations() {
    let srcs = [
        "\\(x : Nat). let y : Nat = x + 1 * 2 in if y == 3 then <~f y> else (x : Nat)",
        "f (g x) (h - (1 - 2)) * (a + b)",
        "(\\x. x) (let z = 1 in z) == (1 == 2)",
        "~(f x) 3 : Code (Nat -> Bool)",
    ];
    for src in srcs {
        let t = parse_expr(src).unwrap();
        let text = pretty::tm(&t);
        let back = parse_expr(&text).unwrap();
        assert_eq!(pretty::tm(&back), text);
    }
    match parse_expr(&pretty::tm(&parse_expr("\\(x : Nat). x").unwrap())).unwrap() {
        Tm::Lam(_, ann, _) => assert!(ann.is_none()),
        _ => panic!("expected a lambda"),
    }
}

