use tiny_2ltt::run_program;

const POW: &str = "
let pow : Nat -> Code Nat -> Code Nat =
  \\n. \\x. if n == 0 then <1> else <~x * ~(pow (n - 1) x)>;

eval <\\(y : Nat). ~(pow 5 <y>)>;
";

#[test]
fn pow_five_is_unrolled() {
    let out = run_program(POW).unwrap();
    assert_eq!(
        out,
        "let pow : Nat -> Code Nat -> Code Nat\n\
         <\\y_0. y_0 * (y_0 * (y_0 * (y_0 * (y_0 * 1))))> : Code (Nat -> Nat)\n"
    );
}

#[test]
fn demo_pow_four() {
    let src = "
let pow : Nat -> Code Nat -> Code Nat =
  \\n. \\x. if n == 0 then <1> else <~x * ~(pow (n - 1) x)>;

eval <\\(y : Nat). ~(pow 4 <y>)>;
";
    let out = run_program(src).unwrap();
    assert_eq!(
        out,
        "let pow : Nat -> Code Nat -> Code Nat\n\
         <\\y_0. y_0 * (y_0 * (y_0 * (y_0 * 1)))> : Code (Nat -> Nat)\n"
    );
}

#[test]
fn fastpow_shares_squarings() {
    let src = "
let mod2 : Nat -> Nat = \\n. if n == 0 then 0 else if n == 1 then 1 else mod2 (n - 2);
let div2 : Nat -> Nat = \\n. if n == 0 then 0 else if n == 1 then 0 else 1 + div2 (n - 2);
let sq : Code Nat -> Code Nat = \\c. <let y : Nat = ~c in y * y>;

let fastpow : Nat -> Code Nat -> Code Nat = \\n. \\x.
  if n == 0 then <1>
  else if mod2 n == 0 then sq (fastpow (div2 n) x)
  else <~x * ~(sq (fastpow (div2 n) x))>;

eval <\\(z : Nat). ~(fastpow 13 <z>)>;
";
    let out = run_program(src).unwrap();
    let last = out.lines().last().unwrap();
    assert_eq!(
        last,
        "<\\z_0. z_0 * (let y_4 = let y_3 = z_0 * (let y_2 = z_0 * (let y_1 = 1 in y_1 * y_1) in y_2 * y_2) in y_3 * y_3 in y_4 * y_4)> : Code (Nat -> Nat)"
    );
    assert!(out.starts_with("let mod2 : Nat -> Nat\nlet div2 : Nat -> Nat\nlet sq : Code Nat -> Code Nat\nlet fastpow : Nat -> Code Nat -> Code Nat\n"));
}

#[test]
fn stage_zero_values_are_printed() {
    let out = run_program("eval 1 + 2 * 3; eval 2 == 2; eval <1 + 2>;").unwrap();
    assert_eq!(out, "7 : Nat\ntrue : Bool\n<1 + 2> : Code Nat\n");
}

#[test]
fn splice_of_quote_reduces() {
    let out = run_program("eval <~<1 + 2>>;").unwrap();
    assert_eq!(out, "<1 + 2> : Code Nat\n");
}

#[test]
fn closures_are_shown_as_lambdas() {
    let out = run_program("eval \\(x : Nat). x + 1;").unwrap();
    assert_eq!(out, "\\x. x + 1 : Nat -> Nat\n");
}

#[test]
fn negative_results_are_shown_with_minus() {
    let out = run_program("eval 1 - 5;").unwrap();
    assert_eq!(out, "-4 : Nat\n");
}

#[test]
fn empty_program_prints_nothing() {
    assert_eq!(run_program("-- only a comment\n").unwrap(), "");
}

#[test]
fn one_line_per_declaration() {
    let out = run_program("let a : Nat = 1;\neval a + 1;\nlet b : Bool = true;\neval <1 + 1>;").unwrap();
    let lines: Vec<&str> = out.lines().collect();
    assert_eq!(lines, vec!["let a : Nat", "2 : Nat", "let b : Bool", "<1 + 1> : Code Nat"]);
    assert!(out.ends_with('\n'));
}
