use vstd::prelude::*;
use vstd::string::*;

use crate::elab::{check_decl, check_spec, infer_spec, infer_top, Env as TyEnv, TyScope};
use crate::errors::{Error, SErr};
use crate::lines::{
    decls_named, globals_named, lemma_cat_lf, lemma_eval0_named, lemma_program_named,
    lemma_show_val_lf, lemma_ty_text_lf, names_ok, no_lf, val_named,
};
use crate::eval::{eval0, eval0_spec, max_depth, Env, Gen, Globals, SVal, Val};
use crate::parse::{decls_view, parse_program, program_spec, program_view};
use crate::pretty::{tm as pretty_tm, tm_text, ty as pretty_ty, ty_text};
use crate::syntax::{Decl, SDecl, Stage};
use crate::text::{dec_int, push_i64, push_str, push_string};

verus! {

/// How a value is shown: a number in decimal, `true` or `false`, code in
/// angle brackets, a closure as a lambda over its body.
pub open spec fn show_val_spec(v: SVal) -> Seq<char> {
    match v {
        SVal::Nat(n) => dec_int(n as int),
        SVal::Bool(b) => if b {
            "true"@
        } else {
            "false"@
        },
        SVal::Code(t) => "<"@ + tm_text(t, 0) + ">"@,
        SVal::Lam(_, p, body) => "\\"@ + p + ". "@ + tm_text(body, 0),
    }
}

/// Runs the declarations `ds` from the `i`-th on, given the typing scope,
/// the global values, the counter of fresh names and the output so far.  A
/// definition is in scope of its own body, is checked against its type, run
/// and printed as `let x : ty`; an `eval` is inferred, run and printed as
/// `value : ty`.  The first error ends the run.
pub open spec fn run_decls(
    ds: Seq<SDecl>,
    i: nat,
    tenv: TyScope,
    gl: Map<Seq<char>, SVal>,
    c: nat,
    out: Seq<char>,
) -> Result<Seq<char>, SErr>
    decreases ds.len() - i,
{
    if i >= ds.len() {
        Ok(out)
    } else {
        match ds[i as int] {
            SDecl::Let(n, ty, body) => {
                let tenv2 = tenv.push((n, ty, Stage::Zero));
                match check_spec(tenv2, Stage::Zero, body, ty) {
                    Err(e) => Err(e),
                    Ok(_) => {
                        let (r, c1) = eval0_spec(max_depth(), gl, c, Seq::empty(), body);
                        match r {
                            Err(e) => Err(e),
                            Ok(v) => run_decls(
                                ds,
                                i + 1,
                                tenv2,
                                gl.insert(n, v),
                                c1,
                                out + "let "@ + n + " : "@ + ty_text(ty, 0) + "\n"@,
                            ),
                        }
                    },
                }
            },
            SDecl::Eval(body) => match infer_spec(tenv, Stage::Zero, body) {
                Err(e) => Err(e),
                Ok(t) => {
                    let (r, c1) = eval0_spec(max_depth(), gl, c, Seq::empty(), body);
                    match r {
                        Err(e) => Err(e),
                        Ok(v) => run_decls(
                            ds,
                            i + 1,
                            tenv,
                            gl,
                            c1,
                            out + show_val_spec(v) + " : "@ + ty_text(t, 0) + "\n"@,
                        ),
                    }
                },
            },
        }
    }
}

/// What running a program prints, given the bytes of its source.
pub open spec fn run_spec(src: Seq<u8>) -> Result<Seq<char>, SErr> {
    match program_spec(src) {
        Err(e) => Err(e),
        Ok(ds) => run_decls(ds, 0, Seq::empty(), Map::empty(), 0, Seq::empty()),
    }
}

/// The typing scope after the declarations before the `i`-th: each
/// definition's name and type, at stage 0, the latest last.
pub open spec fn let_scope(ds: Seq<SDecl>, i: nat) -> TyScope
    decreases i,
{
    if i == 0 || i > ds.len() {
        Seq::empty()
    } else {
        let prev = let_scope(ds, (i - 1) as nat);
        match ds[i - 1] {
            SDecl::Let(n, ty, _) => prev.push((n, ty, Stage::Zero)),
            SDecl::Eval(_) => prev,
        }
    }
}

/// `l` ends with `s`.
pub open spec fn ends_with(l: Seq<char>, s: Seq<char>) -> bool {
    s.len() <= l.len() && l.subrange(l.len() - s.len(), l.len() as int) == s
}

/// The line printed for the `i`-th declaration: `let x : ty` for a
/// definition, and for an `eval` a value followed by ` : ` and the type that
/// is inferred for it after the definitions before it.
pub open spec fn line_ok(ds: Seq<SDecl>, i: nat, l: Seq<char>) -> bool {
    match ds[i as int] {
        SDecl::Let(n, ty, _) => l == "let "@ + n + " : "@ + ty_text(ty, 0),
        SDecl::Eval(body) => infer_spec(let_scope(ds, i), Stage::Zero, body) matches Ok(u)
            && ends_with(l, " : "@ + ty_text(u, 0)),
    }
}

/// Lines, each followed by a line feed.
pub open spec fn joined(ls: Seq<Seq<char>>) -> Seq<char>
    decreases ls.len(),
{
    if ls.len() == 0 {
        Seq::empty()
    } else {
        ls[0] + "\n"@ + joined(ls.drop_first())
    }
}

/// `ls` are the lines of the declarations from the `i`-th on, none of which
/// holds a line feed.
pub open spec fn lines_from(ds: Seq<SDecl>, i: nat, ls: Seq<Seq<char>>) -> bool {
    &&& i + ls.len() == ds.len()
    &&& forall|k: int| 0 <= k < ls.len() ==> #[trigger] line_ok(ds, (i + k) as nat, ls[k])
    &&& forall|k: int| 0 <= k < ls.len() ==> no_lf(#[trigger] ls[k])
}

/// The line printed for a declaration holds no line feed.
/// The number of line feeds in `s`.
pub open spec fn count_lf(s: Seq<char>) -> nat
    decreases s.len(),
{
    if s.len() == 0 {
        0
    } else {
        count_lf(s.drop_last()) + if s.last() == '\n' {
            1nat
        } else {
            0nat
        }
    }
}

proof fn lemma_count_cat(x: Seq<char>, y: Seq<char>)
    ensures
        count_lf(x + y) == count_lf(x) + count_lf(y),
    decreases y.len(),
{
    if y.len() > 0 {
        assert((x + y).drop_last() =~= x + y.drop_last());
        lemma_count_cat(x, y.drop_last());
    } else {
        assert(x + y =~= x);
    }
}

proof fn lemma_count_none(s: Seq<char>)
    requires
        no_lf(s),
    ensures
        count_lf(s) == 0,
    decreases s.len(),
{
    if s.len() > 0 {
        assert(s[s.len() - 1] != '\n');
        assert forall|k: int| 0 <= k < s.drop_last().len() implies #[trigger] s.drop_last()[k]
            != '\n' by {
            assert(s.drop_last()[k] == s[k]);
        }
        lemma_count_none(s.drop_last());
    }
}

/// Lines without line feeds, joined, hold one line feed each, the last at
/// the end.
proof fn lemma_joined(ls: Seq<Seq<char>>)
    requires
        forall|k: int| 0 <= k < ls.len() ==> no_lf(#[trigger] ls[k]),
    ensures
        count_lf(joined(ls)) == ls.len(),
        ls.len() > 0 ==> joined(ls).len() > 0 && joined(ls).last() == '\n',
    decreases ls.len(),
{
    if ls.len() > 0 {
        let rest = ls.drop_first();
        assert forall|k: int| 0 <= k < rest.len() implies no_lf(#[trigger] rest[k]) by {
            assert(rest[k] == ls[k + 1]);
        }
        lemma_joined(rest);
        assert(no_lf(ls[0]));
        lemma_count_none(ls[0]);
        reveal_strlit("\n");
        assert("\n"@ == seq!['\n']);
        assert(seq!['\n'].drop_last() =~= Seq::<char>::empty());
        assert(count_lf(Seq::<char>::empty()) == 0);
        assert(count_lf(seq!['\n']) == 1);
        lemma_count_cat(ls[0], "\n"@);
        lemma_count_cat(ls[0] + "\n"@, joined(rest));
        if rest.len() == 0 {
            assert(ls[0] + "\n"@ + joined(rest) =~= ls[0] + "\n"@);
        }
    }
}

proof fn lemma_line_lf(
    ds: Seq<SDecl>,
    i: nat,
    gl: Map<Seq<char>, SVal>,
    c: nat,
    tenv: TyScope,
    line: Seq<char>,
)
    requires
        i < ds.len(),
        match ds[i as int] {
            SDecl::Let(n, _, b) => no_lf(n) && line == "let "@ + n + " : "@ + ty_text(
                ds[i as int]->Let_1,
                0,
            ),
            SDecl::Eval(b) => eval0_spec(max_depth(), gl, c, Seq::empty(), b).0 matches Ok(v)
                ==> val_named(v) && line == show_val_spec(v) + " : "@ + ty_text(
                infer_spec(tenv, Stage::Zero, b)->Ok_0,
                0,
            ),
        },
    ensures
        (ds[i as int] is Let || eval0_spec(
            max_depth(),
            gl,
            c,
            Seq::empty(),
            ds[i as int]->Eval_0,
        ).0 is Ok) ==> no_lf(line),
{
    reveal_strlit("let ");
    reveal_strlit(" : ");
    let sep = " : "@;
    assert(no_lf(sep));
    match ds[i as int] {
        SDecl::Let(n, ty, _) => {
            assert(no_lf("let "@));
            lemma_ty_text_lf(ty, 0);
            lemma_cat_lf("let "@, n);
            lemma_cat_lf("let "@ + n, sep);
            lemma_cat_lf("let "@ + n + sep, ty_text(ty, 0));
        },
        SDecl::Eval(b) => {
            if let Ok(v) = eval0_spec(max_depth(), gl, c, Seq::empty(), b).0 {
                let u = infer_spec(tenv, Stage::Zero, b)->Ok_0;
                lemma_show_val_lf(v);
                lemma_ty_text_lf(u, 0);
                lemma_cat_lf(show_val_spec(v), sep);
                lemma_cat_lf(show_val_spec(v) + sep, ty_text(u, 0));
            }
        },
    }
}

proof fn lemma_run_lines(
    ds: Seq<SDecl>,
    i: nat,
    tenv: TyScope,
    gl: Map<Seq<char>, SVal>,
    c: nat,
    out: Seq<char>,
)
    requires
        i <= ds.len(),
        tenv == let_scope(ds, i),
        decls_named(ds),
        globals_named(gl),
    ensures
        run_decls(ds, i, tenv, gl, c, out) matches Ok(o) ==> exists|ls: Seq<Seq<char>>|
            #[trigger] lines_from(ds, i, ls) && o == out + joined(ls),
    decreases ds.len() - i,
{
    if i >= ds.len() {
        let ls = Seq::<Seq<char>>::empty();
        assert(out + joined(ls) =~= out);
        assert(lines_from(ds, i, ls));
    } else {
        let line: Seq<char> = match ds[i as int] {
            SDecl::Let(n, ty, body) => "let "@ + n + " : "@ + ty_text(ty, 0),
            SDecl::Eval(body) => {
                let u = infer_spec(tenv, Stage::Zero, body)->Ok_0;
                let (r, c1) = eval0_spec(max_depth(), gl, c, Seq::empty(), body);
                show_val_spec(r->Ok_0) + " : "@ + ty_text(u, 0)
            },
        };
        let next = match ds[i as int] {
            SDecl::Let(n, ty, body) => tenv.push((n, ty, Stage::Zero)),
            SDecl::Eval(_) => tenv,
        };
        assert(next == let_scope(ds, i + 1));
        let out2 = out + line + "\n"@;
        assert(match ds[i as int] {
            SDecl::Let(n, _, b) => no_lf(n) && names_ok(b),
            SDecl::Eval(b) => names_ok(b),
        });
        lemma_eval0_named(max_depth(), gl, c, Seq::empty(), match ds[i as int] {
            SDecl::Let(_, _, b) => b,
            SDecl::Eval(b) => b,
        });
        lemma_line_lf(ds, i, gl, c, tenv, line);
        match ds[i as int] {
            SDecl::Let(n, ty, body) => {
                let (r, c1) = eval0_spec(max_depth(), gl, c, Seq::empty(), body);
                assert(out2 =~= out + "let "@ + n + " : "@ + ty_text(ty, 0) + "\n"@);
                if let Ok(v) = r {
                    lemma_run_lines(ds, i + 1, next, gl.insert(n, v), c1, out2);
                }
            },
            SDecl::Eval(body) => {
                let (r, c1) = eval0_spec(max_depth(), gl, c, Seq::empty(), body);
                if let Ok(v) = r {
                    let u = infer_spec(tenv, Stage::Zero, body)->Ok_0;
                    assert(out2 =~= out + show_val_spec(v) + " : "@ + ty_text(u, 0) + "\n"@);
                    lemma_run_lines(ds, i + 1, next, gl, c1, out2);
                    let suf = " : "@ + ty_text(u, 0);
                    assert(line.subrange(line.len() - suf.len(), line.len() as int) =~= suf);
                }
            },
        }
        if let Ok(o) = run_decls(ds, i, tenv, gl, c, out) {
            let rest = choose|ls: Seq<Seq<char>>|
                #[trigger] lines_from(ds, i + 1, ls) && o == out2 + joined(ls);
            let ls = seq![line] + rest;
            assert(ls.drop_first() =~= rest);
            assert forall|k: int| 0 <= k < ls.len() implies no_lf(#[trigger] ls[k]) by {
                if k > 0 {
                    assert(ls[k] == rest[k - 1]);
                }
            }
            assert(o =~= out + joined(ls));
            assert forall|k: int| 0 <= k < ls.len() implies #[trigger] line_ok(
                ds,
                (i + k) as nat,
                ls[k],
            ) by {
                if k > 0 {
                    assert(ls[k] == rest[k - 1]);
                    assert(line_ok(ds, (i + 1 + (k - 1)) as nat, rest[k - 1]));
                }
            }
            assert(lines_from(ds, i, ls));
        }
    }
}

/// Running a program prints one line per declaration, each ended by a line
/// feed and holding no other, so that the output holds as many line feeds as
/// there are declarations, and ends with one unless it is empty: `let x : ty`
/// for a definition, and for an `eval` its value followed by ` : ` and the
/// type inferred for it after the definitions before it.
pub proof fn law_one_line_per_declaration(src: Seq<u8>)
    ensures
        program_spec(src) matches Ok(ds) ==> (run_spec(src) matches Ok(out) ==> {
            &&& exists|ls: Seq<Seq<char>>| #[trigger] lines_from(ds, 0, ls) && out == joined(ls)
            &&& count_lf(out) == ds.len()
            &&& out.len() == 0 || out.last() == '\n'
        }),
{
    lemma_program_named(src);
    if let Ok(ds) = program_spec(src) {
        lemma_run_lines(ds, 0, Seq::empty(), Map::empty(), 0, Seq::empty());
        if let Ok(out) = run_spec(src) {
            let ls = choose|ls: Seq<Seq<char>>|
                #[trigger] lines_from(ds, 0, ls) && out == Seq::<char>::empty() + joined(ls);
            assert(Seq::<char>::empty() + joined(ls) =~= joined(ls));
            lemma_joined(ls);
        }
    }
}

/// The model of a result that is text.
pub open spec fn text_view(r: Result<String, Error>) -> Result<Seq<char>, SErr> {
    match r {
        Ok(s) => Ok(s@),
        Err(e) => Err(e@),
    }
}

/// Parses, checks and runs a program, and gives what it prints: one line
/// per declaration.
pub fn run_program(src: &str) -> (r: Result<String, Error>)
    ensures
        text_view(r) == run_spec(src.spec_bytes()),
{
    let decls = parse_program(src)?;
    let ghost ds = decls_view(decls@);
    let mut tenv = TyEnv::new();
    let mut globals = Globals::new();
    let mut gen = Gen::new();
    let mut out = String::new();
    let mut i: usize = 0;
    while i < decls.len()
        invariant
            i <= decls@.len(),
            ds == decls_view(decls@),
            run_spec(src.spec_bytes()) == run_decls(ds, i as nat, tenv@, globals@, gen@, out@),
        decreases decls@.len() - i,
    {
        match &decls[i] {
            Decl::Let(n, ty, body) => {
                tenv.bind(n.clone(), crate::syntax::rc_clone(ty));
                check_decl(&tenv, body, ty)?;
                let v = eval0(&globals, &mut gen, &Env::new(), body)?;
                globals.bind(n.clone(), v);
                push_str(&mut out, "let ");
                push_string(&mut out, n);
                push_str(&mut out, " : ");
                let t = pretty_ty(ty);
                push_string(&mut out, &t);
                push_str(&mut out, "\n");
            },
            Decl::Eval(body) => {
                let ty = infer_top(&tenv, body)?;
                let v = eval0(&globals, &mut gen, &Env::new(), body)?;
                let s = show_val(&v);
                push_string(&mut out, &s);
                push_str(&mut out, " : ");
                let t = pretty_ty(&ty);
                push_string(&mut out, &t);
                push_str(&mut out, "\n");
            },
        }
        i = i + 1;
    }
    Ok(out)
}

/// How a value is shown.
fn show_val(v: &Val) -> (s: String)
    ensures
        s@ == show_val_spec(v@),
{
    let mut s = String::new();
    match v {
        Val::Nat(n) => push_i64(&mut s, *n),
        Val::Bool(b) => {
            if *b {
                push_str(&mut s, "true");
            } else {
                push_str(&mut s, "false");
            }
        },
        Val::Code(t) => {
            push_str(&mut s, "<");
            let b = pretty_tm(t);
            push_string(&mut s, &b);
            push_str(&mut s, ">");
        },
        Val::Lam(cl) => {
            push_str(&mut s, "\\");
            push_string(&mut s, &cl.param);
            push_str(&mut s, ". ");
            let b = pretty_tm(&cl.body);
            push_string(&mut s, &b);
        },
    }
    assert(s@ =~= show_val_spec(v@));
    s
}

} // verus!
