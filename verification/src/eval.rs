use std::rc::Rc;
use vstd::prelude::*;
use vstd::string::*;

use crate::errors::{rview, runtime_error, Error, SErr};
use crate::syntax::{copy_ann, copy_tm, rc_clone, tm_view, BinOp, Name, STm, Tm};
use crate::text::{dec_nat, push_str, push_string, push_u64};

verus! {

/// Values of stage 0: numbers, booleans, functions and code.
#[derive(Debug, Clone)]
pub enum Val {
    Nat(i64),
    Bool(bool),
    Lam(Rc<Closure>),
    Code(Rc<Tm>),
}

/// A function value: its parameter and body, with the scope it was made in.
#[derive(Debug, Clone)]
pub struct Closure {
    pub env: Env,
    pub param: Name,
    pub body: Rc<Tm>,
}

/// What a local name stands for: a stage-0 value, or, under a quote, the
/// fresh name of a stage-1 variable.
#[derive(Debug, Clone)]
enum Entry {
    Val(Val),
    CodeVar(Name),
}

/// One binding of a scope, and the bindings made before it.
#[derive(Debug)]
struct Frame {
    name: Name,
    entry: Entry,
    rest: Option<Rc<Frame>>,
}

/// A local scope of the evaluator, the latest binding last.
#[derive(Debug, Clone, Default)]
pub struct Env {
    scope: Option<Rc<Frame>>,
}

/// The model of a value.
pub enum SVal {
    Nat(i64),
    Bool(bool),
    /// A closure: its scope, parameter and body.
    Lam(Seq<(Seq<char>, SEntry)>, Seq<char>, STm),
    Code(STm),
}

/// The model of what a local name stands for.
pub enum SEntry {
    Val(SVal),
    CodeVar(Seq<char>),
}

/// The model of a local scope, the latest binding last.
pub type VScope = Seq<(Seq<char>, SEntry)>;

/// The model of a value.
pub open spec fn val_view(v: Val) -> SVal
    decreases v,
{
    match v {
        Val::Nat(i) => SVal::Nat(i),
        Val::Bool(b) => SVal::Bool(b),
        Val::Lam(c) => SVal::Lam(c.env.view(), c.param@, tm_view(*c.body)),
        Val::Code(t) => SVal::Code(tm_view(*t)),
    }
}

spec fn frames_view(f: Option<Rc<Frame>>) -> VScope
    decreases f,
{
    match f {
        None => Seq::empty(),
        Some(fr) => frames_view(fr.rest).push((fr.name@, entry_view(fr.entry))),
    }
}

spec fn entry_view(e: Entry) -> SEntry
    decreases e,
{
    match e {
        Entry::Val(v) => SEntry::Val(val_view(v)),
        Entry::CodeVar(n) => SEntry::CodeVar(n@),
    }
}

impl View for Val {
    type V = SVal;

    open spec fn view(&self) -> SVal {
        val_view(*self)
    }
}

impl View for Env {
    type V = VScope;

    closed spec fn view(&self) -> VScope
        decreases self,
    {
        frames_view(self.scope)
    }
}

/// The latest binding of `n` in a local scope.
pub open spec fn env_lookup(s: VScope, n: Seq<char>) -> Option<SEntry>
    decreases s.len(),
{
    if s.len() == 0 {
        None
    } else if s.last().0 == n {
        Some(s.last().1)
    } else {
        env_lookup(s.drop_last(), n)
    }
}

/// A copy of a value; closures and code are shared.
fn copy_val(v: &Val) -> (r: Val)
    ensures
        r == *v,
{
    match v {
        Val::Nat(n) => Val::Nat(*n),
        Val::Bool(b) => Val::Bool(*b),
        Val::Lam(c) => Val::Lam(rc_clone(c)),
        Val::Code(t) => Val::Code(rc_clone(t)),
    }
}

impl Env {
    /// The empty scope.
    pub fn new() -> (e: Self)
        ensures
            e@ == Seq::<(Seq<char>, SEntry)>::empty(),
    {
        Self { scope: None }
    }

    /// A copy of the scope; the bindings are shared.
    fn copy(&self) -> (e: Self)
        ensures
            e@ == self@,
    {
        match &self.scope {
            Some(f) => Self { scope: Some(rc_clone(f)) },
            None => Self { scope: None },
        }
    }

    fn push(&self, n: Name, e: Entry) -> (r: Self)
        ensures
            r@ == self@.push((n@, entry_view(e))),
    {
        let rest = self.copy();
        Self { scope: Some(Rc::new(Frame { name: n, entry: e, rest: rest.scope })) }
    }

    /// The scope with `n` bound to the value `v`.
    fn push_val(&self, n: Name, v: Val) -> (r: Self)
        ensures
            r@ == self@.push((n@, SEntry::Val(v@))),
    {
        self.push(n, Entry::Val(v))
    }

    /// The scope with `n` standing for the stage-1 variable `fresh`.
    fn push_code(&self, n: Name, fresh: Name) -> (r: Self)
        ensures
            r@ == self@.push((n@, SEntry::CodeVar(fresh@))),
    {
        self.push(n, Entry::CodeVar(fresh))
    }

    fn lookup(&self, n: &Name) -> (r: Option<&Entry>)
        ensures
            match r {
                Some(e) => env_lookup(self@, n@) == Some(entry_view(*e)),
                None => env_lookup(self@, n@) is None,
            },
    {
        let mut cur: &Option<Rc<Frame>> = &self.scope;
        loop
            invariant
                env_lookup(self@, n@) == env_lookup(frames_view(*cur), n@),
            decreases *cur,
        {
            match cur {
                None => {
                    return None;
                },
                Some(f) => {
                    if f.name == *n {
                        return Some(&f.entry);
                    }
                    proof {
                        let s = frames_view(*cur);
                        assert(s.drop_last() =~= frames_view(f.rest));
                    }
                    cur = &f.rest;
                },
            }
        }
    }
}

/// The global definitions, by name.
#[derive(Debug, Default)]
pub struct Globals {
    map: Vec<(String, Val)>,
}

/// The model of a list of definitions: a later definition of a name hides an
/// earlier one.
pub open spec fn defs_view(s: Seq<(String, Val)>) -> Map<Seq<char>, SVal>
    decreases s.len(),
{
    if s.len() == 0 {
        Map::empty()
    } else {
        defs_view(s.drop_last()).insert(s.last().0@, s.last().1@)
    }
}

impl View for Globals {
    type V = Map<Seq<char>, SVal>;

    closed spec fn view(&self) -> Map<Seq<char>, SVal> {
        defs_view(self.map@)
    }
}

impl Globals {
    /// No definitions.
    pub fn new() -> (g: Self)
        ensures
            g@ == Map::<Seq<char>, SVal>::empty(),
    {
        Self { map: Vec::new() }
    }

    /// Defines `n` as `v`, over any earlier definition of `n`.
    pub fn bind(&mut self, n: Name, v: Val)
        ensures
            final(self)@ == old(self)@.insert(n@, v@),
    {
        self.map.push((n, v));
        assert(self.map@.drop_last() =~= old(self).map@);
    }

    fn lookup(&self, n: &Name) -> (r: Option<&Val>)
        ensures
            match r {
                Some(v) => self@.contains_key(n@) && self@[n@] == v@,
                None => !self@.contains_key(n@),
            },
    {
        let mut i = self.map.len();
        assert(self.map@.take(i as int) =~= self.map@);
        while i > 0
            invariant
                i <= self.map.len(),
                self@.contains_key(n@) == defs_view(self.map@.take(i as int)).contains_key(n@),
                self@.contains_key(n@) ==> self@[n@] == defs_view(self.map@.take(i as int))[n@],
            decreases i,
        {
            let ghost pre = self.map@.take(i as int);
            assert(pre.drop_last() =~= self.map@.take(i - 1));
            if self.map[i - 1].0 == *n {
                return Some(&self.map[i - 1].1);
            }
            i = i - 1;
        }
        None
    }
}

/// The generator of fresh names for stage-1 variables.
#[derive(Debug, Default)]
pub struct Gen {
    counter: u64,
}

impl View for Gen {
    type V = nat;

    closed spec fn view(&self) -> nat {
        self.counter as nat
    }
}

/// Whether a character is numeric in Unicode's sense (categories Nd, Nl and
/// No), as `char::is_numeric` decides.
pub uninterp spec fn is_numeric(c: char) -> bool;

/// Whether a character counts as numeric for fresh names: of ASCII, the
/// digits `0`-`9`, as std documents for `char::is_numeric`; beyond ASCII,
/// what `char::is_numeric` decides.
pub open spec fn numeric(c: char) -> bool {
    if c <= '\u{7f}' {
        '0' <= c <= '9'
    } else {
        is_numeric(c)
    }
}

/// `char::is_numeric`: whether a character is in one of Unicode's numeric
/// categories.  Believed, not proved: that of ASCII only the digits `0`-`9`
/// are numeric, as std documents, and beyond ASCII the result is only named.
#[verifier::external_body]
fn char_is_numeric(c: char) -> (r: bool)
    ensures
        r == is_numeric(c),
        r == numeric(c),
{
    c.is_numeric()
}

/// `s` without its trailing numeric characters.
pub open spec fn trim_numeric(s: Seq<char>) -> Seq<char>
    decreases s.len(),
{
    if s.len() > 0 && numeric(s.last()) {
        trim_numeric(s.drop_last())
    } else {
        s
    }
}

/// `s` without its trailing characters that `marks` flags, `marks[k]` being
/// the flag of `s[k]`.
pub open spec fn trim_marked(s: Seq<char>, marks: Seq<bool>) -> Seq<char>
    decreases s.len(),
{
    if s.len() > 0 && marks[s.len() - 1] {
        trim_marked(s.drop_last(), marks)
    } else {
        s
    }
}

/// The name made from `base`, whose characters `marks` flags as numeric or
/// not, with counter `c`: `base` without its trailing flagged characters and
/// then without trailing underscores (`x` if nothing is left), `_`, and the
/// counter in decimal.
pub open spec fn marked_name(base: Seq<char>, marks: Seq<bool>, c: nat) -> Seq<char> {
    let t = trim_underscores(trim_marked(base, marks));
    (if t.len() == 0 {
        "x"@
    } else {
        t
    }) + "_"@ + dec_nat(c)
}

/// With the flags of what is numeric, trimming by the flags is trimming what
/// is numeric.
pub proof fn lemma_trim_marked(s: Seq<char>, marks: Seq<bool>)
    requires
        s.len() <= marks.len(),
        forall|k: int| 0 <= k < s.len() ==> marks[k] == numeric(#[trigger] s[k]),
    ensures
        trim_marked(s, marks) == trim_numeric(s),
    decreases s.len(),
{
    if s.len() > 0 {
        assert(marks[s.len() - 1] == numeric(s[s.len() - 1]));
        lemma_trim_marked(s.drop_last(), marks);
    }
}

/// `s` without its trailing underscores.
pub open spec fn trim_underscores(s: Seq<char>) -> Seq<char>
    decreases s.len(),
{
    if s.len() > 0 && s.last() == '_' {
        trim_underscores(s.drop_last())
    } else {
        s
    }
}

/// The stem of a fresh name made from `base`: `base` without trailing digits
/// and then without trailing underscores, or `x` if nothing is left.
pub open spec fn fresh_stem(base: Seq<char>) -> Seq<char> {
    let t = trim_underscores(trim_numeric(base));
    if t.len() == 0 {
        "x"@
    } else {
        t
    }
}

/// The fresh name made from `base` with counter `c`: the stem, `_` and the
/// counter in decimal.
pub open spec fn fresh_name(base: Seq<char>, c: nat) -> Seq<char> {
    fresh_stem(base) + "_"@ + dec_nat(c)
}

/// The message when the counter of fresh names is used up.
pub open spec fn exhausted_names_msg() -> Seq<char> {
    "fresh name supply exhausted"@
}

/// A fresh name from `base` and counter `c`, and the next counter.  The
/// counter is a `u64`, so it fails only after 2^64 - 1 names.
pub open spec fn fresh_spec(base: Seq<char>, c: nat) -> Result<Seq<char>, SErr> {
    if c >= 0xffff_ffff_ffff_ffff {
        Err(SErr::Runtime(exhausted_names_msg()))
    } else {
        Ok(fresh_name(base, c))
    }
}

impl Gen {
    /// A generator whose counter starts at 0.
    pub fn new() -> (g: Self)
        ensures
            g@ == 0,
    {
        Self { counter: 0 }
    }

    /// A fresh name made from `base`; the counter goes up by one.
    fn fresh(&mut self, base: &Name) -> (r: Result<Name, Error>)
        ensures
            rview(r) == fresh_spec(base@, old(self)@),
            r is Ok ==> final(self)@ == old(self)@ + 1,
            r is Err ==> final(self)@ == old(self)@,
    {
        if self.counter == u64::MAX {
            let mut m = String::new();
            push_str(&mut m, "fresh name supply exhausted");
            assert(m@ =~= exhausted_names_msg());
            return Err(runtime_error(m));
        }
        let n = self.counter;
        self.counter = self.counter + 1;
        let s = base.as_str();
        let len = s.unicode_len();
        let mut marks: Vec<bool> = Vec::new();
        let mut k: usize = 0;
        while k < len
            invariant
                k <= len == s@.len() == base@.len(),
                s@ == base@,
                marks@.len() == k,
                forall|m: int| 0 <= m < k ==> marks@[m] == numeric(#[trigger] base@[m]),
            decreases len - k,
        {
            marks.push(char_is_numeric(s.get_char(k)));
            k = k + 1;
        }
        proof {
            lemma_trim_marked(base@, marks@);
        }
        let out = fresh_name_from(s, &marks, n);
        assert(out@ =~= fresh_name(base@, n as nat));
        Ok(out)
    }
}


/// The name made from `base` with counter `n`, given which characters of
/// `base` are numeric: `base` without its trailing numeric characters and
/// then without trailing underscores (`x` if nothing is left), `_`, and `n`
/// in decimal.
pub fn fresh_name_from(base: &str, marks: &Vec<bool>, n: u64) -> (r: String)
    requires
        marks@.len() == base@.len(),
    ensures
        r@ == marked_name(base@, marks@, n as nat),
{
    let len = base.unicode_len();
    let mut k: usize = len;
    assert(base@.take(len as int) =~= base@);
    while k > 0 && marks[k - 1]
        invariant
            k <= len == base@.len() == marks@.len(),
            trim_marked(base@, marks@) == trim_marked(base@.take(k as int), marks@),
        decreases k,
    {
        assert(base@.take(k as int).drop_last() =~= base@.take(k - 1));
        k = k - 1;
    }
    let ghost tn = trim_marked(base@, marks@);
    assert(tn =~= base@.take(k as int));
    while k > 0 && base.get_char(k - 1) == '_'
        invariant
            k <= len == base@.len(),
            trim_underscores(tn) == trim_underscores(base@.take(k as int)),
        decreases k,
    {
        assert(base@.take(k as int).drop_last() =~= base@.take(k - 1));
        k = k - 1;
    }
    let mut out = String::new();
    if k == 0 {
        push_str(&mut out, "x");
        assert(out@ =~= "x"@);
    } else {
        let mut j: usize = 0;
        while j < k
            invariant
                j <= k <= len == base@.len(),
                out@ =~= base@.take(j as int),
            decreases k - j,
        {
            out.push(base.get_char(j));
            j = j + 1;
        }
    }
    let ghost stem = out@;
    push_str(&mut out, "_");
    push_u64(&mut out, n);
    assert(out@ =~= marked_name(base@, marks@, n as nat));
    out
}

/// The depth of evaluation that [`eval0`] allows: nested calls of the
/// evaluator deeper than this fail.  A machine runs out of stack long before.
pub open spec fn max_depth() -> nat {
    0xffff_ffff_ffff_ffff
}

pub open spec fn depth_msg() -> Seq<char> {
    "evaluation too deep"@
}

pub open spec fn overflow_msg() -> Seq<char> {
    "integer overflow"@
}

/// The value of a variable at stage 0: a local value, else a global one.
pub open spec fn var0_spec(gl: Map<Seq<char>, SVal>, env: VScope, n: Seq<char>) -> Result<
    SVal,
    SErr,
> {
    match env_lookup(env, n) {
        Some(SEntry::Val(v)) => Ok(v),
        Some(SEntry::CodeVar(_)) => Err(
            SErr::Runtime("stage-1 variable `"@ + n + "` used at stage 0"@),
        ),
        None => if gl.contains_key(n) {
            Ok(gl[n])
        } else {
            Err(SErr::Runtime("unbound variable `"@ + n + "`"@))
        },
    }
}

/// A binary operator on two values: both must be numbers; `+`, `-` and `*`
/// fail when the result does not fit in an `i64`.
pub open spec fn bin_spec(op: BinOp, a: SVal, b: SVal) -> Result<SVal, SErr> {
    match (a, b) {
        (SVal::Nat(x), SVal::Nat(y)) => {
            let r: int = match op {
                BinOp::Add => x + y,
                BinOp::Sub => x - y,
                BinOp::Mul => x * y,
                BinOp::Eq => 0,
            };
            if op == BinOp::Eq {
                Ok(SVal::Bool(x == y))
            } else if i64::MIN <= r <= i64::MAX {
                Ok(SVal::Nat(r as i64))
            } else {
                Err(SErr::Runtime(overflow_msg()))
            }
        },
        _ => Err(SErr::Runtime("binary op on non-nat"@)),
    }
}

/// Applies a function value to an argument: the closure's body runs in its
/// own scope with the parameter bound to the argument.
pub open spec fn apply_spec(fuel: nat, gl: Map<Seq<char>, SVal>, c: nat, f: SVal, a: SVal) -> (
    Result<SVal, SErr>,
    nat,
)
    decreases fuel, 2nat,
{
    match f {
        SVal::Lam(env, p, body) => eval0_spec(fuel, gl, c, env.push((p, SEntry::Val(a))), body),
        _ => (Err(SErr::Runtime("applying non-function"@)), c),
    }
}

/// Runs a stage-0 term, with at most `fuel` nested steps: the result and the
/// counter of fresh names afterwards.  A quote evaluates its body at stage 1
/// into code; a splice cannot occur at stage 0.
pub open spec fn eval0_spec(fuel: nat, gl: Map<Seq<char>, SVal>, c: nat, env: VScope, t: STm) -> (
    Result<SVal, SErr>,
    nat,
)
    decreases fuel, 1nat,
{
    if fuel == 0 {
        (Err(SErr::Runtime(depth_msg())), c)
    } else {
        let f = (fuel - 1) as nat;
        match t {
            STm::Var(n) => (var0_spec(gl, env, n), c),
            STm::NatLit(i) => (Ok(SVal::Nat(i)), c),
            STm::BoolLit(b) => (Ok(SVal::Bool(b)), c),
            STm::Lam(n, _, b) => (Ok(SVal::Lam(env, n, *b)), c),
            STm::App(fx, a) => {
                let (rf, c1) = eval0_spec(f, gl, c, env, *fx);
                match rf {
                    Err(e) => (Err(e), c1),
                    Ok(vf) => {
                        let (ra, c2) = eval0_spec(f, gl, c1, env, *a);
                        match ra {
                            Err(e) => (Err(e), c2),
                            Ok(va) => apply_spec(f, gl, c2, vf, va),
                        }
                    },
                }
            },
            STm::Let(n, _, v, b) => {
                let (rv, c1) = eval0_spec(f, gl, c, env, *v);
                match rv {
                    Err(e) => (Err(e), c1),
                    Ok(vv) => eval0_spec(f, gl, c1, env.push((n, SEntry::Val(vv))), *b),
                }
            },
            STm::Bin(op, a, b) => {
                let (ra, c1) = eval0_spec(f, gl, c, env, *a);
                match ra {
                    Err(e) => (Err(e), c1),
                    Ok(va) => {
                        let (rb, c2) = eval0_spec(f, gl, c1, env, *b);
                        match rb {
                            Err(e) => (Err(e), c2),
                            Ok(vb) => (bin_spec(op, va, vb), c2),
                        }
                    },
                }
            },
            STm::If(cnd, th, el) => {
                let (rc, c1) = eval0_spec(f, gl, c, env, *cnd);
                match rc {
                    Err(e) => (Err(e), c1),
                    Ok(SVal::Bool(true)) => eval0_spec(f, gl, c1, env, *th),
                    Ok(SVal::Bool(false)) => eval0_spec(f, gl, c1, env, *el),
                    Ok(_) => (Err(SErr::Runtime("if on non-bool"@)), c1),
                }
            },
            STm::Quote(e) => {
                let (r, c1) = eval1_spec(f, gl, c, env, *e);
                match r {
                    Err(e) => (Err(e), c1),
                    Ok(body) => (Ok(SVal::Code(body)), c1),
                }
            },
            STm::Splice(_) => (Err(SErr::Runtime("splice at stage 0"@)), c),
            STm::Ann(e, _) => eval0_spec(f, gl, c, env, *e),
        }
    }
}

/// Evaluates a stage-1 term as far as its splices require, with at most
/// `fuel` nested steps: the residual term and the counter afterwards.  Binders
/// get fresh names; a splice runs its body at stage 0, which must give code.
pub open spec fn eval1_spec(fuel: nat, gl: Map<Seq<char>, SVal>, c: nat, env: VScope, t: STm) -> (
    Result<STm, SErr>,
    nat,
)
    decreases fuel, 1nat,
{
    if fuel == 0 {
        (Err(SErr::Runtime(depth_msg())), c)
    } else {
        let f = (fuel - 1) as nat;
        match t {
            STm::Var(n) => match env_lookup(env, n) {
                Some(SEntry::CodeVar(fr)) => (Ok(STm::Var(fr)), c),
                Some(SEntry::Val(_)) => (
                    Err(SErr::Runtime("stage-0 variable `"@ + n + "` used at stage 1"@)),
                    c,
                ),
                None => (Err(SErr::Runtime("unbound stage-1 variable `"@ + n + "`"@)), c),
            },
            STm::NatLit(i) => (Ok(STm::NatLit(i)), c),
            STm::BoolLit(b) => (Ok(STm::BoolLit(b)), c),
            STm::Lam(n, ann, b) => match fresh_spec(n, c) {
                Err(e) => (Err(e), c),
                Ok(fr) => {
                    let (rb, c1) = eval1_spec(f, gl, c + 1, env.push((n, SEntry::CodeVar(fr))), *b);
                    match rb {
                        Err(e) => (Err(e), c1),
                        Ok(bt) => (Ok(STm::Lam(fr, ann, Box::new(bt))), c1),
                    }
                },
            },
            STm::App(fx, a) => {
                let (rf, c1) = eval1_spec(f, gl, c, env, *fx);
                match rf {
                    Err(e) => (Err(e), c1),
                    Ok(tf) => {
                        let (ra, c2) = eval1_spec(f, gl, c1, env, *a);
                        match ra {
                            Err(e) => (Err(e), c2),
                            Ok(ta) => (Ok(STm::App(Box::new(tf), Box::new(ta))), c2),
                        }
                    },
                }
            },
            STm::Let(n, ann, v, b) => {
                let (rv, c1) = eval1_spec(f, gl, c, env, *v);
                match rv {
                    Err(e) => (Err(e), c1),
                    Ok(tv) => match fresh_spec(n, c1) {
                        Err(e) => (Err(e), c1),
                        Ok(fr) => {
                            let (rb, c2) = eval1_spec(
                                f,
                                gl,
                                c1 + 1,
                                env.push((n, SEntry::CodeVar(fr))),
                                *b,
                            );
                            match rb {
                                Err(e) => (Err(e), c2),
                                Ok(tb) => (Ok(STm::Let(fr, ann, Box::new(tv), Box::new(tb))), c2),
                            }
                        },
                    },
                }
            },
            STm::Bin(op, a, b) => {
                let (ra, c1) = eval1_spec(f, gl, c, env, *a);
                match ra {
                    Err(e) => (Err(e), c1),
                    Ok(ta) => {
                        let (rb, c2) = eval1_spec(f, gl, c1, env, *b);
                        match rb {
                            Err(e) => (Err(e), c2),
                            Ok(tb) => (Ok(STm::Bin(op, Box::new(ta), Box::new(tb))), c2),
                        }
                    },
                }
            },
            STm::If(cnd, th, el) => {
                let (rc, c1) = eval1_spec(f, gl, c, env, *cnd);
                match rc {
                    Err(e) => (Err(e), c1),
                    Ok(tc) => {
                        let (rt, c2) = eval1_spec(f, gl, c1, env, *th);
                        match rt {
                            Err(e) => (Err(e), c2),
                            Ok(tt) => {
                                let (re, c3) = eval1_spec(f, gl, c2, env, *el);
                                match re {
                                    Err(e) => (Err(e), c3),
                                    Ok(te) => (
                                        Ok(STm::If(Box::new(tc), Box::new(tt), Box::new(te))),
                                        c3,
                                    ),
                                }
                            },
                        }
                    },
                }
            },
            STm::Quote(_) => (Err(SErr::Runtime("nested quote at stage 1"@)), c),
            STm::Splice(e) => {
                let (r, c1) = eval0_spec(f, gl, c, env, *e);
                match r {
                    Err(e) => (Err(e), c1),
                    Ok(SVal::Code(body)) => (Ok(body), c1),
                    Ok(_) => (Err(SErr::Runtime("splice of non-code"@)), c1),
                }
            },
            STm::Ann(e, _) => eval1_spec(f, gl, c, env, *e),
        }
    }
}

fn message(text: &str) -> (e: Error)
    ensures
        e@ == SErr::Runtime(text@),
{
    let mut m = String::new();
    push_str(&mut m, text);
    assert(m@ =~= text@);
    runtime_error(m)
}

fn message_name(pre: &str, n: &Name, post: &str) -> (e: Error)
    ensures
        e@ == SErr::Runtime(pre@ + n@ + post@),
{
    let mut m = String::new();
    push_str(&mut m, pre);
    push_string(&mut m, n);
    push_str(&mut m, post);
    assert(m@ =~= pre@ + n@ + post@);
    runtime_error(m)
}

/// Runs a stage-0 term in the scope `env`, with the global definitions `gl`
/// and the name generator `g`.
pub fn eval0(gl: &Globals, g: &mut Gen, env: &Env, t: &Tm) -> (r: Result<Val, Error>)
    ensures
        (rview(r), final(g)@) == eval0_spec(max_depth(), gl@, old(g)@, env@, t@),
{
    eval0_fuel(gl, g, env, t, u64::MAX)
}

fn var0(gl: &Globals, env: &Env, n: &Name) -> (r: Result<Val, Error>)
    ensures
        rview(r) == var0_spec(gl@, env@, n@),
{
    match env.lookup(n) {
        Some(Entry::Val(v)) => Ok(copy_val(v)),
        Some(Entry::CodeVar(_)) => Err(message_name("stage-1 variable `", n, "` used at stage 0")),
        None => match gl.lookup(n) {
            Some(v) => Ok(copy_val(v)),
            None => Err(message_name("unbound variable `", n, "`")),
        },
    }
}

fn eval0_fuel(gl: &Globals, g: &mut Gen, env: &Env, t: &Tm, fuel: u64) -> (r: Result<Val, Error>)
    ensures
        (rview(r), final(g)@) == eval0_spec(fuel as nat, gl@, old(g)@, env@, t@),
    decreases fuel, 1nat,
{
    if fuel == 0 {
        return Err(message("evaluation too deep"));
    }
    let f = fuel - 1;
    match t {
        Tm::Var(n) => var0(gl, env, n),
        Tm::NatLit(n) => Ok(Val::Nat(*n)),
        Tm::BoolLit(b) => Ok(Val::Bool(*b)),
        Tm::Lam(n, _, b) => Ok(
            Val::Lam(Rc::new(Closure { env: env.copy(), param: n.clone(), body: rc_clone(b) })),
        ),
        Tm::App(fx, a) => {
            let vf = eval0_fuel(gl, g, env, fx, f)?;
            let va = eval0_fuel(gl, g, env, a, f)?;
            apply(gl, g, vf, va, f)
        },
        Tm::Let(n, _, v, b) => {
            let vv = eval0_fuel(gl, g, env, v, f)?;
            let env2 = env.push_val(n.clone(), vv);
            eval0_fuel(gl, g, &env2, b, f)
        },
        Tm::Bin(op, a, b) => {
            let va = eval0_fuel(gl, g, env, a, f)?;
            let vb = eval0_fuel(gl, g, env, b, f)?;
            bin_val(*op, &va, &vb)
        },
        Tm::If(c, th, el) => match eval0_fuel(gl, g, env, c, f)? {
            Val::Bool(true) => eval0_fuel(gl, g, env, th, f),
            Val::Bool(false) => eval0_fuel(gl, g, env, el, f),
            _ => Err(message("if on non-bool")),
        },
        Tm::Quote(e) => {
            let body = eval1(gl, g, env, e, f)?;
            Ok(Val::Code(Rc::new(body)))
        },
        Tm::Splice(_) => Err(message("splice at stage 0")),
        Tm::Ann(e, _) => eval0_fuel(gl, g, env, e, f),
    }
}

fn apply(gl: &Globals, g: &mut Gen, f: Val, a: Val, fuel: u64) -> (r: Result<Val, Error>)
    ensures
        (rview(r), final(g)@) == apply_spec(fuel as nat, gl@, old(g)@, f@, a@),
    decreases fuel, 2nat,
{
    match f {
        Val::Lam(cl) => {
            let env2 = cl.env.push_val(cl.param.clone(), a);
            eval0_fuel(gl, g, &env2, &cl.body, fuel)
        },
        _ => Err(message("applying non-function")),
    }
}

fn bin_val(op: BinOp, a: &Val, b: &Val) -> (r: Result<Val, Error>)
    ensures
        rview(r) == bin_spec(op, a@, b@),
{
    match (a, b) {
        (Val::Nat(x), Val::Nat(y)) => {
            let r = match op {
                BinOp::Add => x.checked_add(*y),
                BinOp::Sub => x.checked_sub(*y),
                BinOp::Mul => x.checked_mul(*y),
                BinOp::Eq => {
                    return Ok(Val::Bool(*x == *y));
                },
            };
            match r {
                Some(v) => Ok(Val::Nat(v)),
                None => Err(message("integer overflow")),
            }
        },
        _ => Err(message("binary op on non-nat")),
    }
}

fn eval1(gl: &Globals, g: &mut Gen, env: &Env, t: &Tm, fuel: u64) -> (r: Result<Tm, Error>)
    ensures
        (rview(r), final(g)@) == eval1_spec(fuel as nat, gl@, old(g)@, env@, t@),
    decreases fuel, 1nat,
{
    if fuel == 0 {
        return Err(message("evaluation too deep"));
    }
    let f = fuel - 1;
    match t {
        Tm::Var(n) => match env.lookup(n) {
            Some(Entry::CodeVar(fresh)) => Ok(Tm::Var(fresh.clone())),
            Some(Entry::Val(_)) => Err(message_name("stage-0 variable `", n, "` used at stage 1")),
            None => Err(message_name("unbound stage-1 variable `", n, "`")),
        },
        Tm::NatLit(n) => Ok(Tm::NatLit(*n)),
        Tm::BoolLit(b) => Ok(Tm::BoolLit(*b)),
        Tm::Lam(n, ann, b) => {
            let fr = g.fresh(n)?;
            let env2 = env.push_code(n.clone(), fr.clone());
            let body = eval1(gl, g, &env2, b, f)?;
            Ok(Tm::Lam(fr, copy_ann(ann), Rc::new(body)))
        },
        Tm::App(fx, a) => {
            let tf = eval1(gl, g, env, fx, f)?;
            let ta = eval1(gl, g, env, a, f)?;
            Ok(Tm::App(Rc::new(tf), Rc::new(ta)))
        },
        Tm::Let(n, ann, v, b) => {
            let nv = eval1(gl, g, env, v, f)?;
            let fr = g.fresh(n)?;
            let env2 = env.push_code(n.clone(), fr.clone());
            let nb = eval1(gl, g, &env2, b, f)?;
            Ok(Tm::Let(fr, copy_ann(ann), Rc::new(nv), Rc::new(nb)))
        },
        Tm::Bin(op, a, b) => {
            let ta = eval1(gl, g, env, a, f)?;
            let tb = eval1(gl, g, env, b, f)?;
            Ok(Tm::Bin(*op, Rc::new(ta), Rc::new(tb)))
        },
        Tm::If(c, th, el) => {
            let tc = eval1(gl, g, env, c, f)?;
            let tt = eval1(gl, g, env, th, f)?;
            let te = eval1(gl, g, env, el, f)?;
            Ok(Tm::If(Rc::new(tc), Rc::new(tt), Rc::new(te)))
        },
        Tm::Quote(_) => Err(message("nested quote at stage 1")),
        Tm::Splice(e) => match eval0_fuel(gl, g, env, e, f)? {
            Val::Code(body) => Ok(copy_tm(&body)),
            _ => Err(message("splice of non-code")),
        },
        Tm::Ann(e, _) => eval1(gl, g, env, e, f),
    }
}

/// The term a value reads back as: numbers and booleans as literals, code as
/// a quote, a closure as an unannotated lambda (its scope is lost).
pub open spec fn val_to_tm_spec(v: SVal) -> STm {
    match v {
        SVal::Nat(n) => STm::NatLit(n),
        SVal::Bool(b) => STm::BoolLit(b),
        SVal::Code(t) => STm::Quote(Box::new(t)),
        SVal::Lam(_, p, body) => STm::Lam(p, None, Box::new(body)),
    }
}

/// The term a value reads back as.
pub fn val_to_tm(v: &Val) -> (t: Tm)
    ensures
        t@ == val_to_tm_spec(v@),
{
    match v {
        Val::Nat(n) => Tm::NatLit(*n),
        Val::Bool(b) => Tm::BoolLit(*b),
        Val::Code(t) => Tm::Quote(rc_clone(t)),
        Val::Lam(cl) => Tm::Lam(cl.param.clone(), None, rc_clone(&cl.body)),
    }
}


// ---------------------------------------------------------------------------
// Laws of evaluation.

/// `~<e>` reduces to `e`: at stage 1, splicing the quote of `e` gives what
/// evaluating `e` gives, with the same fresh names (two more steps of depth).
pub proof fn law_splice_quote(fuel: nat, gl: Map<Seq<char>, SVal>, c: nat, env: VScope, e: STm)
    requires
        fuel >= 2,
    ensures
        eval1_spec(fuel, gl, c, env, STm::Splice(Box::new(STm::Quote(Box::new(e)))))
            == eval1_spec((fuel - 2) as nat, gl, c, env, e),
{
    let f1 = (fuel - 1) as nat;
    let f2 = (fuel - 2) as nat;
    assert(eval0_spec(f1, gl, c, env, STm::Quote(Box::new(e))) == (match eval1_spec(
        f2,
        gl,
        c,
        env,
        e,
    ).0 {
        Err(err) => Err(err),
        Ok(body) => Ok(SVal::Code(body)),
    }, eval1_spec(f2, gl, c, env, e).1));
}

/// A residual term: one with no quote, splice or type ascription left, as
/// evaluation at stage 1 produces.
pub open spec fn residual(t: STm) -> bool
    decreases t,
{
    match t {
        STm::Var(_) => true,
        STm::NatLit(_) => true,
        STm::BoolLit(_) => true,
        STm::Lam(_, _, b) => residual(*b),
        STm::App(f, a) => residual(*f) && residual(*a),
        STm::Let(_, _, v, b) => residual(*v) && residual(*b),
        STm::Bin(_, a, b) => residual(*a) && residual(*b),
        STm::If(c, t, e) => residual(*c) && residual(*t) && residual(*e),
        STm::Quote(_) => false,
        STm::Splice(_) => false,
        STm::Ann(_, _) => false,
    }
}

/// A value all of whose code is residual, in closures' scopes too.
pub open spec fn val_ok(v: SVal) -> bool
    decreases v, 1nat,
{
    match v {
        SVal::Code(t) => residual(t),
        SVal::Lam(env, _, _) => scope_ok(env),
        _ => true,
    }
}

/// A scope all of whose values hold residual code only.
pub open spec fn scope_ok(s: VScope) -> bool
    decreases s, 0nat,
{
    if s.len() == 0 {
        true
    } else {
        proof {
            assert(decreases_to!(s => s[s.len() - 1]));
        }
        &&& scope_ok(s.drop_last())
        &&& match s[s.len() - 1].1 {
            SEntry::Val(v) => val_ok(v),
            SEntry::CodeVar(_) => true,
        }
    }
}

/// Global definitions whose values hold residual code only.
pub open spec fn globals_ok(gl: Map<Seq<char>, SVal>) -> bool {
    forall|k: Seq<char>| gl.contains_key(k) ==> val_ok(#[trigger] gl[k])
}

proof fn lemma_scope_push(s: VScope, n: Seq<char>, e: SEntry)
    requires
        scope_ok(s),
        match e {
            SEntry::Val(v) => val_ok(v),
            SEntry::CodeVar(_) => true,
        },
    ensures
        scope_ok(s.push((n, e))),
{
    assert(s.push((n, e)).drop_last() =~= s);
}

proof fn lemma_scope_lookup(s: VScope, n: Seq<char>)
    requires
        scope_ok(s),
    ensures
        env_lookup(s, n) matches Some(SEntry::Val(v)) ==> val_ok(v),
    decreases s.len(),
{
    if s.len() > 0 && s.last().0 != n {
        lemma_scope_lookup(s.drop_last(), n);
    }
}

proof fn lemma_eval0_ok(fuel: nat, gl: Map<Seq<char>, SVal>, c: nat, env: VScope, t: STm)
    requires
        globals_ok(gl),
        scope_ok(env),
    ensures
        eval0_spec(fuel, gl, c, env, t).0 matches Ok(v) ==> val_ok(v),
    decreases fuel, 1nat,
{
    if fuel > 0 {
        let f = (fuel - 1) as nat;
        match t {
            STm::Var(n) => {
                lemma_scope_lookup(env, n);
            },
            STm::App(fx, a) => {
                lemma_eval0_ok(f, gl, c, env, *fx);
                let (rf, c1) = eval0_spec(f, gl, c, env, *fx);
                if let Ok(vf) = rf {
                    lemma_eval0_ok(f, gl, c1, env, *a);
                    let (ra, c2) = eval0_spec(f, gl, c1, env, *a);
                    if let Ok(va) = ra {
                        lemma_apply_ok(f, gl, c2, vf, va);
                    }
                }
            },
            STm::Let(n, _, v, b) => {
                lemma_eval0_ok(f, gl, c, env, *v);
                let (rv, c1) = eval0_spec(f, gl, c, env, *v);
                if let Ok(vv) = rv {
                    lemma_scope_push(env, n, SEntry::Val(vv));
                    lemma_eval0_ok(f, gl, c1, env.push((n, SEntry::Val(vv))), *b);
                }
            },
            STm::If(cnd, th, el) => {
                let (rc, c1) = eval0_spec(f, gl, c, env, *cnd);
                lemma_eval0_ok(f, gl, c1, env, *th);
                lemma_eval0_ok(f, gl, c1, env, *el);
            },
            STm::Quote(e) => {
                lemma_eval1_ok(f, gl, c, env, *e);
            },
            STm::Ann(e, _) => {
                lemma_eval0_ok(f, gl, c, env, *e);
            },
            _ => {},
        }
    }
}

proof fn lemma_apply_ok(fuel: nat, gl: Map<Seq<char>, SVal>, c: nat, f: SVal, a: SVal)
    requires
        globals_ok(gl),
        val_ok(f),
        val_ok(a),
    ensures
        apply_spec(fuel, gl, c, f, a).0 matches Ok(v) ==> val_ok(v),
    decreases fuel, 2nat,
{
    if let SVal::Lam(env, p, body) = f {
        lemma_scope_push(env, p, SEntry::Val(a));
        lemma_eval0_ok(fuel, gl, c, env.push((p, SEntry::Val(a))), body);
    }
}

proof fn lemma_eval1_ok(fuel: nat, gl: Map<Seq<char>, SVal>, c: nat, env: VScope, t: STm)
    requires
        globals_ok(gl),
        scope_ok(env),
    ensures
        eval1_spec(fuel, gl, c, env, t).0 matches Ok(r) ==> residual(r),
    decreases fuel, 1nat,
{
    if fuel > 0 {
        let f = (fuel - 1) as nat;
        match t {
            STm::Lam(n, ann, b) => {
                if let Ok(fr) = fresh_spec(n, c) {
                    lemma_scope_push(env, n, SEntry::CodeVar(fr));
                    lemma_eval1_ok(f, gl, c + 1, env.push((n, SEntry::CodeVar(fr))), *b);
                }
            },
            STm::App(fx, a) => {
                lemma_eval1_ok(f, gl, c, env, *fx);
                let (_, c1) = eval1_spec(f, gl, c, env, *fx);
                lemma_eval1_ok(f, gl, c1, env, *a);
            },
            STm::Let(n, ann, v, b) => {
                lemma_eval1_ok(f, gl, c, env, *v);
                let (_, c1) = eval1_spec(f, gl, c, env, *v);
                if let Ok(fr) = fresh_spec(n, c1) {
                    lemma_scope_push(env, n, SEntry::CodeVar(fr));
                    lemma_eval1_ok(f, gl, c1 + 1, env.push((n, SEntry::CodeVar(fr))), *b);
                }
            },
            STm::Bin(op, a, b) => {
                lemma_eval1_ok(f, gl, c, env, *a);
                let (_, c1) = eval1_spec(f, gl, c, env, *a);
                lemma_eval1_ok(f, gl, c1, env, *b);
            },
            STm::If(cnd, th, el) => {
                lemma_eval1_ok(f, gl, c, env, *cnd);
                let (_, c1) = eval1_spec(f, gl, c, env, *cnd);
                lemma_eval1_ok(f, gl, c1, env, *th);
                let (_, c2) = eval1_spec(f, gl, c1, env, *th);
                lemma_eval1_ok(f, gl, c2, env, *el);
            },
            STm::Splice(e) => {
                lemma_eval0_ok(f, gl, c, env, *e);
            },
            STm::Ann(e, _) => {
                lemma_eval1_ok(f, gl, c, env, *e);
            },
            _ => {},
        }
    }
}

/// The output of evaluation is a residual program: when the global
/// definitions and the scope hold residual code only, every value that a
/// stage-0 evaluation gives holds residual code only, and every term that a
/// stage-1 evaluation gives has no quote, splice or ascription left.
pub proof fn law_residual(fuel: nat, gl: Map<Seq<char>, SVal>, c: nat, env: VScope, t: STm)
    requires
        globals_ok(gl),
        scope_ok(env),
    ensures
        eval0_spec(fuel, gl, c, env, t).0 matches Ok(v) ==> val_ok(v),
        eval1_spec(fuel, gl, c, env, t).0 matches Ok(r) ==> residual(r),
{
    lemma_eval0_ok(fuel, gl, c, env, t);
    lemma_eval1_ok(fuel, gl, c, env, t);
}


proof fn lemma_dec_no_underscore(n: nat)
    ensures
        !dec_nat(n).contains('_'),
    decreases n,
{
    if n >= 10 {
        lemma_dec_no_underscore(n / 10);
        assert(dec_nat(n) == dec_nat(n / 10).push(crate::text::digit_char(n % 10)));
        if dec_nat(n).contains('_') {
            let k = choose|k: int| 0 <= k < dec_nat(n).len() && dec_nat(n)[k] == '_';
            if k < dec_nat(n / 10).len() {
                assert(dec_nat(n / 10)[k] == '_');
            }
        }
    } else {
        if dec_nat(n).contains('_') {
            let k = choose|k: int| 0 <= k < dec_nat(n).len() && dec_nat(n)[k] == '_';
            assert(k == 0);
        }
    }
}

proof fn lemma_digit_char_injective(a: nat, b: nat)
    requires
        a < 10,
        b < 10,
        crate::text::digit_char(a) == crate::text::digit_char(b),
    ensures
        a == b,
{
    let x = (a + 48) as u8;
    let y = (b + 48) as u8;
    assert(x == a + 48);
    assert(y == b + 48);
    assert((x as char) as u32 == x as u32);
    assert((y as char) as u32 == y as u32);
}

proof fn lemma_dec_len(n: nat)
    ensures
        dec_nat(n).len() >= 1,
        n >= 10 ==> dec_nat(n).len() >= 2,
    decreases n,
{
    if n >= 10 {
        lemma_dec_len(n / 10);
    }
}

proof fn lemma_dec_injective(a: nat, b: nat)
    requires
        dec_nat(a) == dec_nat(b),
    ensures
        a == b,
    decreases a,
{
    lemma_dec_len(a);
    lemma_dec_len(b);
    if a < 10 && b < 10 {
        assert(dec_nat(a)[0] == dec_nat(b)[0]);
        assert(dec_nat(a)[0] == crate::text::digit_char(a));
        assert(dec_nat(b)[0] == crate::text::digit_char(b));
        lemma_digit_char_injective(a, b);
    } else if a >= 10 && b >= 10 {
        let da = dec_nat(a / 10);
        let db = dec_nat(b / 10);
        assert(dec_nat(a) == da.push(crate::text::digit_char(a % 10)));
        assert(dec_nat(b) == db.push(crate::text::digit_char(b % 10)));
        assert(da =~= dec_nat(a).drop_last());
        assert(db =~= dec_nat(b).drop_last());
        lemma_dec_injective(a / 10, b / 10);
        assert(dec_nat(a).last() == dec_nat(b).last());
        assert(dec_nat(a).last() == crate::text::digit_char(a % 10));
        assert(dec_nat(b).last() == crate::text::digit_char(b % 10));
        lemma_digit_char_injective(a % 10, b % 10);
    } else {
        assert(dec_nat(a).len() != dec_nat(b).len());
    }
}

/// Names made with different counters differ, whatever their bases: the
/// counter can be read back from the digits after the last underscore.
pub proof fn law_fresh_names_distinct(b1: Seq<char>, c1: nat, b2: Seq<char>, c2: nat)
    ensures
        c1 != c2 ==> fresh_name(b1, c1) != fresh_name(b2, c2),
{
    if c1 != c2 && fresh_name(b1, c1) == fresh_name(b2, c2) {
        let s1 = fresh_stem(b1) + "_"@;
        let s2 = fresh_stem(b2) + "_"@;
        let d1 = dec_nat(c1);
        let d2 = dec_nat(c2);
        let w = fresh_name(b1, c1);
        reveal_strlit("_");
        assert(w =~= s1 + d1);
        assert(w =~= s2 + d2);
        lemma_dec_no_underscore(c1);
        lemma_dec_no_underscore(c2);
        if d1.len() < d2.len() {
            let k = w.len() - d1.len() - 1;
            assert(w[k] == s1[s1.len() - 1]);
            assert(w[k] == d2[k - s2.len()]);
            assert(d2.contains('_'));
        } else if d2.len() < d1.len() {
            let k = w.len() - d2.len() - 1;
            assert(w[k] == s2[s2.len() - 1]);
            assert(w[k] == d1[k - s1.len()]);
            assert(d1.contains('_'));
        } else {
            assert(d1 =~= w.subrange(w.len() - d1.len(), w.len() as int));
            assert(d2 =~= w.subrange(w.len() - d2.len(), w.len() as int));
            lemma_dec_injective(c1, c2);
        }
    }
}


/// The error that running out of depth gives.
pub open spec fn too_deep<T>() -> Result<T, SErr> {
    Err(SErr::Runtime(depth_msg()))
}

proof fn lemma_depth0(
    f1: nat,
    f2: nat,
    gl: Map<Seq<char>, SVal>,
    c: nat,
    env: VScope,
    t: STm,
)
    requires
        f1 <= f2,
        eval0_spec(f1, gl, c, env, t).0 != too_deep::<SVal>(),
    ensures
        eval0_spec(f2, gl, c, env, t) == eval0_spec(f1, gl, c, env, t),
    decreases f1, 1nat,
{
    let f = (f1 - 1) as nat;
    let g = (f2 - 1) as nat;
    match t {
        STm::App(fx, a) => {
            let (rf, c1) = eval0_spec(f, gl, c, env, *fx);
            if rf != too_deep::<SVal>() {
                lemma_depth0(f, g, gl, c, env, *fx);
                if let Ok(vf) = rf {
                    let (ra, c2) = eval0_spec(f, gl, c1, env, *a);
                    if ra != too_deep::<SVal>() {
                        lemma_depth0(f, g, gl, c1, env, *a);
                        if let Ok(va) = ra {
                            lemma_depth_apply(f, g, gl, c2, vf, va);
                        }
                    }
                }
            }
        },
        STm::Let(n, _, v, b) => {
            let (rv, c1) = eval0_spec(f, gl, c, env, *v);
            if rv != too_deep::<SVal>() {
                lemma_depth0(f, g, gl, c, env, *v);
                if let Ok(vv) = rv {
                    lemma_depth0(f, g, gl, c1, env.push((n, SEntry::Val(vv))), *b);
                }
            }
        },
        STm::Bin(op, a, b) => {
            let (ra, c1) = eval0_spec(f, gl, c, env, *a);
            if ra != too_deep::<SVal>() {
                lemma_depth0(f, g, gl, c, env, *a);
                if let Ok(va) = ra {
                    let (rb, c2) = eval0_spec(f, gl, c1, env, *b);
                    if rb != too_deep::<SVal>() {
                        lemma_depth0(f, g, gl, c1, env, *b);
                    }
                }
            }
        },
        STm::If(cnd, th, el) => {
            let (rc, c1) = eval0_spec(f, gl, c, env, *cnd);
            if rc != too_deep::<SVal>() {
                lemma_depth0(f, g, gl, c, env, *cnd);
                match rc {
                    Ok(SVal::Bool(true)) => {
                        lemma_depth0(f, g, gl, c1, env, *th);
                    },
                    Ok(SVal::Bool(false)) => {
                        lemma_depth0(f, g, gl, c1, env, *el);
                    },
                    _ => {},
                }
            }
        },
        STm::Quote(e) => {
            let (r, c1) = eval1_spec(f, gl, c, env, *e);
            if r != too_deep::<STm>() {
                lemma_depth1(f, g, gl, c, env, *e);
            }
        },
        STm::Ann(e, _) => {
            lemma_depth0(f, g, gl, c, env, *e);
        },
        _ => {},
    }
}

proof fn lemma_depth_apply(f1: nat, f2: nat, gl: Map<Seq<char>, SVal>, c: nat, fv: SVal, a: SVal)
    requires
        f1 <= f2,
        apply_spec(f1, gl, c, fv, a).0 != too_deep::<SVal>(),
    ensures
        apply_spec(f2, gl, c, fv, a) == apply_spec(f1, gl, c, fv, a),
    decreases f1, 2nat,
{
    if let SVal::Lam(env, p, body) = fv {
        lemma_depth0(f1, f2, gl, c, env.push((p, SEntry::Val(a))), body);
    }
}

proof fn lemma_depth1(
    f1: nat,
    f2: nat,
    gl: Map<Seq<char>, SVal>,
    c: nat,
    env: VScope,
    t: STm,
)
    requires
        f1 <= f2,
        eval1_spec(f1, gl, c, env, t).0 != too_deep::<STm>(),
    ensures
        eval1_spec(f2, gl, c, env, t) == eval1_spec(f1, gl, c, env, t),
    decreases f1, 1nat,
{
    let f = (f1 - 1) as nat;
    let g = (f2 - 1) as nat;
    match t {
        STm::Lam(n, ann, b) => {
            if let Ok(fr) = fresh_spec(n, c) {
                lemma_depth1(f, g, gl, c + 1, env.push((n, SEntry::CodeVar(fr))), *b);
            }
        },
        STm::App(fx, a) => {
            let (rf, c1) = eval1_spec(f, gl, c, env, *fx);
            if rf != too_deep::<STm>() {
                lemma_depth1(f, g, gl, c, env, *fx);
                if rf is Ok {
                    let (ra, c2) = eval1_spec(f, gl, c1, env, *a);
                    if ra != too_deep::<STm>() {
                        lemma_depth1(f, g, gl, c1, env, *a);
                    }
                }
            }
        },
        STm::Let(n, ann, v, b) => {
            let (rv, c1) = eval1_spec(f, gl, c, env, *v);
            if rv != too_deep::<STm>() {
                lemma_depth1(f, g, gl, c, env, *v);
                if rv is Ok {
                    if let Ok(fr) = fresh_spec(n, c1) {
                        let env2 = env.push((n, SEntry::CodeVar(fr)));
                        let (rb, c2) = eval1_spec(f, gl, c1 + 1, env2, *b);
                        if rb != too_deep::<STm>() {
                            lemma_depth1(f, g, gl, c1 + 1, env2, *b);
                        }
                    }
                }
            }
        },
        STm::Bin(op, a, b) => {
            let (ra, c1) = eval1_spec(f, gl, c, env, *a);
            if ra != too_deep::<STm>() {
                lemma_depth1(f, g, gl, c, env, *a);
                if ra is Ok {
                    let (rb, c2) = eval1_spec(f, gl, c1, env, *b);
                    if rb != too_deep::<STm>() {
                        lemma_depth1(f, g, gl, c1, env, *b);
                    }
                }
            }
        },
        STm::If(cnd, th, el) => {
            let (rc, c1) = eval1_spec(f, gl, c, env, *cnd);
            if rc != too_deep::<STm>() {
                lemma_depth1(f, g, gl, c, env, *cnd);
                if rc is Ok {
                    let (rt, c2) = eval1_spec(f, gl, c1, env, *th);
                    if rt != too_deep::<STm>() {
                        lemma_depth1(f, g, gl, c1, env, *th);
                        if rt is Ok {
                            let (re, c3) = eval1_spec(f, gl, c2, env, *el);
                            if re != too_deep::<STm>() {
                                lemma_depth1(f, g, gl, c2, env, *el);
                            }
                        }
                    }
                }
            }
        },
        STm::Splice(e) => {
            let (r, c1) = eval0_spec(f, gl, c, env, *e);
            if r != too_deep::<SVal>() {
                lemma_depth0(f, g, gl, c, env, *e);
            }
        },
        STm::Ann(e, _) => {
            lemma_depth1(f, g, gl, c, env, *e);
        },
        _ => {},
    }
}

/// The depth bound does not matter once it suffices: an evaluation that did
/// not run out of depth gives the same result, and the same counter, with
/// any larger bound.
pub proof fn law_depth_irrelevant(
    f1: nat,
    f2: nat,
    gl: Map<Seq<char>, SVal>,
    c: nat,
    env: VScope,
    t: STm,
)
    requires
        f1 <= f2,
    ensures
        eval0_spec(f1, gl, c, env, t).0 != too_deep::<SVal>() ==> eval0_spec(f2, gl, c, env, t)
            == eval0_spec(f1, gl, c, env, t),
        eval1_spec(f1, gl, c, env, t).0 != too_deep::<STm>() ==> eval1_spec(f2, gl, c, env, t)
            == eval1_spec(f1, gl, c, env, t),
{
    if eval0_spec(f1, gl, c, env, t).0 != too_deep::<SVal>() {
        lemma_depth0(f1, f2, gl, c, env, t);
    }
    if eval1_spec(f1, gl, c, env, t).0 != too_deep::<STm>() {
        lemma_depth1(f1, f2, gl, c, env, t);
    }
}

/// `<~<e>>` runs as `<e>` does, with the depth bound of [`eval0`], unless
/// evaluating it runs out of depth.
pub proof fn law_quote_splice_quote(gl: Map<Seq<char>, SVal>, c: nat, env: VScope, e: STm)
    ensures
        ({
            let r = eval0_spec(
                max_depth(),
                gl,
                c,
                env,
                STm::Quote(Box::new(STm::Splice(Box::new(STm::Quote(Box::new(e)))))),
            );
            r.0 != too_deep::<SVal>() ==> r == eval0_spec(
                max_depth(),
                gl,
                c,
                env,
                STm::Quote(Box::new(e)),
            )
        }),
{
    let m = max_depth();
    let inner = STm::Splice(Box::new(STm::Quote(Box::new(e))));
    law_splice_quote((m - 1) as nat, gl, c, env, e);
    let r = eval1_spec((m - 3) as nat, gl, c, env, e);
    if r.0 != too_deep::<STm>() {
        lemma_depth1((m - 3) as nat, (m - 1) as nat, gl, c, env, e);
    }
}


/// A term made of literals, operators, conditionals and applications only:
/// no variable, binder, quote, splice or ascription.
pub open spec fn ground(t: STm) -> bool
    decreases t,
{
    match t {
        STm::NatLit(_) => true,
        STm::BoolLit(_) => true,
        STm::App(f, a) => ground(*f) && ground(*a),
        STm::Bin(_, a, b) => ground(*a) && ground(*b),
        STm::If(c, th, el) => ground(*c) && ground(*th) && ground(*el),
        _ => false,
    }
}

/// Stage-1 evaluation keeps the structure of the quoted code: a
/// conditional, an application or an operation evaluates to the same
/// construct over what its parts evaluate to, in order from left to right,
/// each part taking up the counter of fresh names where the one before left
/// it; the condition stays the condition and each branch stays in its place.
pub proof fn law_stage1_keeps_structure(
    fuel: nat,
    gl: Map<Seq<char>, SVal>,
    c: nat,
    env: VScope,
    x: STm,
    y: STm,
    z: STm,
    op: BinOp,
)
    requires
        fuel > 0,
    ensures
        ({
            let f = (fuel - 1) as nat;
            let (rx, c1) = eval1_spec(f, gl, c, env, x);
            let (ry, c2) = eval1_spec(f, gl, c1, env, y);
            let (rz, c3) = eval1_spec(f, gl, c2, env, z);
            &&& eval1_spec(fuel, gl, c, env, STm::If(Box::new(x), Box::new(y), Box::new(z))).0 is Ok
                <==> (rx is Ok && ry is Ok && rz is Ok)
            &&& (rx is Ok && ry is Ok && rz is Ok) ==> eval1_spec(
                fuel,
                gl,
                c,
                env,
                STm::If(Box::new(x), Box::new(y), Box::new(z)),
            ) == (
                Ok::<_, SErr>(
                    STm::If(Box::new(rx->Ok_0), Box::new(ry->Ok_0), Box::new(rz->Ok_0)),
                ),
                c3,
            )
            &&& (rx is Ok && ry is Ok) ==> eval1_spec(
                fuel,
                gl,
                c,
                env,
                STm::App(Box::new(x), Box::new(y)),
            ) == (Ok::<_, SErr>(STm::App(Box::new(rx->Ok_0), Box::new(ry->Ok_0))), c2)
            &&& (rx is Ok && ry is Ok) ==> eval1_spec(
                fuel,
                gl,
                c,
                env,
                STm::Bin(op, Box::new(x), Box::new(y)),
            ) == (Ok::<_, SErr>(STm::Bin(op, Box::new(rx->Ok_0), Box::new(ry->Ok_0))), c2)
        }),
{
}

/// Code is not run: a stage-1 term evaluates only as far as its splices
/// require, so a term without splices, binders or variables comes back as it
/// is (`<1 + 2>` stays `1 + 2`), and no fresh name is used.
pub proof fn law_code_is_not_run(fuel: nat, gl: Map<Seq<char>, SVal>, c: nat, env: VScope, t: STm)
    requires
        ground(t),
    ensures
        eval1_spec(fuel, gl, c, env, t).0 != too_deep::<STm>() ==> eval1_spec(fuel, gl, c, env, t)
            == (Ok::<STm, SErr>(t), c),
    decreases t,
{
    if fuel > 0 {
        let f = (fuel - 1) as nat;
        match t {
            STm::App(fx, a) => {
                law_code_is_not_run(f, gl, c, env, *fx);
                law_code_is_not_run(f, gl, c, env, *a);
            },
            STm::Bin(_, a, b) => {
                law_code_is_not_run(f, gl, c, env, *a);
                law_code_is_not_run(f, gl, c, env, *b);
            },
            STm::If(cnd, th, el) => {
                law_code_is_not_run(f, gl, c, env, *cnd);
                law_code_is_not_run(f, gl, c, env, *th);
                law_code_is_not_run(f, gl, c, env, *el);
            },
            _ => {},
        }
    }
}

} // verus!
