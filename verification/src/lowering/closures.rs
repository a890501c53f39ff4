//! The captures of a closure literal: the free variables of its body that resolve to an
//! enclosing local binding, in the order the body first reads them.
//!
//! Module constants and functions are referenced directly, so they are not captured.
//! Names bound anywhere inside the body, or by the closure's parameters, are excluded
//! as a whole: a flat over-approximation that is sound for exclusion, since a read of
//! a locally bound name is never a capture.

use vstd::prelude::*;
use vstd::string::*;

verus! {

/// A pattern of a `match` arm, as far as the names it binds.
#[derive(Debug, PartialEq)]
pub enum Pattern {
    /// `_`, a literal, or a range: binds nothing.
    Ignore,
    /// A bare name.
    Binding(String),
    /// An enum pattern: its payload's patterns, tuple or struct.
    Variant(Vec<Pattern>),
}

/// An expression of a closure body, as far as the names it reads and binds.
#[derive(Debug, PartialEq)]
pub enum Expr {
    /// A literal or a path: reads no local.
    Constant,
    /// A bare name, read.
    Identifier(String),
    /// An expression made of its operands, evaluated in the order given: a binary or
    /// unary operator, a call (callee first), parentheses, a cast, a reference or
    /// dereference, a field or tuple access, an index, a range, an array or tuple
    /// literal, a struct literal (fields, then the base).
    Compound(Vec<Expr>),
    /// `if`, with its `else if` branches and optional `else`.
    If { condition: Box<Expr>, then_block: Vec<Stmt>, else_ifs: Vec<(Expr, Vec<Stmt>)>, else_block: Option<Vec<Stmt>> },
    /// A block, an `unsafe` block, or a `loop`.
    Block(Vec<Stmt>),
    /// `match`.
    Match { scrutinee: Box<Expr>, arms: Vec<MatchArm> },
    /// A nested closure.
    Closure { params: Vec<String>, body: Box<Expr> },
}

/// One arm of a `match`.
#[derive(Debug, PartialEq)]
pub struct MatchArm {
    pub patterns: Vec<Pattern>,
    pub guard: Option<Expr>,
    pub body: Expr,
}

/// A statement of a closure body, as far as the names it reads and binds.
#[derive(Debug, PartialEq)]
pub enum Stmt {
    /// `val`/`var`/`const name = init`.
    Declare { name: String, init: Option<Expr> },
    /// `target = value`, `target.field = value`, or `target[index] = value`: the target
    /// is read.
    Assign { target: String, index: Option<Expr>, value: Expr },
    /// `*pointer = value`.
    Store { pointer: Expr, value: Expr },
    /// `return`, `break`, or `continue`, with the value it carries.
    Exit(Option<Expr>),
    /// `if`.
    If { condition: Expr, then_block: Vec<Stmt>, else_ifs: Vec<(Expr, Vec<Stmt>)>, else_block: Option<Vec<Stmt>> },
    /// `while condition { body }`.
    While { condition: Expr, body: Vec<Stmt> },
    /// `for iterator in start..end { body }`.
    ForRange { iterator: String, start: Expr, end: Expr, body: Vec<Stmt> },
    /// `for iterator in iterable { body }`.
    ForEach { iterator: String, iterable: Expr, body: Vec<Stmt> },
    /// `loop { body }`.
    Loop(Vec<Stmt>),
    /// An expression statement.
    Expr(Expr),
}

/// The names a body reads, in order, and the names it binds.
pub struct Footprint {
    pub reads: Seq<Seq<char>>,
    pub binds: Seq<Seq<char>>,
}

/// The footprint of nothing.
pub open spec fn none() -> Footprint {
    Footprint { reads: Seq::empty(), binds: Seq::empty() }
}

/// `a`, then `b`.
pub open spec fn then(a: Footprint, b: Footprint) -> Footprint {
    Footprint { reads: a.reads + b.reads, binds: a.binds + b.binds }
}

/// A footprint that only binds `name`.
pub open spec fn binding(name: Seq<char>) -> Footprint {
    Footprint { reads: Seq::empty(), binds: seq![name] }
}

/// A footprint that only reads `name`.
pub open spec fn reading(name: Seq<char>) -> Footprint {
    Footprint { reads: seq![name], binds: Seq::empty() }
}

/// The names the patterns bind.
pub open spec fn patterns_binds(ps: Seq<Pattern>) -> Seq<Seq<char>>
    decreases ps,
{
    if ps.len() == 0 {
        Seq::empty()
    } else {
        let last = ps[ps.len() - 1];
        patterns_binds(ps.drop_last()) + match last {
            Pattern::Ignore => Seq::empty(),
            Pattern::Binding(n) => seq![n@],
            Pattern::Variant(inner) => {
                proof {
                    assert(decreases_to!(ps => ps[ps.len() - 1]));
                }
                patterns_binds(inner@)
            },
        }
    }
}

/// The footprint of an optional expression.
pub open spec fn opt_footprint(e: Option<Expr>) -> Footprint
    decreases e,
{
    match e {
        Some(x) => expr_footprint(x),
        None => none(),
    }
}

/// The footprint of an expression.
pub open spec fn expr_footprint(e: Expr) -> Footprint
    decreases e,
{
    match e {
        Expr::Constant => none(),
        Expr::Identifier(n) => reading(n@),
        Expr::Compound(parts) => exprs_footprint(parts@),
        Expr::If { condition, then_block, else_ifs, else_block } => then(
            then(then(expr_footprint(*condition), stmts_footprint(then_block@)), branches_footprint(else_ifs@)),
            else_footprint(else_block),
        ),
        Expr::Block(stmts) => stmts_footprint(stmts@),
        Expr::Match { scrutinee, arms } => then(expr_footprint(*scrutinee), arms_footprint(arms@)),
        Expr::Closure { params, body } => then(names_binding(params@), expr_footprint(*body)),
    }
}

/// A footprint binding each of `names`.
pub open spec fn names_binding(names: Seq<String>) -> Footprint {
    Footprint { reads: Seq::empty(), binds: names.map_values(|n: String| n@) }
}

/// The footprint of an optional block.
pub open spec fn else_footprint(b: Option<Vec<Stmt>>) -> Footprint
    decreases b,
{
    match b {
        Some(stmts) => stmts_footprint(stmts@),
        None => none(),
    }
}

/// The footprint of `else if` branches, in order.
pub open spec fn branches_footprint(bs: Seq<(Expr, Vec<Stmt>)>) -> Footprint
    decreases bs,
{
    if bs.len() == 0 {
        none()
    } else {
        let last = bs[bs.len() - 1];
        proof {
            assert(decreases_to!(bs => bs[bs.len() - 1]));
        }
        then(branches_footprint(bs.drop_last()), then(expr_footprint(last.0), stmts_footprint(last.1@)))
    }
}

/// The footprint of expressions, in order.
pub open spec fn exprs_footprint(es: Seq<Expr>) -> Footprint
    decreases es,
{
    if es.len() == 0 {
        none()
    } else {
        proof {
            assert(decreases_to!(es => es[es.len() - 1]));
        }
        then(exprs_footprint(es.drop_last()), expr_footprint(es[es.len() - 1]))
    }
}

/// The footprint of `match` arms, in order: each arm's pattern bindings, guard, and
/// body.
pub open spec fn arms_footprint(arms: Seq<MatchArm>) -> Footprint
    decreases arms,
{
    if arms.len() == 0 {
        none()
    } else {
        let last = arms[arms.len() - 1];
        proof {
            assert(decreases_to!(arms => arms[arms.len() - 1]));
        }
        then(
            arms_footprint(arms.drop_last()),
            then(
                then(Footprint { reads: Seq::empty(), binds: patterns_binds(last.patterns@) }, opt_footprint(last.guard)),
                expr_footprint(last.body),
            ),
        )
    }
}

/// The footprint of a statement.
pub open spec fn stmt_footprint(s: Stmt) -> Footprint
    decreases s,
{
    match s {
        Stmt::Declare { name, init } => then(opt_footprint(init), binding(name@)),
        Stmt::Assign { target, index, value } => then(
            then(reading(target@), opt_footprint(index)),
            expr_footprint(value),
        ),
        Stmt::Store { pointer, value } => then(expr_footprint(pointer), expr_footprint(value)),
        Stmt::Exit(value) => opt_footprint(value),
        Stmt::If { condition, then_block, else_ifs, else_block } => then(
            then(then(expr_footprint(condition), stmts_footprint(then_block@)), branches_footprint(else_ifs@)),
            else_footprint(else_block),
        ),
        Stmt::While { condition, body } => then(expr_footprint(condition), stmts_footprint(body@)),
        Stmt::ForRange { iterator, start, end, body } => then(
            then(then(expr_footprint(start), expr_footprint(end)), binding(iterator@)),
            stmts_footprint(body@),
        ),
        Stmt::ForEach { iterator, iterable, body } => then(
            then(expr_footprint(iterable), binding(iterator@)),
            stmts_footprint(body@),
        ),
        Stmt::Loop(body) => stmts_footprint(body@),
        Stmt::Expr(x) => expr_footprint(x),
    }
}

/// The footprint of statements, in order.
pub open spec fn stmts_footprint(ss: Seq<Stmt>) -> Footprint
    decreases ss,
{
    if ss.len() == 0 {
        none()
    } else {
        proof {
            assert(decreases_to!(ss => ss[ss.len() - 1]));
        }
        then(stmts_footprint(ss.drop_last()), stmt_footprint(ss[ss.len() - 1]))
    }
}

/// The names of a body walked so far: those it reads, in order, and those it binds.
pub struct FreeVars {
    pub reads: Vec<String>,
    pub bound: Vec<String>,
}

/// The character sequences of strings.
pub open spec fn texts(v: Seq<String>) -> Seq<Seq<char>> {
    v.map_values(|s: String| s@)
}

/// Whether `after` is `before` with `f` walked.
pub open spec fn walked(before: FreeVars, after: FreeVars, f: Footprint) -> bool {
    &&& texts(after.reads@) == texts(before.reads@) + f.reads
    &&& texts(after.bound@) == texts(before.bound@) + f.binds
}

/// Walking `a` then `b` is walking their footprints joined.
proof fn lemma_walked_then(x: FreeVars, y: FreeVars, z: FreeVars, a: Footprint, b: Footprint)
    requires
        walked(x, y, a),
        walked(y, z, b),
    ensures
        walked(x, z, then(a, b)),
{
    assert(texts(z.reads@) =~= texts(x.reads@) + then(a, b).reads);
    assert(texts(z.bound@) =~= texts(x.bound@) + then(a, b).binds);
}

/// Walking nothing leaves the names as they were.
proof fn lemma_walked_none(x: FreeVars)
    ensures
        walked(x, x, none()),
{
    assert(texts(x.reads@) + none().reads =~= texts(x.reads@));
    assert(texts(x.bound@) + none().binds =~= texts(x.bound@));
}

/// Record a read of `name`.
fn read_name(fv: &mut FreeVars, name: &String)
    ensures
        walked(*old(fv), *final(fv), reading(name@)),
{
    let ghost before = *fv;
    fv.reads.push(name.clone());
    assert(texts(fv.reads@) =~= texts(before.reads@) + reading(name@).reads);
    assert(texts(fv.bound@) =~= texts(before.bound@) + reading(name@).binds);
}

/// Record a binding of `name`.
fn bind_name(fv: &mut FreeVars, name: &String)
    ensures
        walked(*old(fv), *final(fv), binding(name@)),
{
    let ghost before = *fv;
    fv.bound.push(name.clone());
    assert(texts(fv.reads@) =~= texts(before.reads@) + binding(name@).reads);
    assert(texts(fv.bound@) =~= texts(before.bound@) + binding(name@).binds);
}

/// Record the bindings of each of `names`.
fn bind_names(fv: &mut FreeVars, names: &Vec<String>)
    ensures
        walked(*old(fv), *final(fv), names_binding(names@)),
{
    let ghost start = *fv;
    let mut i: usize = 0;
    proof {
        lemma_walked_none(*fv);
        assert(names_binding(names@.take(0)).binds =~= none().binds);
    }
    while i < names.len()
        invariant
            i <= names@.len(),
            walked(start, *fv, names_binding(names@.take(i as int))),
        decreases names@.len() - i,
    {
        let ghost mid = *fv;
        bind_name(fv, &names[i]);
        proof {
            lemma_walked_then(start, mid, *fv, names_binding(names@.take(i as int)), binding(names@[i as int]@));
            assert(names_binding(names@.take(i + 1)).binds =~= then(
                names_binding(names@.take(i as int)),
                binding(names@[i as int]@),
            ).binds);
            assert(names_binding(names@.take(i + 1)).reads =~= then(
                names_binding(names@.take(i as int)),
                binding(names@[i as int]@),
            ).reads);
        }
        i = i + 1;
    }
    assert(names@.take(i as int) =~= names@);
}

/// Record the names the patterns bind.
fn collect_patterns(ps: &Vec<Pattern>, fv: &mut FreeVars)
    ensures
        walked(*old(fv), *final(fv), Footprint { reads: Seq::empty(), binds: patterns_binds(ps@) }),
    decreases ps@,
{
    let ghost start = *fv;
    let mut i: usize = 0;
    proof {
        lemma_walked_none(*fv);
        assert(patterns_binds(ps@.take(0)) =~= Seq::<Seq<char>>::empty());
    }
    while i < ps.len()
        invariant
            i <= ps@.len(),
            walked(start, *fv, Footprint { reads: Seq::empty(), binds: patterns_binds(ps@.take(i as int)) }),
        decreases ps@.len() - i,
    {
        let ghost mid = *fv;
        let ghost own: Seq<Seq<char>> = match ps@[i as int] {
            Pattern::Ignore => Seq::empty(),
            Pattern::Binding(n) => seq![n@],
            Pattern::Variant(inner) => patterns_binds(inner@),
        };
        proof {
            assert(ps@.take(i + 1).drop_last() =~= ps@.take(i as int));
            assert(ps@.take(i + 1)[i as int] == ps@[i as int]);
            assert(patterns_binds(ps@.take(i + 1)) == patterns_binds(ps@.take(i as int)) + own);
        }
        match &ps[i] {
            Pattern::Ignore => {
                proof {
                    lemma_walked_none(*fv);
                }
            },
            Pattern::Binding(n) => {
                bind_name(fv, n);
            },
            Pattern::Variant(inner) => {
                proof {
                    assert(decreases_to!(ps@ => ps@[i as int]));
                }
                collect_patterns(inner, fv);
            },
        }
        proof {
            let step = Footprint { reads: Seq::empty(), binds: own };
            assert(walked(mid, *fv, step)) by {
                if ps@[i as int] is Ignore {
                    assert(texts(fv.bound@) =~= texts(mid.bound@) + own);
                }
            }
            let prior = Footprint { reads: Seq::empty(), binds: patterns_binds(ps@.take(i as int)) };
            lemma_walked_then(start, mid, *fv, prior, step);
            assert(then(prior, step).reads =~= Seq::<Seq<char>>::empty());
        }
        i = i + 1;
    }
    assert(ps@.take(i as int) =~= ps@);
}

/// Walk an optional expression.
fn collect_opt(e: &Option<Expr>, fv: &mut FreeVars)
    ensures
        walked(*old(fv), *final(fv), opt_footprint(*e)),
    decreases e,
{
    match e {
        Some(x) => collect_expr(x, fv),
        None => {
            proof {
                lemma_walked_none(*fv);
            }
        },
    }
}

/// Walk an optional block.
fn collect_else(b: &Option<Vec<Stmt>>, fv: &mut FreeVars)
    ensures
        walked(*old(fv), *final(fv), else_footprint(*b)),
    decreases b,
{
    match b {
        Some(stmts) => collect_stmts(stmts, fv),
        None => {
            proof {
                lemma_walked_none(*fv);
            }
        },
    }
}

/// Walk expressions, in order.
fn collect_exprs(es: &Vec<Expr>, fv: &mut FreeVars)
    ensures
        walked(*old(fv), *final(fv), exprs_footprint(es@)),
    decreases es@,
{
    let ghost start = *fv;
    let mut i: usize = 0;
    proof {
        lemma_walked_none(*fv);
        assert(es@.take(0) =~= Seq::<Expr>::empty());
    }
    while i < es.len()
        invariant
            i <= es@.len(),
            walked(start, *fv, exprs_footprint(es@.take(i as int))),
        decreases es@.len() - i,
    {
        let ghost mid = *fv;
        proof {
            assert(decreases_to!(es@ => es@[i as int]));
        }
        collect_expr(&es[i], fv);
        proof {
            assert(es@.take(i + 1).drop_last() =~= es@.take(i as int));
            assert(es@.take(i + 1)[i as int] == es@[i as int]);
            lemma_walked_then(start, mid, *fv, exprs_footprint(es@.take(i as int)), expr_footprint(es@[i as int]));
        }
        i = i + 1;
    }
    assert(es@.take(i as int) =~= es@);
}

/// Walk statements, in order.
fn collect_stmts(ss: &Vec<Stmt>, fv: &mut FreeVars)
    ensures
        walked(*old(fv), *final(fv), stmts_footprint(ss@)),
    decreases ss@,
{
    let ghost start = *fv;
    let mut i: usize = 0;
    proof {
        lemma_walked_none(*fv);
        assert(ss@.take(0) =~= Seq::<Stmt>::empty());
    }
    while i < ss.len()
        invariant
            i <= ss@.len(),
            walked(start, *fv, stmts_footprint(ss@.take(i as int))),
        decreases ss@.len() - i,
    {
        let ghost mid = *fv;
        proof {
            assert(decreases_to!(ss@ => ss@[i as int]));
        }
        collect_stmt(&ss[i], fv);
        proof {
            assert(ss@.take(i + 1).drop_last() =~= ss@.take(i as int));
            assert(ss@.take(i + 1)[i as int] == ss@[i as int]);
            lemma_walked_then(start, mid, *fv, stmts_footprint(ss@.take(i as int)), stmt_footprint(ss@[i as int]));
        }
        i = i + 1;
    }
    assert(ss@.take(i as int) =~= ss@);
}

/// Walk `else if` branches, in order.
fn collect_branches(bs: &Vec<(Expr, Vec<Stmt>)>, fv: &mut FreeVars)
    ensures
        walked(*old(fv), *final(fv), branches_footprint(bs@)),
    decreases bs@,
{
    let ghost start = *fv;
    let mut i: usize = 0;
    proof {
        lemma_walked_none(*fv);
        assert(bs@.take(0) =~= Seq::<(Expr, Vec<Stmt>)>::empty());
    }
    while i < bs.len()
        invariant
            i <= bs@.len(),
            walked(start, *fv, branches_footprint(bs@.take(i as int))),
        decreases bs@.len() - i,
    {
        let ghost mid = *fv;
        proof {
            assert(decreases_to!(bs@ => bs@[i as int]));
        }
        let (condition, block) = &bs[i];
        collect_expr(condition, fv);
        let ghost after_condition = *fv;
        collect_stmts(block, fv);
        proof {
            let b = bs@[i as int];
            lemma_walked_then(mid, after_condition, *fv, expr_footprint(b.0), stmts_footprint(b.1@));
            assert(bs@.take(i + 1).drop_last() =~= bs@.take(i as int));
            assert(bs@.take(i + 1)[i as int] == b);
            lemma_walked_then(
                start,
                mid,
                *fv,
                branches_footprint(bs@.take(i as int)),
                then(expr_footprint(b.0), stmts_footprint(b.1@)),
            );
        }
        i = i + 1;
    }
    assert(bs@.take(i as int) =~= bs@);
}

/// Walk `match` arms, in order.
fn collect_arms(arms: &Vec<MatchArm>, fv: &mut FreeVars)
    ensures
        walked(*old(fv), *final(fv), arms_footprint(arms@)),
    decreases arms@,
{
    let ghost start = *fv;
    let mut i: usize = 0;
    proof {
        lemma_walked_none(*fv);
        assert(arms@.take(0) =~= Seq::<MatchArm>::empty());
    }
    while i < arms.len()
        invariant
            i <= arms@.len(),
            walked(start, *fv, arms_footprint(arms@.take(i as int))),
        decreases arms@.len() - i,
    {
        let ghost mid = *fv;
        proof {
            assert(decreases_to!(arms@ => arms@[i as int]));
        }
        let arm = &arms[i];
        collect_patterns(&arm.patterns, fv);
        let ghost after_patterns = *fv;
        collect_opt(&arm.guard, fv);
        let ghost after_guard = *fv;
        collect_expr(&arm.body, fv);
        proof {
            let a = arms@[i as int];
            let pf = Footprint { reads: Seq::empty(), binds: patterns_binds(a.patterns@) };
            lemma_walked_then(mid, after_patterns, after_guard, pf, opt_footprint(a.guard));
            lemma_walked_then(mid, after_guard, *fv, then(pf, opt_footprint(a.guard)), expr_footprint(a.body));
            assert(arms@.take(i + 1).drop_last() =~= arms@.take(i as int));
            assert(arms@.take(i + 1)[i as int] == a);
            lemma_walked_then(
                start,
                mid,
                *fv,
                arms_footprint(arms@.take(i as int)),
                then(then(pf, opt_footprint(a.guard)), expr_footprint(a.body)),
            );
        }
        i = i + 1;
    }
    assert(arms@.take(i as int) =~= arms@);
}

/// Walk an expression: record what it reads and binds.
fn collect_expr(e: &Expr, fv: &mut FreeVars)
    ensures
        walked(*old(fv), *final(fv), expr_footprint(*e)),
    decreases e,
{
    let ghost start = *fv;
    match e {
        Expr::Constant => {
            proof {
                lemma_walked_none(*fv);
            }
        },
        Expr::Identifier(n) => read_name(fv, n),
        Expr::Compound(parts) => collect_exprs(parts, fv),
        Expr::If { condition, then_block, else_ifs, else_block } => {
            collect_expr(condition, fv);
            let ghost a = *fv;
            collect_stmts(then_block, fv);
            let ghost b = *fv;
            collect_branches(else_ifs, fv);
            let ghost c = *fv;
            collect_else(else_block, fv);
            proof {
                let fc = expr_footprint(**condition);
                let ft = stmts_footprint(then_block@);
                let fb = branches_footprint(else_ifs@);
                lemma_walked_then(start, a, b, fc, ft);
                lemma_walked_then(start, b, c, then(fc, ft), fb);
                lemma_walked_then(start, c, *fv, then(then(fc, ft), fb), else_footprint(*else_block));
            }
        },
        Expr::Block(stmts) => collect_stmts(stmts, fv),
        Expr::Match { scrutinee, arms } => {
            collect_expr(scrutinee, fv);
            let ghost a = *fv;
            collect_arms(arms, fv);
            proof {
                lemma_walked_then(start, a, *fv, expr_footprint(**scrutinee), arms_footprint(arms@));
            }
        },
        Expr::Closure { params, body } => {
            bind_names(fv, params);
            let ghost a = *fv;
            collect_expr(body, fv);
            proof {
                lemma_walked_then(start, a, *fv, names_binding(params@), expr_footprint(**body));
            }
        },
    }
}

/// Walk a statement: record what it reads and binds.
fn collect_stmt(s: &Stmt, fv: &mut FreeVars)
    ensures
        walked(*old(fv), *final(fv), stmt_footprint(*s)),
    decreases s,
{
    let ghost start = *fv;
    match s {
        Stmt::Declare { name, init } => {
            collect_opt(init, fv);
            let ghost a = *fv;
            bind_name(fv, name);
            proof {
                lemma_walked_then(start, a, *fv, opt_footprint(*init), binding(name@));
            }
        },
        Stmt::Assign { target, index, value } => {
            read_name(fv, target);
            let ghost a = *fv;
            collect_opt(index, fv);
            let ghost b = *fv;
            collect_expr(value, fv);
            proof {
                lemma_walked_then(start, a, b, reading(target@), opt_footprint(*index));
                lemma_walked_then(start, b, *fv, then(reading(target@), opt_footprint(*index)), expr_footprint(*value));
            }
        },
        Stmt::Store { pointer, value } => {
            collect_expr(pointer, fv);
            let ghost a = *fv;
            collect_expr(value, fv);
            proof {
                lemma_walked_then(start, a, *fv, expr_footprint(*pointer), expr_footprint(*value));
            }
        },
        Stmt::Exit(value) => collect_opt(value, fv),
        Stmt::If { condition, then_block, else_ifs, else_block } => {
            collect_expr(condition, fv);
            let ghost a = *fv;
            collect_stmts(then_block, fv);
            let ghost b = *fv;
            collect_branches(else_ifs, fv);
            let ghost c = *fv;
            collect_else(else_block, fv);
            proof {
                let fc = expr_footprint(*condition);
                let ft = stmts_footprint(then_block@);
                let fb = branches_footprint(else_ifs@);
                lemma_walked_then(start, a, b, fc, ft);
                lemma_walked_then(start, b, c, then(fc, ft), fb);
                lemma_walked_then(start, c, *fv, then(then(fc, ft), fb), else_footprint(*else_block));
            }
        },
        Stmt::While { condition, body } => {
            collect_expr(condition, fv);
            let ghost a = *fv;
            collect_stmts(body, fv);
            proof {
                lemma_walked_then(start, a, *fv, expr_footprint(*condition), stmts_footprint(body@));
            }
        },
        Stmt::ForRange { iterator, start: from, end, body } => {
            collect_expr(from, fv);
            let ghost a = *fv;
            collect_expr(end, fv);
            let ghost b = *fv;
            bind_name(fv, iterator);
            let ghost c = *fv;
            collect_stmts(body, fv);
            proof {
                let f1 = expr_footprint(*from);
                let f2 = expr_footprint(*end);
                lemma_walked_then(start, a, b, f1, f2);
                lemma_walked_then(start, b, c, then(f1, f2), binding(iterator@));
                lemma_walked_then(start, c, *fv, then(then(f1, f2), binding(iterator@)), stmts_footprint(body@));
            }
        },
        Stmt::ForEach { iterator, iterable, body } => {
            collect_expr(iterable, fv);
            let ghost a = *fv;
            bind_name(fv, iterator);
            let ghost b = *fv;
            collect_stmts(body, fv);
            proof {
                let f1 = expr_footprint(*iterable);
                lemma_walked_then(start, a, b, f1, binding(iterator@));
                lemma_walked_then(start, b, *fv, then(f1, binding(iterator@)), stmts_footprint(body@));
            }
        },
        Stmt::Loop(body) => collect_stmts(body, fv),
        Stmt::Expr(x) => collect_expr(x, fv),
    }
}

/// The captures of a body that reads `reads`, in order: each name that is not
/// `excluded`, that `locals` holds, at the first read of it.
pub open spec fn captures_spec(reads: Seq<Seq<char>>, excluded: Seq<Seq<char>>, locals: Seq<Seq<char>>) -> Seq<
    Seq<char>,
>
    decreases reads.len(),
{
    if reads.len() == 0 {
        Seq::empty()
    } else {
        let prior = captures_spec(reads.drop_last(), excluded, locals);
        let n = reads.last();
        if excluded.contains(n) || reads.drop_last().contains(n) || !locals.contains(n) {
            prior
        } else {
            prior.push(n)
        }
    }
}

/// A sequence with `x` pushed holds exactly what it held and `x`.
proof fn lemma_push_contains(s: Seq<Seq<char>>, x: Seq<char>, m: Seq<char>)
    ensures
        s.push(x).contains(m) <==> (s.contains(m) || m == x),
{
    if s.push(x).contains(m) {
        let k = choose|k: int| 0 <= k < s.push(x).len() && #[trigger] s.push(x)[k] == m;
        if k < s.len() {
            assert(s[k] == m);
        }
    }
    if s.contains(m) {
        let k = choose|k: int| 0 <= k < s.len() && #[trigger] s[k] == m;
        assert(s.push(x)[k] == m);
    }
    if m == x {
        assert(s.push(x)[s.len() as int] == m);
    }
}

/// Whether `v` holds a string with the characters of `s`.
fn holds_text(v: &Vec<String>, s: &String) -> (found: bool)
    ensures
        found == texts(v@).contains(s@),
{
    let mut i: usize = 0;
    while i < v.len()
        invariant
            i <= v@.len(),
            forall|k: int| 0 <= k < i ==> v@[k]@ != s@,
        decreases v@.len() - i,
    {
        if v[i] == *s {
            assert(texts(v@)[i as int] == s@);
            return true;
        }
        i = i + 1;
    }
    assert forall|k: int| 0 <= k < texts(v@).len() implies texts(v@)[k] != s@ by {
        assert(texts(v@)[k] == v@[k]@);
    }
    false
}

/// The captures of a closure with parameters `params` and body `body`, where `locals`
/// are the names of the enclosing local bindings: the free variables of the body,
/// excluding every name bound inside it or by a parameter, that resolve to an enclosing
/// local, each once, in the order the body first reads them. The caller pairs each
/// with its binding's type.
pub fn collect_captures(params: &Vec<String>, body: &Expr, locals: &Vec<String>) -> (captures: Vec<String>)
    ensures
        texts(captures@) == captures_spec(
            expr_footprint(*body).reads,
            expr_footprint(*body).binds + texts(params@),
            texts(locals@),
        ),
{
    let mut fv = FreeVars { reads: Vec::new(), bound: Vec::new() };
    let ghost empty = fv;
    collect_expr(body, &mut fv);
    let ghost body_bound = texts(fv.bound@);
    bind_names(&mut fv, params);
    let ghost reads = expr_footprint(*body).reads;
    let ghost excluded = expr_footprint(*body).binds + texts(params@);
    let ghost local_texts = texts(locals@);
    proof {
        assert(texts(empty.reads@) =~= Seq::<Seq<char>>::empty());
        assert(texts(empty.bound@) =~= Seq::<Seq<char>>::empty());
        assert(texts(fv.reads@) =~= reads);
        assert(names_binding(params@).binds =~= texts(params@));
        assert(texts(fv.bound@) =~= excluded);
    }
    let mut captures: Vec<String> = Vec::new();
    let mut seen: Vec<String> = Vec::new();
    let mut i: usize = 0;
    while i < fv.reads.len()
        invariant
            texts(fv.reads@) == reads,
            texts(fv.bound@) == excluded,
            local_texts == texts(locals@),
            i <= reads.len(),
            forall|m: Seq<char>| #[trigger] texts(seen@).contains(m) <==> (reads.take(i as int).contains(m)
                && !excluded.contains(m)),
            texts(captures@) == captures_spec(reads.take(i as int), excluded, local_texts),
        decreases reads.len() - i,
    {
        let name = &fv.reads[i];
        let ghost n = name@;
        proof {
            assert(reads[i as int] == n);
            assert(reads.take(i + 1).drop_last() =~= reads.take(i as int));
            assert(reads.take(i + 1).last() == n);
        }
        let ghost before_seen = texts(seen@);
        let ghost before_captures = texts(captures@);
        let ghost added = !excluded.contains(n) && !before_seen.contains(n);
        if holds_text(&fv.bound, name) {
        } else if holds_text(&seen, name) {
        } else {
            seen.push(name.clone());
            assert(texts(seen@) =~= before_seen.push(n));
            if holds_text(locals, name) {
                captures.push(name.clone());
                assert(texts(captures@) =~= before_captures.push(n));
            }
        }
        proof {
            assert(texts(seen@) == if added {
                before_seen.push(n)
            } else {
                before_seen
            });
            assert(reads.take(i + 1) =~= reads.take(i as int).push(n));
            assert forall|m: Seq<char>| #[trigger] texts(seen@).contains(m) <==> (reads.take(i + 1).contains(m)
                && !excluded.contains(m)) by {
                lemma_push_contains(reads.take(i as int), n, m);
                lemma_push_contains(before_seen, n, m);
                assert(before_seen.contains(m) <==> (reads.take(i as int).contains(m) && !excluded.contains(m)));
            }
        }
        i = i + 1;
    }
    assert(reads.take(i as int) =~= reads);
    captures
}

/// A closure captures exactly the names its body reads that are neither bound inside
/// it nor parameters and that resolve to an enclosing local binding, and each of them
/// once.
pub proof fn lemma_captures_are_the_free_locals(
    reads: Seq<Seq<char>>,
    excluded: Seq<Seq<char>>,
    locals: Seq<Seq<char>>,
)
    ensures
        forall|n: Seq<char>|
            #[trigger] captures_spec(reads, excluded, locals).contains(n) <==> (reads.contains(n)
                && !excluded.contains(n) && locals.contains(n)),
        captures_spec(reads, excluded, locals).no_duplicates(),
    decreases reads.len(),
{
    if reads.len() > 0 {
        let init = reads.drop_last();
        let x = reads.last();
        lemma_captures_are_the_free_locals(init, excluded, locals);
        let prior = captures_spec(init, excluded, locals);
        assert(init.push(x) =~= reads);
        assert forall|n: Seq<char>| #[trigger] captures_spec(reads, excluded, locals).contains(n) <==> (
            reads.contains(n) && !excluded.contains(n) && locals.contains(n)) by {
            lemma_push_contains(init, x, n);
            lemma_push_contains(prior, x, n);
        }
        if !(excluded.contains(x) || init.contains(x) || !locals.contains(x)) {
            assert(!prior.contains(x));
            let grown = prior.push(x);
            assert forall|a: int, b: int| 0 <= a < grown.len() && 0 <= b < grown.len() && a != b implies grown[a]
                != grown[b] by {
                if a < prior.len() && b < prior.len() {
                } else if a < prior.len() {
                    assert(prior[a] == grown[a]);
                } else if b < prior.len() {
                    assert(prior[b] == grown[b]);
                }
            }
        }
    }
}

/// An assignment reads its target before anything else, and binds only what its index
/// and value bind: assigning to a name never makes it local to the closure.
pub proof fn lemma_assignment_reads_its_target(target: String, index: Option<Expr>, value: Expr)
    ensures
        ({
            let f = stmt_footprint(Stmt::Assign { target, index, value });
            &&& f.reads.len() > 0 && f.reads[0] == target@
            &&& f.binds == opt_footprint(index).binds + expr_footprint(value).binds
        }),
{
    let f = stmt_footprint(Stmt::Assign { target, index, value });
    assert(f.reads[0] == target@);
    assert(f.binds =~= opt_footprint(index).binds + expr_footprint(value).binds);
}

/// Each name a statement of a block reads is read by the block.
proof fn lemma_block_reads_each_statement(ss: Seq<Stmt>, i: int, n: Seq<char>)
    requires
        0 <= i < ss.len(),
        stmt_footprint(ss[i]).reads.contains(n),
    ensures
        stmts_footprint(ss).reads.contains(n),
    decreases ss.len(),
{
    let last = ss.len() - 1;
    let before = stmts_footprint(ss.drop_last()).reads;
    let here = stmt_footprint(ss[last]).reads;
    assert(stmts_footprint(ss).reads == before + here);
    if i == last {
        let k = choose|k: int| 0 <= k < here.len() && here[k] == n;
        assert((before + here)[before.len() + k] == n);
    } else {
        assert(ss.drop_last()[i] == ss[i]);
        lemma_block_reads_each_statement(ss.drop_last(), i, n);
        let k = choose|k: int| 0 <= k < before.len() && before[k] == n;
        assert((before + here)[k] == n);
    }
}

/// A closure whose block body assigns to an enclosing local, one that is neither a
/// parameter nor bound anywhere in the body, captures it.
pub proof fn lemma_assigned_locals_are_captured(
    params: Seq<String>,
    stmts: Vec<Stmt>,
    locals: Seq<Seq<char>>,
    i: int,
)
    requires
        0 <= i < stmts@.len(),
        stmts@[i] is Assign,
        locals.contains(stmts@[i]->Assign_target@),
        !texts(params).contains(stmts@[i]->Assign_target@),
        !stmts_footprint(stmts@).binds.contains(stmts@[i]->Assign_target@),
    ensures
        ({
            let f = expr_footprint(Expr::Block(stmts));
            captures_spec(f.reads, f.binds + texts(params), locals).contains(stmts@[i]->Assign_target@)
        }),
{
    let n = stmts@[i]->Assign_target@;
    let f = expr_footprint(Expr::Block(stmts));
    if let Stmt::Assign { target, index, value } = stmts@[i] {
        lemma_assignment_reads_its_target(target, index, value);
        assert(stmt_footprint(stmts@[i]).reads[0] == n);
    }
    lemma_block_reads_each_statement(stmts@, i, n);
    let excluded = f.binds + texts(params);
    assert(!excluded.contains(n)) by {
        if excluded.contains(n) {
            let k = choose|k: int| 0 <= k < excluded.len() && excluded[k] == n;
            if k < f.binds.len() {
                assert(f.binds[k] == n);
            } else {
                assert(texts(params)[k - f.binds.len()] == n);
            }
        }
    }
    lemma_captures_are_the_free_locals(f.reads, excluded, locals);
}

} // verus!
