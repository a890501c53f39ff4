//! Tensor indexing and slicing `t[i, j]` / `t[1..3, ..]`: folding each slice bound to
//! the constant it is, and the axes that survive into the result.

use vstd::prelude::*;
use vstd::string::*;

use super::shape::names_view;
use super::{concat3, malformed, LoweringError, LoweringErrorView};
use crate::text::{decimal, decimal_digits};

verus! {

/// An arithmetic operator a slice bound may be written with.
#[derive(Debug, Clone, Copy, PartialEq, Eq, Structural)]
pub enum FoldOp {
    Add,
    Subtract,
    Multiply,
    Divide,
    Modulo,
    /// Any other operator.
    Other,
}

/// A slice bound as written, as far as folding reads it.
#[derive(Debug, PartialEq)]
pub enum FoldExpr {
    /// An integer literal.
    Integer(i128),
    /// `(inner)`.
    Paren(Box<FoldExpr>),
    /// `left op right`.
    Binary { left: Box<FoldExpr>, op: FoldOp, right: Box<FoldExpr> },
    /// Any other expression.
    Other,
}

/// Integer division rounding toward zero, as Rust divides.
pub open spec fn trunc_div(x: int, d: int) -> int {
    if x == 0 {
        0
    } else if x > 0 && d > 0 {
        x / d
    } else if x < 0 && d < 0 {
        (x * -1) / (d * -1)
    } else if x < 0 {
        ((x * -1) / d) * -1
    } else {
        (x / (d * -1)) * -1
    }
}

/// The remainder of rounding-toward-zero division, with the dividend's sign.
pub open spec fn trunc_rem(x: int, d: int) -> int {
    if x == 0 {
        0
    } else if x > 0 && d > 0 {
        x % d
    } else if x < 0 && d < 0 {
        ((x * -1) % (d * -1)) * -1
    } else if x < 0 {
        ((x * -1) % d) * -1
    } else {
        x % (d * -1)
    }
}

/// What `left op right` folds to, where it folds.
pub open spec fn apply_op(op: FoldOp, left: int, right: int) -> Option<int> {
    match op {
        FoldOp::Add => Some(left + right),
        FoldOp::Subtract => Some(left - right),
        FoldOp::Multiply => Some(left * right),
        FoldOp::Divide => if right != 0 {
            Some(trunc_div(left, right))
        } else {
            None
        },
        FoldOp::Modulo => if right != 0 {
            Some(trunc_rem(left, right))
        } else {
            None
        },
        FoldOp::Other => None,
    }
}

/// The constant a slice bound is, where it is one.
pub open spec fn folded(e: FoldExpr) -> Option<int>
    decreases e,
{
    match e {
        FoldExpr::Integer(v) => Some(v as int),
        FoldExpr::Paren(inner) => folded(*inner),
        FoldExpr::Binary { left, op, right } => match folded(*left) {
            None => None,
            Some(l) => match folded(*right) {
                None => None,
                Some(r) => apply_op(op, l, r),
            },
        },
        FoldExpr::Other => None,
    }
}

/// Whether folding `e` with `i128` arithmetic never overflows: every operation it
/// reaches has a result an `i128` holds (a remainder of `i128::MIN` by `-1` included).
pub open spec fn fold_fits(e: FoldExpr) -> bool
    decreases e,
{
    match e {
        FoldExpr::Paren(inner) => fold_fits(*inner),
        FoldExpr::Binary { left, op, right } => fold_fits(*left) && (folded(*left) is Some ==> fold_fits(
            *right,
        )) && match (folded(*left), folded(*right)) {
            (Some(l), Some(r)) => {
                &&& apply_op(op, l, r) matches Some(v) ==> i128::MIN <= v <= i128::MAX
                &&& !(op == FoldOp::Modulo && l == i128::MIN && r == -1)
            },
            _ => true,
        },
        _ => true,
    }
}

/// The constant a slice bound folds to, where it is one.
pub fn fold(e: &FoldExpr) -> (value: Option<i128>)
    requires
        fold_fits(*e),
    ensures
        match value {
            Some(v) => folded(*e) == Some(v as int),
            None => folded(*e) is None,
        },
    decreases e,
{
    match e {
        FoldExpr::Integer(v) => Some(*v),
        FoldExpr::Paren(inner) => fold(inner),
        FoldExpr::Binary { left, op, right } => {
            let l = match fold(left) {
                Some(l) => l,
                None => {
                    return None;
                },
            };
            let r = match fold(right) {
                Some(r) => r,
                None => {
                    return None;
                },
            };
            match op {
                FoldOp::Add => l.checked_add(r),
                FoldOp::Subtract => l.checked_sub(r),
                FoldOp::Multiply => l.checked_mul(r),
                FoldOp::Divide => l.checked_div(r),
                FoldOp::Modulo => l.checked_rem(r),
                FoldOp::Other => None,
            }
        },
        FoldExpr::Other => None,
    }
}

/// What a slice bound that is not a constant is refused with.
pub open spec fn not_constant_detail() -> Seq<char> {
    "a tensor slice bound is not a constant"@
}

/// A slice bound, folded to the position it names.
pub fn const_int(e: &FoldExpr) -> (r: Result<usize, LoweringError>)
    requires
        fold_fits(*e),
    ensures
        match r {
            Ok(v) => folded(*e) == Some(v as int),
            Err(err) => !(folded(*e) matches Some(v) && 0 <= v <= usize::MAX) && err@
                == (LoweringErrorView::Malformed { detail: not_constant_detail() }),
        },
{
    match fold(e) {
        Some(v) => {
            if v >= 0 && v <= usize::MAX as i128 {
                return Ok(v as usize);
            }
        },
        None => {},
    }
    Err(malformed(String::from_str("a tensor slice bound is not a constant")))
}

/// An index along one axis of a tensor, as written.
#[derive(Debug, PartialEq)]
pub enum IndexArg {
    /// `..`: the whole axis.
    FullAxis,
    /// A position, any expression.
    Position,
    /// `start..end`, or `start..=end` where `inclusive`.
    Range { start: FoldExpr, end: FoldExpr, inclusive: bool },
}

/// How an index reads one axis: at a position, or along the positions `start..end`.
#[derive(Debug, Clone, Copy, PartialEq, Eq, Structural)]
pub enum TensorAxis {
    Position,
    Range { start: usize, end: usize },
}

/// A slice bound's position, where it folds to one.
pub open spec fn bound_value(e: FoldExpr) -> Option<usize> {
    match folded(e) {
        Some(v) => if 0 <= v <= usize::MAX {
            Some(v as usize)
        } else {
            None
        },
        None => None,
    }
}

/// How the index `arg` reads an axis of `extent`.
pub open spec fn axis_plan(arg: IndexArg, extent: usize) -> Result<TensorAxis, Seq<char>> {
    match arg {
        IndexArg::FullAxis => Ok(TensorAxis::Range { start: 0, end: extent }),
        IndexArg::Position => Ok(TensorAxis::Position),
        IndexArg::Range { start, end, inclusive } => match bound_value(start) {
            None => Err(not_constant_detail()),
            Some(s) => match bound_value(end) {
                None => Err(not_constant_detail()),
                Some(e) => Ok(
                    TensorAxis::Range {
                        start: s,
                        end: if inclusive {
                            (e + 1) as usize
                        } else {
                            e
                        },
                    },
                ),
            },
        },
    }
}

/// Whether reading an axis by `arg` stays in `usize`: an inclusive range does not end
/// at `usize::MAX`, and no range ends before it starts.
pub open spec fn axis_fits(arg: IndexArg) -> bool {
    match arg {
        IndexArg::Range { start, end, inclusive } => {
            &&& fold_fits(start)
            &&& bound_value(start) is Some ==> fold_fits(end)
            &&& match (bound_value(start), bound_value(end)) {
                (Some(s), Some(e)) => (inclusive ==> e < usize::MAX) && s <= if inclusive {
                    e + 1
                } else {
                    e as int
                },
                _ => true,
            }
        },
        _ => true,
    }
}

/// How each index reads its axis, in order; the first index that cannot be read is
/// refused.
pub open spec fn plan_axes(args: Seq<IndexArg>, extents: Seq<usize>) -> Result<Seq<TensorAxis>, Seq<char>>
    decreases args.len(),
{
    if args.len() == 0 {
        Ok(Seq::empty())
    } else {
        let k = args.len() - 1;
        match plan_axes(args.drop_last(), extents) {
            Err(d) => Err(d),
            Ok(axes) => match axis_plan(args[k], extents[k]) {
                Err(d) => Err(d),
                Ok(a) => Ok(axes.push(a)),
            },
        }
    }
}

/// Whether every index that is read stays in `usize`.
pub open spec fn plan_fits(args: Seq<IndexArg>, extents: Seq<usize>) -> bool
    decreases args.len(),
{
    if args.len() == 0 {
        true
    } else {
        plan_fits(args.drop_last(), extents) && (plan_axes(args.drop_last(), extents) is Ok ==> axis_fits(
            args[args.len() - 1],
        ))
    }
}

/// The extents of the axes a plan keeps: one per range.
pub open spec fn kept_extents(axes: Seq<TensorAxis>) -> Seq<usize>
    decreases axes.len(),
{
    if axes.len() == 0 {
        Seq::empty()
    } else {
        match axes.last() {
            TensorAxis::Range { start, end } => kept_extents(axes.drop_last()).push((end - start) as usize),
            TensorAxis::Position => kept_extents(axes.drop_last()),
        }
    }
}

/// The names of the axes a plan keeps: a kept axis keeps its name.
pub open spec fn kept_names(axes: Seq<TensorAxis>, names: Seq<Option<Seq<char>>>) -> Seq<Option<Seq<char>>>
    decreases axes.len(),
{
    if axes.len() == 0 {
        Seq::empty()
    } else {
        let k = axes.len() - 1;
        match axes.last() {
            TensorAxis::Range { .. } => kept_names(axes.drop_last(), names).push(
                if k < names.len() {
                    names[k]
                } else {
                    None
                },
            ),
            TensorAxis::Position => kept_names(axes.drop_last(), names),
        }
    }
}

/// The reading of an index over a tensor: how each axis is read, and the extents and
/// names of the axes that survive into the result (none, where every axis is a
/// position and the result is one element).
pub struct IndexPlan {
    pub axes: Vec<TensorAxis>,
    pub kept: Vec<usize>,
    pub kept_names: Vec<Option<String>>,
}

/// An [`IndexPlan`] as sequences.
pub struct IndexPlanView {
    pub axes: Seq<TensorAxis>,
    pub kept: Seq<usize>,
    pub kept_names: Seq<Option<Seq<char>>>,
}

impl View for IndexPlan {
    type V = IndexPlanView;

    open spec fn view(&self) -> IndexPlanView {
        IndexPlanView { axes: self.axes@, kept: self.kept@, kept_names: names_view(self.kept_names@) }
    }
}

/// What indexing a tensor of `extents` named `names` by `args` reads.
pub open spec fn index_plan_spec(
    extents: Seq<usize>,
    names: Seq<Option<Seq<char>>>,
    args: Seq<IndexArg>,
) -> Result<IndexPlanView, Seq<char>> {
    if args.len() != extents.len() {
        Err(
            "tensor index names "@ + decimal_digits(args.len()) + " axes for a rank-"@ + decimal_digits(
                extents.len(),
            ) + " tensor"@,
        )
    } else {
        match plan_axes(args, extents) {
            Err(d) => Err(d),
            Ok(axes) => Ok(
                IndexPlanView { axes, kept: kept_extents(axes), kept_names: kept_names(axes, names) },
            ),
        }
    }
}

/// A refusal of a prefix of the indices is the refusal of them all.
proof fn lemma_plan_fail_from(args: Seq<IndexArg>, extents: Seq<usize>, m: int)
    requires
        0 <= m <= args.len(),
        plan_axes(args.take(m), extents) is Err,
    ensures
        plan_axes(args, extents) == plan_axes(args.take(m), extents),
    decreases args.len() - m,
{
    if m < args.len() {
        assert(args.take(m + 1).drop_last() =~= args.take(m));
        lemma_plan_fail_from(args, extents, m + 1);
    } else {
        assert(args.take(m) =~= args);
    }
}

/// The fit of a prefix of the indices follows from the fit of them all.
proof fn lemma_plan_fits_prefix(args: Seq<IndexArg>, extents: Seq<usize>, m: int)
    requires
        0 <= m <= args.len(),
        plan_fits(args, extents),
    ensures
        plan_fits(args.take(m), extents),
    decreases args.len() - m,
{
    if m < args.len() {
        lemma_plan_fits_prefix(args.drop_last(), extents, m);
        assert(args.drop_last().take(m) =~= args.take(m));
    } else {
        assert(args.take(m) =~= args);
    }
}

/// How indexing a tensor of `extents` named `names` by `args` reads it: a full axis
/// `..` is the range of the whole axis, an inclusive range stops one further on, and
/// every range keeps its axis, with its name, in the result.
pub fn index_plan(extents: &Vec<usize>, names: &Vec<Option<String>>, args: &Vec<IndexArg>) -> (r: Result<
    IndexPlan,
    LoweringError,
>)
    requires
        plan_fits(args@, extents@),
    ensures
        match r {
            Ok(plan) => index_plan_spec(extents@, names_view(names@), args@) == Ok::<
                IndexPlanView,
                Seq<char>,
            >(plan@),
            Err(e) => index_plan_spec(extents@, names_view(names@), args@) matches Err(d) && e@
                == (LoweringErrorView::Malformed { detail: d }),
        },
{
    if args.len() != extents.len() {
        let mut detail = concat3(
            "tensor index names ",
            decimal(args.len() as u64).as_str(),
            " axes for a rank-",
        );
        detail.append(decimal(extents.len() as u64).as_str());
        detail.append(" tensor");
        return Err(malformed(detail));
    }
    let ghost nv = names_view(names@);
    let n = args.len();
    let mut axes: Vec<TensorAxis> = Vec::new();
    let mut kept: Vec<usize> = Vec::new();
    let mut kept_list: Vec<Option<String>> = Vec::new();
    let mut k: usize = 0;
    while k < n
        invariant
            n == args@.len(),
            n == extents@.len(),
            nv == names_view(names@),
            k <= n,
            plan_fits(args@, extents@),
            plan_axes(args@.take(k as int), extents@) == Ok::<Seq<TensorAxis>, Seq<char>>(axes@),
            kept@ == kept_extents(axes@),
            names_view(kept_list@) == kept_names(axes@, nv),
            axes@.len() == k,
        decreases n - k,
    {
        proof {
            assert(args@.take(k + 1).drop_last() =~= args@.take(k as int));
            assert(args@.take(k + 1)[k as int] == args@[k as int]);
            lemma_plan_fits_prefix(args@, extents@, k + 1);
        }
        let extent = extents[k];
        let axis = match &args[k] {
            IndexArg::FullAxis => TensorAxis::Range { start: 0, end: extent },
            IndexArg::Position => TensorAxis::Position,
            IndexArg::Range { start, end, inclusive } => {
                let s = match const_int(start) {
                    Ok(s) => s,
                    Err(e) => {
                        proof {
                            lemma_plan_fail_from(args@, extents@, k + 1);
                        }
                        return Err(e);
                    },
                };
                let e = match const_int(end) {
                    Ok(e) => e,
                    Err(err) => {
                        proof {
                            lemma_plan_fail_from(args@, extents@, k + 1);
                        }
                        return Err(err);
                    },
                };
                let stop = if *inclusive {
                    e + 1
                } else {
                    e
                };
                TensorAxis::Range { start: s, end: stop }
            },
        };
        let ghost before = axes@;
        let ghost before_names = kept_list@;
        axes.push(axis);
        proof {
            assert(axes@.drop_last() =~= before);
        }
        match axis {
            TensorAxis::Range { start, end } => {
                kept.push(end - start);
                let name = if k < names.len() {
                    match &names[k] {
                        Some(text) => Some(text.clone()),
                        None => None,
                    }
                } else {
                    None
                };
                kept_list.push(name);
                assert(names_view(kept_list@) =~= names_view(before_names).push(
                    if k < nv.len() {
                        nv[k as int]
                    } else {
                        None
                    },
                ));
            },
            TensorAxis::Position => {},
        }
        k = k + 1;
    }
    proof {
        assert(args@.take(n as int) =~= args@);
    }
    Ok(IndexPlan { axes, kept, kept_names: kept_list })
}

} // verus!
