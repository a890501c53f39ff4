//! The method and constructor names the tensor intrinsics answer to.

use vstd::prelude::*;
use vstd::string::*;

use super::shape::{method_detail, method_text};
use super::{malformed, LoweringError, LoweringErrorView};

verus! {

pub const MAP_METHOD: &'static str = "map";
pub const ZIP_METHOD: &'static str = "zip";
pub const REDUCE_METHOD: &'static str = "reduce";

pub const TRANSPOSE_METHOD: &'static str = "t";
pub const RESHAPE_METHOD: &'static str = "reshape";
pub const PERMUTE_METHOD: &'static str = "permute";
pub const FLATTEN_METHOD: &'static str = "flatten";

pub const SUM_METHOD: &'static str = "sum";
pub const MEAN_METHOD: &'static str = "mean";
pub const MAX_METHOD: &'static str = "max";
pub const MIN_METHOD: &'static str = "min";

pub const SORT_METHOD: &'static str = "sort";
pub const ARGSORT_METHOD: &'static str = "argsort";
pub const TOPK_METHOD: &'static str = "topk";

pub const CTOR_ZEROS: &'static str = "zeros";
pub const CTOR_ONES: &'static str = "ones";
pub const CTOR_IDENTITY: &'static str = "identity";
pub const CTOR_RANDOM_NORMAL: &'static str = "random_normal";
pub const CTOR_SCALAR: &'static str = "scalar";
pub const CTOR_FROM: &'static str = "from";

/// Whether `a` and `b` hold the same characters.
pub fn same_text(a: &str, b: &str) -> (same: bool)
    ensures
        same == (a@ == b@),
{
    let n = a.unicode_len();
    if n != b.unicode_len() {
        return false;
    }
    let mut i: usize = 0;
    while i < n
        invariant
            n == a@.len(),
            n == b@.len(),
            i <= n,
            forall|k: int| 0 <= k < i ==> a@[k] == b@[k],
        decreases n - i,
    {
        if a.get_char(i) != b.get_char(i) {
            return false;
        }
        i = i + 1;
    }
    assert(a@ =~= b@);
    true
}

/// Whether `method` names one of the three functional traversals.
pub fn is_apply_method(method: &str) -> (r: bool)
    ensures
        r == (method@ == MAP_METHOD@ || method@ == ZIP_METHOD@ || method@ == REDUCE_METHOD@),
{
    same_text(method, MAP_METHOD) || same_text(method, ZIP_METHOD) || same_text(method, REDUCE_METHOD)
}

/// Whether `method` names one of the four shape-manipulation intrinsics.
pub fn is_shape_method(method: &str) -> (r: bool)
    ensures
        r == (method@ == TRANSPOSE_METHOD@ || method@ == RESHAPE_METHOD@ || method@ == PERMUTE_METHOD@
            || method@ == FLATTEN_METHOD@),
{
    same_text(method, TRANSPOSE_METHOD) || same_text(method, RESHAPE_METHOD) || same_text(
        method,
        PERMUTE_METHOD,
    ) || same_text(method, FLATTEN_METHOD)
}

/// Whether `method` names one of the four reductions.
pub fn is_reduce_method(method: &str) -> (r: bool)
    ensures
        r == (method@ == SUM_METHOD@ || method@ == MEAN_METHOD@ || method@ == MAX_METHOD@
            || method@ == MIN_METHOD@),
{
    same_text(method, SUM_METHOD) || same_text(method, MEAN_METHOD) || same_text(method, MAX_METHOD)
        || same_text(method, MIN_METHOD)
}

/// Whether `method` names one of the three order-based selections.
pub fn is_sort_method(method: &str) -> (r: bool)
    ensures
        r == (method@ == SORT_METHOD@ || method@ == ARGSORT_METHOD@ || method@ == TOPK_METHOD@),
{
    same_text(method, SORT_METHOD) || same_text(method, ARGSORT_METHOD) || same_text(method, TOPK_METHOD)
}

/// Whether `ctor` names one of the tensor construction helpers.
pub fn is_tensor_constructor(ctor: &str) -> (r: bool)
    ensures
        r == (ctor@ == CTOR_ZEROS@ || ctor@ == CTOR_ONES@ || ctor@ == CTOR_IDENTITY@ || ctor@
            == CTOR_RANDOM_NORMAL@ || ctor@ == CTOR_SCALAR@ || ctor@ == CTOR_FROM@),
{
    same_text(ctor, CTOR_ZEROS) || same_text(ctor, CTOR_ONES) || same_text(ctor, CTOR_IDENTITY)
        || same_text(ctor, CTOR_RANDOM_NORMAL) || same_text(ctor, CTOR_SCALAR) || same_text(
        ctor,
        CTOR_FROM,
    )
}

/// The functional traversal a tensor method applies.
#[derive(Debug, Clone, Copy, PartialEq, Eq, Structural)]
pub enum ApplyKind {
    /// `.map(f)`: each element through `f`.
    Each,
    /// `.zip(other, f)`: paired elements through `f`.
    Pairwise,
    /// `.reduce(init, f)`: the elements folded through `f`.
    Fold,
}

/// The traversal `method` names, or the detail of its refusal.
pub open spec fn apply_kind_spec(method: Seq<char>) -> Result<ApplyKind, Seq<char>> {
    if method == MAP_METHOD@ {
        Ok(ApplyKind::Each)
    } else if method == ZIP_METHOD@ {
        Ok(ApplyKind::Pairwise)
    } else if method == REDUCE_METHOD@ {
        Ok(ApplyKind::Fold)
    } else {
        Err(method_detail(method, " is not a functional traversal"@))
    }
}

/// The traversal `method` names.
pub fn apply_kind(method: &str) -> (r: Result<ApplyKind, LoweringError>)
    ensures
        match r {
            Ok(kind) => apply_kind_spec(method@) == Ok::<ApplyKind, Seq<char>>(kind),
            Err(e) => apply_kind_spec(method@) matches Err(d) && e@ == (LoweringErrorView::Malformed {
                detail: d,
            }),
        },
{
    if same_text(method, MAP_METHOD) {
        Ok(ApplyKind::Each)
    } else if same_text(method, ZIP_METHOD) {
        Ok(ApplyKind::Pairwise)
    } else if same_text(method, REDUCE_METHOD) {
        Ok(ApplyKind::Fold)
    } else {
        Err(malformed(method_text(method, " is not a functional traversal")))
    }
}

/// An elementwise math function.
#[derive(Debug, Clone, Copy, PartialEq, Eq, Structural)]
pub enum MathOp {
    Exp,
    Log,
    Sqrt,
    Tanh,
    Abs,
    Pow,
}

/// The math function `method` names, if any.
pub open spec fn math_op_spec(method: Seq<char>) -> Option<MathOp> {
    if method == "exp"@ {
        Some(MathOp::Exp)
    } else if method == "log"@ {
        Some(MathOp::Log)
    } else if method == "sqrt"@ {
        Some(MathOp::Sqrt)
    } else if method == "tanh"@ {
        Some(MathOp::Tanh)
    } else if method == "abs"@ {
        Some(MathOp::Abs)
    } else if method == "pow"@ {
        Some(MathOp::Pow)
    } else {
        None
    }
}

/// The math function `method` names, `None` for any other method.
pub fn math_op(method: &str) -> (op: Option<MathOp>)
    ensures
        op == math_op_spec(method@),
{
    if same_text(method, "exp") {
        Some(MathOp::Exp)
    } else if same_text(method, "log") {
        Some(MathOp::Log)
    } else if same_text(method, "sqrt") {
        Some(MathOp::Sqrt)
    } else if same_text(method, "tanh") {
        Some(MathOp::Tanh)
    } else if same_text(method, "abs") {
        Some(MathOp::Abs)
    } else if same_text(method, "pow") {
        Some(MathOp::Pow)
    } else {
        None
    }
}

/// Whether a call of `op` with `arg_count` arguments lowers an exponent: `.pow` takes
/// exactly one, and any other function's arguments are not read.
pub fn math_exponent(op: MathOp, arg_count: usize) -> (r: Result<bool, LoweringError>)
    ensures
        match r {
            Ok(has) => has == (op == MathOp::Pow) && (op == MathOp::Pow ==> arg_count == 1),
            Err(e) => op == MathOp::Pow && arg_count != 1 && e@ == (LoweringErrorView::Malformed {
                detail: "`.pow` reached lowering without exactly one exponent"@,
            }),
        },
{
    match op {
        MathOp::Pow => if arg_count == 1 {
            Ok(true)
        } else {
            Err(malformed(String::from_str("`.pow` reached lowering without exactly one exponent")))
        },
        _ => Ok(false),
    }
}

} // verus!
