//! The shape-manipulation intrinsics `.t()`, `.reshape(...)`, `.permute(...)`, and
//! `.flatten(...)`: the result shape, the result's dimension names, and, where the
//! element order changes, where each result axis came from.

use vstd::prelude::*;
use vstd::string::*;

use super::autodiff::{has_repeat, repeats};
use super::layout::{lemma_product_single, product};
use super::methods::{same_text, FLATTEN_METHOD, PERMUTE_METHOD, RESHAPE_METHOD, TRANSPOSE_METHOD};
use super::{concat3, malformed, LoweringError, LoweringErrorView};
use crate::text::{decimal, decimal_digits, signed_decimal, signed_digits};

verus! {

/// An entry of an axis list, or a compile-time argument of a tensor intrinsic, as
/// written: what the intrinsics read of it.
#[derive(Debug, PartialEq)]
pub enum AxisEntry {
    /// An integer literal.
    Integer(i128),
    /// A boolean literal.
    Boolean(bool),
    /// A bare name: a dimension name of the receiver.
    Name(String),
    /// `(inner)`.
    Paren(Box<AxisEntry>),
    /// `-operand`.
    Negate(Box<AxisEntry>),
    /// Any other expression.
    Other,
}

/// An argument of a shape method: an array literal of axis entries, or any other
/// expression.
#[derive(Debug, PartialEq)]
pub enum ShapeArg {
    AxisList(Vec<AxisEntry>),
    Other,
}

/// The result of a shape method.
#[derive(Debug, Clone, PartialEq)]
pub struct ShapeCast {
    pub shape: Vec<usize>,
    /// The result's dimension names, one per axis.
    pub names: Vec<Option<String>>,
    /// Where each result axis came from, when the element order changes.
    pub permutation: Option<Vec<usize>>,
}

/// A [`ShapeCast`] as sequences.
pub struct ShapeCastView {
    pub shape: Seq<usize>,
    pub names: Seq<Option<Seq<char>>>,
    pub permutation: Option<Seq<usize>>,
}

/// The view of a list of dimension names.
pub open spec fn names_view(names: Seq<Option<String>>) -> Seq<Option<Seq<char>>> {
    names.map_values(
        |n: Option<String>| match n {
            Some(s) => Some(s@),
            None => None,
        },
    )
}

impl View for ShapeCast {
    type V = ShapeCastView;

    open spec fn view(&self) -> ShapeCastView {
        ShapeCastView {
            shape: self.shape@,
            names: names_view(self.names@),
            permutation: match self.permutation {
                Some(p) => Some(p@),
                None => None,
            },
        }
    }
}

/// The value of an integer constant written in an axis list.
pub open spec fn const_value(e: AxisEntry) -> Option<int>
    decreases e,
{
    match e {
        AxisEntry::Integer(v) => Some(v as int),
        AxisEntry::Paren(inner) => const_value(*inner),
        AxisEntry::Negate(operand) => match const_value(*operand) {
            Some(v) => Some(-v),
            None => None,
        },
        _ => None,
    }
}

/// Whether every negation in `e` has a value that an `i128` can negate.
pub open spec fn negation_fits(e: AxisEntry) -> bool
    decreases e,
{
    match e {
        AxisEntry::Paren(inner) => negation_fits(*inner),
        AxisEntry::Negate(operand) => negation_fits(*operand) && match const_value(*operand) {
            Some(v) => v > i128::MIN,
            None => true,
        },
        _ => true,
    }
}

/// Whether every entry of every axis list in `args` satisfies `negation_fits`.
pub open spec fn args_negation_fits(args: Seq<ShapeArg>) -> bool {
    forall|i: int| #![trigger args[i]] 0 <= i < args.len() ==> match args[i] {
        ShapeArg::AxisList(entries) => forall|j: int|
            0 <= j < entries@.len() ==> negation_fits(#[trigger] entries@[j]),
        ShapeArg::Other => true,
    }
}

/// The value of an integer constant expression written in an axis list.
pub fn const_integer(e: &AxisEntry) -> (value: Option<i128>)
    requires
        negation_fits(*e),
    ensures
        match value {
            Some(v) => const_value(*e) == Some(v as int),
            None => const_value(*e) is None,
        },
    decreases e,
{
    match e {
        AxisEntry::Integer(v) => Some(*v),
        AxisEntry::Paren(inner) => const_integer(inner),
        AxisEntry::Negate(operand) => match const_integer(operand) {
            Some(v) => Some(-v),
            None => None,
        },
        _ => None,
    }
}

/// The first axis the receiver names `name`.
pub open spec fn name_position(names: Seq<Option<Seq<char>>>, name: Seq<char>) -> Option<int>
    decreases names.len(),
{
    if names.len() == 0 {
        None
    } else {
        match name_position(names.drop_last(), name) {
            Some(i) => Some(i),
            None => if names.last() == Some(name) {
                Some(names.len() - 1)
            } else {
                None
            },
        }
    }
}

/// The first axis named `name`.
fn position_of_name(names: &Vec<Option<String>>, name: &String) -> (found: Option<usize>)
    ensures
        match found {
            Some(i) => name_position(names_view(names@), name@) == Some(i as int),
            None => name_position(names_view(names@), name@) is None,
        },
{
    let ghost view = names_view(names@);
    let mut i: usize = 0;
    while i < names.len()
        invariant
            view == names_view(names@),
            i <= names@.len(),
            name_position(view.take(i as int), name@) is None,
        decreases names@.len() - i,
    {
        assert(view.take(i + 1).drop_last() =~= view.take(i as int));
        let hit = match &names[i] {
            Some(n) => *n == *name,
            None => false,
        };
        if hit {
            proof {
                lemma_name_position_prefix(view, name@, i as int + 1);
            }
            return Some(i);
        }
        i = i + 1;
    }
    assert(view.take(i as int) =~= view);
    None
}

/// A name found in a prefix is found there in the whole.
proof fn lemma_name_position_prefix(names: Seq<Option<Seq<char>>>, name: Seq<char>, n: int)
    requires
        0 <= n <= names.len(),
        name_position(names.take(n), name) is Some,
    ensures
        name_position(names, name) == name_position(names.take(n), name),
    decreases names.len() - n,
{
    if n < names.len() {
        assert(names.take(n + 1).drop_last() =~= names.take(n));
        lemma_name_position_prefix(names, name, n + 1);
    } else {
        assert(names.take(n) =~= names);
    }
}

/// The receiver's names, gathered in the result's axis order; an axis past the names
/// has none.
pub open spec fn reordered_names(names: Seq<Option<Seq<char>>>, order: Seq<usize>) -> Seq<
    Option<Seq<char>>,
> {
    Seq::new(
        order.len(),
        |k: int|
            if order[k] < names.len() {
                names[order[k] as int]
            } else {
                None
            },
    )
}

/// A copy of an optional name.
pub(crate) fn copy_name(name: &Option<String>) -> (copy: Option<String>)
    ensures
        copy == *name,
{
    match name {
        Some(n) => Some(n.clone()),
        None => None,
    }
}

/// The receiver's names, gathered in the result's axis order.
pub fn reorder_names(names: &Vec<Option<String>>, order: &Vec<usize>) -> (result: Vec<Option<String>>)
    ensures
        names_view(result@) == reordered_names(names_view(names@), order@),
{
    let mut result: Vec<Option<String>> = Vec::new();
    let mut k: usize = 0;
    while k < order.len()
        invariant
            k <= order@.len(),
            result@.len() == k,
            names_view(result@) =~= reordered_names(names_view(names@), order@.take(k as int)),
        decreases order@.len() - k,
    {
        let axis = order[k];
        let ghost before = result@;
        if axis < names.len() {
            result.push(copy_name(&names[axis]));
        } else {
            result.push(None);
        }
        proof {
            let target = reordered_names(names_view(names@), order@.take(k + 1));
            let prior = reordered_names(names_view(names@), order@.take(k as int));
            assert forall|j: int| 0 <= j < k + 1 implies names_view(result@)[j] == target[j] by {
                if j < k {
                    assert(result@[j] == before[j]);
                    assert(names_view(before)[j] == prior[j]);
                }
            }
        }
        k = k + 1;
    }
    assert(order@.take(k as int) =~= order@);
    result
}

/// The detail of a refusal of `.method`, as `` `.method` `` followed by `rest`.
pub open spec fn method_detail(method: Seq<char>, rest: Seq<char>) -> Seq<char> {
    "`."@ + method + "`"@ + rest
}

/// Each entry of an axis list as a receiver axis: a name is a dimension name, anything
/// else a constant position.
pub open spec fn resolve_axes_spec(
    rank: nat,
    names: Seq<Option<Seq<char>>>,
    entries: Seq<AxisEntry>,
    method: Seq<char>,
) -> Result<Seq<usize>, Seq<char>>
    decreases entries.len(),
{
    if entries.len() == 0 {
        Ok(Seq::empty())
    } else {
        match resolve_axes_spec(rank, names, entries.drop_last(), method) {
            Err(d) => Err(d),
            Ok(axes) => match resolve_axis_entry(rank, names, entries.last(), method) {
                Err(d) => Err(d),
                Ok(a) => Ok(axes.push(a)),
            },
        }
    }
}

/// One entry of an axis list as a receiver axis.
pub open spec fn resolve_axis_entry(
    rank: nat,
    names: Seq<Option<Seq<char>>>,
    entry: AxisEntry,
    method: Seq<char>,
) -> Result<usize, Seq<char>> {
    match entry {
        AxisEntry::Name(name) => match name_position(names, name@) {
            Some(i) => Ok(i as usize),
            None => Err(
                method_detail(
                    method,
                    " reached lowering naming dimension '"@ + name@
                        + "', which its receiver's type does not declare"@,
                ),
            ),
        },
        _ => match const_value(entry) {
            None => Err(method_detail(method, " reached lowering with a non-constant axis"@)),
            Some(v) => if 0 <= v < rank {
                Ok(v as usize)
            } else {
                Err(
                    method_detail(
                        method,
                        " reached lowering with axis "@ + signed_digits(v) + " out of range"@,
                    ),
                )
            },
        },
    }
}

/// The detail text `` `.method` `` followed by `rest`.
pub(crate) fn method_text(method: &str, rest: &str) -> (s: String)
    ensures
        s@ == method_detail(method@, rest@),
{
    concat3("`.", method, "`").concat(rest)
}

/// Each entry of an axis list as a receiver axis index: a name is a dimension name, an
/// integer constant a position.
pub fn resolve_axes(
    rank: usize,
    names: &Vec<Option<String>>,
    entries: &Vec<AxisEntry>,
    method: &str,
) -> (r: Result<Vec<usize>, LoweringError>)
    requires
        forall|j: int| 0 <= j < entries@.len() ==> negation_fits(#[trigger] entries@[j]),
    ensures
        match r {
            Ok(axes) => resolve_axes_spec(rank as nat, names_view(names@), entries@, method@) == Ok::<
                Seq<usize>,
                Seq<char>,
            >(axes@),
            Err(e) => resolve_axes_spec(rank as nat, names_view(names@), entries@, method@) matches Err(
                d,
            ) && e@ == (LoweringErrorView::Malformed { detail: d }),
        },
{
    let ghost nv = names_view(names@);
    let mut axes: Vec<usize> = Vec::new();
    let mut i: usize = 0;
    while i < entries.len()
        invariant
            nv == names_view(names@),
            i <= entries@.len(),
            forall|j: int| 0 <= j < entries@.len() ==> negation_fits(#[trigger] entries@[j]),
            resolve_axes_spec(rank as nat, nv, entries@.take(i as int), method@) == Ok::<
                Seq<usize>,
                Seq<char>,
            >(axes@),
        decreases entries@.len() - i,
    {
        let entry = &entries[i];
        proof {
            assert(entries@.take(i + 1).drop_last() =~= entries@.take(i as int));
            assert(entries@.take(i + 1).last() == *entry);
        }
        let axis = match entry {
            AxisEntry::Name(name) => match position_of_name(names, name) {
                Some(position) => position,
                None => {
                    let mut rest = String::from_str(" reached lowering naming dimension '");
                    rest.append(name.as_str());
                    rest.append("', which its receiver's type does not declare");
                    proof {
                        lemma_axes_fail_from(rank as nat, nv, entries@, method@, i as int + 1);
                    }
                    return Err(malformed(method_text(method, rest.as_str())));
                },
            },
            _ => match const_integer(entry) {
                None => {
                    proof {
                        lemma_axes_fail_from(rank as nat, nv, entries@, method@, i as int + 1);
                    }
                    return Err(
                        malformed(method_text(method, " reached lowering with a non-constant axis")),
                    );
                },
                Some(value) => {
                    if value < 0 || value >= rank as i128 {
                        let rest = concat3(
                            " reached lowering with axis ",
                            signed_decimal(value).as_str(),
                            " out of range",
                        );
                        proof {
                            lemma_axes_fail_from(rank as nat, nv, entries@, method@, i as int + 1);
                        }
                        return Err(malformed(method_text(method, rest.as_str())));
                    }
                    value as usize
                },
            },
        };
        axes.push(axis);
        i = i + 1;
    }
    assert(entries@.take(i as int) =~= entries@);
    Ok(axes)
}

/// A refusal of a prefix of the entries is the refusal of them all.
proof fn lemma_axes_fail_from(
    rank: nat,
    names: Seq<Option<Seq<char>>>,
    entries: Seq<AxisEntry>,
    method: Seq<char>,
    m: int,
)
    requires
        0 <= m <= entries.len(),
        resolve_axes_spec(rank, names, entries.take(m), method) is Err,
    ensures
        resolve_axes_spec(rank, names, entries, method) == resolve_axes_spec(
            rank,
            names,
            entries.take(m),
            method,
        ),
    decreases entries.len() - m,
{
    if m < entries.len() {
        assert(entries.take(m + 1).drop_last() =~= entries.take(m));
        lemma_axes_fail_from(rank, names, entries, method, m + 1);
    } else {
        assert(entries.take(m) =~= entries);
    }
}

/// The entries of the single array-literal argument a shape method takes.
pub open spec fn axis_list_spec(args: Seq<ShapeArg>) -> Option<Seq<AxisEntry>> {
    if args.len() == 1 && args[0] is AxisList {
        Some(args[0]->AxisList_0@)
    } else {
        None
    }
}

/// What a shape method without its axis-list literal is refused with.
pub open spec fn missing_list_detail(method: Seq<char>) -> Seq<char> {
    method_detail(method, " reached lowering without its axis-list literal"@)
}

/// The elements of the single array-literal argument these calls take.
fn axis_list<'a>(args: &'a Vec<ShapeArg>, method: &str) -> (r: Result<&'a Vec<AxisEntry>, LoweringError>)
    ensures
        match r {
            Ok(entries) => axis_list_spec(args@) == Some(entries@),
            Err(e) => axis_list_spec(args@) is None && e@ == (LoweringErrorView::Malformed {
                detail: missing_list_detail(method@),
            }),
        },
{
    if args.len() == 1 {
        match &args[0] {
            ShapeArg::AxisList(entries) => {
                return Ok(entries);
            },
            ShapeArg::Other => {},
        }
    }
    Err(malformed(method_text(method, " reached lowering without its axis-list literal")))
}

/// `.t()`: the two axes of a matrix swapped.
pub open spec fn transpose_spec(shape: Seq<usize>, names: Seq<Option<Seq<char>>>) -> Result<
    ShapeCastView,
    Seq<char>,
> {
    if shape.len() != 2 {
        Err("`.t()` reached lowering on a rank-"@ + decimal_digits(shape.len()) + " tensor"@)
    } else {
        Ok(
            ShapeCastView {
                shape: seq![shape[1], shape[0]],
                names: reordered_names(names, seq![1usize, 0usize]),
                permutation: Some(seq![1usize, 0usize]),
            },
        )
    }
}

/// Whether `r` is the outcome `spec` describes, an error as its detail.
pub open spec fn cast_outcome(r: Result<ShapeCast, LoweringError>, spec: Result<ShapeCastView, Seq<char>>) -> bool {
    match r {
        Ok(cast) => spec == Ok::<ShapeCastView, Seq<char>>(cast@),
        Err(e) => spec matches Err(d) && e@ == (LoweringErrorView::Malformed { detail: d }),
    }
}

/// `.t()` on a tensor of `shape` named `names`.
pub fn transpose(shape: &Vec<usize>, names: &Vec<Option<String>>) -> (r: Result<ShapeCast, LoweringError>)
    ensures
        cast_outcome(r, transpose_spec(shape@, names_view(names@))),
{
    if shape.len() != 2 {
        return Err(
            malformed(
                concat3("`.t()` reached lowering on a rank-", decimal(shape.len() as u64).as_str(), " tensor"),
            ),
        );
    }
    let order: Vec<usize> = vec![1, 0];
    let names = reorder_names(names, &order);
    let result = ShapeCast { shape: vec![shape[1], shape[0]], names, permutation: Some(order) };
    assert(result@.shape =~= seq![shape@[1], shape@[0]]);
    assert(order@ =~= seq![1usize, 0usize]);
    Ok(result)
}

/// `.permute([...])`: the axes in the listed order.
pub open spec fn permute_spec(
    shape: Seq<usize>,
    names: Seq<Option<Seq<char>>>,
    args: Seq<ShapeArg>,
) -> Result<ShapeCastView, Seq<char>> {
    match axis_list_spec(args) {
        None => Err(missing_list_detail(PERMUTE_METHOD@)),
        Some(entries) => match resolve_axes_spec(shape.len(), names, entries, PERMUTE_METHOD@) {
            Err(d) => Err(d),
            Ok(order) => if order.len() != shape.len() {
                Err(
                    "`.permute` reached lowering with "@ + decimal_digits(order.len()) + " axes for a rank-"@
                        + decimal_digits(shape.len()) + " tensor"@,
                )
            } else if has_repeat(order) {
                Err("`.permute` reached lowering with an axis list that is not a permutation"@)
            } else {
                Ok(
                    ShapeCastView {
                        shape: order.map_values(|a: usize| shape[a as int]),
                        names: reordered_names(names, order),
                        permutation: Some(order),
                    },
                )
            },
        },
    }
}

/// `.permute([...])` on a tensor of `shape` named `names`.
pub fn permute(shape: &Vec<usize>, names: &Vec<Option<String>>, args: &Vec<ShapeArg>) -> (r: Result<
    ShapeCast,
    LoweringError,
>)
    requires
        names@.len() == shape@.len(),
        args_negation_fits(args@),
    ensures
        cast_outcome(r, permute_spec(shape@, names_view(names@), args@)),
{
    let entries = match axis_list(args, PERMUTE_METHOD) {
        Ok(entries) => entries,
        Err(e) => {
            return Err(e);
        },
    };
    proof {
        assert(args@[0] is AxisList);
    }
    let order = match resolve_axes(shape.len(), names, entries, PERMUTE_METHOD) {
        Ok(order) => order,
        Err(e) => {
            return Err(e);
        },
    };
    if order.len() != shape.len() {
        let mut detail = concat3(
            "`.permute` reached lowering with ",
            decimal(order.len() as u64).as_str(),
            " axes for a rank-",
        );
        detail.append(decimal(shape.len() as u64).as_str());
        detail.append(" tensor");
        return Err(malformed(detail));
    }
    if repeats(&order) {
        return Err(
            malformed(String::from_str("`.permute` reached lowering with an axis list that is not a permutation")),
        );
    }
    proof {
        lemma_resolved_in_range(shape@.len(), names_view(names@), entries@, PERMUTE_METHOD@);
    }
    let mut result_shape: Vec<usize> = Vec::new();
    let mut k: usize = 0;
    while k < order.len()
        invariant
            k <= order@.len(),
            forall|j: int| 0 <= j < order@.len() ==> #[trigger] order@[j] < shape@.len(),
            result_shape@ =~= order@.take(k as int).map_values(|a: usize| shape@[a as int]),
        decreases order@.len() - k,
    {
        result_shape.push(shape[order[k]]);
        k = k + 1;
    }
    assert(order@.take(k as int) =~= order@);
    let result_names = reorder_names(names, &order);
    Ok(ShapeCast { shape: result_shape, names: result_names, permutation: Some(order) })
}

/// Every resolved axis lies inside the rank.
proof fn lemma_resolved_in_range(
    rank: nat,
    names: Seq<Option<Seq<char>>>,
    entries: Seq<AxisEntry>,
    method: Seq<char>,
)
    requires
        resolve_axes_spec(rank, names, entries, method) is Ok,
        names.len() <= rank,
    ensures
        forall|j: int|
            0 <= j < resolve_axes_spec(rank, names, entries, method)->Ok_0.len() ==> #[trigger] resolve_axes_spec(
                rank,
                names,
                entries,
                method,
            )->Ok_0[j] < rank,
    decreases entries.len(),
{
    if entries.len() > 0 {
        lemma_resolved_in_range(rank, names, entries.drop_last(), method);
        if let AxisEntry::Name(name) = entries.last() {
            lemma_name_position_bound(names, name@);
        }
    }
}

/// A found name lies inside the names.
pub(crate) proof fn lemma_name_position_bound(names: Seq<Option<Seq<char>>>, name: Seq<char>)
    ensures
        name_position(names, name) matches Some(i) ==> 0 <= i < names.len(),
    decreases names.len(),
{
    if names.len() > 0 {
        lemma_name_position_bound(names.drop_last(), name);
    }
}

/// The written extents of a `.reshape`, in order (`None` for an inferred `-1`), and the
/// position of the inferred one; at most one extent may be inferred.
pub open spec fn reshape_extents(entries: Seq<AxisEntry>) -> Result<(Seq<Option<usize>>, Option<int>), Seq<char>>
    decreases entries.len(),
{
    if entries.len() == 0 {
        Ok((Seq::empty(), None))
    } else {
        match reshape_extents(entries.drop_last()) {
            Err(d) => Err(d),
            Ok((exts, inferred)) => match const_value(entries.last()) {
                None => Err("`.reshape` reached lowering with a non-constant extent"@),
                Some(v) => if v == -1 {
                    if inferred is Some {
                        Err("`.reshape` reached lowering with more than one inferred extent"@)
                    } else {
                        Ok((exts.push(None), Some(exts.len() as int)))
                    }
                } else if 0 <= v <= usize::MAX {
                    Ok((exts.push(Some(v as usize)), inferred))
                } else {
                    Err("`.reshape` reached lowering with a negative extent"@)
                },
            },
        }
    }
}

/// The extents that are given, in order.
pub open spec fn given(exts: Seq<Option<usize>>) -> Seq<usize>
    decreases exts.len(),
{
    if exts.len() == 0 {
        Seq::empty()
    } else {
        match exts.last() {
            Some(x) => given(exts.drop_last()).push(x),
            None => given(exts.drop_last()),
        }
    }
}

/// Whether multiplying out the given extents of a `.reshape` cannot overflow.
pub open spec fn reshape_fits(args: Seq<ShapeArg>) -> bool {
    axis_list_spec(args) matches Some(entries) ==> (reshape_extents(entries) matches Ok((exts, _))
        ==> super::layout::counts_fit(given(exts)))
}

/// `.reshape([...])`: the listed extents, at most one of them inferred from the element
/// count; the element count must stay the same.
pub open spec fn reshape_spec(shape: Seq<usize>, args: Seq<ShapeArg>) -> Result<ShapeCastView, Seq<char>> {
    match axis_list_spec(args) {
        None => Err(missing_list_detail(RESHAPE_METHOD@)),
        Some(entries) => match reshape_extents(entries) {
            Err(d) => Err(d),
            Ok((exts, inferred)) => {
                let total = product(shape);
                let known = product(given(exts));
                let filled = match inferred {
                    Some(p) => if known == 0 || total % known != 0 {
                        None
                    } else {
                        Some(exts.update(p, Some((total / known) as usize)))
                    },
                    None => Some(exts),
                };
                match filled {
                    None => Err("`.reshape` reached lowering with an extent that cannot be inferred"@),
                    Some(f) => {
                        let resolved = given(f);
                        if product(resolved) != total {
                            Err(
                                "`.reshape` reached lowering changing "@ + decimal_digits(total)
                                    + " elements into "@ + decimal_digits(product(resolved)),
                            )
                        } else {
                            Ok(
                                ShapeCastView {
                                    shape: resolved,
                                    names: Seq::new(resolved.len(), |i: int| None),
                                    permutation: None,
                                },
                            )
                        }
                    },
                }
            },
        },
    }
}

/// The given extents of a prefix are a prefix of the given extents.
proof fn lemma_given_prefix(exts: Seq<Option<usize>>, n: int)
    requires
        0 <= n <= exts.len(),
    ensures
        given(exts.take(n)).len() <= given(exts).len(),
        given(exts.take(n)) == given(exts).take(given(exts.take(n)).len() as int),
    decreases exts.len() - n,
{
    if n < exts.len() {
        lemma_given_prefix(exts, n + 1);
        assert(exts.take(n + 1).drop_last() =~= exts.take(n));
        assert(given(exts.take(n)) =~= given(exts).take(given(exts.take(n)).len() as int));
    } else {
        assert(exts.take(n) =~= exts);
    }
}

/// Appending an extent multiplies the count by it.
proof fn lemma_product_push(shape: Seq<usize>, x: usize)
    ensures
        product(shape.push(x)) == product(shape) * x,
{
    assert(shape.push(x).drop_last() =~= shape);
}

/// Filling in a missing extent multiplies the given count by it.
proof fn lemma_given_fill(exts: Seq<Option<usize>>, p: int, x: usize)
    requires
        0 <= p < exts.len(),
        exts[p] is None,
    ensures
        product(given(exts.update(p, Some(x)))) == product(given(exts)) * x,
    decreases exts.len(),
{
    let filled = exts.update(p, Some(x));
    if p == exts.len() - 1 {
        assert(filled.drop_last() =~= exts.drop_last());
        lemma_product_push(given(exts.drop_last()), x);
    } else {
        assert(filled.drop_last() =~= exts.drop_last().update(p, Some(x)));
        lemma_given_fill(exts.drop_last(), p, x);
        let a = product(given(exts.drop_last()));
        match exts.last() {
            Some(y) => {
                lemma_product_push(given(exts.drop_last()), y);
                lemma_product_push(given(filled.drop_last()), y);
                assert(a * x * y == a * y * x) by (nonlinear_arith);
            },
            None => {},
        }
    }
}

/// The count of the running product of `shape` up to `n`, as the multiplication loop
/// keeps it.
fn count_given(exts: &Vec<Option<usize>>) -> (count: usize)
    requires
        super::layout::counts_fit(given(exts@)),
    ensures
        count == product(given(exts@)),
{
    let mut count: usize = 1;
    let mut i: usize = 0;
    while i < exts.len()
        invariant
            i <= exts@.len(),
            super::layout::counts_fit(given(exts@)),
            count == product(given(exts@.take(i as int))),
        decreases exts@.len() - i,
    {
        proof {
            assert(exts@.take(i + 1).drop_last() =~= exts@.take(i as int));
            lemma_given_prefix(exts@, i + 1);
        }
        match exts[i] {
            Some(x) => {
                proof {
                    let g = given(exts@);
                    let m = given(exts@.take(i + 1)).len() as int;
                    assert(product(g.take(m)) <= usize::MAX);
                    assert(given(exts@.take(i + 1)) == given(exts@.take(i as int)).push(x));
                    lemma_product_push(given(exts@.take(i as int)), x);
                }
                count = count * x;
            },
            None => {},
        }
        i = i + 1;
    }
    assert(exts@.take(i as int) =~= exts@);
    count
}

/// The given extents, in order.
fn given_extents(exts: &Vec<Option<usize>>) -> (result: Vec<usize>)
    ensures
        result@ == given(exts@),
{
    let mut result: Vec<usize> = Vec::new();
    let mut i: usize = 0;
    while i < exts.len()
        invariant
            i <= exts@.len(),
            result@ == given(exts@.take(i as int)),
        decreases exts@.len() - i,
    {
        assert(exts@.take(i + 1).drop_last() =~= exts@.take(i as int));
        match exts[i] {
            Some(x) => {
                result.push(x);
            },
            None => {},
        }
        i = i + 1;
    }
    assert(exts@.take(i as int) =~= exts@);
    result
}

/// `n` names, none of them given.
fn unnamed(n: usize) -> (names: Vec<Option<String>>)
    ensures
        names_view(names@) == Seq::new(n as nat, |i: int| None::<Seq<char>>),
{
    let mut names: Vec<Option<String>> = Vec::new();
    let mut i: usize = 0;
    while i < n
        invariant
            i <= n,
            names@.len() == i,
            forall|k: int| 0 <= k < i ==> #[trigger] names@[k] is None,
        decreases n - i,
    {
        names.push(None);
        i = i + 1;
    }
    assert(names_view(names@) =~= Seq::new(n as nat, |i: int| None::<Seq<char>>));
    names
}

/// `.reshape([...])` on a tensor of `shape`.
pub fn reshape(shape: &Vec<usize>, args: &Vec<ShapeArg>) -> (r: Result<ShapeCast, LoweringError>)
    requires
        super::layout::counts_fit(shape@),
        args_negation_fits(args@),
        reshape_fits(args@),
    ensures
        cast_outcome(r, reshape_spec(shape@, args@)),
{
    let total = super::layout::tensor_element_count(shape);
    let entries = match axis_list(args, RESHAPE_METHOD) {
        Ok(entries) => entries,
        Err(e) => {
            return Err(e);
        },
    };
    proof {
        assert(args@[0] is AxisList);
    }
    let mut extents: Vec<Option<usize>> = Vec::new();
    let mut inferred_at: Option<usize> = None;
    let mut i: usize = 0;
    while i < entries.len()
        invariant
            i <= entries@.len(),
            axis_list_spec(args@) == Some(entries@),
            forall|j: int| 0 <= j < entries@.len() ==> negation_fits(#[trigger] entries@[j]),
            reshape_extents(entries@.take(i as int)) == Ok::<(Seq<Option<usize>>, Option<int>), Seq<char>>(
                (
                    extents@,
                    match inferred_at {
                        Some(p) => Some(p as int),
                        None => None,
                    },
                ),
            ),
            extents@.len() == i,
        decreases entries@.len() - i,
    {
        proof {
            assert(entries@.take(i + 1).drop_last() =~= entries@.take(i as int));
            assert(entries@.take(i + 1).last() == entries@[i as int]);
        }
        let value = match const_integer(&entries[i]) {
            Some(v) => v,
            None => {
                proof {
                    lemma_reshape_fail_from(entries@, i as int + 1);
                }
                return Err(
                    malformed(String::from_str("`.reshape` reached lowering with a non-constant extent")),
                );
            },
        };
        if value == -1 {
            if inferred_at.is_some() {
                proof {
                    lemma_reshape_fail_from(entries@, i as int + 1);
                }
                return Err(
                    malformed(
                        String::from_str("`.reshape` reached lowering with more than one inferred extent"),
                    ),
                );
            }
            inferred_at = Some(extents.len());
            extents.push(None);
        } else {
            if value < 0 || value > usize::MAX as i128 {
                proof {
                    lemma_reshape_fail_from(entries@, i as int + 1);
                }
                return Err(
                    malformed(String::from_str("`.reshape` reached lowering with a negative extent")),
                );
            }
            extents.push(Some(value as usize));
        }
        i = i + 1;
    }
    proof {
        assert(entries@.take(i as int) =~= entries@);
    }
    let known = count_given(&extents);
    let count = match inferred_at {
        Some(position) => {
            if known == 0 || total % known != 0 {
                return Err(
                    malformed(
                        String::from_str(
                            "`.reshape` reached lowering with an extent that cannot be inferred",
                        ),
                    ),
                );
            }
            let ghost before = extents@;
            proof {
                lemma_inferred_is_missing(entries@);
                lemma_given_fill(before, position as int, (total / known) as usize);
                vstd::arithmetic::div_mod::lemma_fundamental_div_mod(total as int, known as int);
                assert(known * (total / known) == total) by (nonlinear_arith)
                    requires
                        total == known * (total / known) + total % known,
                        total % known == 0,
                ;
            }
            extents.set(position, Some(total / known));
            total
        },
        None => known,
    };
    let resolved = given_extents(&extents);
    if count != total {
        let mut detail = concat3(
            "`.reshape` reached lowering changing ",
            decimal(total as u64).as_str(),
            " elements into ",
        );
        detail.append(decimal(count as u64).as_str());
        return Err(malformed(detail));
    }
    let names = unnamed(resolved.len());
    Ok(ShapeCast { shape: resolved, names, permutation: None })
}

/// The inferred position of a `.reshape` names a missing extent.
proof fn lemma_inferred_is_missing(entries: Seq<AxisEntry>)
    requires
        reshape_extents(entries) is Ok,
    ensures
        reshape_extents(entries)->Ok_0.1 matches Some(p) ==> 0 <= p < reshape_extents(entries)->Ok_0.0.len()
            && reshape_extents(entries)->Ok_0.0[p] is None,
        reshape_extents(entries)->Ok_0.0.len() == entries.len(),
    decreases entries.len(),
{
    if entries.len() > 0 {
        lemma_inferred_is_missing(entries.drop_last());
    }
}

/// A refusal of a prefix of the extents is the refusal of them all.
proof fn lemma_reshape_fail_from(entries: Seq<AxisEntry>, m: int)
    requires
        0 <= m <= entries.len(),
        reshape_extents(entries.take(m)) is Err,
    ensures
        reshape_extents(entries) == reshape_extents(entries.take(m)),
    decreases entries.len() - m,
{
    if m < entries.len() {
        assert(entries.take(m + 1).drop_last() =~= entries.take(m));
        lemma_reshape_fail_from(entries, m + 1);
    } else {
        assert(entries.take(m) =~= entries);
    }
}

/// Whether the element count of every run of adjacent axes fits in a `usize`.
pub open spec fn runs_fit(shape: Seq<usize>) -> bool {
    forall|i: int, j: int| 0 <= i <= j <= shape.len() ==> #[trigger] product(shape.subrange(i, j)) <= usize::MAX
}

/// Whether `axes` are adjacent and ascending from the first.
pub open spec fn adjacent(axes: Seq<usize>) -> bool {
    forall|step: int| 0 <= step < axes.len() ==> #[trigger] axes[step] == axes[0] + step
}

/// `.flatten()` or `.flatten([...])`: all axes, or the listed adjacent ones, merged
/// into one unnamed axis.
pub open spec fn flatten_spec(
    shape: Seq<usize>,
    names: Seq<Option<Seq<char>>>,
    args: Seq<ShapeArg>,
) -> Result<ShapeCastView, Seq<char>> {
    if args.len() == 0 {
        Ok(ShapeCastView { shape: seq![product(shape) as usize], names: seq![None], permutation: None })
    } else {
        match axis_list_spec(args) {
            None => Err(missing_list_detail(FLATTEN_METHOD@)),
            Some(entries) => match resolve_axes_spec(shape.len(), names, entries, FLATTEN_METHOD@) {
                Err(d) => Err(d),
                Ok(axes) => if axes.len() == 0 {
                    Err("`.flatten` reached lowering with no axes"@)
                } else if !adjacent(axes) {
                    Err("`.flatten` reached lowering with non-adjacent axes"@)
                } else {
                    let first = axes[0] as int;
                    let end = first + axes.len();
                    Ok(
                        ShapeCastView {
                            shape: shape.take(first) + seq![product(shape.subrange(first, end)) as usize]
                                + shape.skip(end),
                            names: names.take(first) + seq![None] + names.skip(end),
                            permutation: None,
                        },
                    )
                },
            },
        }
    }
}

/// The elements of `items` from `start` up to `end`.
fn copy_range(items: &Vec<usize>, start: usize, end: usize) -> (out: Vec<usize>)
    requires
        start <= end <= items@.len(),
    ensures
        out@ == items@.subrange(start as int, end as int),
{
    let mut out: Vec<usize> = Vec::new();
    let mut i: usize = start;
    while i < end
        invariant
            start <= i <= end,
            end <= items@.len(),
            out@ == items@.subrange(start as int, i as int),
        decreases end - i,
    {
        out.push(items[i]);
        i = i + 1;
        assert(out@ =~= items@.subrange(start as int, i as int));
    }
    out
}

/// The names from `start` up to `end`.
fn copy_names(names: &Vec<Option<String>>, start: usize, end: usize) -> (out: Vec<Option<String>>)
    requires
        start <= end <= names@.len(),
    ensures
        names_view(out@) == names_view(names@).subrange(start as int, end as int),
{
    let mut out: Vec<Option<String>> = Vec::new();
    let mut i: usize = start;
    while i < end
        invariant
            start <= i <= end,
            end <= names@.len(),
            out@.len() == i - start,
            names_view(out@) =~= names_view(names@).subrange(start as int, i as int),
        decreases end - i,
    {
        let ghost before = out@;
        out.push(copy_name(&names[i]));
        proof {
            let target = names_view(names@).subrange(start as int, i + 1);
            assert forall|k: int| 0 <= k < out@.len() implies names_view(out@)[k] == target[k] by {
                if k < out@.len() - 1 {
                    assert(out@[k] == before[k]);
                    assert(names_view(before)[k] == names_view(names@).subrange(start as int, i as int)[k]);
                }
            }
        }
        i = i + 1;
        assert(names_view(out@) =~= names_view(names@).subrange(start as int, i as int));
    }
    out
}

/// The number of elements in the axes of `shape` from `start` up to `end`.
fn run_count(shape: &Vec<usize>, start: usize, end: usize) -> (count: usize)
    requires
        start <= end <= shape@.len(),
        runs_fit(shape@),
    ensures
        count == product(shape@.subrange(start as int, end as int)),
{
    let mut count: usize = 1;
    let mut i: usize = start;
    while i < end
        invariant
            start <= i <= end,
            end <= shape@.len(),
            runs_fit(shape@),
            count == product(shape@.subrange(start as int, i as int)),
        decreases end - i,
    {
        proof {
            assert(shape@.subrange(start as int, i + 1).drop_last() =~= shape@.subrange(start as int, i as int));
            assert(product(shape@.subrange(start as int, i + 1)) <= usize::MAX);
        }
        count = count * shape[i];
        i = i + 1;
    }
    count
}

/// Whether `axes` are adjacent and ascending from the first.
fn all_adjacent(axes: &Vec<usize>) -> (r: bool)
    requires
        axes@.len() > 0,
    ensures
        r == adjacent(axes@),
{
    let first = axes[0];
    let mut step: usize = 0;
    while step < axes.len()
        invariant
            step <= axes@.len(),
            axes@.len() > 0,
            first == axes@[0],
            forall|j: int| 0 <= j < step ==> #[trigger] axes@[j] == first + j,
        decreases axes@.len() - step,
    {
        if axes[step] < first || axes[step] - first != step {
            return false;
        }
        step = step + 1;
    }
    true
}

/// `.flatten(...)` on a tensor of `shape` named `names`.
pub fn flatten(shape: &Vec<usize>, names: &Vec<Option<String>>, args: &Vec<ShapeArg>) -> (r: Result<
    ShapeCast,
    LoweringError,
>)
    requires
        names@.len() == shape@.len(),
        runs_fit(shape@),
        args_negation_fits(args@),
    ensures
        cast_outcome(r, flatten_spec(shape@, names_view(names@), args@)),
{
    if args.len() == 0 {
        let total = run_count(shape, 0, shape.len());
        assert(shape@.subrange(0, shape@.len() as int) =~= shape@);
        let result = ShapeCast { shape: vec![total], names: vec![None], permutation: None };
        assert(result@.shape =~= seq![product(shape@) as usize]);
        assert(result@.names =~= seq![None::<Seq<char>>]);
        return Ok(result);
    }
    let entries = match axis_list(args, FLATTEN_METHOD) {
        Ok(entries) => entries,
        Err(e) => {
            return Err(e);
        },
    };
    proof {
        assert(args@[0] is AxisList);
    }
    let axes = match resolve_axes(shape.len(), names, entries, FLATTEN_METHOD) {
        Ok(axes) => axes,
        Err(e) => {
            return Err(e);
        },
    };
    if axes.len() == 0 {
        return Err(malformed(String::from_str("`.flatten` reached lowering with no axes")));
    }
    proof {
        lemma_resolved_in_range(shape@.len(), names_view(names@), entries@, FLATTEN_METHOD@);
    }
    let first = axes[0];
    if !all_adjacent(&axes) {
        return Err(malformed(String::from_str("`.flatten` reached lowering with non-adjacent axes")));
    }
    let last = axes[axes.len() - 1];
    assert(last == first + axes@.len() - 1);
    let end = last + 1;
    let merged = run_count(shape, first, end);
    let mut result = copy_range(shape, 0, first);
    result.push(merged);
    let tail = copy_range(shape, end, shape.len());
    let mut k: usize = 0;
    let ghost head = result@;
    while k < tail.len()
        invariant
            k <= tail@.len(),
            result@ == head + tail@.take(k as int),
        decreases tail@.len() - k,
    {
        result.push(tail[k]);
        k = k + 1;
        assert(result@ =~= head + tail@.take(k as int));
    }
    assert(tail@.take(k as int) =~= tail@);
    let mut result_names = copy_names(names, 0, first);
    result_names.push(None);
    let ghost name_head = result_names@;
    let name_tail = copy_names(names, end, names.len());
    let mut m: usize = 0;
    while m < name_tail.len()
        invariant
            m <= name_tail@.len(),
            result_names@ == name_head + name_tail@.take(m as int),
        decreases name_tail@.len() - m,
    {
        result_names.push(copy_name(&name_tail[m]));
        m = m + 1;
        assert(result_names@ =~= name_head + name_tail@.take(m as int));
    }
    proof {
        assert(name_tail@.take(m as int) =~= name_tail@);
        assert(shape@.subrange(0, first as int) =~= shape@.take(first as int));
        assert(shape@.subrange(end as int, shape@.len() as int) =~= shape@.skip(end as int));
        assert(result@ =~= shape@.take(first as int) + seq![merged] + shape@.skip(end as int));
        let nv = names_view(names@);
        assert(names_view(result_names@) =~= nv.take(first as int) + seq![None::<Seq<char>>] + nv.skip(end as int));
    }
    Ok(ShapeCast { shape: result, names: result_names, permutation: None })
}

/// Apply the shape method `method` to a tensor of `shape` named `names`.
pub open spec fn shape_cast_spec(
    method: Seq<char>,
    shape: Seq<usize>,
    names: Seq<Option<Seq<char>>>,
    args: Seq<ShapeArg>,
) -> Result<ShapeCastView, Seq<char>> {
    if method == TRANSPOSE_METHOD@ {
        transpose_spec(shape, names)
    } else if method == RESHAPE_METHOD@ {
        reshape_spec(shape, args)
    } else if method == PERMUTE_METHOD@ {
        permute_spec(shape, names, args)
    } else if method == FLATTEN_METHOD@ {
        flatten_spec(shape, names, args)
    } else {
        Err(method_detail(method, " is not a shape method"@))
    }
}

/// The result of the shape method `method` on a tensor of `shape` named `names`.
pub fn shape_cast(
    method: &str,
    shape: &Vec<usize>,
    names: &Vec<Option<String>>,
    args: &Vec<ShapeArg>,
) -> (r: Result<ShapeCast, LoweringError>)
    requires
        names@.len() == shape@.len(),
        runs_fit(shape@),
        args_negation_fits(args@),
        reshape_fits(args@),
    ensures
        cast_outcome(r, shape_cast_spec(method@, shape@, names_view(names@), args@)),
{
    if same_text(method, TRANSPOSE_METHOD) {
        transpose(shape, names)
    } else if same_text(method, RESHAPE_METHOD) {
        proof {
            assert forall|n: int| 0 <= n <= shape@.len() implies #[trigger] product(shape@.take(n))
                <= usize::MAX by {
                assert(shape@.subrange(0, n) =~= shape@.take(n));
            }
        }
        reshape(shape, args)
    } else if same_text(method, PERMUTE_METHOD) {
        permute(shape, names, args)
    } else if same_text(method, FLATTEN_METHOD) {
        flatten(shape, names, args)
    } else {
        Err(malformed(method_text(method, " is not a shape method")))
    }
}

/// The receiver axis an `axis:` argument of a reduction or selection names: a
/// dimension name, a non-negative index, or a negative index counting from the end.
pub open spec fn resolve_axis_spec(
    rank: nat,
    names: Seq<Option<Seq<char>>>,
    entry: AxisEntry,
    method: Seq<char>,
) -> Result<usize, Seq<char>> {
    match entry {
        AxisEntry::Name(name) => match name_position(names, name@) {
            Some(i) => Ok(i as usize),
            None => Err(
                method_detail(
                    method,
                    " reached lowering naming dimension '"@ + name@
                        + "', which its receiver's type does not declare"@,
                ),
            ),
        },
        _ => match const_value(entry) {
            None => Err(method_detail(method, " reached lowering with a non-constant axis"@)),
            Some(v) => {
                let resolved = if v < 0 {
                    v + rank
                } else {
                    v
                };
                if 0 <= resolved < rank {
                    Ok(resolved as usize)
                } else {
                    Err(
                        method_detail(
                            method,
                            " reached lowering with axis "@ + signed_digits(v) + " out of range"@,
                        ),
                    )
                }
            },
        },
    }
}

/// The receiver axis an `axis:` argument names.
pub fn resolve_axis(
    rank: usize,
    names: &Vec<Option<String>>,
    entry: &AxisEntry,
    method: &str,
) -> (r: Result<usize, LoweringError>)
    requires
        negation_fits(*entry),
    ensures
        match r {
            Ok(axis) => resolve_axis_spec(rank as nat, names_view(names@), *entry, method@) == Ok::<
                usize,
                Seq<char>,
            >(axis),
            Err(e) => resolve_axis_spec(rank as nat, names_view(names@), *entry, method@) matches Err(d)
                && e@ == (LoweringErrorView::Malformed { detail: d }),
        },
{
    if let AxisEntry::Name(name) = entry {
        return match position_of_name(names, name) {
            Some(position) => Ok(position),
            None => {
                let mut rest = String::from_str(" reached lowering naming dimension '");
                rest.append(name.as_str());
                rest.append("', which its receiver's type does not declare");
                Err(malformed(method_text(method, rest.as_str())))
            },
        };
    }
    let value = match const_integer(entry) {
        Some(v) => v,
        None => {
            return Err(malformed(method_text(method, " reached lowering with a non-constant axis")));
        },
    };
    let resolved: i128 = if value < 0 {
        value + rank as i128
    } else {
        value
    };
    if resolved < 0 || resolved >= rank as i128 {
        let rest = concat3(" reached lowering with axis ", signed_decimal(value).as_str(), " out of range");
        return Err(malformed(method_text(method, rest.as_str())));
    }
    Ok(resolved as usize)
}

/// A reshape keeps the number of elements: whatever `.reshape` gives holds exactly as
/// many as its receiver.
pub proof fn lemma_reshape_keeps_count(shape: Seq<usize>, args: Seq<ShapeArg>)
    requires
        reshape_spec(shape, args) is Ok,
    ensures
        product(reshape_spec(shape, args)->Ok_0.shape) == product(shape),
{
}

/// Flattening keeps the number of elements: the merged axis holds exactly the elements
/// of the axes it replaces.
pub proof fn lemma_flatten_keeps_count(shape: Seq<usize>, names: Seq<Option<Seq<char>>>, args: Seq<ShapeArg>)
    requires
        runs_fit(shape),
        names.len() == shape.len(),
        flatten_spec(shape, names, args) is Ok,
    ensures
        product(flatten_spec(shape, names, args)->Ok_0.shape) == product(shape),
{
    let result = flatten_spec(shape, names, args)->Ok_0.shape;
    if args.len() == 0 {
        assert(shape.subrange(0, shape.len() as int) =~= shape);
        assert(product(shape) <= usize::MAX);
        lemma_product_single(product(shape) as usize);
    } else {
        let entries = axis_list_spec(args)->0;
        let axes = resolve_axes_spec(shape.len(), names, entries, FLATTEN_METHOD@)->Ok_0;
        lemma_resolved_in_range(shape.len(), names, entries, FLATTEN_METHOD@);
        let first = axes[0] as int;
        let end = first + axes.len();
        assert(axes[axes.len() - 1] == axes[0] + (axes.len() - 1));
        assert(end <= shape.len());
        let head = shape.take(first);
        let run = shape.subrange(first, end);
        let tail = shape.skip(end);
        assert(product(run) <= usize::MAX);
        let merged = seq![product(run) as usize];
        lemma_product_single(product(run) as usize);
        assert(result =~= head + merged + tail);
        assert(shape =~= head + run + tail);
        super::layout::lemma_product_concat(head, merged);
        super::layout::lemma_product_concat(head + merged, tail);
        super::layout::lemma_product_concat(head, run);
        super::layout::lemma_product_concat(head + run, tail);
    }
}

/// Transposing twice gives back the receiver, extents and names alike.
pub proof fn lemma_transpose_twice(shape: Seq<usize>, names: Seq<Option<Seq<char>>>)
    requires
        shape.len() == 2,
        names.len() == 2,
    ensures
        transpose_spec(shape, names) is Ok,
        transpose_spec(
            transpose_spec(shape, names)->Ok_0.shape,
            transpose_spec(shape, names)->Ok_0.names,
        ) is Ok,
        transpose_spec(
            transpose_spec(shape, names)->Ok_0.shape,
            transpose_spec(shape, names)->Ok_0.names,
        )->Ok_0.shape == shape,
        transpose_spec(
            transpose_spec(shape, names)->Ok_0.shape,
            transpose_spec(shape, names)->Ok_0.names,
        )->Ok_0.names == names,
{
    let once = transpose_spec(shape, names)->Ok_0;
    let twice = transpose_spec(once.shape, once.names)->Ok_0;
    assert(twice.shape =~= shape);
    assert(twice.names =~= names);
}

/// Whether `order` lists each axis of a rank-`n` tensor exactly once.
pub open spec fn is_axis_permutation(order: Seq<usize>, n: nat) -> bool {
    &&& order.len() == n
    &&& forall|j: int| 0 <= j < n ==> #[trigger] order[j] < n
    &&& !has_repeat(order)
}

/// What `.permute` gives is always a permutation of the receiver's axes, and each
/// result extent is that of the axis it came from.
pub proof fn lemma_permute_gives_a_permutation(
    shape: Seq<usize>,
    names: Seq<Option<Seq<char>>>,
    args: Seq<ShapeArg>,
)
    requires
        names.len() <= shape.len(),
        permute_spec(shape, names, args) is Ok,
    ensures
        permute_spec(shape, names, args) matches Ok(c) && c.permutation matches Some(p) && is_axis_permutation(
            p,
            shape.len(),
        ) && c.shape.len() == shape.len() && forall|j: int|
            0 <= j < shape.len() ==> #[trigger] c.shape[j] == shape[p[j] as int],
{
    let entries = axis_list_spec(args)->Some_0;
    lemma_resolved_in_range(shape.len(), names, entries, PERMUTE_METHOD@);
}

} // verus!
