//! The order-based tensor selections `.sort()`, `.argsort()`, and `.topk()`: the axis
//! they order along, the direction, and the shape and dimension names of what they give.

use vstd::prelude::*;
use vstd::string::*;

use super::methods::{same_text, ARGSORT_METHOD, TOPK_METHOD};
use super::shape::{
    const_integer, const_value, copy_name, lemma_name_position_bound, method_detail, method_text,
    names_view, negation_fits, resolve_axis, resolve_axis_spec, AxisEntry,
};
use super::{malformed, LoweringError, LoweringErrorView};

verus! {

/// What a selection gives.
#[derive(Debug, Clone, Copy, PartialEq, Eq, Structural)]
pub enum SortKind {
    /// The receiver's elements, reordered (`.sort`).
    Values,
    /// The index tensor of that reordering (`.argsort`).
    Indices,
    /// The `k` greatest along the axis, as a values tensor and an index tensor (`.topk`).
    TopK(usize),
}

/// A selection of a tensor: what it gives, the axis it orders along, the direction, and
/// the shape and names of each tensor it gives. An index tensor holds 32-bit integers;
/// a values tensor the receiver's element type.
#[derive(Debug, PartialEq)]
pub struct Selection {
    pub kind: SortKind,
    pub axis: usize,
    pub descending: bool,
    pub shape: Vec<usize>,
    pub names: Vec<Option<String>>,
}

/// A [`Selection`] as sequences.
pub struct SelectionView {
    pub kind: SortKind,
    pub axis: usize,
    pub descending: bool,
    pub shape: Seq<usize>,
    pub names: Seq<Option<Seq<char>>>,
}

impl View for Selection {
    type V = SelectionView;

    open spec fn view(&self) -> SelectionView {
        SelectionView {
            kind: self.kind,
            axis: self.axis,
            descending: self.descending,
            shape: self.shape@,
            names: names_view(self.names@),
        }
    }
}

/// The value of a boolean constant written as an argument.
pub open spec fn const_truth(e: AxisEntry) -> Option<bool>
    decreases e,
{
    match e {
        AxisEntry::Boolean(b) => Some(b),
        AxisEntry::Paren(inner) => const_truth(*inner),
        _ => None,
    }
}

/// The value of a boolean constant expression written as an argument.
pub fn const_boolean(e: &AxisEntry) -> (value: Option<bool>)
    ensures
        value == const_truth(*e),
    decreases e,
{
    match e {
        AxisEntry::Boolean(b) => Some(*b),
        AxisEntry::Paren(inner) => const_boolean(inner),
        _ => None,
    }
}

/// The `i`-th argument, if the call has one.
pub open spec fn arg_at(args: Seq<AxisEntry>, i: int) -> Option<AxisEntry> {
    if 0 <= i < args.len() {
        Some(args[i])
    } else {
        None
    }
}

/// The axis a selection orders along: the one its `axis:` argument names, the last
/// when the call names none.
pub open spec fn selection_axis_spec(
    rank: nat,
    names: Seq<Option<Seq<char>>>,
    entry: Option<AxisEntry>,
    method: Seq<char>,
) -> Result<usize, Seq<char>> {
    match entry {
        None => Ok((rank - 1) as usize),
        Some(e) => resolve_axis_spec(rank, names, e, method),
    }
}

/// The `k:` of a `.topk`, when it is a constant that a `usize` holds.
pub open spec fn topk_count(args: Seq<AxisEntry>) -> Option<usize> {
    match arg_at(args, 0) {
        Some(e) => match const_value(e) {
            Some(k) => if 0 <= k <= usize::MAX {
                Some(k as usize)
            } else {
                None
            },
            None => None,
        },
        None => None,
    }
}

/// `.method(args)` on a tensor of `shape` named `names`. `.topk(k:, axis:)` keeps `k`
/// entries of its axis, which loses its name, and orders descending; `.sort` and
/// `.argsort` take `(axis:, descending:)`, keep the shape, and order ascending unless
/// told otherwise.
pub open spec fn selection_spec(
    shape: Seq<usize>,
    names: Seq<Option<Seq<char>>>,
    method: Seq<char>,
    args: Seq<AxisEntry>,
) -> Result<SelectionView, Seq<char>> {
    if shape.len() == 0 {
        Err(method_detail(method, " reached lowering on a rank-0 tensor"@))
    } else if method == TOPK_METHOD@ {
        match topk_count(args) {
            None => Err("`.topk` reached lowering with a non-constant `k:`"@),
            Some(k) => match selection_axis_spec(shape.len(), names, arg_at(args, 1), method) {
                Err(d) => Err(d),
                Ok(a) => Ok(
                    SelectionView {
                        kind: SortKind::TopK(k),
                        axis: a,
                        descending: true,
                        shape: shape.update(a as int, k),
                        names: names.update(a as int, None),
                    },
                ),
            },
        }
    } else {
        match selection_axis_spec(shape.len(), names, arg_at(args, 0), method) {
            Err(d) => Err(d),
            Ok(a) => match (if args.len() > 1 {
                const_truth(args[1])
            } else {
                Some(false)
            }) {
                None => Err(method_detail(method, " reached lowering with a non-constant `descending:`"@)),
                Some(descending) => Ok(
                    SelectionView {
                        kind: if method == ARGSORT_METHOD@ {
                            SortKind::Indices
                        } else {
                            SortKind::Values
                        },
                        axis: a,
                        descending,
                        shape,
                        names,
                    },
                ),
            },
        }
    }
}

/// Whether `r` is the outcome `spec` describes, an error as its detail.
pub open spec fn selection_outcome(
    r: Result<Selection, LoweringError>,
    spec: Result<SelectionView, Seq<char>>,
) -> bool {
    match r {
        Ok(v) => spec == Ok::<SelectionView, Seq<char>>(v@),
        Err(e) => spec matches Err(d) && e@ == (LoweringErrorView::Malformed { detail: d }),
    }
}

/// A copy of `shape`.
fn copy_extents(shape: &Vec<usize>) -> (result: Vec<usize>)
    ensures
        result@ == shape@,
{
    let mut result: Vec<usize> = Vec::new();
    let mut i: usize = 0;
    while i < shape.len()
        invariant
            i <= shape@.len(),
            result@ =~= shape@.take(i as int),
        decreases shape@.len() - i,
    {
        result.push(shape[i]);
        i = i + 1;
    }
    assert(shape@.take(i as int) =~= shape@);
    result
}

/// A copy of `names`.
fn copy_names(names: &Vec<Option<String>>) -> (result: Vec<Option<String>>)
    ensures
        names_view(result@) == names_view(names@),
{
    let ghost view = names_view(names@);
    let mut result: Vec<Option<String>> = Vec::new();
    let mut i: usize = 0;
    while i < names.len()
        invariant
            view == names_view(names@),
            i <= names@.len(),
            names_view(result@) =~= view.take(i as int),
        decreases names@.len() - i,
    {
        let ghost before = result@;
        result.push(copy_name(&names[i]));
        assert(names_view(result@) =~= names_view(before).push(view[i as int]));
        i = i + 1;
    }
    assert(view.take(i as int) =~= view);
    result
}

/// The axis `entry` names, the last when there is none.
fn selection_axis(
    rank: usize,
    names: &Vec<Option<String>>,
    entry: Option<&AxisEntry>,
    method: &str,
) -> (r: Result<usize, LoweringError>)
    requires
        rank > 0,
        names@.len() == rank,
        match entry {
            Some(e) => negation_fits(*e),
            None => true,
        },
    ensures
        match r {
            Ok(a) => a < rank && selection_axis_spec(
                rank as nat,
                names_view(names@),
                match entry {
                    Some(e) => Some(*e),
                    None => None,
                },
                method@,
            ) == Ok::<usize, Seq<char>>(a),
            Err(e) => selection_axis_spec(
                rank as nat,
                names_view(names@),
                match entry {
                    Some(e) => Some(*e),
                    None => None,
                },
                method@,
            ) matches Err(d) && e@ == (LoweringErrorView::Malformed { detail: d }),
        },
{
    match entry {
        None => Ok(rank - 1),
        Some(e) => {
            let r = resolve_axis(rank, names, e, method);
            proof {
                if e is Name {
                    lemma_name_position_bound(names_view(names@), e->Name_0@);
                }
            }
            r
        },
    }
}

/// `.method(args)` on a tensor of `shape` named `names`, one name slot per axis.
pub fn plan_selection(
    shape: &Vec<usize>,
    names: &Vec<Option<String>>,
    method: &str,
    args: &Vec<AxisEntry>,
) -> (r: Result<Selection, LoweringError>)
    requires
        names@.len() == shape@.len(),
        forall|i: int| 0 <= i < args@.len() ==> negation_fits(#[trigger] args@[i]),
    ensures
        selection_outcome(r, selection_spec(shape@, names_view(names@), method@, args@)),
{
    if shape.len() == 0 {
        return Err(malformed(method_text(method, " reached lowering on a rank-0 tensor")));
    }
    let rank = shape.len();
    if same_text(method, TOPK_METHOD) {
        let value = if args.len() > 0 {
            const_integer(&args[0])
        } else {
            None
        };
        let k: usize = match value {
            Some(v) => {
                if v < 0 || v > usize::MAX as i128 {
                    return Err(malformed(String::from_str("`.topk` reached lowering with a non-constant `k:`")));
                }
                v as usize
            },
            None => {
                return Err(malformed(String::from_str("`.topk` reached lowering with a non-constant `k:`")));
            },
        };
        let entry = if args.len() > 1 {
            Some(&args[1])
        } else {
            None
        };
        let a = match selection_axis(rank, names, entry, method) {
            Ok(a) => a,
            Err(e) => {
                return Err(e);
            },
        };
        let mut selected = copy_extents(shape);
        selected.set(a, k);
        let mut selected_names = copy_names(names);
        let ghost before = selected_names@;
        selected_names.set(a, None);
        assert(names_view(selected_names@) =~= names_view(before).update(a as int, None));
        return Ok(
            Selection {
                kind: SortKind::TopK(k),
                axis: a,
                descending: true,
                shape: selected,
                names: selected_names,
            },
        );
    }
    let entry = if args.len() > 0 {
        Some(&args[0])
    } else {
        None
    };
    let a = match selection_axis(rank, names, entry, method) {
        Ok(a) => a,
        Err(e) => {
            return Err(e);
        },
    };
    let descending = if args.len() > 1 {
        match const_boolean(&args[1]) {
            Some(d) => d,
            None => {
                return Err(
                    malformed(method_text(method, " reached lowering with a non-constant `descending:`")),
                );
            },
        }
    } else {
        false
    };
    let kind = if same_text(method, ARGSORT_METHOD) {
        SortKind::Indices
    } else {
        SortKind::Values
    };
    Ok(
        Selection {
            kind,
            axis: a,
            descending,
            shape: copy_extents(shape),
            names: copy_names(names),
        },
    )
}

/// `.sort` and `.argsort` order descending exactly when their second argument is the
/// constant `true`, whichever of the two is called, and ascending when it is absent;
/// `.sort` gives the values, `.argsort` the indices, each in the receiver's shape.
pub proof fn lemma_sort_direction_is_the_one_written(
    shape: Seq<usize>,
    names: Seq<Option<Seq<char>>>,
    method: Seq<char>,
    args: Seq<AxisEntry>,
)
    requires
        method == "sort"@ || method == "argsort"@,
        selection_spec(shape, names, method, args) is Ok,
    ensures
        ({
            let sel = selection_spec(shape, names, method, args)->Ok_0;
            &&& args.len() >= 2 ==> match args[1] {
                AxisEntry::Boolean(b) => sel.descending == b,
                _ => true,
            }
            &&& args.len() < 2 ==> !sel.descending
            &&& sel.kind == (if method == "sort"@ { SortKind::Values } else { SortKind::Indices })
            &&& sel.shape == shape
        }),
{
    reveal_strlit("sort");
    reveal_strlit("argsort");
    reveal_strlit("topk");
    assert("sort"@ != "topk"@) by {
        assert("sort"@[0] != "topk"@[0]);
    }
    assert("argsort"@ != "topk"@) by {
        assert("argsort"@[0] != "topk"@[0]);
    }
    assert("sort"@ != "argsort"@) by {
        assert("sort"@[0] != "argsort"@[0]);
    }
    assert(method != TOPK_METHOD@);
    assert(ARGSORT_METHOD@ == "argsort"@);
}

} // verus!
