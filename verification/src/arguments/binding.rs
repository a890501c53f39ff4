//! Binding one call site's arguments to one callee's parameters.

use vstd::prelude::*;
use vstd::string::*;

use super::errors::{ArgumentError, ArgumentErrorView, Span};
use super::signatures::{
    has_defaults, has_required_label, is_position_of, is_suppressed, lemma_position_in_range,
    lemma_position_of, opt_view,
    position_of, ParamView, Signature,
};

verus! {

/// The first index in `[lo, hi)` that satisfies `pred`, if any does.
pub open spec fn first_where(lo: int, hi: int, pred: spec_fn(int) -> bool) -> Option<int> {
    if exists|i: int| lo <= i < hi && #[trigger] pred(i) {
        Some(choose|i: int| is_first(lo, hi, pred, i))
    } else {
        None
    }
}

/// Whether `i` is the first index in `[lo, hi)` satisfying `pred`.
pub open spec fn is_first(lo: int, hi: int, pred: spec_fn(int) -> bool, i: int) -> bool {
    &&& lo <= i < hi
    &&& pred(i)
    &&& forall|j: int| lo <= j < i ==> !#[trigger] pred(j)
}

/// A first satisfying index is the one `first_where` names.
pub proof fn lemma_first_where(lo: int, hi: int, pred: spec_fn(int) -> bool, i: int)
    requires
        is_first(lo, hi, pred, i),
    ensures
        first_where(lo, hi, pred) == Some(i),
{
    let k = choose|k: int| is_first(lo, hi, pred, k);
    assert(is_first(lo, hi, pred, k));
    if k < i {
        assert(!pred(k));
    }
    if i < k {
        assert(!pred(i));
    }
}

/// Below any index satisfying `pred` sits a first one.
proof fn lemma_least_below(lo: int, hi: int, pred: spec_fn(int) -> bool, w: int)
    requires
        lo <= w < hi,
        pred(w),
    ensures
        exists|i: int| is_first(lo, hi, pred, i),
    decreases w - lo,
{
    if exists|j: int| lo <= j < w && #[trigger] pred(j) {
        let j = choose|j: int| lo <= j < w && #[trigger] pred(j);
        lemma_least_below(lo, hi, pred, j);
    } else {
        assert(is_first(lo, hi, pred, w));
    }
}

/// The index `first_where` names is a first satisfying one.
pub proof fn lemma_first_where_is_first(lo: int, hi: int, pred: spec_fn(int) -> bool)
    requires
        first_where(lo, hi, pred) is Some,
    ensures
        is_first(lo, hi, pred, first_where(lo, hi, pred)->0),
{
    let w = choose|i: int| lo <= i < hi && #[trigger] pred(i);
    lemma_least_below(lo, hi, pred, w);
}

/// Where no index satisfies `pred`, `first_where` names none.
pub proof fn lemma_first_none(lo: int, hi: int, pred: spec_fn(int) -> bool)
    requires
        forall|j: int| lo <= j < hi ==> !#[trigger] pred(j),
    ensures
        first_where(lo, hi, pred) is None,
{
}

/// The labels a call writes, as character sequences.
pub open spec fn label_views(labels: Seq<Option<String>>) -> Seq<Option<Seq<char>>> {
    labels.map_values(|l: Option<String>| opt_view(l))
}

/// The span of the argument written at `i`, or the call's own span when there is none.
pub open spec fn span_at(spans: Seq<Span>, i: int, span: Span) -> Span {
    if 0 <= i < spans.len() {
        spans[i]
    } else {
        span
    }
}

/// An optional name, or the empty text.
pub open spec fn name_or_empty(name: Option<Seq<char>>) -> Seq<char> {
    match name {
        Some(n) => n,
        None => Seq::empty(),
    }
}

/// The parameter the label written at `i` names, if it is a label that names one.
pub open spec fn label_target(params: Seq<ParamView>, labels: Seq<Option<Seq<char>>>, i: int) -> Option<
    int,
> {
    match labels[i] {
        Some(l) => position_of(params, l),
        None => None,
    }
}

/// Whether the argument written at `j` has a label.
pub open spec fn labelled(labels: Seq<Option<Seq<char>>>) -> spec_fn(int) -> bool {
    |j: int| labels[j] is Some
}

/// Whether the argument written at `j` has no label.
pub open spec fn unlabelled(labels: Seq<Option<Seq<char>>>) -> spec_fn(int) -> bool {
    |j: int| labels[j] is None
}

/// Whether parameter `p` must be named.
pub open spec fn requires_label(params: Seq<ParamView>) -> spec_fn(int) -> bool {
    |p: int| params[p].required
}

/// The position of the first labelled argument, where the named arguments start.
pub open spec fn named_from(labels: Seq<Option<Seq<char>>>) -> Option<int> {
    first_where(0, labels.len() as int, labelled(labels))
}

/// How many leading arguments are positional in a call of `n` arguments.
pub open spec fn positional_count(labels: Seq<Option<Seq<char>>>, n: int) -> int {
    match named_from(labels) {
        Some(f) => f,
        None => n,
    }
}

/// The parameters the positional prefix fills.
pub open spec fn positional_bound(params: Seq<ParamView>, labels: Seq<Option<Seq<char>>>, n: int) -> int {
    let positional = positional_count(labels, n);
    if positional < params.len() {
        positional
    } else {
        params.len() as int
    }
}

/// Whether the label written at `i` cannot be bound: it names no parameter, or names one
/// the positional prefix or an earlier label already fills.
pub open spec fn bad_label(
    params: Seq<ParamView>,
    labels: Seq<Option<Seq<char>>>,
    positional: int,
    i: int,
) -> bool {
    &&& labels[i] is Some
    &&& match label_target(params, labels, i) {
        None => true,
        Some(t) => t < positional || exists|j: int|
            positional <= j < i && #[trigger] label_target(params, labels, j) == Some(t),
    }
}

/// Whether the label written at `i` cannot be bound.
pub open spec fn unbindable(
    params: Seq<ParamView>,
    labels: Seq<Option<Seq<char>>>,
    positional: int,
) -> spec_fn(int) -> bool {
    |i: int| bad_label(params, labels, positional, i)
}

/// The argument written at the labelled position in `[lo, hi)` that names parameter `t`.
pub open spec fn labelled_source(
    params: Seq<ParamView>,
    labels: Seq<Option<Seq<char>>>,
    lo: int,
    hi: int,
    t: int,
) -> Option<int> {
    if exists|i: int| lo <= i < hi && #[trigger] label_target(params, labels, i) == Some(t) {
        Some(choose|i: int| lo <= i < hi && #[trigger] label_target(params, labels, i) == Some(t))
    } else {
        None
    }
}

/// The argument that parameter `t` is bound to: its own position in the positional
/// prefix, or the argument whose label names it.
pub open spec fn slot_source(
    params: Seq<ParamView>,
    labels: Seq<Option<Seq<char>>>,
    n: int,
    t: int,
) -> Option<int> {
    if t < positional_bound(params, labels, n) {
        Some(t)
    } else {
        labelled_source(params, labels, positional_count(labels, n), labels.len() as int, t)
    }
}

/// Whether parameter `t` is left with neither an argument nor a default.
pub open spec fn unfilled(params: Seq<ParamView>, labels: Seq<Option<Seq<char>>>, n: int) -> spec_fn(
    int,
) -> bool {
    |t: int| slot_source(params, labels, n, t) is None && !params[t].has_default
}

/// What binding does to a call.
#[derive(Debug)]
pub enum BindingPlan {
    /// The call is all positional and no parameter must be named: it is left as written,
    /// with its labels cleared.
    Unchanged,
    /// Parameter `t` takes the argument written at `slots[t]`, or its default for `None`.
    Slots(Vec<Option<usize>>),
}

/// A plan's slots over mathematical indices.
pub open spec fn slots_view(slots: Seq<Option<usize>>) -> Seq<Option<int>> {
    slots.map_values(
        |s: Option<usize>| match s {
            Some(i) => Some(i as int),
            None => None,
        },
    )
}

/// A [`BindingPlan`] over mathematical indices.
pub enum BindingPlanView {
    Unchanged,
    Slots(Seq<Option<int>>),
}

impl View for BindingPlan {
    type V = BindingPlanView;

    open spec fn view(&self) -> BindingPlanView {
        match self {
            BindingPlan::Unchanged => BindingPlanView::Unchanged,
            BindingPlan::Slots(slots) => BindingPlanView::Slots(slots_view(slots@)),
        }
    }
}

/// The error a label that cannot be bound is reported with.
pub open spec fn bad_label_error(
    params: Seq<ParamView>,
    label: Seq<char>,
    callee: Seq<char>,
    span: Span,
) -> ArgumentErrorView {
    match position_of(params, label) {
        None => if is_suppressed(params, label) {
            ArgumentErrorView::SuppressedLabel { callee, label, span }
        } else {
            ArgumentErrorView::UnknownArgumentLabel { callee, label, span }
        },
        Some(_) => ArgumentErrorView::DuplicateArgumentLabel { callee, label, span },
    }
}

/// What binding a call of `n` arguments written with `labels` (at `spans`) to a callee
/// with parameters `params` gives: a plan, or the first rule the call breaks, checked in
/// this order: a positional argument after a named one; the argument count; a required
/// label passed positionally; a label that names nothing or a filled parameter; a
/// parameter left without an argument or a default.
pub open spec fn binding_outcome(
    labels: Seq<Option<Seq<char>>>,
    n: int,
    params: Seq<ParamView>,
    callee: Seq<char>,
    span: Span,
    spans: Seq<Span>,
) -> Result<BindingPlanView, ArgumentErrorView> {
    let named = named_from(labels);
    if named is None && !has_required_label(params) {
        Ok(BindingPlanView::Unchanged)
    } else {
        let stray = match named {
            Some(f) => first_where(f, labels.len() as int, unlabelled(labels)),
            None => None,
        };
        if stray is Some {
            Err(
                ArgumentErrorView::PositionalAfterNamed {
                    callee,
                    label: name_or_empty(labels[named->0]),
                    span: span_at(spans, stray->0, span),
                },
            )
        } else if n > params.len() || (n != params.len() && !has_defaults(params)) {
            Err(
                ArgumentErrorView::ArgumentCountMismatch {
                    callee,
                    expected: params.len(),
                    found: n as nat,
                    span,
                },
            )
        } else {
            let positional = positional_count(labels, n);
            let bound = positional_bound(params, labels, n);
            match first_where(0, bound, requires_label(params)) {
                Some(p) => Err(
                    ArgumentErrorView::MissingArgumentLabel {
                        callee,
                        label: name_or_empty(params[p].name),
                        span: span_at(spans, p, span),
                    },
                ),
                None => match first_where(
                    positional,
                    labels.len() as int,
                    unbindable(params, labels, positional),
                ) {
                    Some(i) => Err(
                        bad_label_error(params, labels[i]->0, callee, span_at(spans, i, span)),
                    ),
                    None => match first_where(0, params.len() as int, unfilled(params, labels, n)) {
                        Some(t) => Err(
                            ArgumentErrorView::MissingArgumentLabel {
                                callee,
                                label: name_or_empty(params[t].name),
                                span,
                            },
                        ),
                        None => Ok(
                            BindingPlanView::Slots(
                                Seq::new(params.len(), |t: int| slot_source(params, labels, n, t)),
                            ),
                        ),
                    },
                },
            }
        }
    }
}

/// Whether no two arguments in `[lo, hi)` have labels naming one parameter.
pub open spec fn targets_distinct(
    params: Seq<ParamView>,
    labels: Seq<Option<Seq<char>>>,
    lo: int,
    hi: int,
) -> bool {
    forall|i: int, j: int|
        lo <= i < hi && lo <= j < hi && #[trigger] label_target(params, labels, i) is Some
            && #[trigger] label_target(params, labels, j) == label_target(params, labels, i) ==> i
            == j
}

/// The argument a distinct label names parameter `t` with is the one `labelled_source`
/// finds.
proof fn lemma_labelled_source_unique(
    params: Seq<ParamView>,
    labels: Seq<Option<Seq<char>>>,
    lo: int,
    hi: int,
    t: int,
    w: int,
)
    requires
        lo <= w < hi,
        label_target(params, labels, w) == Some(t),
        targets_distinct(params, labels, lo, hi),
    ensures
        labelled_source(params, labels, lo, hi, t) == Some(w),
{
    let c = choose|i: int| lo <= i < hi && #[trigger] label_target(params, labels, i) == Some(t);
    assert(lo <= c < hi && label_target(params, labels, c) == Some(t));
}

/// Extending the scanned range by one argument whose label names no parameter `t`
/// leaves where `t`'s argument comes from unchanged.
proof fn lemma_labelled_source_extend(
    params: Seq<ParamView>,
    labels: Seq<Option<Seq<char>>>,
    lo: int,
    hi: int,
    t: int,
)
    requires
        lo <= hi,
        label_target(params, labels, hi) != Some(t),
        targets_distinct(params, labels, lo, hi + 1),
    ensures
        labelled_source(params, labels, lo, hi + 1, t) == labelled_source(params, labels, lo, hi, t),
{
    if exists|i: int| lo <= i < hi && #[trigger] label_target(params, labels, i) == Some(t) {
        let w = choose|i: int| lo <= i < hi && #[trigger] label_target(params, labels, i) == Some(t);
        assert(targets_distinct(params, labels, lo, hi));
        lemma_labelled_source_unique(params, labels, lo, hi, t, w);
        lemma_labelled_source_unique(params, labels, lo, hi + 1, t, w);
    } else {
        assert forall|i: int| lo <= i < hi + 1 implies #[trigger] label_target(params, labels, i)
            != Some(t) by {
            if i < hi {
            }
        }
    }
}

/// An optional name as an owned string, empty for `None`.
fn name_or_empty_string(name: &Option<String>) -> (text: String)
    ensures
        text@ == name_or_empty(opt_view(*name)),
{
    match name {
        Some(n) => n.clone(),
        None => String::new(),
    }
}

/// The span of the argument written at `i`, or `span` when there is none.
fn span_of(spans: &Vec<Span>, i: usize, span: Span) -> (at: Span)
    ensures
        at == span_at(spans@, i as int, span),
{
    if i < spans.len() {
        spans[i]
    } else {
        span
    }
}

/// Bind a call of `spans.len()` arguments, written with `labels` (empty when every
/// argument is positional), to the callee `sig`, named `callee` in diagnostics.
///
/// A call written entirely positionally against a signature that requires no name is
/// left unchanged. Otherwise each parameter is given its argument: the positional
/// prefix in place, each labelled argument at the parameter it names, and its default
/// where it has one; or the first rule the call breaks is reported.
#[verifier::loop_isolation(false)]
pub fn bind(
    labels: &Vec<Option<String>>,
    spans: &Vec<Span>,
    sig: &Signature,
    callee: &str,
    span: Span,
) -> (result: Result<BindingPlan, ArgumentError>)
    ensures
        match binding_outcome(label_views(labels@), spans@.len() as int, sig@, callee@, span, spans@) {
            Ok(plan) => result matches Ok(p) && p@ == plan,
            Err(error) => result matches Err(e) && e@ == error,
        },
{
    let ghost lv = label_views(labels@);
    let ghost params = sig@;
    let n = spans.len();
    let count = sig.params.len();
    assert(lv.len() == labels@.len());

    // Where the named arguments start.
    let mut first: usize = 0;
    while first < labels.len() && labels[first].is_none()
        invariant
            first <= labels@.len(),
            lv == label_views(labels@),
            forall|j: int| 0 <= j < first ==> !#[trigger] labelled(lv)(j),
        decreases labels@.len() - first,
    {
        assert(!labelled(lv)(first as int));
        first = first + 1;
    }
    let named = first < labels.len();
    proof {
        if named {
            assert(labelled(lv)(first as int));
            lemma_first_where(0, lv.len() as int, labelled(lv), first as int);
        } else {
            lemma_first_none(0, lv.len() as int, labelled(lv));
        }
    }
    if !named && !sig.has_required_label() {
        return Ok(BindingPlan::Unchanged);
    }

    // A positional argument may not follow a named one.
    if named {
        let mut k: usize = first;
        while k < labels.len() && labels[k].is_some()
            invariant
                first <= k <= labels@.len(),
                lv == label_views(labels@),
                forall|j: int| first <= j < k ==> !#[trigger] unlabelled(lv)(j),
            decreases labels@.len() - k,
        {
            assert(!unlabelled(lv)(k as int));
            k = k + 1;
        }
        if k < labels.len() {
            proof {
                assert(unlabelled(lv)(k as int));
                lemma_first_where(first as int, lv.len() as int, unlabelled(lv), k as int);
            }
            let label = name_or_empty_string(&labels[first]);
            return Err(
                ArgumentError::PositionalAfterNamed {
                    callee: String::from_str(callee),
                    label,
                    span: span_of(spans, k, span),
                },
            );
        }
        proof {
            lemma_first_none(first as int, lv.len() as int, unlabelled(lv));
        }
    }

    // One argument per parameter, or fewer where defaults fill the rest.
    let defaulted = sig.has_defaults();
    if n > count || (n != count && !defaulted) {
        return Err(
            ArgumentError::ArgumentCountMismatch {
                callee: String::from_str(callee),
                expected: count,
                found: n,
                span,
            },
        );
    }

    let positional: usize = if named { first } else { n };
    let bound: usize = if positional < count { positional } else { count };
    assert(positional as int == positional_count(lv, n as int));
    assert(bound as int == positional_bound(params, lv, n as int));

    let mut slots: Vec<Option<usize>> = Vec::new();
    let mut t: usize = 0;
    while t < count
        invariant
            t <= count,
            count == params.len(),
            slots@.len() == t,
            forall|q: int| 0 <= q < t ==> #[trigger] slots@[q] is None,
        decreases count - t,
    {
        slots.push(None);
        t = t + 1;
    }

    // The positional prefix fills its own parameters, none of which may require a label.
    let mut index: usize = 0;
    while index < bound
        invariant
            index <= bound <= count,
            count == params.len(),
            params == sig@,
            slots@.len() == count,
            forall|q: int|
                0 <= q < count ==> #[trigger] slots@[q] == if q < index {
                    Some(q as usize)
                } else {
                    None::<usize>
                },
            forall|p: int| 0 <= p < index ==> !#[trigger] requires_label(params)(p),
        decreases bound - index,
    {
        if sig.params[index].required {
            proof {
                assert(requires_label(params)(index as int));
                lemma_first_where(0, bound as int, requires_label(params), index as int);
            }
            let label = name_or_empty_string(&sig.params[index].name);
            return Err(
                ArgumentError::MissingArgumentLabel {
                    callee: String::from_str(callee),
                    label,
                    span: span_of(spans, index, span),
                },
            );
        }
        assert(!requires_label(params)(index as int));
        slots.set(index, Some(index));
        index = index + 1;
    }
    proof {
        lemma_first_none(0, bound as int, requires_label(params));
    }

    // Each label fills the parameter it names, which nothing else may fill.
    let mut index: usize = positional;
    while index < labels.len()
        invariant
            positional <= index,
            index <= labels@.len() || index == positional,
            bound <= count,
            count == params.len(),
            params == sig@,
            lv == label_views(labels@),
            bound as int == positional_bound(params, lv, n as int),
            positional as int == positional_count(lv, n as int),
            bound <= positional || bound == count,
            slots@.len() == count,
            targets_distinct(params, lv, positional as int, index as int),
            forall|q: int|
                0 <= q < count ==> #[trigger] slots@[q] == if q < bound {
                    Some(q as usize)
                } else {
                    match labelled_source(params, lv, positional as int, index as int, q) {
                        Some(i) => Some(i as usize),
                        None => None::<usize>,
                    }
                },
            forall|q: int| 0 <= q < count ==> match #[trigger] slots@[q] {
                Some(i) => i < index,
                None => true,
            },
            forall|i: int|
                positional <= i < index ==> !#[trigger] unbindable(params, lv, positional as int)(i),
        decreases labels@.len() - index,
    {
        let ghost before = slots@;
        match &labels[index] {
            None => {
                assert(label_target(params, lv, index as int) is None);
                assert(!unbindable(params, lv, positional as int)(index as int));
                proof {
                    assert forall|q: int| 0 <= q < count implies #[trigger] slots@[q] == if q < bound {
                        Some(q as usize)
                    } else {
                        match labelled_source(params, lv, positional as int, index + 1, q) {
                            Some(i) => Some(i as usize),
                            None => None::<usize>,
                        }
                    } by {
                        lemma_labelled_source_extend(params, lv, positional as int, index as int, q);
                    }
                }
            },
            Some(label) => {
                assert(lv[index as int] == Some(label@));
                let target = sig.position_of(label.as_str());
                match target {
                    None => {
                        assert(label_target(params, lv, index as int) is None);
                        assert(unbindable(params, lv, positional as int)(index as int));
                        proof {
                            lemma_first_where(
                                positional as int,
                                lv.len() as int,
                                unbindable(params, lv, positional as int),
                                index as int,
                            );
                        }
                        if sig.is_suppressed(label.as_str()) {
                            return Err(
                                ArgumentError::SuppressedLabel {
                                    callee: String::from_str(callee),
                                    label: label.clone(),
                                    span: span_of(spans, index, span),
                                },
                            );
                        }
                        return Err(
                            ArgumentError::UnknownArgumentLabel {
                                callee: String::from_str(callee),
                                label: label.clone(),
                                span: span_of(spans, index, span),
                            },
                        );
                    },
                    Some(t) => {
                        assert(label_target(params, lv, index as int) == Some(t as int));
                        if slots[t].is_some() {
                            proof {
                                if t >= bound {
                                    let w = choose|i: int|
                                        positional <= i < index && #[trigger] label_target(
                                            params,
                                            lv,
                                            i,
                                        ) == Some(t as int);
                                    assert(positional <= w < index && label_target(params, lv, w)
                                        == Some(t as int));
                                }
                                assert(unbindable(params, lv, positional as int)(index as int));
                                lemma_first_where(
                                    positional as int,
                                    lv.len() as int,
                                    unbindable(params, lv, positional as int),
                                    index as int,
                                );
                            }
                            return Err(
                                ArgumentError::DuplicateArgumentLabel {
                                    callee: String::from_str(callee),
                                    label: label.clone(),
                                    span: span_of(spans, index, span),
                                },
                            );
                        }
                        proof {
                            assert(t >= bound);
                            assert(labelled_source(params, lv, positional as int, index as int, t as int) is None);
                            assert forall|j: int|
                                positional <= j < index implies #[trigger] label_target(params, lv, j)
                                != Some(t as int) by {
                            }
                            assert(!unbindable(params, lv, positional as int)(index as int));
                            assert(targets_distinct(params, lv, positional as int, index + 1));
                        }
                        slots.set(t, Some(index));
                        proof {
                            assert forall|q: int| 0 <= q < count implies #[trigger] slots@[q] == if q < bound {
                                Some(q as usize)
                            } else {
                                match labelled_source(params, lv, positional as int, index + 1, q) {
                                    Some(i) => Some(i as usize),
                                    None => None::<usize>,
                                }
                            } by {
                                if q == t as int {
                                    lemma_labelled_source_unique(
                                        params,
                                        lv,
                                        positional as int,
                                        index + 1,
                                        q,
                                        index as int,
                                    );
                                } else {
                                    lemma_labelled_source_extend(
                                        params,
                                        lv,
                                        positional as int,
                                        index as int,
                                        q,
                                    );
                                }
                            }
                        }
                    },
                }
            },
        }
        index = index + 1;
    }

    proof {
        assert(!(positional < labels@.len()) || index == labels@.len());
        if positional >= labels@.len() {
            assert forall|q: int| 0 <= q < count implies labelled_source(
                params,
                lv,
                positional as int,
                index as int,
                q,
            ) == labelled_source(params, lv, positional as int, lv.len() as int, q) by {
            }
        }
        lemma_first_none(
            positional as int,
            lv.len() as int,
            unbindable(params, lv, positional as int),
        );
    }

    // Every parameter left over takes its default.
    let mut t: usize = 0;
    while t < count
        invariant
            t <= count,
            count == params.len(),
            params == sig@,
            lv == label_views(labels@),
            slots@.len() == count,
            forall|q: int|
                0 <= q < count ==> (#[trigger] slots@[q] is None) == (slot_source(
                    params,
                    lv,
                    n as int,
                    q,
                ) is None),
            forall|q: int| 0 <= q < t ==> !#[trigger] unfilled(params, lv, n as int)(q),
        decreases count - t,
    {
        if slots[t].is_none() && sig.params[t].default.is_none() {
            proof {
                assert(unfilled(params, lv, n as int)(t as int));
                lemma_first_where(0, count as int, unfilled(params, lv, n as int), t as int);
            }
            let label = name_or_empty_string(&sig.params[t].name);
            return Err(
                ArgumentError::MissingArgumentLabel {
                    callee: String::from_str(callee),
                    label,
                    span,
                },
            );
        }
        assert(!unfilled(params, lv, n as int)(t as int));
        t = t + 1;
    }
    proof {
        lemma_first_none(0, count as int, unfilled(params, lv, n as int));
    }
    assert(slots_view(slots@) =~= Seq::new(params.len(), |q: int| slot_source(params, lv, n as int, q)));
    Ok(BindingPlan::Slots(slots))
}

/// Whether no label in `[positional, len)` is unbindable, the state a successful
/// binding leaves.
proof fn lemma_no_bad_distinct(params: Seq<ParamView>, labels: Seq<Option<Seq<char>>>, positional: int)
    requires
        forall|i: int|
            positional <= i < labels.len() ==> !#[trigger] unbindable(params, labels, positional)(i),
    ensures
        targets_distinct(params, labels, positional, labels.len() as int),
{
    assert forall|i: int, j: int|
        positional <= i < labels.len() && positional <= j < labels.len() && #[trigger] label_target(
            params,
            labels,
            i,
        ) is Some && #[trigger] label_target(params, labels, j) == label_target(params, labels, i)
        implies i == j by {
        if i < j {
            assert(!unbindable(params, labels, positional)(j));
        } else if j < i {
            assert(!unbindable(params, labels, positional)(i));
        }
    }
}

/// Whether some parameter takes the argument written at `i`.
pub open spec fn is_assigned(slots: Seq<Option<int>>, i: int) -> bool {
    exists|t: int| 0 <= t < slots.len() && #[trigger] slots[t] == Some(i)
}

/// A successful binding assigns every written argument to exactly one parameter: the
/// positional prefix stays in place, each labelled argument goes to the parameter its
/// label names, and every parameter without an argument has a default. (For a call
/// whose labels are absent or one per argument, as the parser writes them.)
pub proof fn lemma_binding_assigns_each_argument_once(
    labels: Seq<Option<Seq<char>>>,
    n: int,
    params: Seq<ParamView>,
    callee: Seq<char>,
    span: Span,
    spans: Seq<Span>,
    slots: Seq<Option<int>>,
)
    requires
        labels.len() == 0 || labels.len() == n,
        n >= 0,
        binding_outcome(labels, n, params, callee, span, spans) == Ok::<
            BindingPlanView,
            ArgumentErrorView,
        >(BindingPlanView::Slots(slots)),
    ensures
        slots.len() == params.len(),
        forall|t: int| 0 <= t < slots.len() && #[trigger] slots[t] is None ==> params[t].has_default,
        forall|t: int|
            0 <= t < slots.len() && #[trigger] slots[t] is Some ==> 0 <= slots[t]->0 < n,
        forall|t: int, u: int|
            0 <= t < slots.len() && 0 <= u < slots.len() && #[trigger] slots[t] is Some
                && #[trigger] slots[u] == slots[t] ==> t == u,
        forall|i: int| 0 <= i < n ==> #[trigger] is_assigned(slots, i),
        (forall|t: int| 0 <= t < slots.len() ==> #[trigger] slots[t] is Some) ==> slots.len() == n,
        forall|i: int|
            0 <= i < positional_count(labels, n) && i < n ==> #[trigger] slots[i] == Some(i),
        forall|i: int|
            0 <= i < labels.len() && (#[trigger] labels[i]) is Some ==> (position_of(
                params,
                labels[i]->0,
            ) matches Some(t) && 0 <= t < slots.len() && slots[t] == Some(i)),
{
    let named = named_from(labels);
    let positional = positional_count(labels, n);
    let bound = positional_bound(params, labels, n);
    assert(!(named is None && !has_required_label(params)));
    // No positional argument follows a named one.
    let stray = match named {
        Some(f) => first_where(f, labels.len() as int, unlabelled(labels)),
        None => None,
    };
    assert(stray is None);
    assert(n <= params.len());
    assert(first_where(0, bound, requires_label(params)) is None);
    assert(first_where(positional, labels.len() as int, unbindable(params, labels, positional))
        is None);
    assert(first_where(0, params.len() as int, unfilled(params, labels, n)) is None);
    assert(slots == Seq::new(params.len(), |t: int| slot_source(params, labels, n, t)));
    assert forall|i: int| positional <= i < labels.len() implies !#[trigger] unbindable(
        params,
        labels,
        positional,
    )(i) by {
        if unbindable(params, labels, positional)(i) {
        }
    }
    lemma_no_bad_distinct(params, labels, positional);
    // Where the named arguments start, every argument is labelled.
    if let Some(f) = named {
        lemma_first_where_is_first(0, labels.len() as int, labelled(labels));
        assert(positional == f);
        assert forall|j: int| f <= j < labels.len() implies (#[trigger] labels[j]) is Some by {
            if labels[j] is None {
                assert(unlabelled(labels)(j));
            }
        }
        assert(0 <= f < labels.len());
    } else {
        assert(positional == n);
        assert forall|j: int| 0 <= j < labels.len() implies !(#[trigger] labels[j] is Some) by {
            if labels[j] is Some {
                assert(labelled(labels)(j));
            }
        }
    }
    assert(bound <= positional);
    assert forall|t: int| 0 <= t < slots.len() && #[trigger] slots[t] is None implies params[t].has_default by {
        if !params[t].has_default {
            assert(!unfilled(params, labels, n)(t));
        }
    }
    assert forall|t: int| 0 <= t < slots.len() && #[trigger] slots[t] is Some implies 0 <= slots[t]->0 < n by {
        if t >= bound {
            let w = choose|i: int|
                positional <= i < labels.len() && #[trigger] label_target(params, labels, i) == Some(t);
            assert(label_target(params, labels, w) == Some(t));
        }
    }
    assert forall|t: int, u: int|
        0 <= t < slots.len() && 0 <= u < slots.len() && #[trigger] slots[t] is Some
            && #[trigger] slots[u] == slots[t] implies t == u by {
        if t >= bound {
            let w = choose|i: int|
                positional <= i < labels.len() && #[trigger] label_target(params, labels, i) == Some(t);
            assert(label_target(params, labels, w) == Some(t));
        }
        if u >= bound {
            let w = choose|i: int|
                positional <= i < labels.len() && #[trigger] label_target(params, labels, i) == Some(u);
            assert(label_target(params, labels, w) == Some(u));
        }
    }
    assert forall|i: int|
        0 <= i < labels.len() && (#[trigger] labels[i]) is Some implies (position_of(
        params,
        labels[i]->0,
    ) matches Some(t) && 0 <= t < slots.len() && slots[t] == Some(i)) by {
        if i < positional {
            assert(!labelled(labels)(i));
        }
        assert(positional <= i);
        assert(!unbindable(params, labels, positional)(i));
        let t = position_of(params, labels[i]->0)->0;
        assert(label_target(params, labels, i) == Some(t));
        lemma_position_in_range(params, labels[i]->0);
        assert(t >= positional);
        lemma_labelled_source_unique(params, labels, positional, labels.len() as int, t, i);
    }
    if forall|t: int| 0 <= t < slots.len() ==> #[trigger] slots[t] is Some {
        let values = slots.map_values(|s: Option<int>| s->0);
        assert forall|a: int, b: int| 0 <= a < values.len() && 0 <= b < values.len() && a != b
            implies values[a] != values[b] by {
            assert(slots[a] is Some && slots[b] is Some);
        }
        assert forall|v: int| values.to_set().contains(v) implies vstd::set_lib::set_int_range(0, n).contains(v) by {
            let a = choose|a: int| 0 <= a < values.len() && values[a] == v;
            assert(slots[a] is Some);
        }
        values.unique_seq_to_set();
        vstd::set_lib::lemma_int_range(0, n);
        vstd::set_lib::lemma_len_subset(values.to_set(), vstd::set_lib::set_int_range(0, n));
    }
    assert forall|i: int| 0 <= i < n implies #[trigger] is_assigned(slots, i) by {
        if i < positional {
            assert(slots[i] == Some(i));
        } else {
            assert(labels.len() == n);
            assert(labels[i] is Some);
            let t = position_of(params, labels[i]->0)->0;
            assert(slots[t] == Some(i));
        }
    }
}

} // verus!
