//! What reverse-mode differentiation decides before it touches a function body: which
//! parameters and receiver fields a `@grad` function differentiates, and the names of
//! the items it generates.

use vstd::prelude::*;
use vstd::string::*;

use super::methods::same_text;
use super::{concat3, malformed, LoweringError, LoweringErrorView};
use crate::arguments::assoc::AssocList;
use crate::text::{decimal, decimal_digits};

verus! {

/// The attribute asking for a derivative.
pub const GRAD_ATTRIBUTE: &'static str = "grad";

/// The prefix of the generated struct holding a function's gradients.
pub const BUNDLE_PREFIX: &'static str = "GradsOf_";

/// The prefix and suffix of the generated derivative's name.
pub const REVERSE_PREFIX: &'static str = "__";
pub const REVERSE_SUFFIX: &'static str = "__rev";

/// The `@grad` argument selecting what is differentiated.
pub const WRT_LABEL: &'static str = "wrt";

/// The receiver, the root of every `wrt:` field path.
pub const RECEIVER: &'static str = "self";

/// Joins the steps of a field path into its gradient's bundle field name.
pub const PATH_SEPARATOR: &'static str = "__";

/// The generated derivative of the lowered function `function`.
pub fn reverse_name(function: &str) -> (name: String)
    ensures
        name@ == REVERSE_PREFIX@ + function@ + REVERSE_SUFFIX@,
{
    concat3(REVERSE_PREFIX, function, REVERSE_SUFFIX)
}

/// The generated struct holding `function`'s gradients.
pub fn bundle_name(function: &str) -> (name: String)
    ensures
        name@ == BUNDLE_PREFIX@ + function@,
{
    let mut name = String::from_str(BUNDLE_PREFIX);
    name.append(function);
    name
}

/// One step of a path from the receiver to a tensor.
#[derive(Debug, Clone, PartialEq, Eq)]
pub enum PathStep {
    /// A named field.
    Field(String),
    /// A position of an array.
    Element(usize),
}

/// A [`PathStep`] with its name as a character sequence.
pub enum PathStepView {
    Field(Seq<char>),
    Element(usize),
}

impl View for PathStep {
    type V = PathStepView;

    open spec fn view(&self) -> PathStepView {
        match self {
            PathStep::Field(name) => PathStepView::Field(name@),
            PathStep::Element(position) => PathStepView::Element(*position),
        }
    }
}

/// The view of a field path.
pub open spec fn path_view(path: Seq<PathStep>) -> Seq<PathStepView> {
    path.map_values(|step: PathStep| step@)
}

/// The text a step contributes to a bundle field name.
pub open spec fn step_text(step: PathStepView) -> Seq<char> {
    match step {
        PathStepView::Field(name) => name,
        PathStepView::Element(position) => decimal_digits(position as nat),
    }
}

/// The bundle field a field path's gradient goes in: `self`, then each step after a
/// separator, `self__w__1`.
pub open spec fn field_key_spec(path: Seq<PathStepView>) -> Seq<char>
    decreases path.len(),
{
    if path.len() == 0 {
        RECEIVER@
    } else {
        field_key_spec(path.drop_last()) + PATH_SEPARATOR@ + step_text(path.last())
    }
}

/// The bundle field a field path's gradient goes in.
pub fn field_key(path: &Vec<PathStep>) -> (key: String)
    ensures
        key@ == field_key_spec(path_view(path@)),
{
    let ghost pv = path_view(path@);
    let mut key = String::from_str(RECEIVER);
    let mut i: usize = 0;
    while i < path.len()
        invariant
            pv == path_view(path@),
            i <= path@.len(),
            key@ == field_key_spec(pv.take(i as int)),
        decreases path@.len() - i,
    {
        proof {
            assert(pv.take(i + 1).drop_last() =~= pv.take(i as int));
        }
        key.append(PATH_SEPARATOR);
        match &path[i] {
            PathStep::Field(name) => key.append(name.as_str()),
            PathStep::Element(position) => key.append(decimal(*position as u64).as_str()),
        }
        i = i + 1;
    }
    assert(pv.take(i as int) =~= pv);
    key
}

/// Whether some value occurs twice in `letters`.
pub open spec fn has_repeat(letters: Seq<usize>) -> bool {
    exists|a: int, b: int| 0 <= a < b < letters.len() && letters[a] == letters[b]
}

/// Whether some value occurs twice in `letters`.
pub fn repeats(letters: &Vec<usize>) -> (found: bool)
    ensures
        found == has_repeat(letters@),
{
    let mut at: usize = 0;
    while at < letters.len()
        invariant
            at <= letters@.len(),
            forall|a: int, b: int| 0 <= a < at && a < b < letters@.len() ==> letters@[a] != letters@[b],
        decreases letters@.len() - at,
    {
        let mut later: usize = at + 1;
        while later < letters.len()
            invariant
                at < letters@.len(),
                at + 1 <= later <= letters@.len(),
                forall|b: int| at < b < later ==> letters@[at as int] != letters@[b],
            decreases letters@.len() - later,
        {
            if letters[later] == letters[at] {
                return true;
            }
            later = later + 1;
        }
        at = at + 1;
    }
    false
}

/// What a `@grad` function differentiates.
#[derive(Debug, Clone, PartialEq)]
pub enum Wrt {
    /// No `wrt:`: every mutably borrowed tensor parameter.
    Tensors,
    /// A `wrt:` list: parameters by name, and tensors reached from the receiver.
    Listed { params: Vec<String>, fields: Vec<Vec<PathStep>> },
}

/// A [`Wrt`] as sequences.
pub enum WrtView {
    Tensors,
    Listed { params: Seq<Seq<char>>, fields: Seq<Seq<PathStepView>> },
}

/// The view of a list of names.
pub open spec fn strings_view(names: Seq<String>) -> Seq<Seq<char>> {
    names.map_values(|n: String| n@)
}

/// The view of a list of field paths.
pub open spec fn paths_view(paths: Seq<Vec<PathStep>>) -> Seq<Seq<PathStepView>> {
    paths.map_values(|p: Vec<PathStep>| path_view(p@))
}

impl View for Wrt {
    type V = WrtView;

    open spec fn view(&self) -> WrtView {
        match self {
            Wrt::Tensors => WrtView::Tensors,
            Wrt::Listed { params, fields } => WrtView::Listed {
                params: strings_view(params@),
                fields: paths_view(fields@),
            },
        }
    }
}

impl Wrt {
    /// Whether the parameter `name` is differentiated; `mutable_tensor` says whether its
    /// type is a mutably borrowed tensor, which is what differentiating all tensors
    /// selects.
    pub fn selects(&self, name: &str, mutable_tensor: bool) -> (selected: bool)
        ensures
            selected == match self@ {
                WrtView::Tensors => mutable_tensor,
                WrtView::Listed { params, .. } => params.contains(name@),
            },
    {
        match self {
            Wrt::Tensors => mutable_tensor,
            Wrt::Listed { params, .. } => {
                let ghost pv = strings_view(params@);
                let mut i: usize = 0;
                while i < params.len()
                    invariant
                        pv == strings_view(params@),
                        self@ is Listed,
                        self@->Listed_params == pv,
                        i <= params@.len(),
                        forall|k: int| 0 <= k < i ==> pv[k] != name@,
                    decreases params@.len() - i,
                {
                    if same_text(params[i].as_str(), name) {
                        assert(pv[i as int] == name@);
                        assert(pv.contains(name@));
                        return true;
                    }
                    i = i + 1;
                }
                proof {
                    if pv.contains(name@) {
                        let k = choose|k: int| 0 <= k < pv.len() && pv[k] == name@;
                        assert(pv[k] != name@);
                    }
                }
                false
            },
        }
    }

    /// The receiver fields differentiated: none without a `wrt:` list.
    pub fn fields(&self) -> (fields: &[Vec<PathStep>])
        ensures
            paths_view(fields@) == match self@ {
                WrtView::Tensors => Seq::<Seq<PathStepView>>::empty(),
                WrtView::Listed { fields, .. } => fields,
            },
    {
        match self {
            Wrt::Tensors => {
                let none: &[Vec<PathStep>] = &[];
                assert(paths_view(none@) =~= Seq::<Seq<PathStepView>>::empty());
                none
            },
            Wrt::Listed { fields, .. } => fields.as_slice(),
        }
    }
}

/// The error for a `wrt:` entry the checker should have refused.
pub open spec fn unchecked_wrt_detail() -> Seq<char> {
    "a `wrt:` entry the checker should have refused"@
}

/// The error for a `wrt:` entry the checker should have refused.
pub fn unchecked_wrt() -> (e: LoweringError)
    ensures
        e@ == (LoweringErrorView::Malformed { detail: unchecked_wrt_detail() }),
{
    malformed(String::from_str("a `wrt:` entry the checker should have refused"))
}

/// A `@grad` function's parameter names in order, and what it differentiates.
#[derive(Debug, Clone, PartialEq)]
pub struct GradParams {
    pub names: Vec<String>,
    pub wrt: Wrt,
}

/// [`GradParams`] as sequences.
pub struct GradParamsView {
    pub names: Seq<Seq<char>>,
    pub wrt: WrtView,
}

impl View for GradParams {
    type V = GradParamsView;

    open spec fn view(&self) -> GradParamsView {
        GradParamsView { names: strings_view(self.names@), wrt: self.wrt@ }
    }
}

/// What a function that was never registered as `@grad` is refused with.
pub open spec fn unregistered_detail(key: Seq<char>) -> Seq<char> {
    "`@grad` function '"@ + key + "' was never registered"@
}

/// What the registered `@grad` function `key` differentiates.
pub fn wrt_of<'g>(grad_params: &'g AssocList<String, GradParams>, key: &String) -> (r: Result<
    &'g Wrt,
    LoweringError,
>)
    requires
        grad_params.wf(),
    ensures
        match r {
            Ok(wrt) => grad_params.map().dom().contains(key@) && grad_params.map()[key@].wrt == wrt@,
            Err(e) => !grad_params.map().dom().contains(key@) && e@ == (LoweringErrorView::Malformed {
                detail: unregistered_detail(key@),
            }),
        },
{
    match grad_params.get(key) {
        Some(params) => Ok(&params.wrt),
        None => Err(
            malformed(concat3("`@grad` function '", key.as_str(), "' was never registered")),
        ),
    }
}

/// An expression written in a `wrt:` list, as far as a field path reads it.
#[derive(Debug, PartialEq)]
pub enum PathExpr {
    /// A bare name.
    Identifier(String),
    /// `object.field`.
    FieldAccess { object: Box<PathExpr>, field: String },
    /// `object[index]`, with the index's value where it is an integer literal.
    Index { object: Box<PathExpr>, literal: Option<i128> },
    /// Any other expression.
    Other,
}

/// The value of a named attribute argument: an array literal, or anything else.
#[derive(Debug, PartialEq)]
pub enum AttrValue {
    List(Vec<PathExpr>),
    Other,
}

/// A named argument of an attribute, `label: value`.
#[derive(Debug, PartialEq)]
pub struct AttrArg {
    pub label: String,
    pub value: AttrValue,
}

/// An attribute, `@name(label: value, ...)`.
#[derive(Debug, PartialEq)]
pub struct Attribute {
    pub name: String,
    pub named: Vec<AttrArg>,
}

/// The steps of a field path rooted at `self`, `self.a.b[1]`.
pub open spec fn field_path_spec(e: PathExpr) -> Option<Seq<PathStepView>>
    decreases e,
{
    match e {
        PathExpr::Identifier(name) => if name@ == RECEIVER@ {
            Some(Seq::empty())
        } else {
            None
        },
        PathExpr::FieldAccess { object, field } => match field_path_spec(*object) {
            Some(path) => Some(path.push(PathStepView::Field(field@))),
            None => None,
        },
        PathExpr::Index { object, literal } => match literal {
            Some(v) => match field_path_spec(*object) {
                Some(path) => if 0 <= v <= usize::MAX {
                    Some(path.push(PathStepView::Element(v as usize)))
                } else {
                    None
                },
                None => None,
            },
            None => None,
        },
        PathExpr::Other => None,
    }
}

/// The steps of a field path rooted at `self`.
pub fn field_path(e: &PathExpr) -> (path: Option<Vec<PathStep>>)
    ensures
        match path {
            Some(p) => field_path_spec(*e) == Some(path_view(p@)),
            None => field_path_spec(*e) is None,
        },
    decreases e,
{
    match e {
        PathExpr::Identifier(name) => {
            if same_text(name.as_str(), RECEIVER) {
                let empty: Vec<PathStep> = Vec::new();
                assert(path_view(empty@) =~= Seq::<PathStepView>::empty());
                Some(empty)
            } else {
                None
            }
        },
        PathExpr::FieldAccess { object, field } => match field_path(object) {
            Some(mut path) => {
                let ghost before = path@;
                path.push(PathStep::Field(field.clone()));
                assert(path_view(path@) =~= path_view(before).push(PathStepView::Field(field@)));
                Some(path)
            },
            None => None,
        },
        PathExpr::Index { object, literal } => match literal {
            Some(v) => match field_path(object) {
                Some(mut path) => {
                    if *v < 0 || *v > usize::MAX as i128 {
                        return None;
                    }
                    let ghost before = path@;
                    path.push(PathStep::Element(*v as usize));
                    assert(path_view(path@) =~= path_view(before).push(
                        PathStepView::Element(*v as usize),
                    ));
                    Some(path)
                },
                None => None,
            },
            None => None,
        },
        PathExpr::Other => None,
    }
}

/// The value of the first `label:` argument among `args`.
pub open spec fn labelled_value(args: Seq<AttrArg>, label: Seq<char>) -> Option<AttrValue>
    decreases args.len(),
{
    if args.len() == 0 {
        None
    } else {
        match labelled_value(args.drop_last(), label) {
            Some(v) => Some(v),
            None => if args.last().label@ == label {
                Some(args.last().value)
            } else {
                None
            },
        }
    }
}

/// The value of the first `wrt:` argument of a `@grad` attribute among `attributes`.
pub open spec fn wrt_value(attributes: Seq<Attribute>) -> Option<AttrValue>
    decreases attributes.len(),
{
    if attributes.len() == 0 {
        None
    } else {
        match wrt_value(attributes.drop_last()) {
            Some(v) => Some(v),
            None => if attributes.last().name@ == GRAD_ATTRIBUTE@ {
                labelled_value(attributes.last().named@, WRT_LABEL@)
            } else {
                None
            },
        }
    }
}

/// The parameters and field paths a `wrt:` list names, in order; `None` where an entry
/// is neither a parameter name nor a field path rooted at `self`.
pub open spec fn wrt_entries(entries: Seq<PathExpr>) -> Option<(Seq<Seq<char>>, Seq<Seq<PathStepView>>)>
    decreases entries.len(),
{
    if entries.len() == 0 {
        Some((Seq::empty(), Seq::empty()))
    } else {
        match wrt_entries(entries.drop_last()) {
            None => None,
            Some((params, fields)) => match entries.last() {
                PathExpr::Identifier(name) => if name@ != RECEIVER@ {
                    Some((params.push(name@), fields))
                } else {
                    Some((params, fields.push(Seq::empty())))
                },
                other => match field_path_spec(other) {
                    Some(path) => Some((params, fields.push(path))),
                    None => None,
                },
            },
        }
    }
}

/// The selection the `@grad` attribute among `attributes` makes: everything without a
/// `wrt:`, else what its list names. `None` where the list is not an array literal or
/// holds an entry the checker should have refused.
pub open spec fn wrt_spec(attributes: Seq<Attribute>) -> Option<WrtView> {
    match wrt_value(attributes) {
        None => Some(WrtView::Tensors),
        Some(AttrValue::Other) => None,
        Some(AttrValue::List(entries)) => match wrt_entries(entries@) {
            Some((params, fields)) => Some(WrtView::Listed { params, fields }),
            None => None,
        },
    }
}

/// The first `label:` argument among `args`.
fn find_labelled<'a>(args: &'a Vec<AttrArg>, label: &str) -> (found: Option<&'a AttrValue>)
    ensures
        match found {
            Some(v) => labelled_value(args@, label@) == Some(*v),
            None => labelled_value(args@, label@) is None,
        },
{
    let mut i: usize = 0;
    while i < args.len()
        invariant
            i <= args@.len(),
            labelled_value(args@.take(i as int), label@) is None,
        decreases args@.len() - i,
    {
        assert(args@.take(i + 1).drop_last() =~= args@.take(i as int));
        if same_text(args[i].label.as_str(), label) {
            proof {
                lemma_labelled_prefix(args@, label@, i as int + 1);
            }
            return Some(&args[i].value);
        }
        i = i + 1;
    }
    assert(args@.take(i as int) =~= args@);
    None
}

/// A `label:` argument found in a prefix is the first in the whole.
proof fn lemma_labelled_prefix(args: Seq<AttrArg>, label: Seq<char>, n: int)
    requires
        0 <= n <= args.len(),
        labelled_value(args.take(n), label) is Some,
    ensures
        labelled_value(args, label) == labelled_value(args.take(n), label),
    decreases args.len() - n,
{
    if n < args.len() {
        assert(args.take(n + 1).drop_last() =~= args.take(n));
        lemma_labelled_prefix(args, label, n + 1);
    } else {
        assert(args.take(n) =~= args);
    }
}

/// A `wrt:` value found in a prefix of the attributes is the first in the whole.
proof fn lemma_wrt_prefix(attributes: Seq<Attribute>, n: int)
    requires
        0 <= n <= attributes.len(),
        wrt_value(attributes.take(n)) is Some,
    ensures
        wrt_value(attributes) == wrt_value(attributes.take(n)),
    decreases attributes.len() - n,
{
    if n < attributes.len() {
        assert(attributes.take(n + 1).drop_last() =~= attributes.take(n));
        lemma_wrt_prefix(attributes, n + 1);
    } else {
        assert(attributes.take(n) =~= attributes);
    }
}

/// The first `wrt:` value of a `@grad` attribute among `attributes`.
fn find_wrt(attributes: &Vec<Attribute>) -> (found: Option<&AttrValue>)
    ensures
        match found {
            Some(v) => wrt_value(attributes@) == Some(*v),
            None => wrt_value(attributes@) is None,
        },
{
    let mut i: usize = 0;
    while i < attributes.len()
        invariant
            i <= attributes@.len(),
            wrt_value(attributes@.take(i as int)) is None,
        decreases attributes@.len() - i,
    {
        assert(attributes@.take(i + 1).drop_last() =~= attributes@.take(i as int));
        if same_text(attributes[i].name.as_str(), GRAD_ATTRIBUTE) {
            match find_labelled(&attributes[i].named, WRT_LABEL) {
                Some(value) => {
                    proof {
                        lemma_wrt_prefix(attributes@, i as int + 1);
                    }
                    return Some(value);
                },
                None => {},
            }
        }
        i = i + 1;
    }
    assert(attributes@.take(i as int) =~= attributes@);
    None
}

/// A refusal of a prefix of a `wrt:` list is the refusal of the whole.
proof fn lemma_entries_fail_from(entries: Seq<PathExpr>, m: int)
    requires
        0 <= m <= entries.len(),
        wrt_entries(entries.take(m)) is None,
    ensures
        wrt_entries(entries) is None,
    decreases entries.len() - m,
{
    if m < entries.len() {
        assert(entries.take(m + 1).drop_last() =~= entries.take(m));
        lemma_entries_fail_from(entries, m + 1);
    } else {
        assert(entries.take(m) =~= entries);
    }
}

impl Wrt {
    /// The selection a `@grad` attribute among `attributes` makes: a `wrt:` list names
    /// parameters by name and tensors by a field path rooted at `self`.
    pub fn of(attributes: &Vec<Attribute>) -> (r: Result<Wrt, LoweringError>)
        ensures
            match r {
                Ok(wrt) => wrt_spec(attributes@) == Some(wrt@),
                Err(e) => wrt_spec(attributes@) is None && e@ == (LoweringErrorView::Malformed {
                    detail: unchecked_wrt_detail(),
                }),
            },
    {
        let list = match find_wrt(attributes) {
            None => {
                return Ok(Wrt::Tensors);
            },
            Some(list) => list,
        };
        let entries = match list {
            AttrValue::List(entries) => entries,
            AttrValue::Other => {
                return Err(unchecked_wrt());
            },
        };
        let mut params: Vec<String> = Vec::new();
        let mut fields: Vec<Vec<PathStep>> = Vec::new();
        let mut i: usize = 0;
        while i < entries.len()
            invariant
                i <= entries@.len(),
                wrt_value(attributes@) == Some(AttrValue::List(*entries)),
                wrt_entries(entries@.take(i as int)) == Some((strings_view(params@), paths_view(fields@))),
            decreases entries@.len() - i,
        {
            assert(entries@.take(i + 1).drop_last() =~= entries@.take(i as int));
            assert(entries@.take(i + 1).last() == entries@[i as int]);
            let entry = &entries[i];
            let is_param = match entry {
                PathExpr::Identifier(name) => !same_text(name.as_str(), RECEIVER),
                _ => false,
            };
            if is_param {
                match entry {
                    PathExpr::Identifier(name) => {
                        let ghost before = params@;
                        params.push(name.clone());
                        assert(strings_view(params@) =~= strings_view(before).push(name@));
                    },
                    _ => {},
                }
            } else {
                match field_path(entry) {
                    Some(path) => {
                        let ghost before = fields@;
                        fields.push(path);
                        assert(paths_view(fields@) =~= paths_view(before).push(path_view(path@)));
                    },
                    None => {
                        proof {
                            lemma_entries_fail_from(entries@, i as int + 1);
                        }
                        return Err(unchecked_wrt());
                    },
                }
            }
            i = i + 1;
        }
        assert(entries@.take(i as int) =~= entries@);
        Ok(Wrt::Listed { params, fields })
    }
}

/// Whether one of `attributes` is `@grad`.
pub fn is_grad(attributes: &Vec<Attribute>) -> (grad: bool)
    ensures
        grad == exists|i: int| 0 <= i < attributes@.len() && #[trigger] attributes@[i].name@ == GRAD_ATTRIBUTE@,
{
    let mut i: usize = 0;
    while i < attributes.len()
        invariant
            i <= attributes@.len(),
            forall|k: int| 0 <= k < i ==> #[trigger] attributes@[k].name@ != GRAD_ATTRIBUTE@,
        decreases attributes@.len() - i,
    {
        if same_text(attributes[i].name.as_str(), GRAD_ATTRIBUTE) {
            return true;
        }
        i = i + 1;
    }
    false
}

} // verus!
