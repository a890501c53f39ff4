//! The call-site naming rules every declaration in the program imposes.

use vstd::prelude::*;
use vstd::string::*;

use super::assoc::AssocList;
use super::ast::{Identifier, Item, Literal, LiteralView, MethodDef, Type, TypeView};

verus! {

/// How a parameter is labelled where it is declared.
#[derive(Debug, Clone, PartialEq)]
pub enum ParamLabel {
    /// `name: T`: callers may write `name:`, or pass the argument positionally.
    Implicit,
    /// `external name: T`: callers must write `external:`.
    External(Identifier),
    /// `_ name: T`: callers must pass the argument positionally.
    Suppressed,
}

/// A declared parameter, as far as binding reads it.
#[derive(Debug, Clone, PartialEq)]
pub struct Parameter {
    pub label: ParamLabel,
    pub name: Identifier,
    pub ty: Type,
    /// The constant a caller that omits the argument gets, where one is specified.
    pub default: Option<Literal>,
}

/// What one parameter accepts at a call site.
#[derive(Debug, Clone, PartialEq)]
pub struct ParamBinding {
    /// The name a caller may write, or `None` when the `_` label suppresses it.
    pub name: Option<String>,
    /// The parameter's own name, kept even when no caller may write it.
    pub internal: String,
    /// Whether omitting that name is an error (the `external internal:` form).
    pub required: bool,
    /// The parameter's annotation, which a hoisted temporary restates.
    pub ty: Option<Type>,
    /// The constant an omitted argument takes.
    pub default: Option<Literal>,
}

/// A [`ParamBinding`] with its names as character sequences.
pub struct ParamView {
    pub name: Option<Seq<char>>,
    pub internal: Seq<char>,
    pub required: bool,
    pub has_default: bool,
    /// The parameter's annotation.
    pub ty: Option<TypeView>,
    /// The constant an omitted argument takes.
    pub default: Option<LiteralView>,
}

/// The view of an optional annotation.
pub open spec fn opt_type_view(t: Option<Type>) -> Option<TypeView> {
    match t {
        Some(x) => Some(x@),
        None => None,
    }
}

/// The view of an optional constant.
pub open spec fn opt_literal_view(l: Option<Literal>) -> Option<LiteralView> {
    match l {
        Some(x) => Some(x@),
        None => None,
    }
}

/// The view of an optional name.
pub open spec fn opt_view(name: Option<String>) -> Option<Seq<char>> {
    match name {
        Some(n) => Some(n@),
        None => None,
    }
}

impl View for ParamBinding {
    type V = ParamView;

    open spec fn view(&self) -> ParamView {
        ParamView {
            name: opt_view(self.name),
            internal: self.internal@,
            required: self.required,
            has_default: self.default is Some,
            ty: opt_type_view(self.ty),
            default: opt_literal_view(self.default),
        }
    }
}

/// A callee's parameters in declaration order: the order arguments are bound into.
#[derive(Debug, Clone, PartialEq)]
pub struct Signature {
    pub params: Vec<ParamBinding>,
}

impl View for Signature {
    type V = Seq<ParamView>;

    open spec fn view(&self) -> Seq<ParamView> {
        self.params@.map_values(|p: ParamBinding| p@)
    }
}

/// The binding a declared parameter gives its callers.
pub open spec fn param_binding_of(p: Parameter) -> ParamView {
    ParamView {
        name: match p.label {
            ParamLabel::Implicit => Some(p.name.name@),
            ParamLabel::External(label) => Some(label.name@),
            ParamLabel::Suppressed => None,
        },
        internal: p.name.name@,
        required: p.label is External,
        has_default: p.default is Some,
        ty: Some(p.ty@),
        default: opt_literal_view(p.default),
    }
}

/// Whether some parameter must be named.
pub open spec fn has_required_label(params: Seq<ParamView>) -> bool {
    exists|p: int| 0 <= p < params.len() && #[trigger] params[p].required
}

/// Whether some parameter has a default.
pub open spec fn has_defaults(params: Seq<ParamView>) -> bool {
    exists|p: int| 0 <= p < params.len() && #[trigger] params[p].has_default
}

/// Whether `p` is the first parameter a caller names `label`.
pub open spec fn is_position_of(params: Seq<ParamView>, label: Seq<char>, p: int) -> bool {
    &&& 0 <= p < params.len()
    &&& params[p].name == Some(label)
    &&& forall|q: int| 0 <= q < p ==> #[trigger] params[q].name != Some(label)
}

/// The declaration index of the parameter a caller names `label`.
pub open spec fn position_of(params: Seq<ParamView>, label: Seq<char>) -> Option<int> {
    if exists|p: int| 0 <= p < params.len() && #[trigger] params[p].name == Some(label) {
        Some(choose|p: int| is_position_of(params, label, p))
    } else {
        None
    }
}

/// A parameter a caller can name `label` is one of the parameters.
pub proof fn lemma_position_in_range(params: Seq<ParamView>, label: Seq<char>)
    requires
        position_of(params, label) is Some,
    ensures
        is_position_of(params, label, position_of(params, label)->0),
{
    lemma_first_named_exists(params, label, params.len() as int);
}

/// Where some parameter among the first `k` is named `label`, a first one is.
proof fn lemma_first_named_exists(params: Seq<ParamView>, label: Seq<char>, k: int)
    requires
        0 <= k <= params.len(),
        exists|p: int| 0 <= p < params.len() && #[trigger] params[p].name == Some(label),
    ensures
        exists|p: int| is_position_of(params, label, p),
    decreases params.len() - k,
{
    // Walk down from the end: the smallest index named `label` is a first one.
    let w = choose|p: int| 0 <= p < params.len() && #[trigger] params[p].name == Some(label);
    lemma_least_named(params, label, w);
}

/// Below any parameter named `label` sits a first one.
proof fn lemma_least_named(params: Seq<ParamView>, label: Seq<char>, w: int)
    requires
        0 <= w < params.len(),
        params[w].name == Some(label),
    ensures
        exists|p: int| is_position_of(params, label, p),
    decreases w,
{
    if exists|q: int| 0 <= q < w && #[trigger] params[q].name == Some(label) {
        let q = choose|q: int| 0 <= q < w && #[trigger] params[q].name == Some(label);
        lemma_least_named(params, label, q);
    } else {
        assert(is_position_of(params, label, w));
    }
}

/// Whether `label` names a parameter whose `_` label makes it positional-only.
pub open spec fn is_suppressed(params: Seq<ParamView>, label: Seq<char>) -> bool {
    exists|p: int| 0 <= p < params.len() && #[trigger] params[p].name is None && params[p].internal == label
}

/// The first parameter named `label` is the one `position_of` finds.
pub proof fn lemma_position_of(params: Seq<ParamView>, label: Seq<char>, p: int)
    requires
        is_position_of(params, label, p),
    ensures
        position_of(params, label) == Some(p),
{
    let q = choose|q: int| is_position_of(params, label, q);
    assert(is_position_of(params, label, q));
    if q < p {
        assert(params[q].name != Some(label));
    }
    if p < q {
        assert(params[p].name != Some(label));
    }
}

/// Whether two optional names are the same.
pub fn same_name(a: &Option<String>, b: &Option<String>) -> (same: bool)
    ensures
        same == (opt_view(*a) == opt_view(*b)),
{
    match (a, b) {
        (Some(x), Some(y)) => *x == *y,
        (None, None) => true,
        _ => false,
    }
}

/// Whether the optional name `a` is `label`.
pub fn names(a: &Option<String>, label: &str) -> (same: bool)
    ensures
        same == (opt_view(*a) == Some(label@)),
{
    match a {
        Some(x) => {
            let label = String::from_str(label);
            *x == label
        },
        None => false,
    }
}

/// Whether two identifiers are the same name written at the same place.
fn same_identifier(a: &Identifier, b: &Identifier) -> (same: bool)
    ensures
        same == (a.name@ == b.name@ && a.span == b.span),
{
    a.name == b.name && a.span == b.span
}

/// Whether two optional annotations are the same.
fn same_annotation(a: &Option<Type>, b: &Option<Type>) -> (same: bool)
    ensures
        same == (opt_type_view(*a) == opt_type_view(*b)),
{
    match (a, b) {
        (Some(Type::Named(x)), Some(Type::Named(y))) => same_identifier(x, y),
        (Some(Type::Composite(x)), Some(Type::Composite(y))) => *x == *y,
        (None, None) => true,
        _ => false,
    }
}

/// Whether two optional defaults are the same constant.
fn same_default(a: &Option<Literal>, b: &Option<Literal>) -> (same: bool)
    ensures
        same == (opt_literal_view(*a) == opt_literal_view(*b)),
{
    match (a, b) {
        (Some(Literal::Integer(x)), Some(Literal::Integer(y))) => *x == *y,
        (Some(Literal::Boolean(x)), Some(Literal::Boolean(y))) => *x == *y,
        (Some(Literal::Char(x)), Some(Literal::Char(y))) => *x == *y,
        (Some(Literal::String(x)), Some(Literal::String(y))) => *x == *y,
        (Some(Literal::Float(x)), Some(Literal::Float(y))) => *x == *y,
        (None, None) => true,
        _ => false,
    }
}

impl Signature {
    /// The signature a declaration's parameters impose.
    pub fn from_params(params: &[Parameter]) -> (sig: Signature)
        ensures
            sig@ == params@.map_values(|p: Parameter| param_binding_of(p)),
    {
        let mut bindings: Vec<ParamBinding> = Vec::new();
        let mut i: usize = 0;
        while i < params.len()
            invariant
                i <= params@.len(),
                bindings@.map_values(|b: ParamBinding| b@) =~= params@.take(i as int).map_values(
                    |p: Parameter| param_binding_of(p),
                ),
            decreases params@.len() - i,
        {
            let p = &params[i];
            let name = match &p.label {
                ParamLabel::Implicit => Some(p.name.name.clone()),
                ParamLabel::External(label) => Some(label.name.clone()),
                ParamLabel::Suppressed => None,
            };
            let required = match &p.label {
                ParamLabel::External(_) => true,
                _ => false,
            };
            let binding = ParamBinding {
                name,
                internal: p.name.name.clone(),
                required,
                ty: Some(p.ty.duplicate()),
                default: match &p.default {
                    Some(lit) => Some(lit.duplicate()),
                    None => None,
                },
            };
            let ghost before = bindings@;
            bindings.push(binding);
            proof {
                assert(params@.take(i + 1) =~= params@.take(i as int).push(params@[i as int]));
                assert(bindings@.map_values(|b: ParamBinding| b@) =~= before.map_values(
                    |b: ParamBinding| b@,
                ).push(binding@));
                assert(binding@ == param_binding_of(params@[i as int]));
            }
            i = i + 1;
        }
        assert(params@.take(params@.len() as int) =~= params@);
        Signature { params: bindings }
    }

    /// Whether any parameter must be named, which is what forces an all-positional call
    /// to be checked rather than passed through untouched.
    pub fn has_required_label(&self) -> (any: bool)
        ensures
            any == has_required_label(self@),
    {
        let mut i: usize = 0;
        while i < self.params.len()
            invariant
                i <= self.params@.len(),
                forall|p: int| 0 <= p < i ==> !(#[trigger] self@[p]).required,
            decreases self.params@.len() - i,
        {
            if self.params[i].required {
                assert(self@[i as int].required);
                return true;
            }
            i = i + 1;
        }
        false
    }

    /// Whether any parameter has a default.
    pub fn has_defaults(&self) -> (any: bool)
        ensures
            any == has_defaults(self@),
    {
        let mut i: usize = 0;
        while i < self.params.len()
            invariant
                i <= self.params@.len(),
                forall|p: int| 0 <= p < i ==> !(#[trigger] self@[p]).has_default,
            decreases self.params@.len() - i,
        {
            if self.params[i].default.is_some() {
                assert(self@[i as int].has_default);
                return true;
            }
            i = i + 1;
        }
        false
    }

    /// The declaration index of the parameter a caller names `label`.
    pub fn position_of(&self, label: &str) -> (position: Option<usize>)
        ensures
            match position {
                Some(p) => position_of(self@, label@) == Some(p as int) && is_position_of(
                    self@,
                    label@,
                    p as int,
                ),
                None => position_of(self@, label@) is None,
            },
    {
        let mut i: usize = 0;
        while i < self.params.len()
            invariant
                i <= self.params@.len(),
                forall|q: int| 0 <= q < i ==> (#[trigger] self@[q]).name != Some(label@),
            decreases self.params@.len() - i,
        {
            if names(&self.params[i].name, label) {
                proof {
                    lemma_position_of(self@, label@, i as int);
                }
                return Some(i);
            }
            i = i + 1;
        }
        None
    }

    /// Whether `label` names a parameter whose `_` label makes it positional-only.
    pub fn is_suppressed(&self, label: &str) -> (suppressed: bool)
        ensures
            suppressed == is_suppressed(self@, label@),
    {
        let mut i: usize = 0;
        while i < self.params.len()
            invariant
                i <= self.params@.len(),
                forall|q: int|
                    0 <= q < i ==> !((#[trigger] self@[q]).name is None && self@[q].internal
                        == label@),
            decreases self.params@.len() - i,
        {
            if self.params[i].name.is_none() && self.params[i].internal == String::from_str(label) {
                assert(self@[i as int].name is None && self@[i as int].internal == label@);
                return true;
            }
            i = i + 1;
        }
        false
    }

    /// Whether `self` and `other` impose the same rules.
    pub fn same_as(&self, other: &Signature) -> (same: bool)
        ensures
            same == (self@ == other@),
    {
        if self.params.len() != other.params.len() {
            assert(self@.len() != other@.len());
            return false;
        }
        let mut i: usize = 0;
        while i < self.params.len()
            invariant
                i <= self.params@.len(),
                self.params@.len() == other.params@.len(),
                forall|q: int| 0 <= q < i ==> #[trigger] self@[q] == other@[q],
            decreases self.params@.len() - i,
        {
            let a = &self.params[i];
            let b = &other.params[i];
            if !(same_name(&a.name, &b.name) && a.internal == b.internal
                && a.required == b.required && same_annotation(&a.ty, &b.ty) && same_default(
                &a.default,
                &b.default,
            )) {
                assert(self@[i as int] != other@[i as int]);
                return false;
            }
            i = i + 1;
        }
        assert(self@ =~= other@);
        true
    }
}

/// What is known about an instance method reached by name alone: the one signature all
/// its declarations agree on, or that they conflict.
pub enum MethodEntry {
    Agreed(Signature),
    Conflicting,
}

impl View for MethodEntry {
    type V = Option<Seq<ParamView>>;

    open spec fn view(&self) -> Option<Seq<ParamView>> {
        match self {
            MethodEntry::Agreed(sig) => Some(sig@),
            MethodEntry::Conflicting => None,
        }
    }
}

/// The naming rules of a program: free functions by name, associated functions by
/// type and name, and instance methods by name (`None` where declarations conflict).
pub struct TableView {
    pub functions: Map<Seq<char>, Seq<ParamView>>,
    pub assoc: Map<(Seq<char>, Seq<char>), Seq<ParamView>>,
    pub methods: Map<Seq<char>, Option<Seq<ParamView>>>,
}

/// The table with no declaration in it.
pub open spec fn empty_table() -> TableView {
    TableView { functions: Map::empty(), assoc: Map::empty(), methods: Map::empty() }
}

/// Recording an instance method named `name` with signature `sig`: the first one is
/// taken, an identical one changes nothing, a different one makes the name ambiguous.
pub open spec fn record_method_spec(
    methods: Map<Seq<char>, Option<Seq<ParamView>>>,
    name: Seq<char>,
    sig: Seq<ParamView>,
) -> Map<Seq<char>, Option<Seq<ParamView>>> {
    if !methods.dom().contains(name) {
        methods.insert(name, Some(sig))
    } else if methods[name] == Some(sig) {
        methods
    } else {
        methods.insert(name, None)
    }
}

/// The table after the methods of an `impl` of `owner`: an associated function is
/// recorded under (`owner`, name), an instance method by name.
pub open spec fn collect_impl_methods(
    t: TableView,
    owner: Seq<char>,
    methods: Seq<MethodDef>,
) -> TableView
    decreases methods.len(),
{
    if methods.len() == 0 {
        t
    } else {
        let before = collect_impl_methods(t, owner, methods.drop_last());
        let m = methods.last();
        let sig = m.params@.map_values(|p: Parameter| param_binding_of(p));
        if m.has_self {
            TableView {
                methods: record_method_spec(before.methods, m.name.name@, sig),
                ..before
            }
        } else {
            TableView { assoc: before.assoc.insert((owner, m.name.name@), sig), ..before }
        }
    }
}

/// The table after the methods of a `trait`: only its instance methods are recorded.
pub open spec fn collect_trait_methods(t: TableView, methods: Seq<MethodDef>) -> TableView
    decreases methods.len(),
{
    if methods.len() == 0 {
        t
    } else {
        let before = collect_trait_methods(t, methods.drop_last());
        let m = methods.last();
        if m.has_self {
            TableView {
                methods: record_method_spec(
                    before.methods,
                    m.name.name@,
                    m.params@.map_values(|p: Parameter| param_binding_of(p)),
                ),
                ..before
            }
        } else {
            before
        }
    }
}

/// The parameters a method declares, as its callers see them.
pub open spec fn method_rules(m: MethodDef) -> Seq<ParamView> {
    m.params@.map_values(|p: Parameter| param_binding_of(p))
}

/// Collecting a trait's methods leaves the functions and associated functions as they
/// were, records every method taking `self` under its name, and records no other name;
/// a method taking `self` whose name was not recorded before, and that no other method
/// of the trait taking `self` declares with different parameters, is known under its
/// name with exactly its declared parameters.
pub proof fn lemma_trait_records_its_instance_methods(t: TableView, methods: Seq<MethodDef>)
    ensures
        ({
            let r = collect_trait_methods(t, methods);
            &&& r.functions == t.functions
            &&& r.assoc == t.assoc
            &&& forall|i: int|
                0 <= i < methods.len() && (#[trigger] methods[i]).has_self ==> r.methods.dom().contains(
                    methods[i].name.name@,
                )
            &&& forall|n: Seq<char>|
                #[trigger] r.methods.dom().contains(n) ==> t.methods.dom().contains(n) || exists|i: int|
                    0 <= i < methods.len() && (#[trigger] methods[i]).has_self && methods[i].name.name@ == n
            &&& forall|i: int|
                0 <= i < methods.len() && (#[trigger] methods[i]).has_self && !t.methods.dom().contains(
                    methods[i].name.name@,
                ) && (forall|j: int|
                    0 <= j < methods.len() && (#[trigger] methods[j]).has_self && methods[j].name.name@
                        == methods[i].name.name@ ==> method_rules(methods[j]) == method_rules(methods[i]))
                    ==> r.methods[methods[i].name.name@] == Some(method_rules(methods[i]))
        }),
    decreases methods.len(),
{
    if methods.len() > 0 {
        let init = methods.drop_last();
        let last = methods.len() - 1;
        let m = methods[last];
        lemma_trait_records_its_instance_methods(t, init);
        let before = collect_trait_methods(t, init);
        let r = collect_trait_methods(t, methods);
        assert(m == methods.last());
        assert forall|i: int| 0 <= i < last implies #[trigger] methods[i] == init[i] by {}
        if m.has_self {
            let name = m.name.name@;
            let sig = method_rules(m);
            assert(m.params@.map_values(|p: Parameter| param_binding_of(p)) == sig);
            assert(r.methods == record_method_spec(before.methods, name, sig));
            assert forall|i: int|
                0 <= i < methods.len() && (#[trigger] methods[i]).has_self implies r.methods.dom().contains(
                    methods[i].name.name@,
                ) by {
                if i < last {
                    assert(init[i] == methods[i]);
                    assert(before.methods.dom().contains(init[i].name.name@));
                }
            }
            assert forall|n: Seq<char>| #[trigger] r.methods.dom().contains(n) implies t.methods.dom().contains(n)
                || exists|i: int| 0 <= i < methods.len() && (#[trigger] methods[i]).has_self && methods[i].name.name@
                == n by {
                if n == name {
                    assert(methods[last].has_self && methods[last].name.name@ == n);
                } else {
                    assert(before.methods.dom().contains(n));
                    if !t.methods.dom().contains(n) {
                        let i = choose|i: int| 0 <= i < init.len() && (#[trigger] init[i]).has_self && init[i].name.name@
                            == n;
                        assert(methods[i] == init[i]);
                    }
                }
            }
            assert forall|i: int|
                0 <= i < methods.len() && (#[trigger] methods[i]).has_self && !t.methods.dom().contains(
                    methods[i].name.name@,
                ) && (forall|j: int|
                    0 <= j < methods.len() && (#[trigger] methods[j]).has_self && methods[j].name.name@
                        == methods[i].name.name@ ==> method_rules(methods[j]) == method_rules(methods[i]))
                    implies r.methods[methods[i].name.name@] == Some(method_rules(methods[i])) by {
                let ni = methods[i].name.name@;
                if i < last {
                    assert(init[i] == methods[i]);
                    assert forall|j: int|
                        0 <= j < init.len() && (#[trigger] init[j]).has_self && init[j].name.name@ == init[i].name.name@
                            implies method_rules(init[j]) == method_rules(init[i]) by {
                        assert(methods[j] == init[j]);
                    }
                    assert(before.methods[ni] == Some(method_rules(methods[i])));
                    if name == ni {
                        assert(method_rules(methods[last]) == method_rules(methods[i]));
                    }
                } else {
                    if before.methods.dom().contains(name) {
                        let j = choose|j: int| 0 <= j < init.len() && (#[trigger] init[j]).has_self && init[j].name.name@
                            == name;
                        assert(methods[j] == init[j]);
                        assert(method_rules(methods[j]) == sig);
                        assert forall|k: int|
                            0 <= k < init.len() && (#[trigger] init[k]).has_self && init[k].name.name@
                                == init[j].name.name@ implies method_rules(init[k]) == method_rules(init[j]) by {
                            assert(methods[k] == init[k]);
                        }
                        assert(before.methods[name] == Some(method_rules(init[j])));
                    }
                }
            }
        } else {
            assert(r == before);
            assert forall|n: Seq<char>| #[trigger] r.methods.dom().contains(n) implies t.methods.dom().contains(n)
                || exists|i: int| 0 <= i < methods.len() && (#[trigger] methods[i]).has_self && methods[i].name.name@
                == n by {
                if !t.methods.dom().contains(n) {
                    let i = choose|i: int| 0 <= i < init.len() && (#[trigger] init[i]).has_self && init[i].name.name@ == n;
                    assert(methods[i] == init[i]);
                }
            }
            assert forall|i: int|
                0 <= i < methods.len() && (#[trigger] methods[i]).has_self && !t.methods.dom().contains(
                    methods[i].name.name@,
                ) && (forall|j: int|
                    0 <= j < methods.len() && (#[trigger] methods[j]).has_self && methods[j].name.name@
                        == methods[i].name.name@ ==> method_rules(methods[j]) == method_rules(methods[i]))
                    implies r.methods[methods[i].name.name@] == Some(method_rules(methods[i])) by {
                assert(init[i] == methods[i]);
                assert forall|j: int|
                    0 <= j < init.len() && (#[trigger] init[j]).has_self && init[j].name.name@ == init[i].name.name@
                        implies method_rules(init[j]) == method_rules(init[i]) by {
                    assert(methods[j] == init[j]);
                }
            }
        }
    }
}

/// The table after the declarations `items`, in order, descending into modules.
pub open spec fn collect_items(t: TableView, items: Seq<Item>) -> TableView
    decreases items,
{
    if items.len() == 0 {
        t
    } else {
        let before = collect_items(t, items.subrange(0, items.len() - 1));
        collect_item(before, items[items.len() - 1])
    }
}

/// The table after the declaration `item`.
pub open spec fn collect_item(t: TableView, item: Item) -> TableView
    decreases item,
{
    match item {
        Item::Function { name, params, .. } => TableView {
            functions: t.functions.insert(
                name.name@,
                params@.map_values(|p: Parameter| param_binding_of(p)),
            ),
            ..t
        },
        Item::Impl { owner, methods, .. } => collect_impl_methods(t, owner.name@, methods@),
        Item::Trait { methods, .. } => collect_trait_methods(t, methods@),
        Item::Module { items } => collect_items(t, items@),
        _ => t,
    }
}

/// Every call-site naming rule a program declares, indexed the three ways a call can
/// name its callee.
pub struct SignatureTable {
    functions: AssocList<String, Signature>,
    assoc: AssocList<(String, String), Signature>,
    methods: AssocList<String, MethodEntry>,
}

/// What a lookup found for a call site.
pub enum Lookup<'a> {
    /// The callee's parameters are known.
    Known(&'a Signature),
    /// Nothing in the program declares parameter names under this callee.
    Unknown,
    /// Several methods answer to the name with different parameter names.
    Ambiguous,
}

/// A [`Lookup`] by the parameters it found.
pub enum LookupView {
    Known(Seq<ParamView>),
    Unknown,
    Ambiguous,
}

impl<'a> View for Lookup<'a> {
    type V = LookupView;

    open spec fn view(&self) -> LookupView {
        match self {
            Lookup::Known(sig) => LookupView::Known(sig@),
            Lookup::Unknown => LookupView::Unknown,
            Lookup::Ambiguous => LookupView::Ambiguous,
        }
    }
}

impl View for SignatureTable {
    type V = TableView;

    closed spec fn view(&self) -> TableView {
        TableView {
            functions: self.functions.map(),
            assoc: self.assoc.map(),
            methods: self.methods.map(),
        }
    }
}

impl SignatureTable {
    /// The lists behind the table keep their keys distinct.
    pub closed spec fn wf(&self) -> bool {
        self.functions.wf() && self.assoc.wf() && self.methods.wf()
    }

    /// The rules `items` declare.
    pub fn build(items: &[Item]) -> (table: Self)
        ensures
            table.wf(),
            table@ == collect_items(empty_table(), items@),
    {
        let mut table = SignatureTable {
            functions: AssocList::new(),
            assoc: AssocList::new(),
            methods: AssocList::new(),
        };
        assert(table@ == empty_table());
        table.collect(items);
        table
    }

    /// Record the declarations of `items`, in order.
    fn collect(&mut self, items: &[Item])
        requires
            old(self).wf(),
        ensures
            final(self).wf(),
            final(self)@ == collect_items(old(self)@, items@),
        decreases items@,
    {
        let ghost start = self@;
        let mut i: usize = 0;
        while i < items.len()
            invariant
                i <= items@.len(),
                self.wf(),
                self@ == collect_items(start, items@.subrange(0, i as int)),
            decreases items@.len() - i,
        {
            proof {
                let next = items@.subrange(0, i + 1);
                assert(next.subrange(0, next.len() - 1) =~= items@.subrange(0, i as int));
                assert(next[next.len() - 1] == items@[i as int]);
                assert(decreases_to!(items@ => items@[i as int]));
            }
            self.collect_item(&items[i]);
            i = i + 1;
        }
        assert(items@.subrange(0, items@.len() as int) =~= items@);
    }

    /// Record the declarations of `item`.
    fn collect_item(&mut self, item: &Item)
        requires
            old(self).wf(),
        ensures
            final(self).wf(),
            final(self)@ == collect_item(old(self)@, *item),
        decreases item,
    {
        match item {
            Item::Function { name, params, .. } => {
                let sig = Signature::from_params(params.as_slice());
                self.functions.insert(name.name.clone(), sig);
            },
            Item::Impl { owner, methods, .. } => self.collect_impl(owner, methods),
            Item::Trait { methods, .. } => self.collect_trait(methods),
            Item::Module { items } => {
                assert(decreases_to!(item => items@));
                self.collect(items.as_slice());
            },
            Item::Const { .. } => {},
            Item::Struct { .. } => {},
            Item::Other => {},
        }
    }

    /// Record the methods of an `impl` of `owner`.
    fn collect_impl(&mut self, owner: &Identifier, methods: &Vec<MethodDef>)
        requires
            old(self).wf(),
        ensures
            final(self).wf(),
            final(self)@ == collect_impl_methods(old(self)@, owner.name@, methods@),
    {
        let ghost start = self@;
        let mut i: usize = 0;
        while i < methods.len()
            invariant
                i <= methods@.len(),
                self.wf(),
                self@ == collect_impl_methods(start, owner.name@, methods@.subrange(0, i as int)),
            decreases methods@.len() - i,
        {
            proof {
                let next = methods@.subrange(0, i + 1);
                assert(next.drop_last() =~= methods@.subrange(0, i as int));
            }
            let method = &methods[i];
            let sig = Signature::from_params(method.params.as_slice());
            if method.has_self {
                self.record_method(&method.name.name, sig);
            } else {
                self.assoc.insert((owner.name.clone(), method.name.name.clone()), sig);
            }
            i = i + 1;
        }
        assert(methods@.subrange(0, methods@.len() as int) =~= methods@);
    }

    /// Record the instance methods of a `trait`.
    fn collect_trait(&mut self, methods: &Vec<MethodDef>)
        requires
            old(self).wf(),
        ensures
            final(self).wf(),
            final(self)@ == collect_trait_methods(old(self)@, methods@),
    {
        let ghost start = self@;
        let mut i: usize = 0;
        while i < methods.len()
            invariant
                i <= methods@.len(),
                self.wf(),
                self@ == collect_trait_methods(start, methods@.subrange(0, i as int)),
            decreases methods@.len() - i,
        {
            proof {
                let next = methods@.subrange(0, i + 1);
                assert(next.drop_last() =~= methods@.subrange(0, i as int));
            }
            let method = &methods[i];
            if method.has_self {
                let sig = Signature::from_params(method.params.as_slice());
                self.record_method(&method.name.name, sig);
            }
            i = i + 1;
        }
        assert(methods@.subrange(0, methods@.len() as int) =~= methods@);
    }

    /// Record an instance method: the first signature of a name is taken, an identical
    /// one changes nothing, and a different one makes the name ambiguous.
    pub fn record_method(&mut self, name: &String, sig: Signature)
        requires
            old(self).wf(),
        ensures
            final(self).wf(),
            final(self)@ == (TableView {
                methods: record_method_spec(old(self)@.methods, name@, sig@),
                ..old(self)@
            }),
    {
        let ghost sig_view = sig@;
        let agreed = match self.methods.get(name) {
            None => None,
            Some(MethodEntry::Agreed(existing)) => Some(existing.same_as(&sig)),
            Some(MethodEntry::Conflicting) => Some(false),
        };
        match agreed {
            None => {
                self.methods.insert(name.clone(), MethodEntry::Agreed(sig));
            },
            Some(true) => {
                assert(self@.methods == record_method_spec(self@.methods, name@, sig_view));
            },
            Some(false) => {
                self.methods.insert(name.clone(), MethodEntry::Conflicting);
            },
        }
        assert(self@.functions == old(self)@.functions);
    }

    /// The rules of the free function `name`.
    pub fn function(&self, name: &String) -> (found: Lookup<'_>)
        requires
            self.wf(),
        ensures
            found@ == if self@.functions.dom().contains(name@) {
                LookupView::Known(self@.functions[name@])
            } else {
                LookupView::Unknown
            },
    {
        match self.functions.get(name) {
            Some(sig) => Lookup::Known(sig),
            None => Lookup::Unknown,
        }
    }

    /// The rules of the associated function `owner::member`.
    pub fn assoc_function(&self, owner: &String, member: &String) -> (found: Lookup<'_>)
        requires
            self.wf(),
        ensures
            found@ == if self@.assoc.dom().contains((owner@, member@)) {
                LookupView::Known(self@.assoc[(owner@, member@)])
            } else {
                LookupView::Unknown
            },
    {
        let key = (owner.clone(), member.clone());
        match self.assoc.get(&key) {
            Some(sig) => Lookup::Known(sig),
            None => Lookup::Unknown,
        }
    }

    /// The rules of the instance method `name`, across every type that declares one.
    pub fn method(&self, name: &String) -> (found: Lookup<'_>)
        requires
            self.wf(),
        ensures
            found@ == if !self@.methods.dom().contains(name@) {
                LookupView::Unknown
            } else {
                match self@.methods[name@] {
                    Some(sig) => LookupView::Known(sig),
                    None => LookupView::Ambiguous,
                }
            },
    {
        match self.methods.get(name) {
            Some(MethodEntry::Agreed(sig)) => Lookup::Known(sig),
            Some(MethodEntry::Conflicting) => Lookup::Ambiguous,
            None => Lookup::Unknown,
        }
    }
}

} // verus!
