//! Named-argument binding: every call's arguments are matched against the callee's
//! parameters by label and permuted into declaration order.

pub mod assoc;
pub mod ast;
pub mod binding;
pub mod calls;
pub mod errors;
pub mod hoisting;
pub mod reports;
pub mod rewrites;
pub mod signatures;
pub mod walk;

use vstd::prelude::*;

use self::ast::Item;
use self::errors::{ArgumentError, ArgumentErrorView};
use self::reports::{error_views, errs_items, scopes_view};
use self::rewrites::rewrites_items;
use self::signatures::{collect_items, empty_table, SignatureTable};
use self::walk::{
    every_call_items, requires_no_label, unlabelled_call, walk_items, well_labelled_call,
};

verus! {

/// Rewrite `items` so every call's arguments sit in the callee's declaration order with
/// no labels left, reporting every call that cannot be bound.
///
/// The rewritten program is the given one with every call replaced by its bound form
/// (see [`rewrites::rewrites_items`]).
///
/// `items` is the whole program, because a call names its callee and the callee's
/// declaration may be anywhere in it. Where nothing is reported, no call writes a label
/// any more. The errors reported are exactly
/// those [`program_errors`] lists, in its order, and binding succeeds exactly when that
/// list is empty. A program that writes no label, against declarations none of which
/// requires one, always binds.
pub fn bind_arguments(items: &mut Vec<Item>) -> (result: Result<(), Vec<ArgumentError>>)
    requires
        every_call_items(old(items)@, well_labelled_call()),
    ensures
        result is Ok ==> every_call_items(final(items)@, unlabelled_call()),
        result is Ok <==> program_errors(old(items)@).len() == 0,
        result matches Err(errors) ==> error_views(errors@) == program_errors(old(items)@),
        rewrites_items(old(items)@, final(items)@, collect_items(empty_table(), old(items)@), Seq::empty()),
        requires_no_label(collect_items(empty_table(), old(items)@)) && every_call_items(
            old(items)@,
            unlabelled_call(),
        ) ==> result is Ok,
{
    let table = SignatureTable::build(items.as_slice());
    let mut program: Vec<Item> = Vec::new();
    std::mem::swap(&mut program, items);
    let mut scopes: Vec<Vec<String>> = Vec::new();
    let mut errors: Vec<ArgumentError> = Vec::new();
    assert(scopes_view(scopes@) =~= Seq::<Seq<Seq<char>>>::empty());
    assert(error_views(errors@) =~= Seq::<ArgumentErrorView>::empty());
    let walked = walk_items(program, &table, &mut scopes, &mut errors);
    assert(error_views(errors@) =~= program_errors(old(items)@));
    *items = walked;
    if errors.len() == 0 {
        Ok(())
    } else {
        Err(errors)
    }
}

/// The errors binding the program `items` reports, in the order its calls are met:
/// declarations in order, each call's own error before those of the calls it holds.
pub open spec fn program_errors(items: Seq<Item>) -> Seq<ArgumentErrorView> {
    errs_items(items, collect_items(empty_table(), items), Seq::empty())
}

} // verus!
