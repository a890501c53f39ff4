//! Diagnostics for named-argument binding.

use vstd::prelude::*;
use vstd::string::*;

use crate::text::{decimal, decimal_digits};

verus! {

/// A stretch of source text, by offset.
#[derive(Debug, Clone, Copy, PartialEq, Eq, Structural)]
pub struct Span {
    pub start: usize,
    pub end: usize,
}

impl Span {
    /// The span from `start` to `end`.
    pub fn new(start: usize, end: usize) -> (span: Span)
        ensures
            span.start == start,
            span.end == end,
    {
        Span { start, end }
    }
}

/// A call site whose arguments cannot be bound to the callee's parameters.
#[derive(Debug, Clone, PartialEq)]
pub enum ArgumentError {
    /// A positional argument follows a named one.
    PositionalAfterNamed { callee: String, label: String, span: Span },
    /// A label names no parameter of the callee.
    UnknownArgumentLabel { callee: String, label: String, span: Span },
    /// Two arguments bind to one parameter.
    DuplicateArgumentLabel { callee: String, label: String, span: Span },
    /// A parameter that must be named is passed positionally, or is not passed at all.
    MissingArgumentLabel { callee: String, label: String, span: Span },
    /// The call passes more arguments than the callee takes, or too few with no defaults.
    ArgumentCountMismatch { callee: String, expected: usize, found: usize, span: Span },
    /// A label names a parameter declared `_ name`, which is passed positionally only.
    SuppressedLabel { callee: String, label: String, span: Span },
    /// The callee declares no parameter names, so no label can be used.
    LabelsUnsupported { callee: String, span: Span },
    /// Several methods of the callee's name declare different parameter names.
    AmbiguousMethodLabels { callee: String, label: String, span: Span },
}

/// An [`ArgumentError`] with its texts as character sequences.
pub enum ArgumentErrorView {
    PositionalAfterNamed { callee: Seq<char>, label: Seq<char>, span: Span },
    UnknownArgumentLabel { callee: Seq<char>, label: Seq<char>, span: Span },
    DuplicateArgumentLabel { callee: Seq<char>, label: Seq<char>, span: Span },
    MissingArgumentLabel { callee: Seq<char>, label: Seq<char>, span: Span },
    ArgumentCountMismatch { callee: Seq<char>, expected: nat, found: nat, span: Span },
    SuppressedLabel { callee: Seq<char>, label: Seq<char>, span: Span },
    LabelsUnsupported { callee: Seq<char>, span: Span },
    AmbiguousMethodLabels { callee: Seq<char>, label: Seq<char>, span: Span },
}

impl View for ArgumentError {
    type V = ArgumentErrorView;

    open spec fn view(&self) -> ArgumentErrorView {
        match self {
            ArgumentError::PositionalAfterNamed { callee, label, span } =>
                ArgumentErrorView::PositionalAfterNamed { callee: callee@, label: label@, span: *span },
            ArgumentError::UnknownArgumentLabel { callee, label, span } =>
                ArgumentErrorView::UnknownArgumentLabel { callee: callee@, label: label@, span: *span },
            ArgumentError::DuplicateArgumentLabel { callee, label, span } =>
                ArgumentErrorView::DuplicateArgumentLabel {
                    callee: callee@,
                    label: label@,
                    span: *span,
                },
            ArgumentError::MissingArgumentLabel { callee, label, span } =>
                ArgumentErrorView::MissingArgumentLabel { callee: callee@, label: label@, span: *span },
            ArgumentError::ArgumentCountMismatch { callee, expected, found, span } =>
                ArgumentErrorView::ArgumentCountMismatch {
                    callee: callee@,
                    expected: *expected as nat,
                    found: *found as nat,
                    span: *span,
                },
            ArgumentError::SuppressedLabel { callee, label, span } =>
                ArgumentErrorView::SuppressedLabel { callee: callee@, label: label@, span: *span },
            ArgumentError::LabelsUnsupported { callee, span } =>
                ArgumentErrorView::LabelsUnsupported { callee: callee@, span: *span },
            ArgumentError::AmbiguousMethodLabels { callee, label, span } =>
                ArgumentErrorView::AmbiguousMethodLabels {
                    callee: callee@,
                    label: label@,
                    span: *span,
                },
        }
    }
}

impl ArgumentError {
    /// Where the offending call site is.
    pub fn span(&self) -> (span: Span)
        ensures
            span == match self {
                ArgumentError::PositionalAfterNamed { span, .. } => *span,
                ArgumentError::UnknownArgumentLabel { span, .. } => *span,
                ArgumentError::DuplicateArgumentLabel { span, .. } => *span,
                ArgumentError::MissingArgumentLabel { span, .. } => *span,
                ArgumentError::ArgumentCountMismatch { span, .. } => *span,
                ArgumentError::SuppressedLabel { span, .. } => *span,
                ArgumentError::LabelsUnsupported { span, .. } => *span,
                ArgumentError::AmbiguousMethodLabels { span, .. } => *span,
            },
    {
        match self {
            ArgumentError::PositionalAfterNamed { span, .. } => *span,
            ArgumentError::UnknownArgumentLabel { span, .. } => *span,
            ArgumentError::DuplicateArgumentLabel { span, .. } => *span,
            ArgumentError::MissingArgumentLabel { span, .. } => *span,
            ArgumentError::ArgumentCountMismatch { span, .. } => *span,
            ArgumentError::SuppressedLabel { span, .. } => *span,
            ArgumentError::LabelsUnsupported { span, .. } => *span,
            ArgumentError::AmbiguousMethodLabels { span, .. } => *span,
        }
    }
}

/// The message an argument error is displayed with.
pub open spec fn argument_message(e: ArgumentErrorView) -> Seq<char> {
    match e {
        ArgumentErrorView::PositionalAfterNamed { callee, label, .. } => "in the call to '"@ + callee
            + "': a positional argument cannot follow a named one; move it before `"@ + label + ":`"@,
        ArgumentErrorView::UnknownArgumentLabel { callee, label, .. } => "'"@ + callee
            + "' has no parameter named '"@ + label + "'"@,
        ArgumentErrorView::DuplicateArgumentLabel { callee, label, .. } => "argument '"@ + label
            + "' is given twice in the call to '"@ + callee + "'"@,
        ArgumentErrorView::MissingArgumentLabel { callee, label, .. } => "the '"@ + label
            + "' argument of '"@ + callee + "' must be named: write `"@ + label + ": <value>`"@,
        ArgumentErrorView::ArgumentCountMismatch { callee, expected, found, .. } => "'"@ + callee
            + "' takes "@ + decimal_digits(expected) + " argument(s), but "@ + decimal_digits(found)
            + " given"@,
        ArgumentErrorView::SuppressedLabel { callee, label, .. } => "the '"@ + label
            + "' parameter of '"@ + callee + "' is declared `_ "@ + label
            + ":`, which means it is passed positionally and its name is not written at the call site"@,
        ArgumentErrorView::LabelsUnsupported { callee, .. } =>
            "named arguments are not available here: '"@ + callee
            + "' has no declared parameter names"@,
        ArgumentErrorView::AmbiguousMethodLabels { callee, label, .. } =>
            "named arguments cannot be used with '"@ + callee
            + "': more than one type declares a method of that name with different parameter names, so `"@
            + label + ":` does not identify one parameter"@,
    }
}

impl ArgumentError {
    /// The message this error is displayed with.
    pub fn message(&self) -> (text: String)
        ensures
            text@ == argument_message(self@),
    {
        match self {
            ArgumentError::PositionalAfterNamed { callee, label, .. } => {
                let mut text = String::from_str("in the call to '");
                text.append(callee.as_str());
                text.append("': a positional argument cannot follow a named one; move it before `");
                text.append(label.as_str());
                text.append(":`");
                text
            },
            ArgumentError::UnknownArgumentLabel { callee, label, .. } => {
                let mut text = String::from_str("'");
                text.append(callee.as_str());
                text.append("' has no parameter named '");
                text.append(label.as_str());
                text.append("'");
                text
            },
            ArgumentError::DuplicateArgumentLabel { callee, label, .. } => {
                let mut text = String::from_str("argument '");
                text.append(label.as_str());
                text.append("' is given twice in the call to '");
                text.append(callee.as_str());
                text.append("'");
                text
            },
            ArgumentError::MissingArgumentLabel { callee, label, .. } => {
                let mut text = String::from_str("the '");
                text.append(label.as_str());
                text.append("' argument of '");
                text.append(callee.as_str());
                text.append("' must be named: write `");
                text.append(label.as_str());
                text.append(": <value>`");
                text
            },
            ArgumentError::ArgumentCountMismatch { callee, expected, found, .. } => {
                let mut text = String::from_str("'");
                text.append(callee.as_str());
                text.append("' takes ");
                text.append(decimal(*expected as u64).as_str());
                text.append(" argument(s), but ");
                text.append(decimal(*found as u64).as_str());
                text.append(" given");
                text
            },
            ArgumentError::SuppressedLabel { callee, label, .. } => {
                let mut text = String::from_str("the '");
                text.append(label.as_str());
                text.append("' parameter of '");
                text.append(callee.as_str());
                text.append("' is declared `_ ");
                text.append(label.as_str());
                text.append(
                    ":`, which means it is passed positionally and its name is not written at the call site",
                );
                text
            },
            ArgumentError::LabelsUnsupported { callee, .. } => {
                let mut text = String::from_str("named arguments are not available here: '");
                text.append(callee.as_str());
                text.append("' has no declared parameter names");
                text
            },
            ArgumentError::AmbiguousMethodLabels { callee, label, .. } => {
                let mut text = String::from_str("named arguments cannot be used with '");
                text.append(callee.as_str());
                text.append(
                    "': more than one type declares a method of that name with different parameter names, so `",
                );
                text.append(label.as_str());
                text.append(":` does not identify one parameter");
                text
            },
        }
    }
}

} // verus!
