//! The compiler-known operator traits: which operators each provides, through which
//! methods, and whether its methods return the impl's `Output` or a `bool`.

use vstd::prelude::*;
use vstd::string::*;

use super::methods::same_text;

verus! {

/// A binary operator an operator trait can provide.
#[derive(Debug, Clone, Copy, PartialEq, Eq, Structural)]
pub enum BinaryOp {
    Add,
    Subtract,
    Multiply,
    Divide,
    Modulo,
    BitAnd,
    BitOr,
    BitXor,
    Shl,
    Equal,
    NotEqual,
    Less,
    LessEqual,
    Greater,
    GreaterEqual,
}

/// A unary operator an operator trait can provide.
#[derive(Debug, Clone, Copy, PartialEq, Eq, Structural)]
pub enum UnaryOp {
    Negate,
    BitNot,
}

/// Which operators an operator trait provides, by method name, and whether its methods
/// return the impl's `Output` (arithmetic, bitwise) or a fixed `bool` (comparison).
#[derive(Debug, Clone, PartialEq)]
pub struct OpTraitSpec {
    pub binary: Vec<(&'static str, BinaryOp)>,
    pub unary: Vec<(&'static str, UnaryOp)>,
    pub has_output: bool,
}

/// An [`OpTraitSpec`] with its method names as character sequences.
pub struct OpTraitView {
    pub binary: Seq<(Seq<char>, BinaryOp)>,
    pub unary: Seq<(Seq<char>, UnaryOp)>,
    pub has_output: bool,
}

impl View for OpTraitSpec {
    type V = OpTraitView;

    open spec fn view(&self) -> OpTraitView {
        OpTraitView {
            binary: self.binary@.map_values(|e: (&'static str, BinaryOp)| (e.0@, e.1)),
            unary: self.unary@.map_values(|e: (&'static str, UnaryOp)| (e.0@, e.1)),
            has_output: self.has_output,
        }
    }
}

/// A trait providing the one binary operator `op` through `method`.
pub open spec fn one_binary(method: Seq<char>, op: BinaryOp) -> OpTraitView {
    OpTraitView { binary: seq![(method, op)], unary: seq![], has_output: true }
}

/// A trait providing the one unary operator `op` through `method`.
pub open spec fn one_unary(method: Seq<char>, op: UnaryOp) -> OpTraitView {
    OpTraitView { binary: seq![], unary: seq![(method, op)], has_output: true }
}

/// The operator trait named `name`, or `None` where `name` names none.
pub open spec fn operator_trait(name: Seq<char>) -> Option<OpTraitView> {
    if name == "Add"@ {
        Some(one_binary("add"@, BinaryOp::Add))
    } else if name == "Sub"@ {
        Some(one_binary("sub"@, BinaryOp::Subtract))
    } else if name == "Mul"@ {
        Some(one_binary("mul"@, BinaryOp::Multiply))
    } else if name == "Div"@ {
        Some(one_binary("div"@, BinaryOp::Divide))
    } else if name == "Rem"@ {
        Some(one_binary("rem"@, BinaryOp::Modulo))
    } else if name == "BitAnd"@ {
        Some(one_binary("bitand"@, BinaryOp::BitAnd))
    } else if name == "BitOr"@ {
        Some(one_binary("bitor"@, BinaryOp::BitOr))
    } else if name == "BitXor"@ {
        Some(one_binary("bitxor"@, BinaryOp::BitXor))
    } else if name == "Shl"@ {
        Some(one_binary("shl"@, BinaryOp::Shl))
    } else if name == "Neg"@ {
        Some(one_unary("neg"@, UnaryOp::Negate))
    } else if name == "Not"@ {
        Some(one_unary("not"@, UnaryOp::BitNot))
    } else if name == "PartialEq"@ {
        Some(
            OpTraitView {
                binary: seq![("eq"@, BinaryOp::Equal), ("ne"@, BinaryOp::NotEqual)],
                unary: seq![],
                has_output: false,
            },
        )
    } else if name == "Comparable"@ {
        Some(
            OpTraitView {
                binary: seq![
                    ("lt"@, BinaryOp::Less),
                    ("le"@, BinaryOp::LessEqual),
                    ("gt"@, BinaryOp::Greater),
                    ("ge"@, BinaryOp::GreaterEqual),
                ],
                unary: seq![],
                has_output: false,
            },
        )
    } else {
        None
    }
}

/// A trait providing one binary operator.
fn binary_trait(method: &'static str, op: BinaryOp) -> (spec: OpTraitSpec)
    ensures
        spec@ == one_binary(method@, op),
{
    let spec = OpTraitSpec { binary: vec![(method, op)], unary: Vec::new(), has_output: true };
    assert(spec@.binary =~= seq![(method@, op)]);
    assert(spec@.unary =~= Seq::<(Seq<char>, UnaryOp)>::empty());
    spec
}

/// A trait providing one unary operator.
fn unary_trait(method: &'static str, op: UnaryOp) -> (spec: OpTraitSpec)
    ensures
        spec@ == one_unary(method@, op),
{
    let spec = OpTraitSpec { binary: Vec::new(), unary: vec![(method, op)], has_output: true };
    assert(spec@.binary =~= Seq::<(Seq<char>, BinaryOp)>::empty());
    assert(spec@.unary =~= seq![(method@, op)]);
    spec
}

/// The operator trait's description, or `None` if `name` is not one.
pub fn operator_trait_spec(name: &str) -> (spec: Option<OpTraitSpec>)
    ensures
        match spec {
            Some(s) => operator_trait(name@) == Some(s@),
            None => operator_trait(name@) is None,
        },
{
    if same_text(name, "Add") {
        Some(binary_trait("add", BinaryOp::Add))
    } else if same_text(name, "Sub") {
        Some(binary_trait("sub", BinaryOp::Subtract))
    } else if same_text(name, "Mul") {
        Some(binary_trait("mul", BinaryOp::Multiply))
    } else if same_text(name, "Div") {
        Some(binary_trait("div", BinaryOp::Divide))
    } else if same_text(name, "Rem") {
        Some(binary_trait("rem", BinaryOp::Modulo))
    } else if same_text(name, "BitAnd") {
        Some(binary_trait("bitand", BinaryOp::BitAnd))
    } else if same_text(name, "BitOr") {
        Some(binary_trait("bitor", BinaryOp::BitOr))
    } else if same_text(name, "BitXor") {
        Some(binary_trait("bitxor", BinaryOp::BitXor))
    } else if same_text(name, "Shl") {
        Some(binary_trait("shl", BinaryOp::Shl))
    } else if same_text(name, "Neg") {
        Some(unary_trait("neg", UnaryOp::Negate))
    } else if same_text(name, "Not") {
        Some(unary_trait("not", UnaryOp::BitNot))
    } else if same_text(name, "PartialEq") {
        let spec = OpTraitSpec {
            binary: vec![("eq", BinaryOp::Equal), ("ne", BinaryOp::NotEqual)],
            unary: Vec::new(),
            has_output: false,
        };
        assert(spec@.binary =~= seq![("eq"@, BinaryOp::Equal), ("ne"@, BinaryOp::NotEqual)]);
        assert(spec@.unary =~= Seq::<(Seq<char>, UnaryOp)>::empty());
        Some(spec)
    } else if same_text(name, "Comparable") {
        let spec = OpTraitSpec {
            binary: vec![
                ("lt", BinaryOp::Less),
                ("le", BinaryOp::LessEqual),
                ("gt", BinaryOp::Greater),
                ("ge", BinaryOp::GreaterEqual),
            ],
            unary: Vec::new(),
            has_output: false,
        };
        assert(spec@.binary =~= seq![
            ("lt"@, BinaryOp::Less),
            ("le"@, BinaryOp::LessEqual),
            ("gt"@, BinaryOp::Greater),
            ("ge"@, BinaryOp::GreaterEqual),
        ]);
        assert(spec@.unary =~= Seq::<(Seq<char>, UnaryOp)>::empty());
        Some(spec)
    } else {
        None
    }
}

} // verus!
