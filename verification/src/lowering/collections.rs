//! The standard collections `Vec<T>`, `HashMap<K, V>`, and `BTreeMap<K, V>`: which
//! names denote them, and the method table a call on one is typed by.

use vstd::prelude::*;
use vstd::string::*;

use super::methods::same_text;

verus! {

/// A standard collection.
#[derive(Debug, Clone, Copy, PartialEq, Eq, Structural)]
pub enum CollectionKind {
    /// `Vec<T>`.
    Vector,
    /// `HashMap<K, V>`.
    HashMap,
    /// `BTreeMap<K, V>`.
    BTreeMap,
}

/// The collection `name` denotes, if any.
pub open spec fn collection_kind_spec(name: Seq<char>) -> Option<CollectionKind> {
    if name == "Vec"@ {
        Some(CollectionKind::Vector)
    } else if name == "HashMap"@ {
        Some(CollectionKind::HashMap)
    } else if name == "BTreeMap"@ {
        Some(CollectionKind::BTreeMap)
    } else {
        None
    }
}

/// The collection named by `name`, or `None` when it is not a standard collection.
pub fn collection_kind(name: &str) -> (kind: Option<CollectionKind>)
    ensures
        kind == collection_kind_spec(name@),
{
    if same_text(name, "Vec") {
        Some(CollectionKind::Vector)
    } else if same_text(name, "HashMap") {
        Some(CollectionKind::HashMap)
    } else if same_text(name, "BTreeMap") {
        Some(CollectionKind::BTreeMap)
    } else {
        None
    }
}

/// The type a collection method's parameter takes, in terms of the collection's own.
#[derive(Debug, Clone, Copy, PartialEq, Eq, Structural)]
pub enum ParamRole {
    /// The key type (a `Vec`'s element type).
    Key,
    /// The value type (a `Vec`'s element type).
    Value,
    /// A `u64` position.
    Position,
}

/// The type a collection method returns, in terms of the collection's own.
#[derive(Debug, Clone, Copy, PartialEq, Eq, Structural)]
pub enum ResultRole {
    /// A `u64` count.
    Count,
    /// Nothing.
    Nothing,
    /// An `Option` of the value type.
    MaybeValue,
    /// A `bool`.
    Truth,
    /// A `Vec` of the key type.
    KeyList,
}

/// The parameters and result of a collection method.
#[derive(Debug, PartialEq)]
pub struct CollectionMethod {
    pub params: Vec<ParamRole>,
    pub result: ResultRole,
}

/// The parameters and result of `method` on a collection of `kind`, `None` where it
/// has no such method. `len` and `clear` belong to every collection.
pub open spec fn collection_method_spec(kind: CollectionKind, method: Seq<char>) -> Option<
    (Seq<ParamRole>, ResultRole),
> {
    if method == "len"@ {
        Some((Seq::empty(), ResultRole::Count))
    } else if method == "clear"@ {
        Some((Seq::empty(), ResultRole::Nothing))
    } else if kind == CollectionKind::Vector {
        if method == "push"@ {
            Some((seq![ParamRole::Value], ResultRole::Nothing))
        } else if method == "pop"@ {
            Some((Seq::empty(), ResultRole::MaybeValue))
        } else if method == "get"@ {
            Some((seq![ParamRole::Position], ResultRole::MaybeValue))
        } else {
            None
        }
    } else if method == "insert"@ {
        Some((seq![ParamRole::Key, ParamRole::Value], ResultRole::Nothing))
    } else if method == "get"@ {
        Some((seq![ParamRole::Key], ResultRole::MaybeValue))
    } else if method == "contains_key"@ {
        Some((seq![ParamRole::Key], ResultRole::Truth))
    } else if method == "remove"@ {
        Some((seq![ParamRole::Key], ResultRole::Truth))
    } else if method == "keys"@ {
        Some((Seq::empty(), ResultRole::KeyList))
    } else {
        None
    }
}

/// A method of no parameters.
fn nullary(result: ResultRole) -> (m: CollectionMethod)
    ensures
        m.params@ == Seq::<ParamRole>::empty(),
        m.result == result,
{
    CollectionMethod { params: Vec::new(), result }
}

/// A method of one parameter.
fn unary(param: ParamRole, result: ResultRole) -> (m: CollectionMethod)
    ensures
        m.params@ == seq![param],
        m.result == result,
{
    let params = vec![param];
    assert(params@ =~= seq![param]);
    CollectionMethod { params, result }
}

/// The parameters and result of `method` on a collection of `kind`, which the call's
/// arguments are lowered against and its result typed by.
pub fn collection_method(kind: CollectionKind, method: &str) -> (m: Option<CollectionMethod>)
    ensures
        match m {
            Some(m) => collection_method_spec(kind, method@) == Some((m.params@, m.result)),
            None => collection_method_spec(kind, method@) is None,
        },
{
    if same_text(method, "len") {
        Some(nullary(ResultRole::Count))
    } else if same_text(method, "clear") {
        Some(nullary(ResultRole::Nothing))
    } else if kind == CollectionKind::Vector {
        if same_text(method, "push") {
            Some(unary(ParamRole::Value, ResultRole::Nothing))
        } else if same_text(method, "pop") {
            Some(nullary(ResultRole::MaybeValue))
        } else if same_text(method, "get") {
            Some(unary(ParamRole::Position, ResultRole::MaybeValue))
        } else {
            None
        }
    } else if same_text(method, "insert") {
        let params = vec![ParamRole::Key, ParamRole::Value];
        assert(params@ =~= seq![ParamRole::Key, ParamRole::Value]);
        Some(CollectionMethod { params, result: ResultRole::Nothing })
    } else if same_text(method, "get") {
        Some(unary(ParamRole::Key, ResultRole::MaybeValue))
    } else if same_text(method, "contains_key") {
        Some(unary(ParamRole::Key, ResultRole::Truth))
    } else if same_text(method, "remove") {
        Some(unary(ParamRole::Key, ResultRole::Truth))
    } else if same_text(method, "keys") {
        Some(nullary(ResultRole::KeyList))
    } else {
        None
    }
}

/// A map lookup (`get`, `contains_key` or `remove`) on a `HashMap` or a `BTreeMap`
/// takes exactly one argument, typed by the map's key type.
pub proof fn lemma_map_lookups_take_a_key(kind: CollectionKind, method: Seq<char>)
    requires
        kind == CollectionKind::HashMap || kind == CollectionKind::BTreeMap,
        method == "get"@ || method == "contains_key"@ || method == "remove"@,
    ensures
        collection_method_spec(kind, method) matches Some((params, _)) && params == seq![ParamRole::Key],
{
    reveal_strlit("len");
    reveal_strlit("clear");
    reveal_strlit("insert");
    reveal_strlit("get");
    reveal_strlit("contains_key");
    reveal_strlit("remove");
    assert("get"@ != "len"@) by {
        assert("get"@[0] != "len"@[0]);
    }
    assert("get"@ != "clear"@) by {
        assert("get"@[0] != "clear"@[0]);
    }
    assert("get"@ != "insert"@) by {
        assert("get"@[0] != "insert"@[0]);
    }
    assert("contains_key"@ != "len"@) by {
        assert("contains_key"@[0] != "len"@[0]);
    }
    assert("contains_key"@ != "clear"@) by {
        assert("contains_key"@.len() != "clear"@.len());
    }
    assert("contains_key"@ != "insert"@) by {
        assert("contains_key"@[0] != "insert"@[0]);
    }
    assert("contains_key"@ != "get"@) by {
        assert("contains_key"@[0] != "get"@[0]);
    }
    assert("remove"@ != "len"@) by {
        assert("remove"@[0] != "len"@[0]);
    }
    assert("remove"@ != "clear"@) by {
        assert("remove"@[0] != "clear"@[0]);
    }
    assert("remove"@ != "insert"@) by {
        assert("remove"@[0] != "insert"@[0]);
    }
    assert("remove"@ != "get"@) by {
        assert("remove"@[0] != "get"@[0]);
    }
    assert("remove"@ != "contains_key"@) by {
        assert("remove"@[0] != "contains_key"@[0]);
    }
}

/// A map's `insert` takes a key and then a value; a `Vec`'s `push` takes one value and
/// its `get` one position.
pub proof fn lemma_collection_argument_roles(kind: CollectionKind)
    ensures
        kind != CollectionKind::Vector ==> (collection_method_spec(kind, "insert"@) matches Some((params, _))
            && params == seq![ParamRole::Key, ParamRole::Value]),
        kind == CollectionKind::Vector ==> (collection_method_spec(kind, "push"@) matches Some((params, _))
            && params == seq![ParamRole::Value]),
        kind == CollectionKind::Vector ==> (collection_method_spec(kind, "get"@) matches Some((params, _))
            && params == seq![ParamRole::Position]),
{
    reveal_strlit("len");
    reveal_strlit("clear");
    reveal_strlit("insert");
    reveal_strlit("push");
    reveal_strlit("pop");
    reveal_strlit("get");
    assert("insert"@ != "len"@) by {
        assert("insert"@[0] != "len"@[0]);
    }
    assert("insert"@ != "clear"@) by {
        assert("insert"@[0] != "clear"@[0]);
    }
    assert("push"@ != "len"@) by {
        assert("push"@[0] != "len"@[0]);
    }
    assert("push"@ != "clear"@) by {
        assert("push"@[0] != "clear"@[0]);
    }
    assert("get"@ != "len"@) by {
        assert("get"@[0] != "len"@[0]);
    }
    assert("get"@ != "clear"@) by {
        assert("get"@[0] != "clear"@[0]);
    }
    assert("get"@ != "push"@) by {
        assert("get"@[0] != "push"@[0]);
    }
    assert("get"@ != "pop"@) by {
        assert("get"@[0] != "pop"@[0]);
    }
}

} // verus!
