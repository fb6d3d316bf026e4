//! Document trees: mappings, sequences and scalar leaves.

use vstd::prelude::*;
use crate::text::same_text;

verus! {

/// A JSON number of `serde_json`, carried through as it is.
#[verifier::external_type_specification]
#[verifier::external_body]
pub struct ExNumber(serde_json::Number);

/// `serde_json::Number` is a plain value: its `clone` returns an equal
/// number.
pub assume_specification[ <serde_json::Number as Clone>::clone ](n: &serde_json::Number) -> (r:
    serde_json::Number)
    ensures
        r == *n,
;

/// A decoded document. The members of a mapping are kept in the order in
/// which they were inserted.
#[derive(Debug, PartialEq)]
pub enum Value {
    Null,
    Bool(bool),
    Number(serde_json::Number),
    String(String),
    Array(Vec<Value>),
    Object(Vec<(String, Value)>),
}

/// The mathematical content of a `Value`.
pub enum Tree {
    Null,
    Bool(bool),
    Number(serde_json::Number),
    Text(Seq<char>),
    List(Seq<Tree>),
    Record(Seq<Seq<char>>, Seq<Tree>),
}

impl View for Value {
    type V = Tree;

    open spec fn view(&self) -> Tree
        decreases self,
    {
        match self {
            Value::Null => Tree::Null,
            Value::Bool(b) => Tree::Bool(*b),
            Value::Number(n) => Tree::Number(*n),
            Value::String(s) => Tree::Text(s@),
            Value::Array(items) => Tree::List(
                Seq::new(
                    items.len() as nat,
                    |i: int|
                        if 0 <= i < items.len() {
                            items[i]@
                        } else {
                            Tree::Null
                        },
                ),
            ),
            Value::Object(members) => Tree::Record(
                Seq::new(members.len() as nat, |i: int| members[i].0@),
                Seq::new(
                    members.len() as nat,
                    |i: int|
                        if 0 <= i < members.len() {
                            members[i].1@
                        } else {
                            Tree::Null
                        },
                ),
            ),
        }
    }
}

impl Tree {
    /// Whether two trees have the same shape: the same kinds of nodes, the
    /// same numbers of children and the same keys, whatever their string
    /// leaves hold.
    pub open spec fn same_shape(self, other: Tree) -> bool
        decreases self,
    {
        match (self, other) {
            (Tree::Text(_), Tree::Text(_)) => true,
            (Tree::List(a), Tree::List(b)) => {
                &&& a.len() == b.len()
                &&& forall|i: int| 0 <= i < a.len() ==> (#[trigger] a[i]).same_shape(b[i])
            },
            (Tree::Record(keys, a), Tree::Record(other_keys, b)) => {
                &&& keys == other_keys
                &&& a.len() == b.len()
                &&& forall|i: int| 0 <= i < a.len() ==> (#[trigger] a[i]).same_shape(b[i])
            },
            _ => self == other,
        }
    }
}

impl Tree {
    /// Whether the keys of every mapping in the tree are unique.
    pub open spec fn unique_keys(self) -> bool
        decreases self,
    {
        match self {
            Tree::List(items) => forall|i: int|
                0 <= i < items.len() ==> (#[trigger] items[i]).unique_keys(),
            Tree::Record(keys, values) => {
                &&& keys.no_duplicates()
                &&& forall|i: int| 0 <= i < values.len() ==> (#[trigger] values[i]).unique_keys()
            },
            _ => true,
        }
    }

    /// Trees of the same shape have the same keys: where those of one are
    /// unique, so are those of the other.
    pub proof fn lemma_same_shape_keeps_unique_keys(self, other: Tree)
        requires
            self.same_shape(other),
            self.unique_keys(),
        ensures
            other.unique_keys(),
        decreases self,
    {
        match (self, other) {
            (Tree::List(a), Tree::List(b)) => {
                assert forall|i: int| 0 <= i < b.len() implies (#[trigger] b[i]).unique_keys() by {
                    assert(a[i].same_shape(b[i]));
                    assert(a[i].unique_keys());
                    a[i].lemma_same_shape_keeps_unique_keys(b[i]);
                }
            },
            (Tree::Record(keys, a), Tree::Record(other_keys, b)) => {
                assert forall|i: int| 0 <= i < b.len() implies (#[trigger] b[i]).unique_keys() by {
                    assert(a[i].same_shape(b[i]));
                    assert(a[i].unique_keys());
                    a[i].lemma_same_shape_keeps_unique_keys(b[i]);
                }
            },
            _ => {},
        }
    }
}

impl Clone for Value {
    fn clone(&self) -> (r: Self)
        ensures
            r@ == self@,
        decreases self,
    {
        match self {
            Value::Null => Value::Null,
            Value::Bool(b) => Value::Bool(*b),
            Value::Number(n) => Value::Number(n.clone()),
            Value::String(s) => Value::String(s.clone()),
            Value::Array(items) => {
                let mut out: Vec<Value> = Vec::new();
                let n = items.len();
                let mut i: usize = 0;
                while i < n
                    invariant
                        n == items.len(),
                        i <= n,
                        out.len() == i,
                        *self == Value::Array(*items),
                        forall|k: int| 0 <= k < i ==> (#[trigger] out[k])@ == items[k]@,
                    decreases n - i,
                {
                    assert(decreases_to!(*self => self->Array_0));
                    out.push(items[i].clone());
                    i += 1;
                }
                let r = Value::Array(out);
                assert(r@->List_0 =~= self@->List_0);
                r
            },
            Value::Object(members) => {
                let mut out: Vec<(String, Value)> = Vec::new();
                let n = members.len();
                let mut i: usize = 0;
                while i < n
                    invariant
                        n == members.len(),
                        i <= n,
                        out.len() == i,
                        *self == Value::Object(*members),
                        forall|k: int|
                            0 <= k < i ==> (#[trigger] out[k]).0@ == members[k].0@ && out[k].1@
                                == members[k].1@,
                    decreases n - i,
                {
                    assert(decreases_to!(*self => self->Object_0));
                    assert(decreases_to!(members[i as int] => members[i as int].1));
                    let key = members[i].0.clone();
                    let value = members[i].1.clone();
                    out.push((key, value));
                    i += 1;
                }
                let r = Value::Object(out);
                assert(r@->Record_0 =~= self@->Record_0);
                assert(r@->Record_1 =~= self@->Record_1);
                r
            },
        }
    }
}

/// The position of the first member with the given key, if there is one.
pub open spec fn member_index(keys: Seq<Seq<char>>, key: Seq<char>) -> Option<int>
    decreases keys.len(),
{
    if keys.len() == 0 {
        None
    } else {
        match member_index(keys.drop_last(), key) {
            Some(i) => Some(i),
            None => if keys.last() == key {
                Some(keys.len() - 1)
            } else {
                None
            },
        }
    }
}

/// The member of a mapping with the given key; `None` where the tree is no
/// mapping or has no such member.
pub open spec fn member(tree: Tree, key: Seq<char>) -> Option<Tree> {
    match tree {
        Tree::Record(keys, values) => match member_index(keys, key) {
            Some(i) => Some(values[i]),
            None => None,
        },
        _ => None,
    }
}

/// The text of the member with the given key, where that member is a
/// string.
pub open spec fn member_text(tree: Tree, key: Seq<char>) -> Option<Seq<char>> {
    match member(tree, key) {
        Some(Tree::Text(text)) => Some(text),
        _ => None,
    }
}

proof fn lemma_member_index_first(keys: Seq<Seq<char>>, key: Seq<char>, at: int)
    requires
        0 <= at < keys.len(),
        keys[at] == key,
        forall|j: int| 0 <= j < at ==> keys[j] != key,
    ensures
        member_index(keys, key) == Some(at),
    decreases keys.len(),
{
    if at < keys.len() - 1 {
        lemma_member_index_first(keys.drop_last(), key, at);
    } else {
        lemma_member_index_none(keys.drop_last(), key);
    }
}

proof fn lemma_member_index_none(keys: Seq<Seq<char>>, key: Seq<char>)
    requires
        forall|j: int| 0 <= j < keys.len() ==> keys[j] != key,
    ensures
        member_index(keys, key) is None,
    decreases keys.len(),
{
    if keys.len() > 0 {
        lemma_member_index_none(keys.drop_last(), key);
    }
}

/// The member of a mapping with the given key.
pub fn get_member<'a>(value: &'a Value, key: &str) -> (r: Option<&'a Value>)
    ensures
        match r {
            Some(found) => member(value@, key@) == Some(found@),
            None => member(value@, key@) is None,
        },
{
    match value {
        Value::Object(members) => {
            let ghost keys = value@->Record_0;
            let n = members.len();
            let mut i: usize = 0;
            while i < n
                invariant
                    n == members.len(),
                    *value == Value::Object(*members),
                    keys == value@->Record_0,
                    i <= n,
                    forall|j: int| 0 <= j < i ==> keys[j] != key@,
                decreases n - i,
            {
                if same_text(members[i].0.as_str(), key) {
                    proof {
                        lemma_member_index_first(keys, key@, i as int);
                    }
                    return Some(&members[i].1);
                }
                i += 1;
            }
            proof {
                lemma_member_index_none(keys, key@);
            }
            None
        },
        _ => None,
    }
}

/// The text of the member with the given key, where that member is a
/// string.
pub fn get_member_text<'a>(value: &'a Value, key: &str) -> (r: Option<&'a str>)
    ensures
        match r {
            Some(text) => member_text(value@, key@) == Some(text@),
            None => member_text(value@, key@) is None,
        },
{
    match get_member(value, key) {
        Some(Value::String(text)) => Some(text.as_str()),
        _ => None,
    }
}

/// Whether the keys of every mapping in a document are unique.
pub fn has_unique_keys(value: &Value) -> (r: bool)
    ensures
        r == value@.unique_keys(),
    decreases value,
{
    match value {
        Value::Array(items) => {
            let ghost elements = value@->List_0;
            let n = items.len();
            let mut i: usize = 0;
            while i < n
                invariant
                    n == items.len(),
                    *value == Value::Array(*items),
                    elements == value@->List_0,
                    i <= n,
                    forall|k: int| 0 <= k < i ==> (#[trigger] elements[k]).unique_keys(),
                decreases n - i,
            {
                assert(decreases_to!(*value => value->Array_0));
                assert(elements[i as int] == items[i as int]@);
                if !has_unique_keys(&items[i]) {
                    return false;
                }
                i += 1;
            }
            true
        },
        Value::Object(members) => {
            let ghost keys = value@->Record_0;
            let ghost values = value@->Record_1;
            let n = members.len();
            let mut i: usize = 0;
            while i < n
                invariant
                    n == members.len(),
                    *value == Value::Object(*members),
                    keys == value@->Record_0,
                    values == value@->Record_1,
                    i <= n,
                    forall|a: int, b: int| 0 <= a < b < i ==> keys[a] != keys[b],
                    forall|k: int| 0 <= k < i ==> (#[trigger] values[k]).unique_keys(),
                decreases n - i,
            {
                assert(decreases_to!(*value => value->Object_0));
                assert(decreases_to!(members[i as int] => members[i as int].1));
                assert(values[i as int] == members[i as int].1@);
                assert(keys[i as int] == members[i as int].0@);
                let mut j: usize = 0;
                while j < i
                    invariant
                        n == members.len(),
                        *value == Value::Object(*members),
                        keys == value@->Record_0,
                        j <= i < n,
                        forall|a: int| 0 <= a < j ==> keys[a] != keys[i as int],
                    decreases i - j,
                {
                    if same_text(members[j].0.as_str(), members[i].0.as_str()) {
                        assert(keys[j as int] == keys[i as int]);
                        return false;
                    }
                    j += 1;
                }
                if !has_unique_keys(&members[i].1) {
                    return false;
                }
                i += 1;
            }
            assert(keys.no_duplicates());
            true
        },
        _ => true,
    }
}

} // verus!
