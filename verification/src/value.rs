//! The generic ordered tree that a document is converted to and from.

use crate::text::str_eq;
use vstd::prelude::*;

verus! {

/// A node of the tree. A mapping keeps its entries in insertion order, and
/// the conversions of this crate never build one that holds a key twice.
#[derive(Debug, PartialEq, Eq)]
pub enum Value {
    Null,
    Bool(bool),
    Text(String),
    Mapping(Vec<(String, Value)>),
    List(Vec<Value>),
}

/// Mathematical model of a [`Value`].
pub enum Tree {
    Null,
    Bool(bool),
    Text(Seq<char>),
    Mapping(Seq<(Seq<char>, Tree)>),
    List(Seq<Tree>),
}

/// The entries of a mapping in the model.
pub type Entries = Seq<(Seq<char>, Tree)>;

/// The model of `v`, node by node.
pub open spec fn tree_of(v: Value) -> Tree
    decreases v,
{
    match v {
        Value::Null => Tree::Null,
        Value::Bool(b) => Tree::Bool(b),
        Value::Text(s) => Tree::Text(s@),
        Value::Mapping(entries) => Tree::Mapping(
            Seq::new(
                entries@.len(),
                |i: int|
                    if 0 <= i < entries@.len() {
                        (entries@[i].0@, tree_of(entries@[i].1))
                    } else {
                        (Seq::empty(), Tree::Null)
                    },
            ),
        ),
        Value::List(items) => Tree::List(
            Seq::new(
                items@.len(),
                |i: int|
                    if 0 <= i < items@.len() {
                        tree_of(items@[i])
                    } else {
                        Tree::Null
                    },
            ),
        ),
    }
}

impl View for Value {
    type V = Tree;

    open spec fn view(&self) -> Tree {
        tree_of(*self)
    }
}

impl Clone for Value {
    /// A copy of the whole tree.
    #[verifier::loop_isolation(false)]
    fn clone(&self) -> (r: Self)
        ensures
            r@ == self@,
        decreases self,
    {
        match self {
            Value::Null => Value::Null,
            Value::Bool(b) => Value::Bool(*b),
            Value::Text(s) => Value::Text(s.clone()),
            Value::Mapping(entries) => {
                let mut copy: Vec<(String, Value)> = Vec::new();
                let mut i: usize = 0;
                while i < entries.len()
                    invariant
                        i <= entries@.len(),
                        *self == Value::Mapping(*entries),
                        entries_view(copy@) == entries_view(entries@).take(i as int),
                    decreases entries@.len() - i,
                {
                    let value = entries[i].1.clone();
                    copy.push((entries[i].0.clone(), value));
                    i += 1;
                }
                proof {
                    assert(entries_view(entries@).take(i as int) == entries_view(entries@));
                    lemma_mapping_view(copy);
                    lemma_mapping_view(*entries);
                }
                Value::Mapping(copy)
            },
            Value::List(items) => {
                let mut copy: Vec<Value> = Vec::new();
                let mut i: usize = 0;
                while i < items.len()
                    invariant
                        i <= items@.len(),
                        *self == Value::List(*items),
                        items_view(copy@) == items_view(items@).take(i as int),
                    decreases items@.len() - i,
                {
                    let value = items[i].clone();
                    copy.push(value);
                    i += 1;
                }
                proof {
                    assert(items_view(items@).take(i as int) == items_view(items@));
                    lemma_list_view(copy);
                    lemma_list_view(*items);
                }
                Value::List(copy)
            },
        }
    }
}

/// The model of a mapping's entries.
pub open spec fn entries_view(entries: Seq<(String, Value)>) -> Entries {
    Seq::new(entries.len(), |i: int| (entries[i].0@, entries[i].1@))
}

/// The model of a list's items.
pub open spec fn items_view(items: Seq<Value>) -> Seq<Tree> {
    Seq::new(items.len(), |i: int| items[i]@)
}

/// The model of a list of string pairs.
pub open spec fn pairs_view(pairs: Seq<(String, String)>) -> Seq<(Seq<char>, Seq<char>)> {
    Seq::new(pairs.len(), |i: int| (pairs[i].0@, pairs[i].1@))
}

/// The view of a mapping is made of the views of its entries.
pub proof fn lemma_mapping_view(entries: Vec<(String, Value)>)
    ensures
        Value::Mapping(entries)@ == Tree::Mapping(entries_view(entries@)),
{
    let a = Value::Mapping(entries)@->Mapping_0;
    assert(a =~= entries_view(entries@));
}

/// The view of a list is made of the views of its items.
pub proof fn lemma_list_view(items: Vec<Value>)
    ensures
        Value::List(items)@ == Tree::List(items_view(items@)),
{
    let a = Value::List(items)@->List_0;
    assert(a =~= items_view(items@));
}

/// Index of the first entry under `key`, or the number of entries where
/// there is none.
pub open spec fn position<T>(entries: Seq<(Seq<char>, T)>, key: Seq<char>) -> int
    decreases entries.len(),
{
    if entries.len() == 0 {
        0
    } else if entries[0].0 == key {
        0
    } else {
        1 + position(entries.drop_first(), key)
    }
}

/// Whether some entry stands under `key`.
pub open spec fn has_key<T>(entries: Seq<(Seq<char>, T)>, key: Seq<char>) -> bool {
    position(entries, key) < entries.len()
}

/// `entries` with `value` under `key`: in the place of the first entry under
/// that key, or at the end where there is none.
pub open spec fn put<T>(entries: Seq<(Seq<char>, T)>, key: Seq<char>, value: T) -> Seq<
    (Seq<char>, T),
> {
    let i = position(entries, key);
    if i < entries.len() {
        entries.update(i, (key, value))
    } else {
        entries.push((key, value))
    }
}

/// Whether no two entries share a key.
pub open spec fn unique_keys<T>(entries: Seq<(Seq<char>, T)>) -> bool {
    forall|i: int, j: int|
        0 <= i < j < entries.len() ==> (#[trigger] entries[i]).0 != (#[trigger] entries[j]).0
}

/// Whether no mapping anywhere in `tree` holds a key twice.
pub open spec fn well_formed(tree: Tree) -> bool
    decreases tree,
{
    match tree {
        Tree::Mapping(entries) => unique_keys(entries) && forall|i: int|
            0 <= i < entries.len() ==> well_formed(#[trigger] entries[i].1),
        Tree::List(items) => forall|i: int| 0 <= i < items.len() ==> well_formed(#[trigger] items[i]),
        _ => true,
    }
}

/// `position` is the least index under `key`.
pub proof fn lemma_position<T>(entries: Seq<(Seq<char>, T)>, key: Seq<char>)
    ensures
        0 <= position(entries, key) <= entries.len(),
        has_key(entries, key) ==> entries[position(entries, key)].0 == key,
        forall|j: int| 0 <= j < position(entries, key) ==> (#[trigger] entries[j]).0 != key,
    decreases entries.len(),
{
    if entries.len() > 0 && entries[0].0 != key {
        let rest = entries.drop_first();
        lemma_position(rest, key);
        assert forall|j: int| 0 <= j < position(entries, key) implies (#[trigger] entries[j]).0
            != key by {
            if j > 0 {
                assert(rest[j - 1] == entries[j]);
            }
        }
    }
}

/// An index is the `position` of a key once no earlier entry has that key
/// and the entry there, if any, has it.
pub proof fn lemma_position_is<T>(entries: Seq<(Seq<char>, T)>, key: Seq<char>, i: int)
    requires
        0 <= i <= entries.len(),
        forall|j: int| 0 <= j < i ==> (#[trigger] entries[j]).0 != key,
        i < entries.len() ==> entries[i].0 == key,
    ensures
        position(entries, key) == i,
{
    lemma_position(entries, key);
}

/// `put` keeps keys apart.
pub proof fn lemma_put_unique<T>(entries: Seq<(Seq<char>, T)>, key: Seq<char>, value: T)
    requires
        unique_keys(entries),
    ensures
        unique_keys(put(entries, key, value)),
        has_key(put(entries, key, value), key),
{
    lemma_position(entries, key);
    let i = position(entries, key);
    let after = put(entries, key, value);
    lemma_position_is(after, key, i);
}

/// `put` of a value without a key twice keeps the values so.
pub proof fn lemma_put_well_formed(entries: Entries, key: Seq<char>, value: Tree)
    requires
        forall|j: int| 0 <= j < entries.len() ==> well_formed(#[trigger] entries[j].1),
        well_formed(value),
    ensures
        forall|j: int|
            0 <= j < put(entries, key, value).len() ==> well_formed(
                #[trigger] put(entries, key, value)[j].1,
            ),
{
    lemma_position(entries, key);
}

/// Index of the first entry of `entries` under `key`.
pub fn find_key<V>(entries: &Vec<(String, V)>, key: &str) -> (r: Option<usize>)
    ensures
        match r {
            Some(i) => i < entries@.len() && entries@[i as int].0@ == key@ && forall|j: int|
                0 <= j < i ==> (#[trigger] entries@[j]).0@ != key@,
            None => forall|j: int| 0 <= j < entries@.len() ==> (#[trigger] entries@[j]).0@ != key@,
        },
{
    let mut i: usize = 0;
    while i < entries.len()
        invariant
            i <= entries@.len(),
            forall|j: int| 0 <= j < i ==> (#[trigger] entries@[j]).0@ != key@,
        decreases entries@.len() - i,
    {
        if str_eq(entries[i].0.as_str(), key) {
            return Some(i);
        }
        i += 1;
    }
    None
}

/// Stores `value` under `key`: in the place of the first entry under that
/// key, or at the end where there is none.
pub fn set_entry(entries: &mut Vec<(String, Value)>, key: String, value: Value)
    ensures
        entries_view(final(entries)@) == put(entries_view(old(entries)@), key@, value@),
{
    let found = find_key(entries, key.as_str());
    proof {
        let before = entries_view(entries@);
        match found {
            Some(i) => {
                lemma_position_is(before, key@, i as int);
            },
            None => {
                lemma_position_is(before, key@, before.len() as int);
            },
        }
    }
    match found {
        Some(i) => {
            entries[i] = (key, value);
        },
        None => {
            entries.push((key, value));
        },
    }
}

} // verus!

