//! Namespace declarations and the resolution of qualified names.

use crate::config::{ParseConfig, ParseOptions};
use crate::parser::NamespacePrefix;
use crate::text::{
    first_index, followed_by, has_prefix, split_once, strip_prefix,
};
use crate::value::{find_key, has_key, lemma_position_is, pairs_view, position, put};
use vstd::prelude::*;
use vstd::string::StringExecFns;

verus! {

/// A table from one string to another, in the order in which it was filled.
/// Namespace mappings go from prefix to namespace, with the empty prefix for
/// the default namespace; alias tables go from namespace to alias.
pub type Pairs = Seq<(Seq<char>, Seq<char>)>;

/// The attribute name that declares the default namespace.
pub open spec fn xmlns() -> Seq<char> {
    seq!['x', 'm', 'l', 'n', 's']
}

/// The prefix that an attribute named `key` binds, if the attribute is a
/// namespace declaration: the empty prefix for `xmlns`, and what follows the
/// colon for `xmlns:` and a name.
pub open spec fn declared_prefix(key: Seq<char>) -> Option<Seq<char>> {
    if key == xmlns() {
        Some(Seq::empty())
    } else if has_prefix(key, xmlns().push(':')) {
        Some(key.skip(6))
    } else {
        None
    }
}

/// The part of a qualified name before its first colon; empty where the name
/// has none.
pub open spec fn prefix_of(name: Seq<char>) -> Seq<char> {
    if name.contains(':') {
        name.take(first_index(name, ':'))
    } else {
        Seq::empty()
    }
}

/// The part of a qualified name after its first colon; the name itself where
/// it has none.
pub open spec fn local_of(name: Seq<char>) -> Seq<char> {
    if name.contains(':') {
        name.skip(first_index(name, ':') + 1)
    } else {
        name
    }
}

/// What the first pair under `key` holds.
pub open spec fn value_at(pairs: Pairs, key: Seq<char>) -> Seq<char> {
    pairs[position(pairs, key)].1
}

/// What stands for the namespace `uri` in names: its alias where the table
/// has one, else the namespace itself.
pub open spec fn alias_of(table: Option<Pairs>, uri: Seq<char>) -> Seq<char> {
    match table {
        Some(t) => if has_key(t, uri) {
            value_at(t, uri)
        } else {
            uri
        },
        None => uri,
    }
}

/// The name under which an element or attribute named `name` is stored,
/// given the namespace mapping `ns` in force. Without namespace processing,
/// and where the name's prefix is not bound, that is the name itself. Else it
/// is what stands for the namespace, the separator and the local name, or
/// the local name alone where what stands for the namespace is empty.
pub open spec fn resolved_name(options: ParseOptions, ns: Pairs, name: Seq<char>) -> Seq<char> {
    if !options.process_namespaces || !has_key(ns, prefix_of(name)) {
        name
    } else {
        let alias = alias_of(options.namespaces, value_at(ns, prefix_of(name)));
        if alias.len() == 0 {
            local_of(name)
        } else {
            alias + options.namespace_separator + local_of(name)
        }
    }
}

/// The index of the first pair of `pairs` under `key`, in terms of the model.
pub fn find_pair(pairs: &Vec<(String, String)>, key: &str) -> (r: Option<usize>)
    ensures
        r is Some <==> has_key(pairs_view(pairs@), key@),
        r matches Some(i) ==> i == position(pairs_view(pairs@), key@) && i < pairs@.len()
            && pairs@[i as int].0@ == key@,
{
    let r = find_key(pairs, key);
    proof {
        let view = pairs_view(pairs@);
        match r {
            Some(i) => {
                lemma_position_is(view, key@, i as int);
            },
            None => {
                lemma_position_is(view, key@, view.len() as int);
            },
        }
    }
    r
}

/// Stores `value` under `key`: in the place of the first pair under that
/// key, or at the end where there is none.
pub fn set_pair(pairs: &mut Vec<(String, String)>, key: &str, value: String)
    ensures
        pairs_view(final(pairs)@) == put(pairs_view(old(pairs)@), key@, value@),
{
    match find_pair(pairs, key) {
        Some(i) => {
            pairs[i].1 = value;
        },
        None => {
            pairs.push((key.to_owned(), value));
        },
    }
}

/// A copy of `pairs`.
pub fn copy_pairs(pairs: &Vec<(String, String)>) -> (r: Vec<(String, String)>)
    ensures
        pairs_view(r@) == pairs_view(pairs@),
{
    let mut r: Vec<(String, String)> = Vec::new();
    let mut i: usize = 0;
    while i < pairs.len()
        invariant
            i <= pairs@.len(),
            pairs_view(r@) == pairs_view(pairs@).take(i as int),
        decreases pairs@.len() - i,
    {
        let key = pairs[i].0.clone();
        let value = pairs[i].1.clone();
        let ghost before = r@;
        r.push((key, value));
        assert(pairs_view(before).len() == i);
        i += 1;
    }
    r
}

/// Tells a namespace declaration from an ordinary attribute by its name.
pub fn namespace_binding(key: &str) -> (r: Option<NamespacePrefix>)
    ensures
        match r {
            Some(p) => declared_prefix(key@) == Some(p@),
            None => declared_prefix(key@) is None,
        },
{
    proof {
        reveal_strlit("xmlns");
        reveal_strlit(":");
    }
    assert("xmlns"@ == xmlns());
    assert(":"@ == seq![':']);
    match strip_prefix(key, "xmlns") {
        None => {
            proof {
                if has_prefix(key@, xmlns().push(':')) {
                    assert(key@.subrange(0, 5) == key@.subrange(0, 6).subrange(0, 5));
                    assert(xmlns().push(':').subrange(0, 5) == xmlns());
                }
                if key@ == xmlns() {
                    assert(key@.subrange(0, 5) == xmlns());
                }
            }
            None
        },
        Some(rest) => {
            if rest.as_str().is_empty() {
                assert(key@ == key@.subrange(0, 5));
                let p = NamespacePrefix::Default;
                Some(p)
            } else {
                match strip_prefix(rest.as_str(), ":") {
                    Some(name) => {
                        proof {
                            assert(key@.subrange(0, 6) == xmlns().push(':')) by {
                                assert(key@.subrange(0, 6) =~= key@.subrange(0, 5) + rest@.subrange(
                                    0,
                                    1,
                                ));
                            }
                        }
                        let p = NamespacePrefix::from_name(name);
                        Some(p)
                    },
                    None => {
                        proof {
                            if has_prefix(key@, xmlns().push(':')) {
                                assert(rest@.subrange(0, 1) =~= key@.subrange(0, 6).subrange(5, 6));
                                assert(xmlns().push(':').subrange(5, 6) == seq![':']);
                            }
                        }
                        None
                    },
                }
            }
        },
    }
}

/// Resolves a qualified name against the namespace mapping `ns`.
pub fn resolve_name(config: &ParseConfig, ns: &Vec<(String, String)>, name: &str) -> (r: String)
    ensures
        r@ == resolved_name(config@, pairs_view(ns@), name@),
{
    if !config.process_namespaces {
        return name.to_owned();
    }
    let (prefix, local) = match split_once(name, ':') {
        Some(parts) => parts,
        None => (String::new(), name.to_owned()),
    };
    match find_pair(ns, prefix.as_str()) {
        None => name.to_owned(),
        Some(i) => {
            let uri = ns[i].1.as_str();
            let alias: &str = match &config.namespaces {
                None => uri,
                Some(table) => match find_pair(table, uri) {
                    Some(k) => table[k].1.as_str(),
                    None => uri,
                },
            };
            if alias.is_empty() {
                local
            } else {
                let mut r = followed_by(alias, config.namespace_separator.as_str());
                r.append(local.as_str());
                r
            }
        },
    }
}

} // verus!
