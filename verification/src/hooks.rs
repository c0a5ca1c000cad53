//! The callbacks that a caller may hand to a conversion.
//!
//! A hook is foreign code. Nothing is assumed of what it answers: the
//! functions that call one state what holds whatever it answered, and the
//! functions that take its answer as an argument state what becomes of it.

use crate::error::{HookError, XmlError};
use crate::value::Value;
use vstd::prelude::*;

verus! {

/// Sees each entry before it is stored while parsing, with the names of the
/// open elements above it. It may hand back another key and value, or `None`
/// to drop the entry.
pub trait Postprocessor {
    fn postprocess(&self, path: &Vec<String>, key: &str, value: &Value) -> Result<
        Option<(String, Value)>,
        HookError,
    >;
}

/// Decides for a key that occurs for the first time in a mapping whether its
/// value is stored as a list of one item.
pub trait ForceListPredicate {
    fn force_list(&self, path: &Vec<String>, key: &str, value: &Value) -> Result<bool, HookError>;
}

/// Sees each element before it is written. It may hand back another tag and
/// value, or `None` to leave the element out.
pub trait Preprocessor {
    fn preprocess(&self, key: &str, value: &Value) -> Result<Option<(String, Value)>, HookError>;
}

/// What becomes of the answer of a postprocessor or a preprocessor: the key
/// and the value to go on with, or nothing where the hook drops the entry,
/// or the hook's own error where it failed.
pub fn settle(answer: Result<Option<(String, Value)>, HookError>) -> (r: Result<
    Option<(String, Option<Value>)>,
    XmlError,
>)
    ensures
        match answer {
            Ok(Some((key, value))) => r == Ok::<Option<(String, Option<Value>)>, XmlError>(
                Some((key, Some(value))),
            ),
            Ok(None) => r == Ok::<Option<(String, Option<Value>)>, XmlError>(None),
            Err(e) => r == Err::<Option<(String, Option<Value>)>, XmlError>(XmlError::Hook(e)),
        },
{
    match answer {
        Ok(Some((key, value))) => Ok(Some((key, Some(value)))),
        Ok(None) => Ok(None),
        Err(e) => Err(XmlError::Hook(e)),
    }
}

/// What becomes of the answer of a force-list predicate: the answer, or the
/// predicate's own error where it failed.
pub fn settle_flag(answer: Result<bool, HookError>) -> (r: Result<bool, XmlError>)
    ensures
        match answer {
            Ok(flag) => r == Ok::<bool, XmlError>(flag),
            Err(e) => r == Err::<bool, XmlError>(XmlError::Hook(e)),
        },
{
    match answer {
        Ok(flag) => Ok(flag),
        Err(e) => Err(XmlError::Hook(e)),
    }
}

/// When the first value under a key is stored as a list of one item.
pub enum ForceList<F> {
    /// Never.
    Absent,
    /// For every key, or for none.
    Uniform(bool),
    /// For the keys named here.
    Keys(Vec<String>),
    /// Where the predicate says so.
    Predicate(F),
}

/// Mathematical model of a [`ForceList`]. What a predicate answers is not
/// part of it.
pub enum ForcePolicy {
    Absent,
    Uniform(bool),
    Keys(Seq<Seq<char>>),
    Predicate,
}

impl<F> View for ForceList<F> {
    type V = ForcePolicy;

    open spec fn view(&self) -> ForcePolicy {
        match self {
            ForceList::Absent => ForcePolicy::Absent,
            ForceList::Uniform(b) => ForcePolicy::Uniform(*b),
            ForceList::Keys(keys) => ForcePolicy::Keys(crate::text::texts(keys@)),
            ForceList::Predicate(_) => ForcePolicy::Predicate,
        }
    }
}

/// What a policy without a predicate decides for `key`.
pub open spec fn forced(policy: ForcePolicy, key: Seq<char>) -> bool {
    match policy {
        ForcePolicy::Absent => false,
        ForcePolicy::Uniform(b) => b,
        ForcePolicy::Keys(keys) => keys.contains(key),
        ForcePolicy::Predicate => false,
    }
}

/// Stands where a hook's type must be named and no hook is used. As a hook it
/// changes nothing and forces nothing.
pub struct NoHook;

impl Postprocessor for NoHook {
    fn postprocess(&self, path: &Vec<String>, key: &str, value: &Value) -> (r: Result<
        Option<(String, Value)>,
        HookError,
    >)
        ensures
            r matches Ok(Some(entry)) && entry.0@ == key@ && entry.1@ == value@,
    {
        Ok(Some((key.to_owned(), value.clone())))
    }
}

impl ForceListPredicate for NoHook {
    fn force_list(&self, path: &Vec<String>, key: &str, value: &Value) -> (r: Result<bool, HookError>)
        ensures
            r == Ok::<bool, HookError>(false),
    {
        Ok(false)
    }
}

impl Preprocessor for NoHook {
    fn preprocess(&self, key: &str, value: &Value) -> (r: Result<Option<(String, Value)>, HookError>)
        ensures
            r matches Ok(Some(entry)) && entry.0@ == key@ && entry.1@ == value@,
    {
        Ok(Some((key.to_owned(), value.clone())))
    }
}

} // verus!
