//! The rule by which an entry joins a mapping: a key that comes again turns
//! its value into a list.

use crate::value::{
    entries_view, find_key, items_view, lemma_list_view, lemma_position, lemma_position_is,
    position, put, set_entry, unique_keys, well_formed, Entries, Tree, Value,
};
use vstd::prelude::*;

verus! {

/// `entries` after `key` came with a value. `raw` is the value as it was
/// built and `processed` the one that the hook made of it. Where the key
/// already holds a list, the raw value joins it; where it holds something
/// else, that and the processed value become a list of two; where the key is
/// new, the processed value is stored, as a list of one if `force` is set.
pub open spec fn merged(
    entries: Entries,
    key: Seq<char>,
    raw: Tree,
    processed: Tree,
    force: bool,
) -> Entries {
    let i = position(entries, key);
    if i < entries.len() {
        match entries[i].1 {
            Tree::List(items) => entries.update(i, (key, Tree::List(items.push(raw)))),
            existing => entries.update(i, (key, Tree::List(seq![existing, processed]))),
        }
    } else if force {
        entries.push((key, Tree::List(seq![processed])))
    } else {
        entries.push((key, processed))
    }
}

/// `entries` after a value was offered to them: merged under the key of the
/// answer, or left out where the answer is `None`.
pub open spec fn offered(
    entries: Entries,
    raw: Tree,
    answer: Option<(Seq<char>, Tree)>,
    force: bool,
) -> Entries {
    match answer {
        Some((key, processed)) => merged(entries, key, raw, processed, force),
        None => entries,
    }
}

/// The merge rule keeps keys apart.
pub proof fn lemma_merged_unique(
    entries: Entries,
    key: Seq<char>,
    raw: Tree,
    processed: Tree,
    force: bool,
)
    requires
        unique_keys(entries),
    ensures
        unique_keys(merged(entries, key, raw, processed, force)),
{
    lemma_position(entries, key);
}

/// The merge rule builds no mapping that holds a key twice.
pub proof fn lemma_merged_well_formed(
    entries: Entries,
    key: Seq<char>,
    raw: Tree,
    processed: Tree,
    force: bool,
)
    requires
        forall|j: int| 0 <= j < entries.len() ==> well_formed(#[trigger] entries[j].1),
        well_formed(raw),
        well_formed(processed),
    ensures
        forall|j: int|
            0 <= j < merged(entries, key, raw, processed, force).len() ==> well_formed(
                #[trigger] merged(entries, key, raw, processed, force)[j].1,
            ),
{
    lemma_position(entries, key);
}

/// Applies the merge rule to `entries`. `processed` is `None` where no hook
/// stood between: the value is then the raw one.
pub fn merge_entry(
    entries: &mut Vec<(String, Value)>,
    key: String,
    raw: Value,
    processed: Option<Value>,
    force: bool,
)
    ensures
        entries_view(final(entries)@) == merged(
            entries_view(old(entries)@),
            key@,
            raw@,
            match processed {
                Some(v) => v@,
                None => raw@,
            },
            force,
        ),
{
    let found = find_key(entries, key.as_str());
    let ghost before = entries_view(entries@);
    match found {
        Some(i) => {
            proof {
                lemma_position_is(before, key@, i as int);
            }
            let mut existing = Value::Null;
            core::mem::swap(&mut entries[i].1, &mut existing);
            let combined = match existing {
                Value::List(mut items) => {
                    proof {
                        lemma_list_view(items);
                    }
                    items.push(raw);
                    proof {
                        lemma_list_view(items);
                        assert(items_view(items@) =~= items_view(
                            old(entries)@[i as int].1->List_0@,
                        ).push(raw@));
                    }
                    Value::List(items)
                },
                other => {
                    let second = match processed {
                        Some(v) => v,
                        None => raw,
                    };
                    let mut items: Vec<Value> = Vec::new();
                    items.push(other);
                    items.push(second);
                    proof {
                        lemma_list_view(items);
                        assert(items_view(items@) =~= seq![other@, second@]);
                    }
                    Value::List(items)
                },
            };
            entries[i].1 = combined;
        },
        None => {
            proof {
                lemma_position_is(before, key@, before.len() as int);
            }
            let value = match processed {
                Some(v) => v,
                None => raw,
            };
            if force {
                let mut items: Vec<Value> = Vec::new();
                items.push(value);
                proof {
                    lemma_list_view(items);
                    assert(items_view(items@) =~= seq![value@]);
                }
                entries.push((key, Value::List(items)));
            } else {
                entries.push((key, value));
            }
        },
    }
}

/// What a hook made of the value `data`, as it was settled: nothing where
/// the hook left the entry out, else the key and the value to store, which
/// is `data` itself where no hook stood between.
pub open spec fn answer_of(settled: Option<(String, Option<Value>)>, data: Tree) -> Option<
    (Seq<char>, Tree),
> {
    match settled {
        Some((key, Some(value))) => Some((key@, value@)),
        Some((key, None)) => Some((key@, data)),
        None => None,
    }
}

/// Stores what a hook made of `data` under the key of the answer, in the
/// place of an entry under that key where there is one; nothing where the
/// hook left the entry out.
pub fn store_answer(
    entries: &mut Vec<(String, Value)>,
    data: Value,
    settled: Option<(String, Option<Value>)>,
)
    ensures
        entries_view(final(entries)@) == match answer_of(settled, data@) {
            Some((key, value)) => put(entries_view(old(entries)@), key, value),
            None => entries_view(old(entries)@),
        },
{
    match settled {
        None => {},
        Some((key, replaced)) => {
            let stored = match replaced {
                Some(v) => v,
                None => data,
            };
            set_entry(entries, key, stored);
        },
    }
}

/// Lets what a hook made of `data` join `entries` by the merge rule;
/// nothing where the hook left the entry out.
pub fn offer_answer(
    entries: &mut Vec<(String, Value)>,
    data: Value,
    settled: Option<(String, Option<Value>)>,
    force: bool,
)
    ensures
        entries_view(final(entries)@) == offered(
            entries_view(old(entries)@),
            data@,
            answer_of(settled, data@),
            force,
        ),
{
    match settled {
        None => {},
        Some((key, replaced)) => {
            merge_entry(entries, key, data, replaced, force);
        },
    }
}

} // verus!
