//! Writing a tree that came out of parsing, and parsing what was written,
//! gives the tree back.
//!
//! The markup that the writer makes of a tree stands for a sequence of
//! events, `events_of`, and the laws here are about those events:
//!
//! - `lemma_markup_of_events`: what the writer writes for an element is the
//!   markup of its events.
//! - `lemma_round_trip`: the events of a document that has the shape of a
//!   parsed document build that document.
//! - `lemma_parse_write_parse`: a document that plain events build has that
//!   shape, so that its events build it again.
//! - `lemma_parse_text_again`: a text from which the tokenizer reads the
//!   events of a parsed document is parsed to that document.
//!
//! That the tokenizer reads these events from the markup is the tokenizer's
//! part: the last law has it as a premise.

use crate::config::{ParseOptions, UnparseOptions};
use crate::document::{
    built, ends_after, lemma_outcome_of_tokens, outcome, ran, stepped, tokens,
};
use crate::error::{valid_name, XmlError};
use crate::escape::{escaped, lemma_escaped_plain};
use crate::hooks::{forced, ForcePolicy};
use crate::markup::{
    attributes_text, bool_text, children_among, children_text, element_text, end_tag,
    is_attribute, is_child, items_text, lemma_no_child, text_among, text_form,
};
use crate::merge::merged;
use crate::namespace::Pairs;
use crate::state::{
    frame_attributes, frame_value, inherited_namespaces, initial_state, plain_answers,
    plain_closed, plain_opened, plain_text_answer, text_content, with_answers, with_entry,
    with_text, FrameView, ParserState,
};
use crate::text::{has_prefix, is_blank};
use crate::tokenizer::EventView;
use crate::value::{
    has_key, lemma_position, lemma_position_is, position, put, unique_keys, Entries, Tree,
};
use vstd::prelude::*;

verus! {

/// The events of `first` and then those of `second` lead where the events
/// of `second` lead from where those of `first` led.
pub proof fn lemma_ran_concat(
    s: ParserState,
    options: ParseOptions,
    policy: ForcePolicy,
    process_comments: bool,
    first: Seq<EventView>,
    second: Seq<EventView>,
)
    ensures
        ran(s, options, policy, process_comments, first + second) == match ran(
            s,
            options,
            policy,
            process_comments,
            first,
        ) {
            Ok(middle) => ran(middle, options, policy, process_comments, second),
            Err(e) => Err(e),
        },
    decreases second.len(),
{
    if second.len() > 0 {
        assert((first + second).drop_last() == first + second.drop_last());
        lemma_ran_concat(s, options, policy, process_comments, first, second.drop_last());
    }
}

/// One event leads where `stepped` says.
pub proof fn lemma_ran_one(
    s: ParserState,
    options: ParseOptions,
    policy: ForcePolicy,
    process_comments: bool,
    event: EventView,
)
    ensures
        ran(s, options, policy, process_comments, seq![event]) == stepped(
            s,
            options,
            policy,
            process_comments,
            event,
        ),
{
    let one = seq![event];
    assert(ran(s, options, policy, process_comments, one.drop_last()) == Ok::<
        ParserState,
        XmlError,
    >(s));
}

/// Whether the writer reads a tree with the keys that the parser wrote it
/// with.
pub open spec fn matching(parse: ParseOptions, unparse: UnparseOptions) -> bool {
    parse.attr_prefix == unparse.attr_prefix && parse.cdata_key == unparse.cdata_key
}

/// Whether the text key cannot be taken for the key of an attribute.
pub open spec fn unambiguous(options: ParseOptions) -> bool {
    !has_prefix(options.cdata_key, options.attr_prefix)
}

/// Whether the parser keeps `text` as the text of an element: it is not
/// empty and, where white space is stripped, not blank.
pub open spec fn text_kept(options: ParseOptions, text: Seq<char>) -> bool {
    text.len() > 0 && !(options.strip_whitespace && is_blank(text))
}

/// Whether `key` can be the key of a child element: a well-formed name
/// that is neither the key of an attribute nor the text key.
pub open spec fn child_key(options: ParseOptions, key: Seq<char>) -> bool {
    valid_name(key) && !has_prefix(key, options.attr_prefix) && key != options.cdata_key
}

/// Whether `value` can be the value of one element in a tree that the
/// parser built without hooks and without namespace processing: nothing;
/// or text that the parser keeps, where text is not wrapped; or a mapping
/// that is not empty and holds first attributes, then children, then the
/// text.
pub open spec fn parsed_element(options: ParseOptions, policy: ForcePolicy, value: Tree) -> bool
    decreases value, 0nat,
{
    match value {
        Tree::Null => true,
        Tree::Bool(_) => false,
        Tree::List(_) => false,
        Tree::Text(text) => !options.force_cdata && text_kept(options, text),
        Tree::Mapping(entries) => {
            &&& entries.len() > 0
            &&& parsed_entries(options, policy, entries, body_len(options, entries))
            &&& body_len(options, entries) < entries.len() ==> {
                &&& entries.last().1 matches Tree::Text(text)
                &&& text_kept(options, text)
                &&& entries.len() == 1 ==> options.force_cdata
            }
        },
    }
}

/// How many entries of a mapping come before its text: all but the last
/// where the last stands under the text key, else all.
pub open spec fn body_len(options: ParseOptions, entries: Entries) -> int {
    if entries.len() > 0 && entries.last().0 == options.cdata_key {
        entries.len() - 1
    } else {
        entries.len() as int
    }
}

/// Whether the first `n` entries can be the attributes and children of an
/// element: no key twice, the attributes before the children, and each
/// entry as the parser makes it.
pub open spec fn parsed_entries(
    options: ParseOptions,
    policy: ForcePolicy,
    entries: Entries,
    n: int,
) -> bool
    decreases entries, 3nat,
{
    &&& forall|i: int, j: int|
        0 <= i < j < n && j < entries.len() ==> (#[trigger] entries[i]).0 != (
        #[trigger] entries[j]).0
    &&& forall|i: int, j: int|
        0 <= i < j < n && j < entries.len() && has_prefix(
            (#[trigger] entries[j]).0,
            options.attr_prefix,
        ) ==> has_prefix((#[trigger] entries[i]).0, options.attr_prefix)
    &&& forall|i: int|
        0 <= i < n && i < entries.len() ==> parsed_entry(
            options,
            policy,
            (#[trigger] entries[i]).0,
            entries[i].1,
        )
}

/// Whether `value` under `key` can be an attribute or a child of an
/// element.
pub open spec fn parsed_entry(
    options: ParseOptions,
    policy: ForcePolicy,
    key: Seq<char>,
    value: Tree,
) -> bool
    decreases value, 2nat,
{
    if has_prefix(key, options.attr_prefix) {
        options.xml_attribs && value is Text
    } else {
        child_key(options, key) && parsed_child(options, policy, key, value)
    }
}

/// Whether `value` can stand under the key of a child: one element where
/// the key is not forced to a list, or a list of elements, with at least
/// two of them where the key is not forced.
pub open spec fn parsed_child(
    options: ParseOptions,
    policy: ForcePolicy,
    key: Seq<char>,
    value: Tree,
) -> bool
    decreases value, 1nat,
{
    match value {
        Tree::List(items) => {
            &&& items.len() >= 1
            &&& forced(policy, key) || items.len() >= 2
            &&& forall|i: int|
                0 <= i < items.len() ==> parsed_element(options, policy, #[trigger] items[i])
        },
        _ => !forced(policy, key) && parsed_element(options, policy, value),
    }
}

/// The attributes among the first `n` entries as the writer writes them:
/// each name without the prefix, with the text of its value.
pub open spec fn attribute_pairs(options: UnparseOptions, entries: Entries, n: nat) -> Pairs
    decreases n,
{
    if n == 0 || n > entries.len() {
        Seq::empty()
    } else {
        let before = attribute_pairs(options, entries, (n - 1) as nat);
        let entry = entries[n - 1];
        if is_attribute(options, entry.0) {
            before.push((entry.0.skip(options.attr_prefix.len() as int), text_form(entry.1)))
        } else {
            before
        }
    }
}

/// The event that stands for the text of an element: none for no text and
/// for empty text.
pub open spec fn text_events(text: Option<Seq<char>>) -> Seq<EventView> {
    match text {
        Some(t) => if t.len() > 0 {
            seq![EventView::Text(t)]
        } else {
            Seq::empty()
        },
        None => Seq::empty(),
    }
}

/// The events that the markup of the element `tag` with the value `value`
/// stands for, as the writer makes it without a preprocessor.
pub open spec fn events_of(options: UnparseOptions, tag: Seq<char>, value: Tree) -> Seq<EventView>
    decreases value, 0nat,
{
    match value {
        Tree::Null => seq![
            EventView::Start { name: tag, attrs: Seq::empty() },
            EventView::End { name: tag },
        ],
        Tree::Bool(b) => seq![
            EventView::Start { name: tag, attrs: Seq::empty() },
            EventView::Text(bool_text(b)),
            EventView::End { name: tag },
        ],
        Tree::Text(text) => seq![EventView::Start { name: tag, attrs: Seq::empty() }]
            + text_events(Some(text)) + seq![EventView::End { name: tag }],
        Tree::List(items) => item_events(options, tag, items, items.len()),
        Tree::Mapping(entries) => seq![
            EventView::Start {
                name: tag,
                attrs: attribute_pairs(options, entries, entries.len()),
            },
        ] + text_events(text_among(options, entries, entries.len())) + child_events(
            options,
            entries,
            entries.len(),
        ) + seq![EventView::End { name: tag }],
    }
}

/// The events of the first `n` items of a list under the tag `tag`.
pub open spec fn item_events(
    options: UnparseOptions,
    tag: Seq<char>,
    items: Seq<Tree>,
    n: nat,
) -> Seq<EventView>
    decreases items, n,
{
    if n == 0 || n > items.len() {
        Seq::empty()
    } else {
        item_events(options, tag, items, (n - 1) as nat) + events_of(options, tag, items[n - 1])
    }
}

/// The events of the child elements among the first `n` entries.
pub open spec fn child_events(options: UnparseOptions, entries: Entries, n: nat) -> Seq<EventView>
    decreases entries, n,
{
    if n == 0 || n > entries.len() {
        Seq::empty()
    } else {
        let before = child_events(options, entries, (n - 1) as nat);
        let entry = entries[n - 1];
        if is_child(options, entry.0) {
            before + events_of(options, entry.0, entry.1)
        } else {
            before
        }
    }
}

/// The state after the element `tag` with the value `value` was read in
/// full: the value is merged into the innermost open element or, where
/// none is open, becomes a document.
pub open spec fn delivered(s: ParserState, policy: ForcePolicy, tag: Seq<char>, value: Tree) -> ParserState {
    if s.frames.len() > 0 {
        with_entry(s, value, Some((tag, value)), forced(policy, tag))
    } else {
        ParserState {
            frames: s.frames,
            path: s.path,
            roots: s.roots.push(Tree::Mapping(seq![(tag, value)])),
        }
    }
}

/// The state `s` with one more open element `tag`, which holds `entries`
/// and the pieces of text `text`.
pub open spec fn inside(s: ParserState, tag: Seq<char>, entries: Entries, text: Seq<Seq<char>>) -> ParserState {
    ParserState {
        frames: s.frames.push(
            FrameView { entries, text, namespaces: inherited_namespaces(s) },
        ),
        path: s.path.push(tag),
        roots: s.roots,
    }
}

/// The state `s` with one more entry at the end of the innermost open
/// element.
pub open spec fn with_child(s: ParserState, key: Seq<char>, value: Tree) -> ParserState
    recommends
        s.frames.len() > 0,
{
    let top = s.frames.last();
    ParserState {
        frames: s.frames.update(
            s.frames.len() - 1,
            FrameView {
                entries: top.entries.push((key, value)),
                text: top.text,
                namespaces: top.namespaces,
            },
        ),
        path: s.path,
        roots: s.roots,
    }
}

/// A key that the entries do not hold stays absent until it is pushed,
/// and then stands last.
pub proof fn lemma_position_pushed(entries: Entries, key: Seq<char>, value: Tree)
    requires
        !has_key(entries, key),
    ensures
        position(entries, key) == entries.len(),
        position(entries.push((key, value)), key) == entries.len(),
        has_key(entries.push((key, value)), key),
{
    lemma_position(entries, key);
    let longer = entries.push((key, value));
    lemma_position_is(longer, key, entries.len() as int);
}

/// The entries hold no key that differs from each of theirs.
pub proof fn lemma_absent(entries: Entries, key: Seq<char>)
    requires
        forall|i: int| 0 <= i < entries.len() ==> (#[trigger] entries[i]).0 != key,
    ensures
        !has_key(entries, key),
{
    lemma_position_is(entries, key, entries.len() as int);
}

/// Character data inside an open element adds a piece of text to it.
pub proof fn lemma_text_inside(
    s: ParserState,
    tag: Seq<char>,
    entries: Entries,
    text: Seq<Seq<char>>,
    data: Seq<char>,
)
    ensures
        with_text(inside(s, tag, entries, text), data) == inside(s, tag, entries, text.push(data)),
{
    let before = inside(s, tag, entries, text);
    let after = inside(s, tag, entries, text.push(data));
    assert(with_text(before, data).frames =~= after.frames);
}

/// An end tag closes the element that `inside` opened: its value is
/// delivered to the state around it.
pub proof fn lemma_closed_inside(
    s: ParserState,
    options: ParseOptions,
    policy: ForcePolicy,
    tag: Seq<char>,
    entries: Entries,
    text: Seq<Seq<char>>,
)
    requires
        !options.process_namespaces,
    ensures
        plain_closed(inside(s, tag, entries, text), options, policy, tag) == delivered(
            s,
            policy,
            tag,
            frame_value(
                options,
                inside(s, tag, entries, text).frames.last(),
                plain_text_answer(options, inside(s, tag, entries, text).frames.last()),
            ),
        ),
{
    let open = inside(s, tag, entries, text);
    assert(open.frames.drop_last() =~= s.frames);
    assert(open.path.drop_last() =~= s.path);
}

/// What a value under a key becomes when the key comes again with
/// `item`: a list with one more item, or a list of the two.
pub open spec fn grown(held: Tree, item: Tree) -> Tree {
    match held {
        Tree::List(items) => Tree::List(items.push(item)),
        other => Tree::List(seq![other, item]),
    }
}

/// A value that is offered under the key of the last entry of the
/// innermost open element makes that entry grow.
pub proof fn lemma_delivered_again(
    base: ParserState,
    policy: ForcePolicy,
    key: Seq<char>,
    held: Tree,
    item: Tree,
)
    requires
        base.frames.len() > 0,
        !has_key(base.frames.last().entries, key),
    ensures
        delivered(with_child(base, key, held), policy, key, item) == with_child(
            base,
            key,
            grown(held, item),
        ),
{
    let entries = base.frames.last().entries;
    lemma_position_pushed(entries, key, held);
    let st = with_child(base, key, held);
    let longer = entries.push((key, held));
    let after = delivered(st, policy, key, item);
    let target = with_child(base, key, grown(held, item));
    assert(merged(longer, key, item, item, forced(policy, key)) =~= entries.push(
        (key, grown(held, item)),
    ));
    assert(after.frames =~= target.frames);
}

/// The attributes among the first `n` entries of a parsed mapping are its
/// first entries, and reading the attributes that the writer makes of them
/// gives these entries back.
pub proof fn lemma_attributes(
    parse: ParseOptions,
    unparse: UnparseOptions,
    policy: ForcePolicy,
    ns: Pairs,
    entries: Entries,
    n: nat,
)
    requires
        matching(parse, unparse),
        !parse.process_namespaces,
        n <= entries.len(),
        parsed_entries(parse, policy, entries, n as int),
    ensures
        attribute_pairs(unparse, entries, n).len() <= n,
        forall|i: int|
            0 <= i < attribute_pairs(unparse, entries, n).len() ==> is_attribute(
                unparse,
                (#[trigger] entries[i]).0,
            ),
        forall|i: int|
            attribute_pairs(unparse, entries, n).len() <= i < n ==> !is_attribute(
                unparse,
                (#[trigger] entries[i]).0,
            ),
        attribute_pairs(unparse, entries, n).len() > 0 ==> parse.xml_attribs,
        with_answers(
            Seq::empty(),
            plain_answers(parse, ns, attribute_pairs(unparse, entries, n)),
        ) == entries.take(attribute_pairs(unparse, entries, n).len() as int),
    decreases n,
{
    let pairs = attribute_pairs(unparse, entries, n);
    let answers = plain_answers(parse, ns, pairs);
    if n > 0 {
        let m = (n - 1) as nat;
        lemma_attributes(parse, unparse, policy, ns, entries, m);
        let before = attribute_pairs(unparse, entries, m);
        let earlier = plain_answers(parse, ns, before);
        let entry = entries[n - 1];
        if is_attribute(unparse, entry.0) {
            let name = entry.0.skip(unparse.attr_prefix.len() as int);
            assert(parse.attr_prefix + name =~= entry.0);
            assert(answers.drop_last() =~= earlier);
            let stored = entries.take(m as int);
            lemma_position(stored, entry.0);
        }
    }
}

/// The text of a parsed mapping, as the writer finds it, is that of its
/// last entry where that stands under the text key, and none otherwise.
pub proof fn lemma_text(
    parse: ParseOptions,
    unparse: UnparseOptions,
    policy: ForcePolicy,
    entries: Entries,
    n: nat,
)
    requires
        matching(parse, unparse),
        unambiguous(parse),
        n <= entries.len(),
        parsed_entries(parse, policy, entries, body_len(parse, entries)),
    ensures
        text_among(unparse, entries, n) == if n > body_len(parse, entries) {
            Some(text_form(entries.last().1))
        } else {
            None
        },
        forall|i: int|
            0 <= i < n && i < body_len(parse, entries) ==> (#[trigger] entries[i]).0
                != parse.cdata_key,
    decreases n,
{
    if n > 0 {
        lemma_text(parse, unparse, policy, entries, (n - 1) as nat);
    }
}

/// What the law asks of the options: the writer reads the keys that the
/// parser wrote, the text key cannot be taken for an attribute, names are
/// kept as they are written, and no predicate decides about lists.
pub open spec fn round_trip_setting(
    parse: ParseOptions,
    unparse: UnparseOptions,
    policy: ForcePolicy,
) -> bool {
    &&& matching(parse, unparse)
    &&& unambiguous(parse)
    &&& !parse.process_namespaces
    &&& !(policy is Predicate)
}

/// What a key holds after the first `n` items of a list came under it: the
/// one item where the key is not forced to a list, else the items so far.
pub open spec fn gathered(policy: ForcePolicy, key: Seq<char>, items: Seq<Tree>, n: nat) -> Tree {
    if n == 1 && !forced(policy, key) {
        items[0]
    } else {
        Tree::List(items.take(n as int))
    }
}

/// A child that joins `inside` becomes the last of its entries.
pub proof fn lemma_child_inside(
    s: ParserState,
    tag: Seq<char>,
    entries: Entries,
    text: Seq<Seq<char>>,
    key: Seq<char>,
    value: Tree,
)
    ensures
        with_child(inside(s, tag, entries, text), key, value) == inside(
            s,
            tag,
            entries.push((key, value)),
            text,
        ),
{
    let before = inside(s, tag, entries, text);
    let after = inside(s, tag, entries.push((key, value)), text);
    assert(with_child(before, key, value).frames =~= after.frames);
}

/// A start tag, then events that fill the element, then its end tag
/// deliver the value of the element.
pub proof fn lemma_wrapped(
    options: ParseOptions,
    policy: ForcePolicy,
    process_comments: bool,
    s: ParserState,
    tag: Seq<char>,
    attrs: Pairs,
    body: Seq<EventView>,
    entries: Entries,
    text: Seq<Seq<char>>,
)
    requires
        !options.process_namespaces,
        valid_name(tag),
        ran(plain_opened(s, options, tag, attrs), options, policy, process_comments, body) == Ok::<
            ParserState,
            XmlError,
        >(inside(s, tag, entries, text)),
    ensures
        ran(
            s,
            options,
            policy,
            process_comments,
            seq![EventView::Start { name: tag, attrs }] + body + seq![EventView::End { name: tag }],
        ) == Ok::<ParserState, XmlError>(
            delivered(
                s,
                policy,
                tag,
                frame_value(
                    options,
                    inside(s, tag, entries, text).frames.last(),
                    plain_text_answer(options, inside(s, tag, entries, text).frames.last()),
                ),
            ),
        ),
{
    let start = seq![EventView::Start { name: tag, attrs }];
    let end = seq![EventView::End { name: tag }];
    lemma_ran_one(s, options, policy, process_comments, EventView::Start { name: tag, attrs });
    lemma_ran_concat(s, options, policy, process_comments, start, body);
    lemma_ran_concat(s, options, policy, process_comments, start + body, end);
    let filled = inside(s, tag, entries, text);
    lemma_ran_one(filled, options, policy, process_comments, EventView::End { name: tag });
    lemma_closed_inside(s, options, policy, tag, entries, text);
}

/// The events of an element lead to the state in which its value is
/// delivered.
pub proof fn lemma_element(
    parse: ParseOptions,
    unparse: UnparseOptions,
    policy: ForcePolicy,
    process_comments: bool,
    s: ParserState,
    tag: Seq<char>,
    value: Tree,
)
    requires
        round_trip_setting(parse, unparse, policy),
        valid_name(tag),
        parsed_element(parse, policy, value),
    ensures
        ran(s, parse, policy, process_comments, events_of(unparse, tag, value)) == Ok::<
            ParserState,
            XmlError,
        >(delivered(s, policy, tag, value)),
    decreases value, 0nat,
{
    let ns = inherited_namespaces(s);
    let none = Seq::<(Seq<char>, Seq<char>)>::empty();
    let no_entries = Seq::<(Seq<char>, Tree)>::empty();
    let no_text = Seq::<Seq<char>>::empty();
    match value {
        Tree::Null => {
            lemma_wrapped(
                parse,
                policy,
                process_comments,
                s,
                tag,
                none,
                Seq::empty(),
                no_entries,
                no_text,
            );
            assert(events_of(unparse, tag, value) =~= seq![
                EventView::Start { name: tag, attrs: none },
            ] + Seq::<EventView>::empty() + seq![EventView::End { name: tag }]);
        },
        Tree::Text(text) => {
            let body = seq![EventView::Text(text)];
            lemma_ran_one(
                inside(s, tag, no_entries, no_text),
                parse,
                policy,
                process_comments,
                EventView::Text(text),
            );
            lemma_text_inside(s, tag, no_entries, no_text, text);
            let pieces = no_text.push(text);
            lemma_wrapped(parse, policy, process_comments, s, tag, none, body, no_entries, pieces);
        },
        Tree::Mapping(entries) => {
            let total = entries.len();
            let body_end = body_len(parse, entries);
            let pairs = attribute_pairs(unparse, entries, total);
            lemma_attributes(parse, unparse, policy, ns, entries, body_end as nat);
            let k = pairs.len() as int;
            let held = entries.take(k);
            lemma_text(parse, unparse, policy, entries, total);
            let found = text_among(unparse, entries, total);
            let pieces = if body_end < total {
                no_text.push(text_form(entries.last().1))
            } else {
                no_text
            };
            let opened = inside(s, tag, held, no_text);
            let filled = inside(s, tag, held, pieces);
            assert(ran(opened, parse, policy, process_comments, text_events(found)) == Ok::<
                ParserState,
                XmlError,
            >(filled)) by {
                if body_end < total {
                    let text = text_form(entries.last().1);
                    lemma_ran_one(
                        opened,
                        parse,
                        policy,
                        process_comments,
                        EventView::Text(text),
                    );
                    lemma_text_inside(s, tag, held, no_text, text);
                }
            }
            lemma_children(
                parse,
                unparse,
                policy,
                process_comments,
                s,
                tag,
                pieces,
                entries,
                k,
                total,
            );
            let children = child_events(unparse, entries, total);
            lemma_ran_concat(opened, parse, policy, process_comments, text_events(found), children);
            let body = entries.take(body_end);
            lemma_wrapped(
                parse,
                policy,
                process_comments,
                s,
                tag,
                pairs,
                text_events(found) + children,
                body,
                pieces,
            );
            assert(events_of(unparse, tag, value) =~= seq![
                EventView::Start { name: tag, attrs: pairs },
            ] + (text_events(found) + children) + seq![EventView::End { name: tag }]);
            let frame = inside(s, tag, body, pieces).frames.last();
            assert(frame_value(parse, frame, plain_text_answer(parse, frame)) == value) by {
                if body_end < total {
                    let text = text_form(entries.last().1);
                    lemma_position(body, parse.cdata_key);
                    assert(put(body, parse.cdata_key, Tree::Text(text)) =~= entries);
                } else {
                    assert(body =~= entries);
                }
            }
        },
        _ => {},
    }
}

/// The events of the children among the first `n` entries of a parsed
/// mapping fill an open element, which holds the attributes already, with
/// these children.
pub proof fn lemma_children(
    parse: ParseOptions,
    unparse: UnparseOptions,
    policy: ForcePolicy,
    process_comments: bool,
    s: ParserState,
    tag: Seq<char>,
    text: Seq<Seq<char>>,
    entries: Entries,
    k: int,
    n: nat,
)
    requires
        round_trip_setting(parse, unparse, policy),
        n <= entries.len(),
        parsed_entries(parse, policy, entries, body_len(parse, entries)),
        0 <= k <= body_len(parse, entries),
        forall|i: int| 0 <= i < k ==> is_attribute(unparse, (#[trigger] entries[i]).0),
        forall|i: int|
            k <= i < body_len(parse, entries) ==> !is_attribute(unparse, (#[trigger] entries[i]).0),
    ensures
        ran(
            inside(s, tag, entries.take(k), text),
            parse,
            policy,
            process_comments,
            child_events(unparse, entries, n),
        ) == Ok::<ParserState, XmlError>(
            inside(
                s,
                tag,
                entries.take(
                    if n <= k {
                        k
                    } else if n <= body_len(parse, entries) {
                        n as int
                    } else {
                        body_len(parse, entries)
                    },
                ),
                text,
            ),
        ),
    decreases entries, n,
{
    if n > 0 {
        let m = (n - 1) as nat;
        lemma_children(parse, unparse, policy, process_comments, s, tag, text, entries, k, m);
        let entry = entries[n - 1];
        let body_end = body_len(parse, entries);
        if k <= n - 1 < body_end {
            let before = entries.take(n - 1);
            let st = inside(s, tag, before, text);
            lemma_ran_concat(
                inside(s, tag, entries.take(k), text),
                parse,
                policy,
                process_comments,
                child_events(unparse, entries, m),
                events_of(unparse, entry.0, entry.1),
            );
            lemma_absent(before, entry.0);
            lemma_child(parse, unparse, policy, process_comments, st, entry.0, entry.1);
            lemma_child_inside(s, tag, before, text, entry.0, entry.1);
            assert(before.push(entry) =~= entries.take(n as int));
        }
    }
}

/// The events of a child lead to the state in which the child is the last
/// entry of the innermost open element.
pub proof fn lemma_child(
    parse: ParseOptions,
    unparse: UnparseOptions,
    policy: ForcePolicy,
    process_comments: bool,
    s: ParserState,
    key: Seq<char>,
    value: Tree,
)
    requires
        round_trip_setting(parse, unparse, policy),
        s.frames.len() > 0,
        !has_key(s.frames.last().entries, key),
        child_key(parse, key),
        parsed_child(parse, policy, key, value),
    ensures
        ran(s, parse, policy, process_comments, events_of(unparse, key, value)) == Ok::<
            ParserState,
            XmlError,
        >(with_child(s, key, value)),
    decreases value, 1nat,
{
    match value {
        Tree::List(items) => {
            lemma_items(parse, unparse, policy, process_comments, s, key, items, items.len());
            assert(items.take(items.len() as int) =~= items);
        },
        _ => {
            lemma_element(parse, unparse, policy, process_comments, s, key, value);
        },
    }
}

/// The events of the first `n` items of a list lead to the state in which
/// the key of the list holds what `gathered` says.
pub proof fn lemma_items(
    parse: ParseOptions,
    unparse: UnparseOptions,
    policy: ForcePolicy,
    process_comments: bool,
    s: ParserState,
    key: Seq<char>,
    items: Seq<Tree>,
    n: nat,
)
    requires
        round_trip_setting(parse, unparse, policy),
        s.frames.len() > 0,
        !has_key(s.frames.last().entries, key),
        child_key(parse, key),
        n <= items.len(),
        forall|i: int| 0 <= i < items.len() ==> parsed_element(parse, policy, #[trigger] items[i]),
    ensures
        ran(s, parse, policy, process_comments, item_events(unparse, key, items, n)) == Ok::<
            ParserState,
            XmlError,
        >(
            if n == 0 {
                s
            } else {
                with_child(s, key, gathered(policy, key, items, n))
            },
        ),
    decreases items, n,
{
    if n > 0 {
        let m = (n - 1) as nat;
        let item = items[n - 1];
        lemma_items(parse, unparse, policy, process_comments, s, key, items, m);
        lemma_ran_concat(
            s,
            parse,
            policy,
            process_comments,
            item_events(unparse, key, items, m),
            events_of(unparse, key, item),
        );
        if m == 0 {
            lemma_element(parse, unparse, policy, process_comments, s, key, item);
            assert(seq![item] =~= items.take(1));
        } else {
            let held = gathered(policy, key, items, m);
            let before = with_child(s, key, held);
            lemma_element(parse, unparse, policy, process_comments, before, key, item);
            lemma_delivered_again(s, policy, key, held, item);
            if m == 1 && !forced(policy, key) {
                assert(seq![items[0], item] =~= items.take(2));
            } else {
                assert(items.take(m as int).push(item) =~= items.take(n as int));
            }
        }
    }
}

/// Round trip: the events that the markup of a parsed document stands for
/// build the document again.
///
/// The document is a mapping with one entry, the root, whose value has the
/// shape `parsed_element` that the parser gives to the value of an
/// element. The law holds without hooks and without namespace processing,
/// where the writer reads the keys that the parser wrote.
pub proof fn lemma_round_trip(
    parse: ParseOptions,
    unparse: UnparseOptions,
    policy: ForcePolicy,
    process_comments: bool,
    tag: Seq<char>,
    value: Tree,
)
    requires
        round_trip_setting(parse, unparse, policy),
        valid_name(tag),
        parsed_element(parse, policy, value),
    ensures
        built(parse, policy, process_comments, events_of(unparse, tag, value)) == Ok::<
            Tree,
            XmlError,
        >(Tree::Mapping(seq![(tag, value)])),
{
    lemma_element(parse, unparse, policy, process_comments, initial_state(), tag, value);
}

/// Whether `event` is one of those that the law speaks of: a tag whose
/// name cannot be taken for the key of an attribute or for the text key,
/// and character data that is not empty unless white space is stripped.
pub open spec fn plain_event(options: ParseOptions, event: EventView) -> bool {
    match event {
        EventView::Start { name, .. } => element_name(options, name),
        EventView::End { name } => element_name(options, name),
        EventView::Empty { name, .. } => element_name(options, name),
        EventView::Text(data) => options.strip_whitespace || data.len() > 0,
        EventView::CData(data) => options.strip_whitespace || data.len() > 0,
        _ => true,
    }
}

/// Whether `name` cannot be taken for the key of an attribute or for the
/// text key.
pub open spec fn element_name(options: ParseOptions, name: Seq<char>) -> bool {
    !has_prefix(name, options.attr_prefix) && name != options.cdata_key
}

/// Whether `root` is a document as the parser builds it: a mapping with
/// one entry, whose key is a well-formed name and whose value has the
/// shape of an element's value.
pub open spec fn parsed_document(options: ParseOptions, policy: ForcePolicy, root: Tree) -> bool {
    &&& root matches Tree::Mapping(entries)
    &&& entries.len() == 1
    &&& valid_name(entries[0].0)
    &&& parsed_element(options, policy, entries[0].1)
}

/// Whether every mapping in `s` has the shape that the parser gives it
/// while it reads plain events.
pub open spec fn parsed_state(options: ParseOptions, policy: ForcePolicy, s: ParserState) -> bool {
    &&& forall|i: int|
        0 <= i < s.frames.len() ==> parsed_entries(
            options,
            policy,
            (#[trigger] s.frames[i]).entries,
            s.frames[i].entries.len() as int,
        )
    &&& forall|i: int, j: int|
        0 <= i < s.frames.len() && 0 <= j < s.frames[i].text.len() ==> options.strip_whitespace
            || (#[trigger] s.frames[i].text[j]).len() > 0
    &&& forall|i: int|
        0 <= i < s.roots.len() ==> parsed_document(options, policy, #[trigger] s.roots[i])
}

/// The entries that a start tag stores are attributes: each key has the
/// prefix, each value is text, and no key stands twice.
pub proof fn lemma_stored_attributes(options: ParseOptions, ns: Pairs, attrs: Pairs)
    requires
        !options.process_namespaces,
    ensures
        unique_keys(with_answers(Seq::empty(), plain_answers(options, ns, attrs))),
        forall|i: int|
            0 <= i < with_answers(
                Seq::empty(),
                plain_answers(options, ns, attrs),
            ).len() ==> has_prefix(
                (#[trigger] with_answers(
                    Seq::empty(),
                    plain_answers(options, ns, attrs),
                )[i]).0,
                options.attr_prefix,
            ) && with_answers(Seq::empty(), plain_answers(options, ns, attrs))[i].1 is Text,
        attrs.len() == 0 ==> with_answers(
            Seq::empty(),
            plain_answers(options, ns, attrs),
        ).len() == 0,
    decreases attrs.len(),
{
    let answers = plain_answers(options, ns, attrs);
    if attrs.len() > 0 {
        let shorter = attrs.drop_last();
        lemma_stored_attributes(options, ns, shorter);
        let earlier = plain_answers(options, ns, shorter);
        assert(answers.drop_last() =~= earlier);
        let before = with_answers(Seq::empty(), earlier);
        let key = options.attr_prefix + attrs.last().0;
        lemma_position(before, key);
        assert(key.subrange(0, options.attr_prefix.len() as int) =~= options.attr_prefix);
    }
}

/// The value of a closing element has the shape of an element's value.
pub proof fn lemma_frame_value_parsed(options: ParseOptions, policy: ForcePolicy, frame: FrameView)
    requires
        unambiguous(options),
        parsed_entries(options, policy, frame.entries, frame.entries.len() as int),
        options.strip_whitespace || forall|j: int|
            0 <= j < frame.text.len() ==> (#[trigger] frame.text[j]).len() > 0,
    ensures
        parsed_element(
            options,
            policy,
            frame_value(options, frame, plain_text_answer(options, frame)),
        ),
{
    let entries = frame.entries;
    match text_content(options, frame.text) {
        None => {},
        Some(text) => {
            if entries.len() > 0 {
                lemma_position(entries, options.cdata_key);
            }
        },
    }
}

/// A child that joins the entries of an open element by the merge rule
/// leaves them in the shape that the parser gives them.
pub proof fn lemma_merged_parsed(
    options: ParseOptions,
    policy: ForcePolicy,
    entries: Entries,
    key: Seq<char>,
    value: Tree,
)
    requires
        parsed_entries(options, policy, entries, entries.len() as int),
        child_key(options, key),
        parsed_element(options, policy, value),
    ensures
        parsed_entries(
            options,
            policy,
            merged(entries, key, value, value, forced(policy, key)),
            merged(entries, key, value, value, forced(policy, key)).len() as int,
        ),
{
    lemma_position(entries, key);
}

/// A plain event keeps the shape of the state.
pub proof fn lemma_stepped_parsed(
    options: ParseOptions,
    policy: ForcePolicy,
    s: ParserState,
    event: EventView,
)
    requires
        unambiguous(options),
        !options.process_namespaces,
        parsed_state(options, policy, s),
        plain_event(options, event),
    ensures
        stepped(s, options, policy, false, event) matches Ok(after) ==> parsed_state(
            options,
            policy,
            after,
        ),
{
    match event {
        EventView::Start { name, attrs } => {
            if valid_name(name) {
                lemma_opened_parsed(options, policy, s, name, attrs);
            }
        },
        EventView::End { name } => {
            if valid_name(name) && s.frames.len() > 0 {
                lemma_closed_parsed(options, policy, s, name);
            }
        },
        EventView::Empty { name, attrs } => {
            if valid_name(name) {
                lemma_opened_parsed(options, policy, s, name, attrs);
                lemma_closed_parsed(options, policy, plain_opened(s, options, name, attrs), name);
            }
        },
        _ => {},
    }
}

/// A start tag keeps the shape of the state.
pub proof fn lemma_opened_parsed(
    options: ParseOptions,
    policy: ForcePolicy,
    s: ParserState,
    name: Seq<char>,
    attrs: Pairs,
)
    requires
        !options.process_namespaces,
        parsed_state(options, policy, s),
    ensures
        parsed_state(options, policy, plain_opened(s, options, name, attrs)),
        plain_opened(s, options, name, attrs).frames.len() > 0,
{
    let ns = inherited_namespaces(s);
    let kept = frame_attributes(options, attrs);
    lemma_stored_attributes(options, ns, kept);
}

/// An end tag with a plain name keeps the shape of the state.
pub proof fn lemma_closed_parsed(
    options: ParseOptions,
    policy: ForcePolicy,
    s: ParserState,
    name: Seq<char>,
)
    requires
        unambiguous(options),
        !options.process_namespaces,
        parsed_state(options, policy, s),
        s.frames.len() > 0,
        valid_name(name),
        element_name(options, name),
    ensures
        parsed_state(options, policy, plain_closed(s, options, policy, name)),
{
    let top = s.frames.last();
    let value = frame_value(options, top, plain_text_answer(options, top));
    lemma_frame_value_parsed(options, policy, top);
    let rest = ParserState { frames: s.frames.drop_last(), path: s.path.drop_last(), roots: s.roots };
    if rest.frames.len() > 0 {
        let last = rest.frames.len() - 1;
        let parent = rest.frames[last];
        lemma_merged_parsed(options, policy, parent.entries, name, value);
    }
}

/// Plain events keep the shape of the state.
pub proof fn lemma_ran_parsed(
    options: ParseOptions,
    policy: ForcePolicy,
    s: ParserState,
    events: Seq<EventView>,
)
    requires
        unambiguous(options),
        !options.process_namespaces,
        parsed_state(options, policy, s),
        forall|i: int| 0 <= i < events.len() ==> plain_event(options, #[trigger] events[i]),
    ensures
        ran(s, options, policy, false, events) matches Ok(after) ==> parsed_state(
            options,
            policy,
            after,
        ),
    decreases events.len(),
{
    if events.len() > 0 {
        let earlier = events.drop_last();
        lemma_ran_parsed(options, policy, s, earlier);
        match ran(s, options, policy, false, earlier) {
            Ok(before) => {
                lemma_stepped_parsed(options, policy, before, events.last());
            },
            Err(_) => {},
        }
    }
}

/// Round trip: where plain events build a document, the document has one
/// root, and the events that the markup of that root stands for build the
/// document again.
///
/// The law is about parsing without hooks, without namespace processing
/// and without comments, where the writer reads the keys that the parser
/// wrote and the text key cannot be taken for an attribute. The events of
/// the first parse are plain: no tag has a name that the writer would take
/// for an attribute or for the text, and no character data is empty
/// unless white space is stripped.
pub proof fn lemma_parse_write_parse(
    parse: ParseOptions,
    unparse: UnparseOptions,
    policy: ForcePolicy,
    events: Seq<EventView>,
)
    requires
        round_trip_setting(parse, unparse, policy),
        forall|i: int| 0 <= i < events.len() ==> plain_event(parse, #[trigger] events[i]),
        built(parse, policy, false, events) is Ok,
    ensures
        parsed_document(parse, policy, built(parse, policy, false, events)->Ok_0),
        built(parse, policy, false, events)->Ok_0 matches Tree::Mapping(roots) && built(
            parse,
            policy,
            false,
            events_of(unparse, roots[0].0, roots[0].1),
        ) == built(parse, policy, false, events),
{
    lemma_ran_parsed(parse, policy, initial_state(), events);
    let tree = built(parse, policy, false, events)->Ok_0;
    match tree {
        Tree::Mapping(roots) => {
            lemma_round_trip(parse, unparse, policy, false, roots[0].0, roots[0].1);
            assert(seq![(roots[0].0, roots[0].1)] =~= roots);
        },
        _ => {},
    }
}

/// Round trip on texts: where parsing the text `first` without hooks gives
/// a document, and the tokenizer reads from the text `second` the events
/// that the markup of the document's root stands for, parsing `second`
/// gives the document again.
///
/// The setting is that of `lemma_parse_write_parse`, and the events of
/// `first` are plain. `n` and `m` are the numbers of events of the two
/// texts.
pub proof fn lemma_parse_text_again(
    parse: ParseOptions,
    unparse: UnparseOptions,
    policy: ForcePolicy,
    trim: bool,
    first: Seq<u8>,
    n: nat,
    second: Seq<u8>,
    m: nat,
)
    requires
        round_trip_setting(parse, unparse, policy),
        n < usize::MAX,
        m < usize::MAX,
        ends_after(first, trim, parse.xml_attribs, n),
        ends_after(second, trim, parse.xml_attribs, m),
        forall|i: int|
            0 <= i < n ==> plain_event(
                parse,
                #[trigger] tokens(first, trim, parse.xml_attribs, n)[i],
            ),
        outcome(parse, policy, false, first, trim) is Ok,
        outcome(parse, policy, false, first, trim)->Ok_0 matches Tree::Mapping(roots) ==> roots.len()
            == 1 ==> tokens(second, trim, parse.xml_attribs, m) == events_of(
            unparse,
            roots[0].0,
            roots[0].1,
        ),
    ensures
        outcome(parse, policy, false, second, trim) == outcome(parse, policy, false, first, trim),
{
    let events = tokens(first, trim, parse.xml_attribs, n);
    lemma_outcome_of_tokens(parse, policy, false, first, trim, n);
    lemma_outcome_of_tokens(parse, policy, false, second, trim, m);
    lemma_parse_write_parse(parse, unparse, policy, events);
}

/// The first `n` attributes of a start tag as markup.
pub open spec fn attribute_markup(attrs: Pairs, n: nat) -> Seq<char>
    decreases n,
{
    if n == 0 || n > attrs.len() {
        Seq::empty()
    } else {
        attribute_markup(attrs, (n - 1) as nat) + (seq![' '] + attrs[n - 1].0 + seq!['=', '"']
            + escaped(attrs[n - 1].1, true) + seq!['"'])
    }
}

/// One event as markup: a tag with its attributes, escaped character data,
/// a CDATA section or a comment. The events that carry nothing of the
/// document are no markup.
pub open spec fn event_markup(event: EventView) -> Seq<char> {
    match event {
        EventView::Start { name, attrs } => seq!['<'] + name + attribute_markup(attrs, attrs.len())
            + seq!['>'],
        EventView::End { name } => end_tag(name),
        EventView::Empty { name, attrs } => seq!['<'] + name + attribute_markup(attrs, attrs.len())
            + seq!['/', '>'],
        EventView::Text(data) => escaped(data, false),
        EventView::CData(data) => seq!['<', '!', '[', 'C', 'D', 'A', 'T', 'A', '['] + data + seq![
            ']',
            ']',
            '>',
        ],
        EventView::Comment(text) => seq!['<', '!', '-', '-'] + text + seq!['-', '-', '>'],
        EventView::Other => Seq::empty(),
        EventView::Eof => Seq::empty(),
    }
}

/// Events as markup, one after the other.
pub open spec fn markup(events: Seq<EventView>) -> Seq<char>
    decreases events.len(),
{
    if events.len() == 0 {
        Seq::empty()
    } else {
        markup(events.drop_last()) + event_markup(events.last())
    }
}

/// The markup of events that follow each other is the markup of the first
/// and then that of the second.
pub proof fn lemma_markup_concat(first: Seq<EventView>, second: Seq<EventView>)
    ensures
        markup(first + second) == markup(first) + markup(second),
    decreases second.len(),
{
    if second.len() > 0 {
        assert((first + second).drop_last() == first + second.drop_last());
        lemma_markup_concat(first, second.drop_last());
    }
}

/// The markup of one event.
pub proof fn lemma_markup_one(event: EventView)
    ensures
        markup(seq![event]) == event_markup(event),
{
    let one = seq![event];
    assert(one.drop_last() == Seq::<EventView>::empty());
    assert(markup(Seq::<EventView>::empty()) == Seq::<char>::empty());
}

/// The writer writes the attributes of a mapping as the markup of the
/// attributes that `attribute_pairs` makes of them.
pub proof fn lemma_attribute_markup(options: UnparseOptions, entries: Entries, n: nat)
    requires
        n <= entries.len(),
    ensures
        attributes_text(options, entries, n) == attribute_markup(
            attribute_pairs(options, entries, n),
            attribute_pairs(options, entries, n).len(),
        ),
    decreases n,
{
    if n > 0 {
        lemma_attribute_markup(options, entries, (n - 1) as nat);
        let entry = entries[n - 1];
        let before = attribute_pairs(options, entries, (n - 1) as nat);
        if is_attribute(options, entry.0) {
            let pairs = attribute_pairs(options, entries, n);
            lemma_attribute_markup_prefix(pairs, before.len());
            assert(pairs.take(before.len() as int) =~= before);
        }
    }
}

/// The markup of the first attributes does not depend on the later ones.
pub proof fn lemma_attribute_markup_prefix(attrs: Pairs, n: nat)
    requires
        n <= attrs.len(),
    ensures
        attribute_markup(attrs, n) == attribute_markup(attrs.take(n as int), n),
    decreases n,
{
    if n > 0 {
        lemma_attribute_markup_prefix(attrs, (n - 1) as nat);
        lemma_attribute_markup_prefix(attrs.take(n as int), (n - 1) as nat);
        assert(attrs.take(n as int).take(n - 1) =~= attrs.take(n - 1));
    }
}

/// What the writer writes for an element is the markup of the events
/// `events_of`, where it neither prints prettily nor shortens empty
/// elements.
pub proof fn lemma_markup_of_events(
    options: UnparseOptions,
    tag: Seq<char>,
    value: Tree,
    needs_newline: bool,
    level: nat,
)
    requires
        !options.pretty,
        !options.short_empty_elements,
    ensures
        element_text(options, tag, value, needs_newline, level) == markup(
            events_of(options, tag, value),
        ),
    decreases value, 0nat,
{
    let no_attrs = Seq::<(Seq<char>, Seq<char>)>::empty();
    let start = EventView::Start { name: tag, attrs: no_attrs };
    let end = EventView::End { name: tag };
    lemma_markup_one(start);
    lemma_markup_one(end);
    match value {
        Tree::Null => {
            assert(events_of(options, tag, value) =~= seq![start] + seq![end]);
            lemma_markup_concat(seq![start], seq![end]);
        },
        Tree::Bool(b) => {
            let text = EventView::Text(bool_text(b));
            lemma_markup_one(text);
            assert(events_of(options, tag, value) =~= seq![start] + seq![text] + seq![end]);
            lemma_markup_concat(seq![start], seq![text]);
            lemma_markup_concat(seq![start] + seq![text], seq![end]);
            lemma_escaped_plain(bool_text(b), false);
        },
        Tree::Text(s) => {
            let body = text_events(Some(s));
            if s.len() > 0 {
                lemma_markup_one(EventView::Text(s));
            }
            lemma_markup_concat(seq![start], body);
            lemma_markup_concat(seq![start] + body, seq![end]);
        },
        Tree::List(items) => {
            lemma_markup_of_items(options, tag, items, needs_newline, level, items.len());
        },
        Tree::Mapping(entries) => {
            let total = entries.len();
            let pairs = attribute_pairs(options, entries, total);
            let opening = EventView::Start { name: tag, attrs: pairs };
            let found = text_among(options, entries, total);
            let body = text_events(found);
            let children = child_events(options, entries, total);
            lemma_markup_one(opening);
            lemma_attribute_markup(options, entries, total);
            lemma_markup_of_children(options, entries, level + 1, total);
            let text_part = match found {
                Some(t) => escaped(t, false),
                None => Seq::empty(),
            };
            assert(markup(body) == text_part) by {
                match found {
                    Some(t) => {
                        if t.len() > 0 {
                            lemma_markup_one(EventView::Text(t));
                        }
                    },
                    None => {},
                }
            }
            lemma_markup_concat(seq![opening], body);
            lemma_markup_concat(seq![opening] + body, children);
            lemma_markup_concat(seq![opening] + body + children, seq![end]);
            if children_among(options, entries, total) == 0 {
                lemma_no_child(options, entries, total);
            }
        },
    }
}

/// What the writer writes for the first `n` items of a list is the markup
/// of their events.
pub proof fn lemma_markup_of_items(
    options: UnparseOptions,
    tag: Seq<char>,
    items: Seq<Tree>,
    needs_newline: bool,
    level: nat,
    n: nat,
)
    requires
        !options.pretty,
        !options.short_empty_elements,
        n <= items.len(),
    ensures
        items_text(options, tag, items, needs_newline, level, n) == markup(
            item_events(options, tag, items, n),
        ),
    decreases items, n,
{
    if n > 0 {
        lemma_markup_of_items(options, tag, items, needs_newline, level, (n - 1) as nat);
        lemma_markup_of_events(options, tag, items[n - 1], n > 1 || needs_newline, level);
        lemma_markup_concat(
            item_events(options, tag, items, (n - 1) as nat),
            events_of(options, tag, items[n - 1]),
        );
    }
}

/// What the writer writes for the children among the first `n` entries of
/// a mapping is the markup of their events.
pub proof fn lemma_markup_of_children(options: UnparseOptions, entries: Entries, level: nat, n: nat)
    requires
        !options.pretty,
        !options.short_empty_elements,
        n <= entries.len(),
    ensures
        children_text(options, entries, level, n) == markup(
            child_events(options, entries, n),
        ),
    decreases entries, n,
{
    if n > 0 {
        lemma_markup_of_children(options, entries, level, (n - 1) as nat);
        let entry = entries[n - 1];
        if is_child(options, entry.0) {
            lemma_markup_of_events(
                options,
                entry.0,
                entry.1,
                children_among(options, entries, (n - 1) as nat) > 0
                    || options.pretty,
                level,
            );
            lemma_markup_concat(
                child_events(options, entries, (n - 1) as nat),
                events_of(options, entry.0, entry.1),
            );
        }
    }
}

} // verus!
