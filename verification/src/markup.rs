//! The markup that the writer makes of a tree, as a mathematical value.

use crate::config::UnparseOptions;
use crate::escape::escaped;
use crate::text::has_prefix;
use crate::value::{Entries, Tree};
use vstd::prelude::*;

verus! {

/// The white space before an element at nesting level `level`.
pub open spec fn indentation(options: UnparseOptions, level: nat) -> Seq<char>
    decreases level,
{
    if level == 0 {
        Seq::empty()
    } else {
        indentation(options, (level - 1) as nat) + options.indent
    }
}

/// What separates an element from what was written before it: with pretty
/// printing, and where the element is not the first of its siblings, a line
/// break and the indentation.
pub open spec fn line_break(options: UnparseOptions, needs_newline: bool, level: nat) -> Seq<char> {
    if options.pretty && needs_newline {
        options.newl + indentation(options, level)
    } else {
        Seq::empty()
    }
}

/// The declaration that begins a full document.
pub open spec fn header_text(options: UnparseOptions) -> Seq<char> {
    if options.full_document {
        seq![
            '<',
            '?',
            'x',
            'm',
            'l',
            ' ',
            'v',
            'e',
            'r',
            's',
            'i',
            'o',
            'n',
            '=',
            '"',
            '1',
            '.',
            '0',
            '"',
            ' ',
            'e',
            'n',
            'c',
            'o',
            'd',
            'i',
            'n',
            'g',
            '=',
            '"',
        ] + options.encoding + seq!['"', '?', '>'] + options.newl
    } else {
        Seq::empty()
    }
}

/// An element without content: one tag that closes itself, or a start tag
/// and an end tag.
pub open spec fn empty_element(options: UnparseOptions, tag: Seq<char>) -> Seq<char> {
    seq!['<'] + tag + closing_of_empty(options, tag)
}

/// What follows the name and the attributes of an element without content.
pub open spec fn closing_of_empty(options: UnparseOptions, tag: Seq<char>) -> Seq<char> {
    if options.short_empty_elements {
        seq!['/', '>']
    } else {
        seq!['>', '<', '/'] + tag + seq!['>']
    }
}

/// The end tag of an element.
pub open spec fn end_tag(tag: Seq<char>) -> Seq<char> {
    seq!['<', '/'] + tag + seq!['>']
}

/// An element that holds text only. `content` is the text as it is written.
pub open spec fn text_element(tag: Seq<char>, content: Seq<char>) -> Seq<char> {
    seq!['<'] + tag + seq!['>'] + content + end_tag(tag)
}

/// The text of a boolean.
pub open spec fn bool_text(b: bool) -> Seq<char> {
    if b {
        seq!['t', 'r', 'u', 'e']
    } else {
        seq!['f', 'a', 'l', 's', 'e']
    }
}

/// The text that stands for a value in an attribute or as an element's
/// text. Only text and booleans have one: for the other values it is empty.
pub open spec fn text_form(value: Tree) -> Seq<char> {
    match value {
        Tree::Text(s) => s,
        Tree::Bool(b) => bool_text(b),
        _ => Seq::empty(),
    }
}

/// Whether an entry under `key` is written as an attribute.
pub open spec fn is_attribute(options: UnparseOptions, key: Seq<char>) -> bool {
    has_prefix(key, options.attr_prefix)
}

/// Whether an entry under `key` is the element's text.
pub open spec fn is_text(options: UnparseOptions, key: Seq<char>) -> bool {
    !is_attribute(options, key) && key == options.cdata_key
}

/// Whether an entry under `key` is written as a child element.
pub open spec fn is_child(options: UnparseOptions, key: Seq<char>) -> bool {
    !is_attribute(options, key) && key != options.cdata_key
}

/// One attribute as it is written in a start tag, after a space.
pub open spec fn attribute_text(options: UnparseOptions, key: Seq<char>, value: Tree) -> Seq<char> {
    seq![' '] + key.skip(options.attr_prefix.len() as int) + seq!['=', '"'] + escaped(
        text_form(value),
        true,
    ) + seq!['"']
}

/// The attributes among the first `n` entries, as they are written.
pub open spec fn attributes_text(options: UnparseOptions, entries: Entries, n: nat) -> Seq<char>
    decreases n,
{
    if n == 0 {
        Seq::empty()
    } else {
        let before = attributes_text(options, entries, (n - 1) as nat);
        let entry = entries[n - 1];
        if is_attribute(options, entry.0) {
            before + attribute_text(options, entry.0, entry.1)
        } else {
            before
        }
    }
}

/// The text among the first `n` entries: that of the last entry under the
/// text key.
pub open spec fn text_among(options: UnparseOptions, entries: Entries, n: nat) -> Option<Seq<char>>
    decreases n,
{
    if n == 0 {
        None
    } else {
        let entry = entries[n - 1];
        if is_text(options, entry.0) {
            Some(text_form(entry.1))
        } else {
            text_among(options, entries, (n - 1) as nat)
        }
    }
}

/// The number of child elements among the first `n` entries.
pub open spec fn children_among(options: UnparseOptions, entries: Entries, n: nat) -> nat
    decreases n,
{
    if n == 0 {
        0
    } else {
        children_among(options, entries, (n - 1) as nat) + if is_child(options, entries[n - 1].0) {
            1nat
        } else {
            0nat
        }
    }
}

/// The markup of the element `tag` with the value `value`, written at
/// nesting level `level`: what no preprocessor changes.
pub open spec fn element_text(
    options: UnparseOptions,
    tag: Seq<char>,
    value: Tree,
    needs_newline: bool,
    level: nat,
) -> Seq<char>
    decreases value, 0nat,
{
    line_break(options, needs_newline, level) + match value {
        Tree::Null => empty_element(options, tag),
        Tree::Bool(b) => text_element(tag, bool_text(b)),
        Tree::Text(s) => text_element(tag, escaped(s, false)),
        Tree::List(items) => items_text(options, tag, items, needs_newline, level, items.len()),
        Tree::Mapping(entries) => mapping_text(options, tag, entries, level),
    }
}

/// The markup of the first `n` items of a list: one element for each, all
/// under the tag of the list.
pub open spec fn items_text(
    options: UnparseOptions,
    tag: Seq<char>,
    items: Seq<Tree>,
    needs_newline: bool,
    level: nat,
    n: nat,
) -> Seq<char>
    decreases items, n,
{
    if n == 0 || n > items.len() {
        Seq::empty()
    } else {
        items_text(options, tag, items, needs_newline, level, (n - 1) as nat) + element_text(
            options,
            tag,
            items[n - 1],
            n > 1 || needs_newline,
            level,
        )
    }
}

/// The markup of the child elements among the first `n` entries of a
/// mapping, written at nesting level `level`.
pub open spec fn children_text(options: UnparseOptions, entries: Entries, level: nat, n: nat) -> Seq<
    char,
>
    decreases entries, n,
{
    if n == 0 || n > entries.len() {
        Seq::empty()
    } else {
        let before = children_text(options, entries, level, (n - 1) as nat);
        let entry = entries[n - 1];
        if is_child(options, entry.0) {
            before + element_text(
                options,
                entry.0,
                entry.1,
                children_among(options, entries, (n - 1) as nat) > 0 || options.pretty,
                level,
            )
        } else {
            before
        }
    }
}

/// The markup of an element whose value is a mapping: the entries under
/// prefixed keys are its attributes, the entry under the text key is its
/// text, and the others are its children, one level deeper.
pub open spec fn mapping_text(
    options: UnparseOptions,
    tag: Seq<char>,
    entries: Entries,
    level: nat,
) -> Seq<char>
    decreases entries, entries.len() + 1,
{
    let n = entries.len();
    let start = seq!['<'] + tag + attributes_text(options, entries, n);
    let text = text_among(options, entries, n);
    let children = children_among(options, entries, n);
    if children == 0 && text is None {
        start + closing_of_empty(options, tag)
    } else {
        start + seq!['>'] + (match text {
            Some(t) => escaped(t, false),
            None => Seq::empty(),
        }) + children_text(options, entries, level + 1, n) + (if children > 0 {
            line_break(options, true, level)
        } else {
            Seq::empty()
        }) + end_tag(tag)
    }
}

/// How deep the elements of `value` nest: one for a value without
/// children, and one more than its deepest item or child for a list or a
/// mapping.
pub open spec fn depth(options: UnparseOptions, value: Tree) -> nat
    decreases value, 0nat,
{
    match value {
        Tree::List(items) => 1 + deepest_item(options, items, items.len()),
        Tree::Mapping(entries) => 1 + deepest_child(options, entries, entries.len()),
        _ => 1,
    }
}

/// The depth of the deepest of the first `n` items.
pub open spec fn deepest_item(options: UnparseOptions, items: Seq<Tree>, n: nat) -> nat
    decreases items, n,
{
    if n == 0 || n > items.len() {
        0
    } else {
        let before = deepest_item(options, items, (n - 1) as nat);
        let here = depth(options, items[n - 1]);
        if here > before {
            here
        } else {
            before
        }
    }
}

/// The depth of the deepest child element among the first `n` entries.
pub open spec fn deepest_child(options: UnparseOptions, entries: Entries, n: nat) -> nat
    decreases entries, n,
{
    if n == 0 || n > entries.len() {
        0
    } else {
        let before = deepest_child(options, entries, (n - 1) as nat);
        let here = if is_child(options, entries[n - 1].0) {
            depth(options, entries[n - 1].1)
        } else {
            0
        };
        if here > before {
            here
        } else {
            before
        }
    }
}

/// No item is deeper than the deepest.
pub proof fn lemma_deepest_item(options: UnparseOptions, items: Seq<Tree>, n: nat, k: int)
    requires
        0 <= k < n <= items.len(),
    ensures
        depth(options, items[k]) <= deepest_item(options, items, n),
    decreases n,
{
    if k < n - 1 {
        lemma_deepest_item(options, items, (n - 1) as nat, k);
    }
}

/// No child is deeper than the deepest.
pub proof fn lemma_deepest_child(options: UnparseOptions, entries: Entries, n: nat, k: int)
    requires
        0 <= k < n <= entries.len(),
        is_child(options, entries[k].0),
    ensures
        depth(options, entries[k].1) <= deepest_child(options, entries, n),
    decreases n,
{
    if k < n - 1 {
        lemma_deepest_child(options, entries, (n - 1) as nat, k);
    }
}

/// A mapping without child elements has no depth below it, and nothing is
/// written for its children.
pub proof fn lemma_no_child(options: UnparseOptions, entries: Entries, n: nat)
    requires
        n <= entries.len(),
        children_among(options, entries, n) == 0,
    ensures
        deepest_child(options, entries, n) == 0,
        forall|level: nat| #[trigger] children_text(options, entries, level, n) == Seq::<char>::empty(),
    decreases n,
{
    if n > 0 {
        lemma_no_child(options, entries, (n - 1) as nat);
        assert forall|level: nat| #[trigger]
            children_text(options, entries, level, n) == Seq::<char>::empty() by {
            assert(children_text(options, entries, level, (n - 1) as nat) == Seq::<char>::empty());
        }
    }
}

/// What a preprocessor made of one element and of the elements below it:
/// its answer for the element, which is the tag and the value to write or
/// nothing where the element is left out, and what it made of each element
/// below the value in the answer. For a list these are its items; for a
/// mapping they stand by entry, and those of entries that are no child
/// elements count for nothing.
pub ghost struct Reply {
    pub answer: Option<(Seq<char>, Tree)>,
    pub below: Seq<Reply>,
}

/// The reply for an entry that is no child element.
pub open spec fn no_reply() -> Reply {
    Reply { answer: None, below: Seq::empty() }
}

/// Whether a reply has one reply below it for each item or entry of the
/// value in its answer, and so on below.
pub open spec fn shaped(reply: Reply) -> bool
    decreases reply, 0nat,
{
    match reply.answer {
        None => true,
        Some((_, value)) => shaped_below(value, reply.below),
    }
}

/// Whether `below` holds one shaped reply for each item or entry of
/// `value`.
pub open spec fn shaped_below(value: Tree, below: Seq<Reply>) -> bool
    decreases below, below.len() + 1,
{
    &&& match value {
        Tree::List(items) => below.len() == items.len(),
        Tree::Mapping(entries) => below.len() == entries.len(),
        _ => true,
    }
    &&& all_shaped(below, below.len())
}

/// Whether the first `n` replies are shaped.
pub open spec fn all_shaped(below: Seq<Reply>, n: nat) -> bool
    decreases below, n,
{
    if n == 0 || n > below.len() {
        true
    } else {
        all_shaped(below, (n - 1) as nat) && shaped(below[n - 1])
    }
}

/// The markup that is written for an element of which the preprocessor
/// made `reply`: nothing where it is left out, else the element of the
/// answer.
pub open spec fn reply_text(options: UnparseOptions, reply: Reply, needs_newline: bool, level: nat) -> Seq<
    char,
>
    decreases reply, 0nat,
{
    match reply.answer {
        None => Seq::empty(),
        Some((tag, value)) => value_text(options, tag, value, reply.below, needs_newline, level),
    }
}

/// The markup of the element `tag` with the value `value`, where the
/// preprocessor made `below` of the elements below it.
pub open spec fn value_text(
    options: UnparseOptions,
    tag: Seq<char>,
    value: Tree,
    below: Seq<Reply>,
    needs_newline: bool,
    level: nat,
) -> Seq<char>
    decreases below, below.len() + 1,
{
    line_break(options, needs_newline, level) + match value {
        Tree::Null => empty_element(options, tag),
        Tree::Bool(b) => text_element(tag, bool_text(b)),
        Tree::Text(s) => text_element(tag, escaped(s, false)),
        Tree::List(_) => replies_text(options, below, needs_newline, level, below.len()),
        Tree::Mapping(entries) => mapping_with(
            options,
            tag,
            entries,
            level,
            children_replies_text(options, entries, below, level + 1, below.len()),
        ),
    }
}

/// The markup of the first `n` of a row of elements, one after the other,
/// where the preprocessor made `replies` of them.
pub open spec fn replies_text(
    options: UnparseOptions,
    replies: Seq<Reply>,
    needs_newline: bool,
    level: nat,
    n: nat,
) -> Seq<char>
    decreases replies, n,
{
    if n == 0 || n > replies.len() {
        Seq::empty()
    } else {
        replies_text(options, replies, needs_newline, level, (n - 1) as nat) + reply_text(
            options,
            replies[n - 1],
            n > 1 || needs_newline,
            level,
        )
    }
}

/// The markup of the child elements among the first `n` entries of a
/// mapping, where the preprocessor made `below` of the entries.
pub open spec fn children_replies_text(
    options: UnparseOptions,
    entries: Entries,
    below: Seq<Reply>,
    level: nat,
    n: nat,
) -> Seq<char>
    decreases below, n,
{
    if n == 0 || n > below.len() || n > entries.len() {
        Seq::empty()
    } else {
        let before = children_replies_text(options, entries, below, level, (n - 1) as nat);
        if is_child(options, entries[n - 1].0) {
            before + reply_text(
                options,
                below[n - 1],
                children_among(options, entries, (n - 1) as nat) > 0 || options.pretty,
                level,
            )
        } else {
            before
        }
    }
}

/// The markup of an element whose value is a mapping, around `inner`, the
/// markup of its child elements.
pub open spec fn mapping_with(
    options: UnparseOptions,
    tag: Seq<char>,
    entries: Entries,
    level: nat,
    inner: Seq<char>,
) -> Seq<char> {
    let n = entries.len();
    let start = seq!['<'] + tag + attributes_text(options, entries, n);
    let text = text_among(options, entries, n);
    let children = children_among(options, entries, n);
    if children == 0 && text is None {
        start + closing_of_empty(options, tag)
    } else {
        start + seq!['>'] + (match text {
            Some(t) => escaped(t, false),
            None => Seq::empty(),
        }) + inner + (if children > 0 {
            line_break(options, true, level)
        } else {
            Seq::empty()
        }) + end_tag(tag)
    }
}

/// Whether `after` is `before` and then the markup of an element of which
/// the preprocessor made `reply`.
pub open spec fn wrote(
    options: UnparseOptions,
    before: Seq<char>,
    after: Seq<char>,
    reply: Reply,
    needs_newline: bool,
    level: nat,
) -> bool {
    shaped(reply) && after == before + reply_text(options, reply, needs_newline, level)
}

/// Whether `after` is `before` and then the markup of the element `tag`
/// with the value `value`, where the preprocessor made `below` of the
/// elements below it.
pub open spec fn wrote_value(
    options: UnparseOptions,
    before: Seq<char>,
    after: Seq<char>,
    tag: Seq<char>,
    value: Tree,
    below: Seq<Reply>,
    needs_newline: bool,
    level: nat,
) -> bool {
    shaped_below(value, below) && after == before + value_text(
        options,
        tag,
        value,
        below,
        needs_newline,
        level,
    )
}

/// Whether `after` is `before` and then the markup of `count` elements in
/// a row, where the preprocessor made `replies` of them.
pub open spec fn wrote_items(
    options: UnparseOptions,
    before: Seq<char>,
    after: Seq<char>,
    count: nat,
    replies: Seq<Reply>,
    needs_newline: bool,
    level: nat,
) -> bool {
    replies.len() == count && all_shaped(replies, count) && after == before + replies_text(
        options,
        replies,
        needs_newline,
        level,
        count,
    )
}

/// Whether `after` is `before` and then the markup of the child elements
/// among `entries`, where the preprocessor made `below` of the entries.
pub open spec fn wrote_children(
    options: UnparseOptions,
    before: Seq<char>,
    after: Seq<char>,
    entries: Entries,
    below: Seq<Reply>,
    level: nat,
) -> bool {
    shaped_below(Tree::Mapping(entries), below) && after == before + children_replies_text(
        options,
        entries,
        below,
        level,
        below.len(),
    )
}

/// The markup of the first `n` of a row of elements depends on the first
/// `n` replies only.
pub proof fn lemma_replies_prefix(
    options: UnparseOptions,
    a: Seq<Reply>,
    b: Seq<Reply>,
    needs_newline: bool,
    level: nat,
    n: nat,
)
    requires
        n <= a.len(),
        n <= b.len(),
        forall|i: int| 0 <= i < n ==> a[i] == b[i],
    ensures
        replies_text(options, a, needs_newline, level, n) == replies_text(
            options,
            b,
            needs_newline,
            level,
            n,
        ),
        all_shaped(a, n) == all_shaped(b, n),
    decreases n,
{
    if n > 0 {
        lemma_replies_prefix(options, a, b, needs_newline, level, (n - 1) as nat);
    }
}

/// The markup of the children among the first `n` entries depends on the
/// first `n` replies only.
pub proof fn lemma_children_prefix(
    options: UnparseOptions,
    entries: Entries,
    a: Seq<Reply>,
    b: Seq<Reply>,
    level: nat,
    n: nat,
)
    requires
        n <= a.len(),
        n <= b.len(),
        forall|i: int| 0 <= i < n ==> a[i] == b[i],
    ensures
        children_replies_text(options, entries, a, level, n) == children_replies_text(
            options,
            entries,
            b,
            level,
            n,
        ),
    decreases n,
{
    if n > 0 {
        lemma_children_prefix(options, entries, a, b, level, (n - 1) as nat);
    }
}

/// Nothing is written for the children of a mapping without child
/// elements, whatever the replies.
pub proof fn lemma_no_child_replies(
    options: UnparseOptions,
    entries: Entries,
    below: Seq<Reply>,
    level: nat,
    n: nat,
)
    requires
        n <= entries.len(),
        children_among(options, entries, n) == 0,
    ensures
        children_replies_text(options, entries, below, level, n) == Seq::<char>::empty(),
    decreases n,
{
    if n > 0 {
        lemma_no_child_replies(options, entries, below, level, (n - 1) as nat);
    }
}

/// Replies that are all `no_reply` are shaped.
pub proof fn lemma_no_replies_shaped(below: Seq<Reply>, n: nat)
    requires
        n <= below.len(),
        forall|i: int| 0 <= i < n ==> below[i] == no_reply(),
    ensures
        all_shaped(below, n),
    decreases n,
{
    if n > 0 {
        lemma_no_replies_shaped(below, (n - 1) as nat);
        assert(shaped(below[n - 1]));
    }
}

/// What a preprocessor that changes nothing makes of the element `tag`
/// with the value `value`.
pub open spec fn kept(options: UnparseOptions, tag: Seq<char>, value: Tree) -> Reply
    decreases value,
{
    Reply {
        answer: Some((tag, value)),
        below: match value {
            Tree::List(items) => Seq::new(
                items.len(),
                |i: int|
                    if 0 <= i < items.len() {
                        kept(options, tag, items[i])
                    } else {
                        no_reply()
                    },
            ),
            Tree::Mapping(entries) => Seq::new(
                entries.len(),
                |i: int|
                    if 0 <= i < entries.len() && is_child(options, entries[i].0) {
                        kept(options, entries[i].0, entries[i].1)
                    } else {
                        no_reply()
                    },
            ),
            _ => Seq::empty(),
        },
    }
}

/// A preprocessor that changes nothing leaves the markup as it is without
/// one.
pub proof fn lemma_kept(
    options: UnparseOptions,
    tag: Seq<char>,
    value: Tree,
    needs_newline: bool,
    level: nat,
)
    ensures
        shaped(kept(options, tag, value)),
        reply_text(options, kept(options, tag, value), needs_newline, level) == element_text(
            options,
            tag,
            value,
            needs_newline,
            level,
        ),
    decreases value, 1nat,
{
    let reply = kept(options, tag, value);
    match value {
        Tree::List(items) => {
            lemma_kept_items(options, tag, items, needs_newline, level, items.len());
        },
        Tree::Mapping(entries) => {
            lemma_kept_children(options, entries, level + 1, entries.len());
            assert(mapping_text(options, tag, entries, level) == mapping_with(
                options,
                tag,
                entries,
                level,
                children_text(options, entries, level + 1, entries.len()),
            ));
        },
        _ => {
            assert(all_shaped(reply.below, 0));
        },
    }
}

/// The same for the first `n` items of a list.
pub proof fn lemma_kept_items(
    options: UnparseOptions,
    tag: Seq<char>,
    items: Seq<Tree>,
    needs_newline: bool,
    level: nat,
    n: nat,
)
    requires
        n <= items.len(),
    ensures
        all_shaped(kept(options, tag, Tree::List(items)).below, n),
        replies_text(options, kept(options, tag, Tree::List(items)).below, needs_newline, level, n)
            == items_text(options, tag, items, needs_newline, level, n),
    decreases items, n,
{
    if n > 0 {
        lemma_kept_items(options, tag, items, needs_newline, level, (n - 1) as nat);
        lemma_kept(options, tag, items[n - 1], n > 1 || needs_newline, level);
    }
}

/// The same for the child elements among the first `n` entries of a
/// mapping.
pub proof fn lemma_kept_children(options: UnparseOptions, entries: Entries, level: nat, n: nat)
    requires
        n <= entries.len(),
    ensures
        all_shaped(kept(options, Seq::empty(), Tree::Mapping(entries)).below, n),
        children_replies_text(
            options,
            entries,
            kept(options, Seq::empty(), Tree::Mapping(entries)).below,
            level,
            n,
        ) == children_text(options, entries, level, n),
    decreases entries, n,
{
    if n > 0 {
        lemma_kept_children(options, entries, level, (n - 1) as nat);
        if is_child(options, entries[n - 1].0) {
            lemma_kept(
                options,
                entries[n - 1].0,
                entries[n - 1].1,
                children_among(options, entries, (n - 1) as nat) > 0 || options.pretty,
                level,
            );
        } else {
            assert(shaped(no_reply()));
        }
    }
}

/// Whether `longer` begins with `shorter`.
pub open spec fn extends(longer: Seq<char>, shorter: Seq<char>) -> bool {
    shorter.len() <= longer.len() && longer.take(shorter.len() as int) == shorter
}

/// The parts of an element with content, written one after the other, make
/// up what follows the text before them.
pub proof fn lemma_mapping_parts(
    before: Seq<char>,
    start: Seq<char>,
    text: Seq<char>,
    children: Seq<char>,
    closing: Seq<char>,
    end: Seq<char>,
)
    ensures
        before + start + (seq!['>'] + text) + children + closing + end == before + (start
            + seq!['>'] + text + children + closing + end),
{
}

/// What is appended to a text extends it.
pub proof fn lemma_extends(a: Seq<char>, b: Seq<char>)
    ensures
        extends(a + b, a),
{
    assert((a + b).take(a.len() as int) =~= a);
}

/// What extends an extension extends the text itself.
pub proof fn lemma_extends_twice(a: Seq<char>, b: Seq<char>, c: Seq<char>)
    requires
        extends(a, b),
        extends(b, c),
    ensures
        extends(a, c),
{
    assert(a.take(c.len() as int) =~= b.take(c.len() as int));
}

} // verus!
