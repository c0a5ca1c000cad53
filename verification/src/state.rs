//! The builder's state as a mathematical value, and what each event makes
//! of it.
//!
//! The functions here take the answers of the hooks as arguments, so that
//! they say what becomes of every answer. The functions whose names begin
//! with `plain_` say what happens where no hook is in use.

use crate::config::ParseOptions;
use crate::error::StructuralError;
use crate::hooks::{forced, ForcePolicy};
use crate::merge::{lemma_merged_unique, lemma_merged_well_formed, offered};
use crate::namespace::{declared_prefix, resolved_name, xmlns, Pairs};
use crate::text::{is_blank, joined, occurs_in, trimmed};
use crate::value::{
    has_key, lemma_put_unique, lemma_put_well_formed, put, unique_keys, well_formed, Entries, Tree,
};
use vstd::prelude::*;

verus! {

/// What a postprocessor answered for one entry: the key and value to store,
/// or `None` to drop the entry.
pub type Answer = Option<(Seq<char>, Tree)>;

/// Mathematical model of what the builder holds for one open element.
pub struct FrameView {
    /// The entries gathered so far: attributes, then children.
    pub entries: Entries,
    /// The pieces of text seen so far, in order.
    pub text: Seq<Seq<char>>,
    /// The namespace mapping in force inside the element.
    pub namespaces: Pairs,
}

/// Mathematical model of the builder between two events.
pub struct ParserState {
    /// The open elements, outermost first.
    pub frames: Seq<FrameView>,
    /// The resolved names of the open elements, outermost first.
    pub path: Seq<Seq<char>>,
    /// The complete documents seen so far, each a mapping of one entry.
    pub roots: Seq<Tree>,
}

/// The state before the first event.
pub open spec fn initial_state() -> ParserState {
    ParserState { frames: Seq::empty(), path: Seq::empty(), roots: Seq::empty() }
}

/// The namespace mapping after the declarations among `attrs`, each stored
/// under its prefix in the mapping `inherited`.
pub open spec fn declared_namespaces(inherited: Pairs, attrs: Pairs) -> Pairs
    decreases attrs.len(),
{
    if attrs.len() == 0 {
        inherited
    } else {
        let before = declared_namespaces(inherited, attrs.drop_last());
        match declared_prefix(attrs.last().0) {
            Some(prefix) => put(before, prefix, attrs.last().1),
            None => before,
        }
    }
}

/// The attributes among `attrs` that are no namespace declarations, in
/// order.
pub open spec fn ordinary_attributes(attrs: Pairs) -> Pairs
    decreases attrs.len(),
{
    if attrs.len() == 0 {
        Seq::empty()
    } else if declared_prefix(attrs.last().0) is None {
        ordinary_attributes(attrs.drop_last()).push(attrs.last())
    } else {
        ordinary_attributes(attrs.drop_last())
    }
}

/// Whether `attrs` holds a declaration of a namespace for which `table` has
/// no alias.
pub open spec fn declares_unaliased(table: Option<Pairs>, attrs: Pairs) -> bool {
    exists|i: int|
        0 <= i < attrs.len() && declared_prefix(#[trigger] attrs[i].0) is Some && !(table matches Some(
            t,
        ) && has_key(t, attrs[i].1))
}

/// The namespace mapping in force inside an element with the attributes
/// `attrs`. Declarations count only where attributes are read and
/// namespaces are processed.
pub open spec fn frame_namespaces(options: ParseOptions, inherited: Pairs, attrs: Pairs) -> Pairs {
    if options.xml_attribs && options.process_namespaces {
        declared_namespaces(inherited, attrs)
    } else {
        inherited
    }
}

/// The attributes that become entries: none where attributes are not read,
/// all but the namespace declarations where namespaces are processed, and
/// all otherwise.
pub open spec fn frame_attributes(options: ParseOptions, attrs: Pairs) -> Pairs {
    if !options.xml_attribs {
        Seq::empty()
    } else if options.process_namespaces {
        ordinary_attributes(attrs)
    } else {
        attrs
    }
}

/// Whether the element gets an entry that holds its namespace mapping.
pub open spec fn announces_namespaces(options: ParseOptions, attrs: Pairs) -> bool {
    options.xml_attribs && options.process_namespaces && declares_unaliased(
        options.namespaces,
        attrs,
    )
}

/// A namespace mapping as the entries of a mapping.
pub open spec fn namespace_entries(ns: Pairs) -> Entries {
    Seq::new(ns.len(), |i: int| (ns[i].0, Tree::Text(ns[i].1)))
}

/// The entries of an element before its ordinary attributes: the namespace
/// mapping under the prefixed key `xmlns` where it is announced, else none.
pub open spec fn initial_entries(options: ParseOptions, ns: Pairs, attrs: Pairs) -> Entries {
    if announces_namespaces(options, attrs) {
        seq![(options.attr_prefix + xmlns(), Tree::Mapping(namespace_entries(ns)))]
    } else {
        Seq::empty()
    }
}

/// The key of an attribute named `name`: the attribute prefix and the name,
/// resolved first where namespaces are processed and the name holds the
/// separator.
pub open spec fn attribute_key(options: ParseOptions, ns: Pairs, name: Seq<char>) -> Seq<char> {
    options.attr_prefix + (if options.process_namespaces && occurs_in(
        name,
        options.namespace_separator,
    ) {
        resolved_name(options, ns, name)
    } else {
        name
    })
}

/// `start` after the answers of the postprocessor were stored in order.
pub open spec fn with_answers(start: Entries, answers: Seq<Answer>) -> Entries
    decreases answers.len(),
{
    if answers.len() == 0 {
        start
    } else {
        let before = with_answers(start, answers.drop_last());
        match answers.last() {
            Some((key, value)) => put(before, key, value),
            None => before,
        }
    }
}

/// The answers of a postprocessor that changes nothing, for the attributes
/// `ordinary`.
pub open spec fn plain_answers(options: ParseOptions, ns: Pairs, ordinary: Pairs) -> Seq<Answer> {
    Seq::new(
        ordinary.len(),
        |i: int| Some((attribute_key(options, ns, ordinary[i].0), Tree::Text(ordinary[i].1))),
    )
}

/// The namespace mapping that an element opened in state `s` inherits.
pub open spec fn inherited_namespaces(s: ParserState) -> Pairs {
    if s.frames.len() > 0 {
        s.frames.last().namespaces
    } else {
        Seq::empty()
    }
}

/// The state after a start tag, where the postprocessor gave `answers` for
/// the attributes that become entries.
pub open spec fn opened(
    s: ParserState,
    options: ParseOptions,
    name: Seq<char>,
    attrs: Pairs,
    answers: Seq<Answer>,
) -> ParserState {
    let ns = frame_namespaces(options, inherited_namespaces(s), attrs);
    ParserState {
        frames: s.frames.push(
            FrameView {
                entries: with_answers(initial_entries(options, ns, attrs), answers),
                text: Seq::empty(),
                namespaces: ns,
            },
        ),
        path: s.path.push(resolved_name(options, ns, name)),
        roots: s.roots,
    }
}

/// The state after a start tag where no postprocessor is in use.
pub open spec fn plain_opened(
    s: ParserState,
    options: ParseOptions,
    name: Seq<char>,
    attrs: Pairs,
) -> ParserState {
    let ns = frame_namespaces(options, inherited_namespaces(s), attrs);
    opened(s, options, name, attrs, plain_answers(options, ns, frame_attributes(options, attrs)))
}

/// The state after character data `data`: one more piece of text in the
/// innermost open element. Outside any element, text is left out.
pub open spec fn with_text(s: ParserState, data: Seq<char>) -> ParserState {
    if s.frames.len() == 0 {
        s
    } else {
        let top = s.frames.last();
        ParserState {
            frames: s.frames.update(
                s.frames.len() - 1,
                FrameView { entries: top.entries, text: top.text.push(data), namespaces: top.namespaces },
            ),
            path: s.path,
            roots: s.roots,
        }
    }
}

/// The text of an element, made of its pieces: none where there was no
/// piece, or where white space is stripped and the joined pieces hold
/// nothing else.
pub open spec fn text_content(options: ParseOptions, pieces: Seq<Seq<char>>) -> Option<Seq<char>> {
    if pieces.len() == 0 {
        None
    } else {
        let all = joined(pieces, options.cdata_separator);
        if options.strip_whitespace && is_blank(all) {
            None
        } else {
            Some(all)
        }
    }
}

/// The value of a closing element. `text_answer` is what the postprocessor
/// answered for the text, where it was asked.
pub open spec fn frame_value(options: ParseOptions, frame: FrameView, text_answer: Answer) -> Tree {
    match text_content(options, frame.text) {
        None => if frame.entries.len() == 0 {
            Tree::Null
        } else {
            Tree::Mapping(frame.entries)
        },
        Some(text) => if frame.entries.len() > 0 {
            match text_answer {
                Some((key, value)) => Tree::Mapping(put(frame.entries, key, value)),
                None => Tree::Mapping(frame.entries),
            }
        } else if options.force_cdata {
            match text_answer {
                Some(entry) => Tree::Mapping(seq![entry]),
                None => Tree::Mapping(Seq::empty()),
            }
        } else {
            Tree::Text(text)
        },
    }
}

/// The answer of a postprocessor that changes nothing, for the text of a
/// closing element.
pub open spec fn plain_text_answer(options: ParseOptions, frame: FrameView) -> Answer {
    match text_content(options, frame.text) {
        Some(text) => Some((options.cdata_key, Tree::Text(text))),
        None => None,
    }
}

/// The state after the value `raw` was offered to the innermost open
/// element, where the postprocessor answered `answer` and the force-list
/// policy `force`. Outside any element, nothing changes.
pub open spec fn with_entry(s: ParserState, raw: Tree, answer: Answer, force: bool) -> ParserState {
    if s.frames.len() == 0 {
        s
    } else {
        let top = s.frames.last();
        ParserState {
            frames: s.frames.update(
                s.frames.len() - 1,
                FrameView {
                    entries: offered(top.entries, raw, answer, force),
                    text: top.text,
                    namespaces: top.namespaces,
                },
            ),
            path: s.path,
            roots: s.roots,
        }
    }
}

/// The state after the end tag of the innermost open element. Its value is
/// merged into the element that encloses it, under the key of the answer;
/// without an enclosing element, it becomes a document. An answer of `None`
/// drops it.
pub open spec fn closed(
    s: ParserState,
    options: ParseOptions,
    text_answer: Answer,
    element_answer: Answer,
    force: bool,
) -> ParserState
    recommends
        s.frames.len() > 0,
{
    let value = frame_value(options, s.frames.last(), text_answer);
    let rest = ParserState { frames: s.frames.drop_last(), path: s.path.drop_last(), roots: s.roots };
    if rest.frames.len() > 0 {
        with_entry(rest, value, element_answer, force)
    } else {
        match element_answer {
            Some(entry) => ParserState {
                frames: rest.frames,
                path: rest.path,
                roots: rest.roots.push(Tree::Mapping(seq![entry])),
            },
            None => rest,
        }
    }
}

/// The key under which the innermost open element is stored when it closes
/// with the end tag `name`.
pub open spec fn closing_key(s: ParserState, options: ParseOptions, name: Seq<char>) -> Seq<char> {
    resolved_name(options, s.frames.last().namespaces, name)
}

/// The state after an end tag where no hook is in use.
pub open spec fn plain_closed(
    s: ParserState,
    options: ParseOptions,
    policy: ForcePolicy,
    name: Seq<char>,
) -> ParserState
    recommends
        s.frames.len() > 0,
{
    let key = closing_key(s, options, name);
    let text_answer = plain_text_answer(options, s.frames.last());
    let value = frame_value(options, s.frames.last(), text_answer);
    closed(s, options, text_answer, Some((key, value)), forced(policy, key))
}

/// The text of a comment as it is stored.
pub open spec fn comment_text(options: ParseOptions, comment: Seq<char>) -> Seq<char> {
    if options.strip_whitespace {
        trimmed(comment)
    } else {
        comment
    }
}

/// The state after a comment where no hook is in use.
pub open spec fn plain_commented(
    s: ParserState,
    options: ParseOptions,
    policy: ForcePolicy,
    comment: Seq<char>,
) -> ParserState {
    let value = Tree::Text(comment_text(options, comment));
    with_entry(s, value, Some((options.comment_key, value)), forced(policy, options.comment_key))
}

/// The document that the events so far amount to, once the input has
/// ended: the one complete document, if no element is open and there is
/// exactly one.
pub open spec fn document(s: ParserState) -> Result<Tree, StructuralError> {
    if s.frames.len() > 0 {
        Err(StructuralError::UnclosedElements)
    } else if s.roots.len() == 0 {
        Err(StructuralError::NoElementFound)
    } else if s.roots.len() == 1 {
        Ok(s.roots[0])
    } else {
        Err(StructuralError::UnclosedElements)
    }
}

/// Whether the frames of `s` are as the builder keeps them: one name for
/// each, and no key twice in a frame's entries or namespace mapping.
pub open spec fn consistent(s: ParserState) -> bool {
    &&& s.path.len() == s.frames.len()
    &&& forall|i: int|
        0 <= i < s.frames.len() ==> unique_keys((#[trigger] s.frames[i]).entries) && unique_keys(
            s.frames[i].namespaces,
        )
}

/// Whether no mapping anywhere in `s` holds a key twice.
pub open spec fn all_well_formed(s: ParserState) -> bool {
    &&& forall|i: int, j: int|
        0 <= i < s.frames.len() && 0 <= j < s.frames[i].entries.len() ==> well_formed(
            #[trigger] s.frames[i].entries[j].1,
        )
    &&& forall|i: int| 0 <= i < s.roots.len() ==> well_formed(#[trigger] s.roots[i])
}

/// The builder's invariant on its state: the frames are consistent and,
/// where `deep` is set, no mapping anywhere holds a key twice.
pub open spec fn valid(s: ParserState, deep: bool) -> bool {
    consistent(s) && (deep ==> all_well_formed(s))
}

/// Whether the value of an answer, if any, is well formed.
pub open spec fn answer_well_formed(answer: Answer) -> bool {
    answer matches Some(a) ==> well_formed(a.1)
}

/// Character data keeps the invariant.
pub proof fn lemma_with_text_valid(s: ParserState, data: Seq<char>, deep: bool)
    requires
        valid(s, deep),
    ensures
        valid(with_text(s, data), deep),
{
}

/// Offering a value to the innermost open element keeps the invariant.
pub proof fn lemma_with_entry_valid(
    s: ParserState,
    raw: Tree,
    answer: Answer,
    force: bool,
    deep: bool,
)
    requires
        valid(s, deep),
        deep ==> well_formed(raw) && answer_well_formed(answer),
    ensures
        valid(with_entry(s, raw, answer, force), deep),
{
    if s.frames.len() > 0 {
        let last = s.frames.len() - 1;
        let top = s.frames[last];
        match answer {
            Some((key, processed)) => {
                lemma_merged_unique(top.entries, key, raw, processed, force);
                if deep {
                    lemma_merged_well_formed(top.entries, key, raw, processed, force);
                }
            },
            None => {},
        }
    }
}

/// The value of a closing element has no key twice where its entries and
/// the answer about its text have none.
pub proof fn lemma_frame_value_well_formed(
    options: ParseOptions,
    frame: FrameView,
    text_answer: Answer,
)
    requires
        unique_keys(frame.entries),
        forall|b: int| 0 <= b < frame.entries.len() ==> well_formed(#[trigger] frame.entries[b].1),
        answer_well_formed(text_answer),
    ensures
        well_formed(frame_value(options, frame, text_answer)),
{
    match text_answer {
        Some((key, value)) => {
            lemma_put_unique(frame.entries, key, value);
            lemma_put_well_formed(frame.entries, key, value);
        },
        None => {},
    }
}

/// An end tag keeps the invariant.
pub proof fn lemma_closed_valid(
    s: ParserState,
    options: ParseOptions,
    text_answer: Answer,
    element_answer: Answer,
    force: bool,
    deep: bool,
)
    requires
        valid(s, deep),
        s.frames.len() > 0,
        deep ==> answer_well_formed(text_answer) && answer_well_formed(element_answer),
    ensures
        valid(closed(s, options, text_answer, element_answer, force), deep),
        deep ==> well_formed(frame_value(options, s.frames.last(), text_answer)),
{
    let top = s.frames.last();
    let value = frame_value(options, top, text_answer);
    let rest = ParserState { frames: s.frames.drop_last(), path: s.path.drop_last(), roots: s.roots };
    if deep {
        lemma_frame_value_well_formed(options, top, text_answer);
    }
    if rest.frames.len() > 0 {
        lemma_with_entry_valid(rest, value, element_answer, force, deep);
    }
}

/// Storing answers keeps keys apart.
pub proof fn lemma_with_answers_unique(start: Entries, answers: Seq<Answer>)
    requires
        unique_keys(start),
    ensures
        unique_keys(with_answers(start, answers)),
    decreases answers.len(),
{
    if answers.len() > 0 {
        lemma_with_answers_unique(start, answers.drop_last());
        match answers.last() {
            Some((key, value)) => {
                lemma_put_unique(with_answers(start, answers.drop_last()), key, value);
            },
            None => {},
        }
    }
}

/// A namespace mapping without a prefix twice gives a mapping without a key
/// twice.
pub proof fn lemma_namespace_entries(ns: Pairs)
    requires
        unique_keys(ns),
    ensures
        well_formed(Tree::Mapping(namespace_entries(ns))),
{
    let entries = namespace_entries(ns);
    assert forall|i: int| 0 <= i < entries.len() implies well_formed(#[trigger] entries[i].1) by {}
}

/// Whether a start tag can lead from `before` to `after`, whatever the
/// postprocessor answers for the attributes. `hooked` says whether a
/// postprocessor is in use: without one, `after` is `plain_opened`.
#[verifier::opaque]
pub open spec fn may_open(
    before: ParserState,
    options: ParseOptions,
    hooked: bool,
    name: Seq<char>,
    attrs: Pairs,
    after: ParserState,
) -> bool {
    exists|answers: Seq<Answer>|
        {
            &&& after == #[trigger] opened(before, options, name, attrs, answers)
            &&& answers.len() == frame_attributes(options, attrs).len()
            &&& !hooked ==> after == plain_opened(before, options, name, attrs)
        }
}

/// Whether an end tag can lead from `before` to `after`, whatever the
/// hooks answer. Without a postprocessor the answers are those of a hook
/// that changes nothing, and without a predicate the force-list policy
/// decides as `forced` says.
#[verifier::opaque]
pub open spec fn may_close(
    before: ParserState,
    options: ParseOptions,
    policy: ForcePolicy,
    hooked: bool,
    name: Seq<char>,
    after: ParserState,
) -> bool
    recommends
        before.frames.len() > 0,
{
    exists|text_answer: Answer, element_answer: Answer, force: bool|
        {
            &&& after == #[trigger] closed(before, options, text_answer, element_answer, force)
            &&& !hooked ==> text_answer == plain_text_answer(options, before.frames.last())
                && element_answer == Some(
                (
                    closing_key(before, options, name),
                    frame_value(options, before.frames.last(), text_answer),
                ),
            )
            &&& !(policy is Predicate) ==> (element_answer matches Some(a) ==> force == forced(
                policy,
                a.0,
            ))
        }
}

/// Whether a comment can lead from `before` to `after`, whatever the hooks
/// answer.
#[verifier::opaque]
pub open spec fn may_comment(
    before: ParserState,
    options: ParseOptions,
    policy: ForcePolicy,
    hooked: bool,
    comment: Seq<char>,
    after: ParserState,
) -> bool {
    exists|answer: Answer, force: bool|
        {
            &&& after == #[trigger] with_entry(
                before,
                Tree::Text(comment_text(options, comment)),
                answer,
                force,
            )
            &&& !hooked ==> answer == Some(
                (options.comment_key, Tree::Text(comment_text(options, comment))),
            )
            &&& !(policy is Predicate) ==> (answer matches Some(a) ==> force == forced(
                policy,
                a.0,
            ))
        }
}

} // verus!
