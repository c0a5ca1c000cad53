//! Whole conversions: from the events or the bytes of a document to its
//! tree, and from a tree to markup.

use crate::config::{ParseConfig, ParseOptions, UnparseConfig, UnparseOptions};
use crate::error::{valid_name, validate_element_name, ErrorView, StructuralError, XmlError};
use crate::hooks::{ForceList, ForceListPredicate, ForcePolicy, Postprocessor, Preprocessor};
use crate::parser::XmlParser;
use crate::state::{
    document, initial_state, may_close, may_comment, may_open, plain_closed, plain_commented,
    plain_opened, with_text, ParserState,
};
use crate::lexer::Failure;
use crate::tokenizer::{events_view, failed, token, EventView, Tokenizer, XmlEvent};
use crate::markup::{
    all_shaped, element_text, header_text, lemma_replies_prefix, replies_text, wrote,
    wrote_items, Reply,
};
use crate::unparser::XmlWriter;
use crate::value::{entries_view, lemma_mapping_view, well_formed, Entries, Tree, Value};
use vstd::prelude::*;

verus! {

/// The state after one event, where no hook is in use. A start tag or an
/// end tag with a malformed name is refused, and so is an end tag while no
/// element is open. Comments count only where they are processed;
/// declarations, processing instructions and document types never do.
pub open spec fn stepped(
    s: ParserState,
    options: ParseOptions,
    policy: ForcePolicy,
    process_comments: bool,
    event: EventView,
) -> Result<ParserState, XmlError> {
    match event {
        EventView::Start { name, attrs } => if valid_name(name) {
            Ok(plain_opened(s, options, name, attrs))
        } else {
            Err(XmlError::MalformedName)
        },
        EventView::End { name } => if !valid_name(name) {
            Err(XmlError::MalformedName)
        } else if s.frames.len() == 0 {
            Err(XmlError::Structure(StructuralError::UnexpectedEndTag))
        } else {
            Ok(plain_closed(s, options, policy, name))
        },
        EventView::Empty { name, attrs } => if valid_name(name) {
            Ok(plain_closed(plain_opened(s, options, name, attrs), options, policy, name))
        } else {
            Err(XmlError::MalformedName)
        },
        EventView::Text(data) => Ok(with_text(s, data)),
        EventView::CData(data) => Ok(with_text(s, data)),
        EventView::Comment(text) => if process_comments {
            Ok(plain_commented(s, options, policy, text))
        } else {
            Ok(s)
        },
        EventView::Other => Ok(s),
        EventView::Eof => Ok(s),
    }
}

/// The state after the events `events` in order, or the first error among
/// them.
pub open spec fn ran(
    s: ParserState,
    options: ParseOptions,
    policy: ForcePolicy,
    process_comments: bool,
    events: Seq<EventView>,
) -> Result<ParserState, XmlError>
    decreases events.len(),
{
    if events.len() == 0 {
        Ok(s)
    } else {
        match ran(s, options, policy, process_comments, events.drop_last()) {
            Ok(before) => stepped(before, options, policy, process_comments, events.last()),
            Err(e) => Err(e),
        }
    }
}

/// The tree of the document that `events` make up, where no hook is in use.
pub open spec fn built(
    options: ParseOptions,
    policy: ForcePolicy,
    process_comments: bool,
    events: Seq<EventView>,
) -> Result<Tree, XmlError> {
    match ran(initial_state(), options, policy, process_comments, events) {
        Ok(s) => match document(s) {
            Ok(tree) => Ok(tree),
            Err(kind) => Err(XmlError::Structure(kind)),
        },
        Err(e) => Err(e),
    }
}

/// Whether one event can lead from `before` to `after`, whatever the
/// hooks answer. `hooked` says whether a postprocessor is in use.
pub open spec fn may_step(
    before: ParserState,
    options: ParseOptions,
    policy: ForcePolicy,
    hooked: bool,
    process_comments: bool,
    event: EventView,
    after: ParserState,
) -> bool {
    match event {
        EventView::Start { name, attrs } => valid_name(name) && may_open(
            before,
            options,
            hooked,
            name,
            attrs,
            after,
        ),
        EventView::End { name } => valid_name(name) && before.frames.len() > 0 && may_close(
            before,
            options,
            policy,
            hooked,
            name,
            after,
        ),
        EventView::Empty { name, attrs } => valid_name(name) && exists|middle: ParserState|
            #[trigger] may_open(before, options, hooked, name, attrs, middle) && may_close(
                middle,
                options,
                policy,
                hooked,
                name,
                after,
            ),
        EventView::Text(data) => after == with_text(before, data),
        EventView::CData(data) => after == with_text(before, data),
        EventView::Comment(text) => if process_comments {
            may_comment(before, options, policy, hooked, text, after)
        } else {
            after == before
        },
        EventView::Other => after == before,
        EventView::Eof => after == before,
    }
}

/// Whether `states` are states that the events `events` can lead through
/// from `s`, one event between each state and the next, whatever the hooks
/// answer.
pub open spec fn follows(
    s: ParserState,
    options: ParseOptions,
    policy: ForcePolicy,
    hooked: bool,
    process_comments: bool,
    events: Seq<EventView>,
    states: Seq<ParserState>,
) -> bool {
    &&& states.len() == events.len() + 1
    &&& states[0] == s
    &&& forall|i: int|
        0 <= i < events.len() ==> may_step(
            #[trigger] states[i],
            options,
            policy,
            hooked,
            process_comments,
            events[i],
            states[i + 1],
        )
}

/// Whether the events `events` in order can lead from `s` to `after`,
/// whatever the hooks answer.
pub open spec fn may_run(
    s: ParserState,
    options: ParseOptions,
    policy: ForcePolicy,
    hooked: bool,
    process_comments: bool,
    events: Seq<EventView>,
    after: ParserState,
) -> bool {
    exists|states: Seq<ParserState>| #[trigger]
        follows(s, options, policy, hooked, process_comments, events, states) && states.last()
            == after
}

/// Without hooks an event can lead to one state only: that of `stepped`.
pub proof fn lemma_may_step_plain(
    before: ParserState,
    options: ParseOptions,
    policy: ForcePolicy,
    process_comments: bool,
    event: EventView,
    after: ParserState,
)
    requires
        !(policy is Predicate),
        may_step(before, options, policy, false, process_comments, event, after),
    ensures
        stepped(before, options, policy, process_comments, event) == Ok::<ParserState, XmlError>(
            after,
        ),
{
    reveal(may_open);
    reveal(may_close);
    reveal(may_comment);
}

/// Without hooks events can lead through one sequence of states only:
/// those of `ran`.
pub proof fn lemma_follows_plain(
    s: ParserState,
    options: ParseOptions,
    policy: ForcePolicy,
    process_comments: bool,
    events: Seq<EventView>,
    states: Seq<ParserState>,
)
    requires
        !(policy is Predicate),
        follows(s, options, policy, false, process_comments, events, states),
    ensures
        ran(s, options, policy, process_comments, events) == Ok::<ParserState, XmlError>(
            states.last(),
        ),
    decreases events.len(),
{
    if events.len() > 0 {
        let n = events.len() - 1;
        let earlier = states.drop_last();
        assert forall|i: int| 0 <= i < n implies may_step(
            #[trigger] earlier[i],
            options,
            policy,
            false,
            process_comments,
            events.drop_last()[i],
            earlier[i + 1],
        ) by {
            assert(earlier[i] == states[i]);
        }
        lemma_follows_plain(s, options, policy, process_comments, events.drop_last(), earlier);
        assert(earlier.last() == states[n]);
        lemma_may_step_plain(states[n], options, policy, process_comments, events[n], states[n + 1]);
    }
}

/// One more event that can lead on from the last state makes the states
/// one longer.
pub proof fn lemma_follows_push(
    s: ParserState,
    options: ParseOptions,
    policy: ForcePolicy,
    hooked: bool,
    process_comments: bool,
    events: Seq<EventView>,
    states: Seq<ParserState>,
    event: EventView,
    after: ParserState,
)
    requires
        follows(s, options, policy, hooked, process_comments, events, states),
        may_step(states.last(), options, policy, hooked, process_comments, event, after),
    ensures
        follows(s, options, policy, hooked, process_comments, events.push(event), states.push(after)),
{
    let longer = states.push(after);
    assert forall|i: int| 0 <= i < events.len() + 1 implies may_step(
        #[trigger] longer[i],
        options,
        policy,
        hooked,
        process_comments,
        events.push(event)[i],
        longer[i + 1],
    ) by {
        if i < events.len() {
            assert(longer[i] == states[i]);
        }
    }
}

/// Hands one event to the builder.
///
/// Where the event is taken, the builder is afterwards in a state that
/// `may_step` allows. Without hooks that is the state `stepped`, and the
/// event is refused exactly where `stepped` refuses it.
pub fn feed<P: Postprocessor, F: ForceListPredicate>(
    parser: &mut XmlParser<P, F>,
    event: &XmlEvent,
    process_comments: bool,
) -> (r: Result<(), XmlError>)
    requires
        old(parser).wf(),
    ensures
        final(parser).wf(),
        final(parser).same_setup(old(parser)),
        r is Ok ==> may_step(
            old(parser)@,
            old(parser).options(),
            old(parser).policy(),
            old(parser).has_postprocessor(),
            process_comments,
            event@,
            final(parser)@,
        ),
        old(parser).is_plain() ==> match stepped(
            old(parser)@,
            old(parser).options(),
            old(parser).policy(),
            process_comments,
            event@,
        ) {
            Ok(s) => r is Ok && final(parser)@ == s,
            Err(e) => r == Err::<(), XmlError>(e),
        },
        r matches Err(e) ==> e == XmlError::MalformedName || e == XmlError::Structure(
            StructuralError::UnexpectedEndTag,
        ) || (e is Hook && !old(parser).is_plain()),
{
    match event {
        XmlEvent::Start { name, attrs } => parser.start_element(name.as_str(), attrs),
        XmlEvent::End { name } => match validate_element_name(name.as_str()) {
            Ok(()) => parser.end_element(name.as_str()),
            Err(e) => Err(e),
        },
        XmlEvent::Empty { name, attrs } => match parser.start_element(name.as_str(), attrs) {
            Ok(()) => {
                let ghost middle = parser@;
                let r = parser.end_element(name.as_str());
                assert(r is Ok ==> may_open(
                    old(parser)@,
                    parser.options(),
                    parser.has_postprocessor(),
                    name@,
                    crate::parser::attrs_view(attrs@),
                    middle,
                ) && may_close(
                    middle,
                    parser.options(),
                    parser.policy(),
                    parser.has_postprocessor(),
                    name@,
                    parser@,
                ));
                r
            },
            Err(e) => Err(e),
        },
        XmlEvent::Text(data) => {
            parser.characters(data.as_str());
            Ok(())
        },
        XmlEvent::CData(data) => {
            parser.characters(data.as_str());
            Ok(())
        },
        XmlEvent::Comment(text) => if process_comments {
            parser.comment(text.as_str())
        } else {
            Ok(())
        },
        XmlEvent::Other => Ok(()),
        XmlEvent::Eof => Ok(()),
    }
}

/// Builds the tree of the document that `events` make up.
///
/// The result is the document of a state that `may_run` allows for the
/// events. Without hooks it is `built`: the tree, or the first error.
#[verifier::loop_isolation(false)]
pub fn build_document<P: Postprocessor, F: ForceListPredicate>(
    events: &Vec<XmlEvent>,
    config: ParseConfig,
    force_list: ForceList<F>,
    postprocessor: Option<P>,
    process_comments: bool,
) -> (r: Result<Value, XmlError>)
    ensures
        r matches Ok(value) ==> exists|end: ParserState| #[trigger]
            may_run(
                initial_state(),
                config@,
                force_list@,
                postprocessor is Some,
                process_comments,
                events_view(events@),
                end,
            ) && document(end) == Ok::<Tree, StructuralError>(value@),
        postprocessor is None && !(force_list@ is Predicate) ==> match built(
            config@,
            force_list@,
            process_comments,
            events_view(events@),
        ) {
            Ok(tree) => r matches Ok(value) && value@ == tree && well_formed(tree),
            Err(e) => r == Err::<Value, XmlError>(e),
        },
        r matches Err(e) ==> e == XmlError::MalformedName || e is Structure || (e is Hook && !(
        postprocessor is None && !(force_list@ is Predicate))),
{
    let ghost options = config@;
    let ghost policy = force_list@;
    let ghost all = events_view(events@);
    let mut parser = XmlParser::new(config, force_list, postprocessor);
    let ghost mut states: Seq<ParserState> = seq![initial_state()];
    let mut i: usize = 0;
    while i < events.len()
        invariant
            i <= events@.len(),
            all == events_view(events@),
            parser.wf(),
            parser.options() == options,
            parser.policy() == policy,
            parser.has_postprocessor() == postprocessor is Some,
            follows(
                initial_state(),
                options,
                policy,
                postprocessor is Some,
                process_comments,
                all.take(i as int),
                states,
            ),
            states.last() == parser@,
            parser.is_plain() ==> ran(
                initial_state(),
                options,
                policy,
                process_comments,
                all.take(i as int),
            ) == Ok::<ParserState, XmlError>(parser@),
        decreases events@.len() - i,
    {
        proof {
            assert(all.take(i + 1).drop_last() == all.take(i as int));
            assert(all.take(i + 1).last() == events@[i as int]@);
        }
        match feed(&mut parser, &events[i], process_comments) {
            Ok(()) => {
                proof {
                    lemma_follows_push(
                        initial_state(),
                        options,
                        policy,
                        postprocessor is Some,
                        process_comments,
                        all.take(i as int),
                        states,
                        events@[i as int]@,
                        parser@,
                    );
                    assert(all.take(i as int).push(events@[i as int]@) == all.take(i + 1));
                    states = states.push(parser@);
                }
            },
            Err(e) => {
                proof {
                    if parser.is_plain() {
                        lemma_ran_fails(
                            initial_state(),
                            options,
                            policy,
                            process_comments,
                            all,
                            i as int + 1,
                        );
                    }
                }
                return Err(e);
            },
        }
        i += 1;
    }
    assert(all.take(events@.len() as int) == all);
    assert(may_run(
        initial_state(),
        options,
        policy,
        postprocessor is Some,
        process_comments,
        all,
        parser@,
    ));
    parser.finish()
}

/// Once a beginning of the events fails, the whole fails alike.
pub proof fn lemma_ran_fails(
    s: ParserState,
    options: ParseOptions,
    policy: ForcePolicy,
    process_comments: bool,
    events: Seq<EventView>,
    n: int,
)
    requires
        0 <= n <= events.len(),
        ran(s, options, policy, process_comments, events.take(n)) is Err,
    ensures
        ran(s, options, policy, process_comments, events) == ran(
            s,
            options,
            policy,
            process_comments,
            events.take(n),
        ),
    decreases events.len() - n,
{
    if n < events.len() {
        assert(events.take(n + 1).drop_last() == events.take(n));
        lemma_ran_fails(s, options, policy, process_comments, events, n + 1);
    } else {
        assert(events.take(n) == events);
    }
}

/// The message for an input that has more events than can be counted.
pub open spec fn too_many_events() -> Seq<char> {
    "the input has more events than can be counted"@
}

/// The events number 0 to `n - 1` of the input `xml`, where none of them
/// is a failure.
pub open spec fn tokens(xml: Seq<u8>, trim: bool, read: bool, n: nat) -> Seq<EventView> {
    Seq::new(
        n,
        |k: int|
            match token(xml, trim, read, k as nat) {
                Ok(event) => event,
                Err(_) => EventView::Eof,
            },
    )
}

/// Whether the input `xml` has `n` events before its end, none of them a
/// failure.
pub open spec fn ends_after(xml: Seq<u8>, trim: bool, read: bool, n: nat) -> bool {
    &&& token(xml, trim, read, n) == Ok::<EventView, Failure>(EventView::Eof)
    &&& forall|k: nat|
        k < n ==> (#[trigger] token(xml, trim, read, k)) is Ok && token(xml, trim, read, k)
            != Ok::<EventView, Failure>(EventView::Eof)
}

/// What parsing without hooks gives from the state `s` on, where the input
/// `xml` is at its event number `k` and `fuel` more events can be counted:
/// the failure of the tokenizer or the first event that is refused, else
/// the document at the end of the input.
pub open spec fn outcome_from(
    s: ParserState,
    options: ParseOptions,
    policy: ForcePolicy,
    process_comments: bool,
    xml: Seq<u8>,
    trim: bool,
    k: nat,
    fuel: nat,
) -> Result<Tree, ErrorView>
    decreases fuel,
{
    if fuel == 0 {
        Err(ErrorView::Tokenizer(too_many_events()))
    } else {
        match token(xml, trim, options.xml_attribs, k) {
            Err(failure) => Err(failed(failure)),
            Ok(EventView::Eof) => match document(s) {
                Ok(tree) => Ok(tree),
                Err(kind) => Err(ErrorView::Structure(kind)),
            },
            Ok(event) => match stepped(s, options, policy, process_comments, event) {
                Err(e) => Err(e@),
                Ok(after) => outcome_from(
                    after,
                    options,
                    policy,
                    process_comments,
                    xml,
                    trim,
                    k + 1,
                    (fuel - 1) as nat,
                ),
            },
        }
    }
}

/// What parsing the input `xml` without hooks gives: the tree of the
/// document, or the error for which the input is refused.
pub open spec fn outcome(
    options: ParseOptions,
    policy: ForcePolicy,
    process_comments: bool,
    xml: Seq<u8>,
    trim: bool,
) -> Result<Tree, ErrorView> {
    outcome_from(
        initial_state(),
        options,
        policy,
        process_comments,
        xml,
        trim,
        0,
        usize::MAX as nat,
    )
}

/// The result of the builder as the result of parsing.
pub open spec fn result_view(r: Result<Tree, XmlError>) -> Result<Tree, ErrorView> {
    match r {
        Ok(tree) => Ok(tree),
        Err(e) => Err(e@),
    }
}

/// Where the input has `n` events before its end, and the builder has
/// reached `s` after the first `k` of them, parsing from there on gives
/// what the builder makes of all `n`.
pub proof fn lemma_outcome_from(
    s: ParserState,
    options: ParseOptions,
    policy: ForcePolicy,
    process_comments: bool,
    xml: Seq<u8>,
    trim: bool,
    k: nat,
    n: nat,
    fuel: nat,
)
    requires
        ends_after(xml, trim, options.xml_attribs, n),
        k <= n,
        fuel > n - k,
        ran(
            initial_state(),
            options,
            policy,
            process_comments,
            tokens(xml, trim, options.xml_attribs, k),
        ) == Ok::<ParserState, XmlError>(s),
    ensures
        outcome_from(s, options, policy, process_comments, xml, trim, k, fuel) == result_view(
            built(options, policy, process_comments, tokens(xml, trim, options.xml_attribs, n)),
        ),
    decreases n - k,
{
    let read = options.xml_attribs;
    let all = tokens(xml, trim, read, n);
    if k == n {
    } else {
        let event = token(xml, trim, read, k)->Ok_0;
        let next = tokens(xml, trim, read, k + 1);
        assert(token(xml, trim, read, k) is Ok);
        assert(next.drop_last() =~= tokens(xml, trim, read, k));
        assert(next.last() == event);
        assert(all.take(k as int + 1) =~= next);
        match stepped(s, options, policy, process_comments, event) {
            Err(e) => {
                lemma_ran_fails(
                    initial_state(),
                    options,
                    policy,
                    process_comments,
                    all,
                    k as int + 1,
                );
            },
            Ok(after) => {
                lemma_outcome_from(
                    after,
                    options,
                    policy,
                    process_comments,
                    xml,
                    trim,
                    k + 1,
                    n,
                    (fuel - 1) as nat,
                );
            },
        }
    }
}

/// Parsing an input that has `n` events before its end gives what the
/// builder makes of those events.
pub proof fn lemma_outcome_of_tokens(
    options: ParseOptions,
    policy: ForcePolicy,
    process_comments: bool,
    xml: Seq<u8>,
    trim: bool,
    n: nat,
)
    requires
        ends_after(xml, trim, options.xml_attribs, n),
        n < usize::MAX,
    ensures
        outcome(options, policy, process_comments, xml, trim) == result_view(
            built(options, policy, process_comments, tokens(xml, trim, options.xml_attribs, n)),
        ),
{
    assert(tokens(xml, trim, options.xml_attribs, 0) =~= Seq::<EventView>::empty());
    lemma_outcome_from(
        initial_state(),
        options,
        policy,
        process_comments,
        xml,
        trim,
        0,
        n,
        usize::MAX as nat,
    );
}

/// Parses the document in `xml_bytes`.
///
/// The tokenizer yields the events of the input, with white space around
/// character data left out where `strip_whitespace` is set, and each event
/// goes to the builder at once. Without hooks the result is `outcome`. With
/// hooks a tree is the document of a state that `may_run` allows for the
/// events of the input.
#[verifier::loop_isolation(false)]
pub fn parse_xml_with_parser<P: Postprocessor, F: ForceListPredicate>(
    xml_bytes: &[u8],
    config: ParseConfig,
    force_list: ForceList<F>,
    postprocessor: Option<P>,
    strip_whitespace: bool,
    process_comments: bool,
) -> (r: Result<Value, XmlError>)
    ensures
        postprocessor is None && !(force_list@ is Predicate) ==> match outcome(
            config@,
            force_list@,
            process_comments,
            xml_bytes@,
            strip_whitespace,
        ) {
            Ok(tree) => r matches Ok(value) && value@ == tree && well_formed(tree),
            Err(e) => r matches Err(x) && x@ == e,
        },
        r matches Ok(value) ==> exists|n: nat, end: ParserState|
            ends_after(xml_bytes@, strip_whitespace, config@.xml_attribs, n) && #[trigger] may_run(
                initial_state(),
                config@,
                force_list@,
                postprocessor is Some,
                process_comments,
                tokens(xml_bytes@, strip_whitespace, config@.xml_attribs, n),
                end,
            ) && document(end) == Ok::<Tree, StructuralError>(value@),
        r matches Err(e) ==> e is Tokenizer || e is Adapter || e == XmlError::MalformedName || e is Structure
            || (e is Hook && !(postprocessor is None && !(force_list@ is Predicate))),
{
    let ghost options = config@;
    let ghost policy = force_list@;
    let ghost plain = postprocessor is None && !(force_list@ is Predicate);
    let ghost xml = xml_bytes@;
    let read = config.xml_attribs;
    let mut parser = XmlParser::new(config, force_list, postprocessor);
    let mut tokenizer = Tokenizer::new(xml_bytes, strip_whitespace, read);
    let ghost mut states: Seq<ParserState> = seq![initial_state()];
    let mut budget: usize = usize::MAX;
    assert(tokens(xml, strip_whitespace, read, 0) =~= Seq::<EventView>::empty());
    while budget > 0
        invariant
            parser.wf(),
            parser.options() == options,
            parser.policy() == policy,
            parser.is_plain() == plain,
            parser.has_postprocessor() == postprocessor is Some,
            tokenizer.wf(),
            tokenizer.source() == xml,
            tokenizer.trims() == strip_whitespace,
            tokenizer.reads_attributes() == read,
            tokenizer.count() + budget == usize::MAX,
            forall|k: nat|
                k < tokenizer.count() ==> (#[trigger] token(xml, strip_whitespace, read, k)) is Ok
                    && token(xml, strip_whitespace, read, k) != Ok::<EventView, Failure>(
                    EventView::Eof,
                ),
            follows(
                initial_state(),
                options,
                policy,
                postprocessor is Some,
                process_comments,
                tokens(xml, strip_whitespace, read, tokenizer.count()),
                states,
            ),
            states.last() == parser@,
            plain ==> outcome(options, policy, process_comments, xml, strip_whitespace)
                == outcome_from(
                parser@,
                options,
                policy,
                process_comments,
                xml,
                strip_whitespace,
                tokenizer.count(),
                budget as nat,
            ),
        decreases budget,
    {
        let ghost k = tokenizer.count();
        let ghost seen = tokens(xml, strip_whitespace, read, k);
        budget -= 1;
        let event = match tokenizer.next_event() {
            Ok(event) => event,
            Err(e) => {
                return Err(e);
            },
        };
        if let XmlEvent::Eof = event {
            assert(may_run(
                initial_state(),
                options,
                policy,
                postprocessor is Some,
                process_comments,
                seen,
                parser@,
            ));
            assert(ends_after(xml, strip_whitespace, read, k));
            return parser.finish();
        }
        match feed(&mut parser, &event, process_comments) {
            Ok(()) => {
                proof {
                    lemma_follows_push(
                        initial_state(),
                        options,
                        policy,
                        postprocessor is Some,
                        process_comments,
                        seen,
                        states,
                        event@,
                        parser@,
                    );
                    states = states.push(parser@);
                    assert(tokens(xml, strip_whitespace, read, k + 1) =~= seen.push(event@));
                }
            },
            Err(e) => {
                return Err(e);
            },
        }
    }
    Err(XmlError::Tokenizer("the input has more events than can be counted".to_owned()))
}

/// Parses the document in `xml`, with the tokenizer and the builder set up
/// from `config`. Without hooks the result is `outcome`.
pub fn parse<P: Postprocessor, F: ForceListPredicate>(
    xml: &[u8],
    config: ParseConfig,
    force_list: ForceList<F>,
    postprocessor: Option<P>,
) -> (r: Result<Value, XmlError>)
    ensures
        postprocessor is None && !(force_list@ is Predicate) ==> match outcome(
            config@,
            force_list@,
            config@.process_comments,
            xml@,
            config@.strip_whitespace,
        ) {
            Ok(tree) => r matches Ok(value) && value@ == tree && well_formed(tree),
            Err(e) => r matches Err(x) && x@ == e,
        },
        r matches Ok(value) ==> exists|n: nat, end: ParserState|
            ends_after(xml@, config@.strip_whitespace, config@.xml_attribs, n) && #[trigger] may_run(
                initial_state(),
                config@,
                force_list@,
                postprocessor is Some,
                config@.process_comments,
                tokens(xml@, config@.strip_whitespace, config@.xml_attribs, n),
                end,
            ) && document(end) == Ok::<Tree, StructuralError>(value@),
        r matches Err(e) ==> e is Tokenizer || e is Adapter || e == XmlError::MalformedName || e is Structure
            || (e is Hook && !(postprocessor is None && !(force_list@ is Predicate))),
{
    let strip_whitespace = config.strip_whitespace;
    let process_comments = config.process_comments;
    parse_xml_with_parser(
        xml,
        config,
        force_list,
        postprocessor,
        strip_whitespace,
        process_comments,
    )
}

/// The entries that a value offers as the roots of a document: those of a
/// mapping, and none for any other value.
pub open spec fn roots_of(value: Tree) -> Entries {
    match value {
        Tree::Mapping(entries) => entries,
        _ => Seq::empty(),
    }
}

/// The markup of the first `n` roots, each an element at the outermost
/// level.
pub open spec fn roots_text(options: UnparseOptions, roots: Entries, n: nat) -> Seq<char>
    decreases n,
{
    if n == 0 {
        Seq::empty()
    } else {
        roots_text(options, roots, (n - 1) as nat) + element_text(
            options,
            roots[n - 1].0,
            roots[n - 1].1,
            n > 1,
            0,
        )
    }
}

/// The markup of a document, where no preprocessor is in use: the
/// declaration, where a full document is asked for, and the roots.
pub open spec fn document_text(options: UnparseOptions, value: Tree) -> Seq<char> {
    header_text(options) + roots_text(options, roots_of(value), roots_of(value).len())
}

/// Whether a document can be made of `value`: a full document has exactly
/// one root.
pub open spec fn root_count_accepted(options: UnparseOptions, value: Tree) -> bool {
    !options.full_document || roots_of(value).len() == 1
}

/// Whether `text` is the markup of a document of which the preprocessor
/// made `replies`, one for each root: the declaration, where a full
/// document is asked for, and what the replies leave of the roots.
pub open spec fn may_write(
    options: UnparseOptions,
    value: Tree,
    replies: Seq<Reply>,
    text: Seq<char>,
) -> bool {
    wrote_items(options, header_text(options), text, roots_of(value).len(), replies, false, 0)
}

/// Writes the markup of the document `input`.
///
/// A full document must have exactly one root: any other value is refused
/// before anything is written. Without a preprocessor nothing else is
/// refused, and what is written is `document_text`. With one, it is the
/// declaration and then, root by root, the element that the preprocessor
/// made of it; the preprocessor may fail, or make elements that nest
/// deeper than the machine can count.
#[verifier::loop_isolation(false)]
pub fn unparse<R: Preprocessor>(input: &Value, config: UnparseConfig, preprocessor: Option<R>) -> (r:
    Result<String, XmlError>)
    ensures
        !root_count_accepted(config@, input@) ==> r == Err::<String, XmlError>(
            XmlError::Structure(StructuralError::RootCount),
        ),
        root_count_accepted(config@, input@) && preprocessor is None ==> (r matches Ok(text)
            && text@ == document_text(config@, input@)),
        r matches Ok(text) ==> exists|replies: Seq<Reply>| #[trigger]
            may_write(config@, input@, replies, text@),
        r matches Err(e) ==> (e == XmlError::Structure(StructuralError::RootCount)
            && !root_count_accepted(config@, input@)) || (preprocessor is Some && (e is Hook || e
            == XmlError::Structure(StructuralError::TooDeep))),
{
    let ghost options = config@;
    let empty: Vec<(String, Value)> = Vec::new();
    let roots: &Vec<(String, Value)> = match input {
        Value::Mapping(entries) => {
            proof {
                lemma_mapping_view(*entries);
            }
            entries
        },
        _ => &empty,
    };
    let ghost all = entries_view(roots@);
    assert(all =~= roots_of(input@));
    if config.full_document && roots.len() != 1 {
        return Err(XmlError::Structure(StructuralError::RootCount));
    }
    let mut writer = XmlWriter::new(config, preprocessor);
    writer.write_header();
    let ghost header = writer.written();
    assert(header =~= header_text(options));
    let ghost mut replies: Seq<Reply> = Seq::empty();
    let mut i: usize = 0;
    proof {
        assert(header =~= header + replies_text(options, replies, false, 0, 0));
    }
    while i < roots.len()
        invariant
            i <= roots@.len(),
            replies.len() == i,
            all_shaped(replies, i as nat),
            writer.written() == header + replies_text(options, replies, false, 0, i as nat),
            writer.options() == options,
            writer.has_preprocessor() == preprocessor is Some,
            writer.level() == 0,
            writer.wf(),
            preprocessor is None ==> writer.written() == header + roots_text(options, all, i as nat),
        decreases roots@.len() - i,
    {
        assert(all[i as int] == (roots@[i as int].0@, roots@[i as int].1@));
        let ghost before = writer.written();
        match writer.write_element(roots[i].0.as_str(), &roots[i].1, i > 0) {
            Ok(()) => {},
            Err(e) => {
                return Err(e);
            },
        }
        proof {
            let apart = i > 0;
            let reply = choose|reply: Reply| #[trigger]
                wrote(options, before, writer.written(), reply, apart, 0);
            let longer = replies.push(reply);
            lemma_replies_prefix(options, replies, longer, false, 0, i as nat);
            assert(longer[i as int] == reply);
            assert(writer.written() =~= header + replies_text(
                options,
                longer,
                false,
                0,
                (i + 1) as nat,
            ));
            assert(all_shaped(longer, (i + 1) as nat));
            replies = longer;
        }
        assert(preprocessor is None ==> writer.written() =~= header + roots_text(
            options,
            all,
            (i + 1) as nat,
        ));
        i += 1;
    }
    let text = writer.finish();
    proof {
        assert(all.len() == roots_of(input@).len());
        assert(may_write(options, input@, replies, text@));
    }
    let r = Ok(text);
    proof {
        assert(r matches Ok(t) && may_write(options, input@, replies, t@));
    }
    r
}

} // verus!
