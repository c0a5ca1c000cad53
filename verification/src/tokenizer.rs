//! The events of a document as plain values, and the way from the input to
//! them.

use crate::error::{ErrorView, XmlError};
use crate::lexer::{
    attribute_name, attribute_value, attributes_left, cdata_text, classify, comment_text, end_name,
    error_failure, error_message, event_raw, is_io_error, next_attribute, raw_token, read_event,
    reader_count, reader_over, reader_setup, reader_source, set_check_comments, set_check_end_names,
    set_expand_empty_elements, set_trim_text, start_attributes, start_attributes_of, start_name,
    start_name_of, text_result, unescaped_text, AttributeView, Failure, RawEvent, RawView,
    TextResult,
};
use crate::namespace::Pairs;
use crate::parser::{attrs_view, XmlAttribute};
use vstd::prelude::*;

verus! {

/// An event of a document, as plain values.
#[derive(Debug, PartialEq, Eq)]
pub enum XmlEvent {
    /// A start tag, with its attributes in order.
    Start { name: String, attrs: Vec<XmlAttribute> },
    /// An end tag.
    End { name: String },
    /// A tag that opens and closes an element at once.
    Empty { name: String, attrs: Vec<XmlAttribute> },
    /// Character data, with entities resolved.
    Text(String),
    /// The content of a CDATA section.
    CData(String),
    /// The text of a comment.
    Comment(String),
    /// A declaration, a processing instruction or a document type.
    Other,
    /// The end of the input.
    Eof,
}

/// Mathematical model of an [`XmlEvent`].
pub enum EventView {
    Start { name: Seq<char>, attrs: Pairs },
    End { name: Seq<char> },
    Empty { name: Seq<char>, attrs: Pairs },
    Text(Seq<char>),
    CData(Seq<char>),
    Comment(Seq<char>),
    Other,
    Eof,
}

impl View for XmlEvent {
    type V = EventView;

    open spec fn view(&self) -> EventView {
        match self {
            XmlEvent::Start { name, attrs } => EventView::Start {
                name: name@,
                attrs: attrs_view(attrs@),
            },
            XmlEvent::End { name } => EventView::End { name: name@ },
            XmlEvent::Empty { name, attrs } => EventView::Empty {
                name: name@,
                attrs: attrs_view(attrs@),
            },
            XmlEvent::Text(s) => EventView::Text(s@),
            XmlEvent::CData(s) => EventView::CData(s@),
            XmlEvent::Comment(s) => EventView::Comment(s@),
            XmlEvent::Other => EventView::Other,
            XmlEvent::Eof => EventView::Eof,
        }
    }
}

/// The error of this crate for a failure of the tokenizer: `Adapter` where
/// the source of bytes failed, and `Tokenizer` where the input is refused,
/// each with the tokenizer's message.
pub open spec fn failed(failure: Failure) -> ErrorView {
    if failure.0 {
        ErrorView::Adapter(failure.1)
    } else {
        ErrorView::Tokenizer(failure.1)
    }
}

/// Whether `r` is what this crate makes of the tokenizer's answer
/// `answer`: the value, or the error for the failure.
pub open spec fn follows_answer<T: View>(r: Result<T, XmlError>, answer: Result<T::V, Failure>) -> bool {
    match answer {
        Ok(value) => r matches Ok(x) && x@ == value,
        Err(failure) => r matches Err(e) && e@ == failed(failure),
    }
}

/// The attributes that a start tag hands to the builder, made of what the
/// tokenizer yields for them: the first failure among the attributes,
/// their names and their values, else the names and values in order. Where
/// attributes are not read, names and values are not looked at, and no
/// attribute is handed on.
pub open spec fn attributes_converted(items: Seq<AttributeView>, read: bool) -> Result<Pairs, Failure>
    decreases items.len(),
{
    if items.len() == 0 {
        Ok(Seq::empty())
    } else {
        match attributes_converted(items.drop_last(), read) {
            Err(failure) => Err(failure),
            Ok(before) => match items.last() {
                Err(failure) => Err(failure),
                Ok((name, value)) => if !read {
                    Ok(before)
                } else {
                    match name {
                        Err(failure) => Err(failure),
                        Ok(n) => match value {
                            Err(failure) => Err(failure),
                            Ok(v) => Ok(before.push((n, v))),
                        },
                    }
                },
            },
        }
    }
}

/// The name and the attributes of a start tag, or the first failure among
/// them, the name first.
pub open spec fn start_converted(name: TextResult, attrs: Seq<AttributeView>, read: bool) -> Result<
    (Seq<char>, Pairs),
    Failure,
> {
    match name {
        Err(failure) => Err(failure),
        Ok(n) => match attributes_converted(attrs, read) {
            Err(failure) => Err(failure),
            Ok(a) => Ok((n, a)),
        },
    }
}

/// The event that this crate makes of an event of the tokenizer, or the
/// failure for which it is refused.
pub open spec fn converted(raw: RawView, read: bool) -> Result<EventView, Failure> {
    match raw {
        RawView::Start { name, attrs } => match start_converted(name, attrs, read) {
            Ok((n, a)) => Ok(EventView::Start { name: n, attrs: a }),
            Err(failure) => Err(failure),
        },
        RawView::Empty { name, attrs } => match start_converted(name, attrs, read) {
            Ok((n, a)) => Ok(EventView::Empty { name: n, attrs: a }),
            Err(failure) => Err(failure),
        },
        RawView::End { name } => match name {
            Ok(n) => Ok(EventView::End { name: n }),
            Err(failure) => Err(failure),
        },
        RawView::Text(text) => match text {
            Ok(t) => Ok(EventView::Text(t)),
            Err(failure) => Err(failure),
        },
        RawView::CData(text) => match text {
            Ok(t) => Ok(EventView::CData(t)),
            Err(failure) => Err(failure),
        },
        RawView::Comment(text) => match text {
            Ok(t) => Ok(EventView::Comment(t)),
            Err(failure) => Err(failure),
        },
        RawView::Other => Ok(EventView::Other),
        RawView::Eof => Ok(EventView::Eof),
    }
}

/// The event number `k`, counted from 0, of the input `xml`, as this crate
/// takes it from a tokenizer that checks end tags and comments and splits
/// tags that close themselves; or the failure in its place. `trim` says
/// whether white space around character data is left out, and `read`
/// whether the names and values of attributes are read.
pub open spec fn token(xml: Seq<u8>, trim: bool, read: bool, k: nat) -> Result<EventView, Failure> {
    match raw_token(xml, (trim, true, true, true), k) {
        Ok(raw) => converted(raw, read),
        Err(failure) => Err(failure),
    }
}

/// Once the first attributes fail, all of them fail alike.
pub proof fn lemma_attributes_fail(items: Seq<AttributeView>, read: bool, n: int)
    requires
        0 <= n <= items.len(),
        attributes_converted(items.take(n), read) is Err,
    ensures
        attributes_converted(items, read) == attributes_converted(items.take(n), read),
    decreases items.len() - n,
{
    if n < items.len() {
        assert(items.take(n + 1).drop_last() == items.take(n));
        lemma_attributes_fail(items, read, n + 1);
    } else {
        assert(items.take(n) == items);
    }
}

/// The error of this crate for a failure that the tokenizer reported with
/// `message`: `Adapter` where the source of bytes failed, and `Tokenizer`
/// where the input is refused.
pub fn tokenizer_failure(source_failed: bool, message: String) -> (r: XmlError)
    ensures
        r == if source_failed {
            XmlError::Adapter(message)
        } else {
            XmlError::Tokenizer(message)
        },
{
    if source_failed {
        XmlError::Adapter(message)
    } else {
        XmlError::Tokenizer(message)
    }
}

/// Turns an error of the tokenizer into an error of this crate: a failure
/// of the source of bytes into `Adapter`, anything else into `Tokenizer`,
/// each with the tokenizer's message.
pub fn map_quick_xml_error(error: quick_xml::Error) -> (r: XmlError)
    ensures
        r@ == failed(error_failure(error)),
{
    let message = error_message(&error);
    tokenizer_failure(is_io_error(&error), message)
}

/// The model of a list of events.
pub open spec fn events_view(events: Seq<XmlEvent>) -> Seq<EventView> {
    Seq::new(events.len(), |i: int| events[i]@)
}

/// A text that the tokenizer handed out, or the error of this crate in the
/// place of the tokenizer's.
fn plain_text(text: Result<String, quick_xml::Error>) -> (r: Result<String, XmlError>)
    ensures
        follows_answer(r, text_result(text)),
{
    match text {
        Ok(text) => Ok(text),
        Err(e) => Err(map_quick_xml_error(e)),
    }
}

/// The attributes of a start tag as plain values, or the first error among
/// them. Where attributes are not read, their names and values are not
/// looked at.
#[verifier::loop_isolation(false)]
fn plain_attributes(tag: &quick_xml::events::BytesStart<'static>, read: bool) -> (r: Result<
    Vec<XmlAttribute>,
    XmlError,
>)
    ensures
        match attributes_converted(start_attributes_of(*tag), read) {
            Ok(pairs) => r matches Ok(attrs) && attrs_view(attrs@) == pairs,
            Err(failure) => r matches Err(e) && e@ == failed(failure),
        },
{
    let ghost all = start_attributes_of(*tag);
    let mut raw = start_attributes(tag);
    let mut attrs: Vec<XmlAttribute> = Vec::new();
    let ghost mut seen: int = 0;
    assert(all.skip(0) == all);
    assert(attrs_view(attrs@) =~= Seq::<(Seq<char>, Seq<char>)>::empty());
    loop
        invariant
            0 <= seen <= all.len(),
            attributes_left(raw) == all.skip(seen),
            attributes_converted(all.take(seen), read) == Ok::<Pairs, Failure>(attrs_view(attrs@)),
        decreases attributes_left(raw).len(),
    {
        let ghost before = attrs_view(attrs@);
        proof {
            if seen < all.len() {
                assert(all.take(seen + 1).drop_last() == all.take(seen));
                assert(all.skip(seen)[0] == all[seen]);
                assert(all.skip(seen).drop_first() == all.skip(seen + 1));
            }
        }
        match next_attribute(&mut raw) {
            None => {
                assert(all.take(seen) == all);
                return Ok(attrs);
            },
            Some(Err(e)) => {
                proof {
                    lemma_attributes_fail(all, read, seen + 1);
                }
                return Err(map_quick_xml_error(e));
            },
            Some(Ok(attribute)) => {
                if read {
                    let key = match plain_text(attribute_name(&attribute)) {
                        Ok(key) => key,
                        Err(e) => {
                            proof {
                                lemma_attributes_fail(all, read, seen + 1);
                            }
                            return Err(e);
                        },
                    };
                    let value = match plain_text(attribute_value(&attribute)) {
                        Ok(value) => value,
                        Err(e) => {
                            proof {
                                lemma_attributes_fail(all, read, seen + 1);
                            }
                            return Err(e);
                        },
                    };
                    attrs.push(XmlAttribute { key, value });
                    assert(attrs_view(attrs@) =~= before.push((key@, value@)));
                }
                proof {
                    seen = seen + 1;
                }
            },
        }
    }
}

/// The name and the attributes of a start tag as plain values.
fn plain_start(tag: &quick_xml::events::BytesStart<'static>, read: bool) -> (r: Result<
    (String, Vec<XmlAttribute>),
    XmlError,
>)
    ensures
        match start_converted(start_name_of(*tag), start_attributes_of(*tag), read) {
            Ok(start) => r matches Ok(x) && x.0@ == start.0 && attrs_view(x.1@) == start.1,
            Err(failure) => r matches Err(e) && e@ == failed(failure),
        },
{
    let name = match plain_text(start_name(tag)) {
        Ok(name) => name,
        Err(e) => {
            return Err(e);
        },
    };
    match plain_attributes(tag, read) {
        Ok(attrs) => Ok((name, attrs)),
        Err(e) => Err(e),
    }
}

/// An event of the tokenizer as plain values. Names, comments and CDATA
/// sections are decoded as UTF-8; character data and the values of
/// attributes have their entities resolved. What cannot be decoded or
/// resolved is an error of the tokenizer.
fn plain_event(raw: RawEvent, read: bool) -> (r: Result<XmlEvent, XmlError>)
    ensures
        follows_answer(r, converted(raw@, read)),
{
    match raw {
        RawEvent::Start(tag) => match plain_start(&tag, read) {
            Ok((name, attrs)) => Ok(XmlEvent::Start { name, attrs }),
            Err(e) => Err(e),
        },
        RawEvent::Empty(tag) => match plain_start(&tag, read) {
            Ok((name, attrs)) => Ok(XmlEvent::Empty { name, attrs }),
            Err(e) => Err(e),
        },
        RawEvent::End(tag) => match plain_text(end_name(&tag)) {
            Ok(name) => Ok(XmlEvent::End { name }),
            Err(e) => Err(e),
        },
        RawEvent::Text(text) => match plain_text(unescaped_text(&text)) {
            Ok(s) => Ok(XmlEvent::Text(s)),
            Err(e) => Err(e),
        },
        RawEvent::CData(text) => match plain_text(cdata_text(&text)) {
            Ok(s) => Ok(XmlEvent::CData(s)),
            Err(e) => Err(e),
        },
        RawEvent::Comment(text) => match plain_text(comment_text(&text)) {
            Ok(s) => Ok(XmlEvent::Comment(s)),
            Err(e) => Err(e),
        },
        RawEvent::Other => Ok(XmlEvent::Other),
        RawEvent::Eof => Ok(XmlEvent::Eof),
    }
}

/// An event as the tokenizer yields it, as plain values: the event that
/// `converted` makes of it, or the error for its failure. This is the way
/// in for a caller that runs the tokenizer over a source of its own.
/// `read_attributes` says whether the names and values of attributes are
/// read.
pub fn convert_event(event: quick_xml::events::Event<'static>, read_attributes: bool) -> (r: Result<
    XmlEvent,
    XmlError,
>)
    ensures
        follows_answer(r, converted(event_raw(event), read_attributes)),
{
    plain_event(classify(event), read_attributes)
}

/// Yields the events of an input one by one.
pub struct Tokenizer<'a> {
    reader: quick_xml::Reader<&'a [u8]>,
    buf: Vec<u8>,
    attributes: bool,
}

impl<'a> Tokenizer<'a> {
    /// The bytes of the input.
    pub closed spec fn source(&self) -> Seq<u8> {
        reader_source(self.reader)
    }

    /// Whether white space around character data is left out.
    pub closed spec fn trims(&self) -> bool {
        reader_setup(self.reader).0
    }

    /// Whether the names and values of attributes are read.
    pub closed spec fn reads_attributes(&self) -> bool {
        self.attributes
    }

    /// How many events were taken so far.
    pub closed spec fn count(&self) -> nat {
        reader_count(self.reader)
    }

    /// Whether the tokenizer checks end tags and comments and splits tags
    /// that close themselves, as `new` sets it up.
    pub closed spec fn wf(&self) -> bool {
        reader_setup(self.reader) == (reader_setup(self.reader).0, true, true, true)
    }

    /// A tokenizer over `xml` that has taken no event. It refuses an end
    /// tag that does not repeat the name of its start tag, and `--` inside
    /// a comment, and it yields a tag that closes itself as a start tag and
    /// an end tag. With `trim`, white space around character data is left
    /// out, and with it the character data that holds nothing else. With
    /// `read_attributes` unset, the names and values of attributes are not
    /// looked at.
    pub fn new(xml: &'a [u8], trim: bool, read_attributes: bool) -> (r: Self)
        ensures
            r.wf(),
            r.source() == xml@,
            r.trims() == trim,
            r.reads_attributes() == read_attributes,
            r.count() == 0,
    {
        let mut reader = reader_over(xml);
        set_trim_text(&mut reader, trim);
        set_check_end_names(&mut reader, true);
        set_check_comments(&mut reader, true);
        set_expand_empty_elements(&mut reader, true);
        Tokenizer { reader, buf: Vec::new(), attributes: read_attributes }
    }

    /// The next event of the input, or why the tokenizer refuses the input:
    /// what `token` gives for the number of events taken before.
    pub fn next_event(&mut self) -> (r: Result<XmlEvent, XmlError>)
        requires
            old(self).wf(),
        ensures
            final(self).wf(),
            final(self).source() == old(self).source(),
            final(self).trims() == old(self).trims(),
            final(self).reads_attributes() == old(self).reads_attributes(),
            final(self).count() == old(self).count() + 1,
            follows_answer(
                r,
                token(
                    old(self).source(),
                    old(self).trims(),
                    old(self).reads_attributes(),
                    old(self).count(),
                ),
            ),
    {
        let event = read_event(&mut self.reader, &mut self.buf);
        self.buf.clear();
        match event {
            Ok(event) => convert_event(event, self.attributes),
            Err(e) => Err(map_quick_xml_error(e)),
        }
    }
}

} // verus!
