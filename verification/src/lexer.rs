//! The tokenizer, which is the crate `quick_xml`.
//!
//! What the tokenizer yields is not restated here: it is given names. The
//! names say that the tokenizer's answers depend on the bytes, on the way
//! the reader was set up and on the number of events read before, and on
//! nothing else; the items here tie the values they hand out to these
//! names, and promise nothing more of them.

use vstd::prelude::*;

verus! {

/// `quick_xml::Reader`: the tokenizer over a source of bytes.
#[verifier::external_type_specification]
#[verifier::external_body]
#[verifier::reject_recursive_types(R)]
pub struct ExReader<R>(quick_xml::Reader<R>);

/// `quick_xml::events::Event`: one event as the tokenizer yields it.
#[verifier::external_type_specification]
#[verifier::external_body]
pub struct ExEvent<'a>(quick_xml::events::Event<'a>);

/// `quick_xml::events::BytesStart`: a start tag with its attributes.
#[verifier::external_type_specification]
#[verifier::external_body]
pub struct ExBytesStart<'a>(quick_xml::events::BytesStart<'a>);

/// `quick_xml::events::BytesEnd`: an end tag.
#[verifier::external_type_specification]
#[verifier::external_body]
pub struct ExBytesEnd<'a>(quick_xml::events::BytesEnd<'a>);

/// `quick_xml::events::BytesText`: character data or a comment, escaped.
#[verifier::external_type_specification]
#[verifier::external_body]
pub struct ExBytesText<'a>(quick_xml::events::BytesText<'a>);

/// `quick_xml::events::BytesCData`: the content of a CDATA section.
#[verifier::external_type_specification]
#[verifier::external_body]
pub struct ExBytesCData<'a>(quick_xml::events::BytesCData<'a>);

/// `quick_xml::events::attributes::Attributes`: what yields the attributes
/// of a start tag.
#[verifier::external_type_specification]
#[verifier::external_body]
pub struct ExAttributes<'a>(quick_xml::events::attributes::Attributes<'a>);

/// `quick_xml::events::attributes::AttrError`: why an attribute is
/// refused.
#[verifier::external_type_specification]
#[verifier::external_body]
pub struct ExAttrError(quick_xml::events::attributes::AttrError);

/// `quick_xml::events::attributes::Attribute`: an attribute as written.
#[verifier::external_type_specification]
#[verifier::external_body]
pub struct ExAttribute<'a>(quick_xml::events::attributes::Attribute<'a>);

/// `quick_xml::Error`: why the tokenizer refused the input.
#[verifier::external_type_specification]
#[verifier::external_body]
pub struct ExError(quick_xml::Error);

/// A failure of the tokenizer: whether the source of bytes failed, and the
/// tokenizer's message.
pub type Failure = (bool, Seq<char>);

/// A text that the tokenizer hands out, or why it cannot.
pub type TextResult = Result<Seq<char>, Failure>;

/// What the tokenizer yields for one attribute: its name and its value,
/// each decoded or refused, or why the attribute itself is refused.
pub type AttributeView = Result<(TextResult, TextResult), Failure>;

/// How a reader is set up: whether it trims character data, checks the
/// names of end tags, checks comments, and splits tags that close
/// themselves.
pub type Setup = (bool, bool, bool, bool);

/// Mathematical model of an event as the tokenizer yields it, with what
/// decoding makes of each of its parts.
pub enum RawView {
    Start { name: TextResult, attrs: Seq<AttributeView> },
    End { name: TextResult },
    Empty { name: TextResult, attrs: Seq<AttributeView> },
    Text(TextResult),
    CData(TextResult),
    Comment(TextResult),
    Other,
    Eof,
}

/// What `quick_xml::Reader::read_event_into` answers to the call number
/// `k`, counted from 0, on a reader over the bytes `xml` that was set up as
/// `setup` says.
pub uninterp spec fn raw_token(xml: Seq<u8>, setup: Setup, k: nat) -> Result<RawView, Failure>;

/// The bytes that a reader was made over.
pub uninterp spec fn reader_source(reader: quick_xml::Reader<&[u8]>) -> Seq<u8>;

/// How a reader is set up.
pub uninterp spec fn reader_setup(reader: quick_xml::Reader<&[u8]>) -> Setup;

/// How many events were read from a reader.
pub uninterp spec fn reader_count(reader: quick_xml::Reader<&[u8]>) -> nat;

/// The model of an event of the tokenizer.
pub uninterp spec fn event_raw(event: quick_xml::events::Event<'static>) -> RawView;

/// Whether an error of the tokenizer is a failure of the source, and its
/// message.
pub uninterp spec fn error_failure(error: quick_xml::Error) -> Failure;

/// The name of a start tag as text, or why it is no text.
pub uninterp spec fn start_name_of(tag: quick_xml::events::BytesStart<'static>) -> TextResult;

/// What the tokenizer yields for the attributes of a start tag, in order.
pub uninterp spec fn start_attributes_of(tag: quick_xml::events::BytesStart<'static>) -> Seq<
    AttributeView,
>;

/// The name of an end tag as text, or why it is no text.
pub uninterp spec fn end_name_of(tag: quick_xml::events::BytesEnd<'static>) -> TextResult;

/// Character data with entities resolved, or why it is refused.
pub uninterp spec fn unescaped_of(text: quick_xml::events::BytesText<'static>) -> TextResult;

/// The bytes of a comment as text, or why they are no text.
pub uninterp spec fn comment_of(text: quick_xml::events::BytesText<'static>) -> TextResult;

/// The bytes of a CDATA section as text, or why they are no text.
pub uninterp spec fn cdata_of(text: quick_xml::events::BytesCData<'static>) -> TextResult;

/// What is still to come from an iterator over attributes.
pub uninterp spec fn attributes_left(attributes: quick_xml::events::attributes::Attributes<'_>) -> Seq<
    AttributeView,
>;

/// The name of an attribute as text, or why it is no text.
pub uninterp spec fn attribute_name_of(
    attribute: quick_xml::events::attributes::Attribute<'_>,
) -> TextResult;

/// The value of an attribute with entities resolved, or why it is refused.
pub uninterp spec fn attribute_value_of(
    attribute: quick_xml::events::attributes::Attribute<'_>,
) -> TextResult;

/// The model of a text that a wrapper hands out.
pub open spec fn text_result(r: Result<String, quick_xml::Error>) -> TextResult {
    match r {
        Ok(text) => Ok(text@),
        Err(e) => Err(error_failure(e)),
    }
}

/// An event of the tokenizer, told apart by its kind, with what the
/// tokenizer holds for it.
pub enum RawEvent {
    Start(quick_xml::events::BytesStart<'static>),
    End(quick_xml::events::BytesEnd<'static>),
    Empty(quick_xml::events::BytesStart<'static>),
    Text(quick_xml::events::BytesText<'static>),
    CData(quick_xml::events::BytesCData<'static>),
    Comment(quick_xml::events::BytesText<'static>),
    Other,
    Eof,
}

impl View for RawEvent {
    type V = RawView;

    open spec fn view(&self) -> RawView {
        match self {
            RawEvent::Start(tag) => RawView::Start {
                name: start_name_of(*tag),
                attrs: start_attributes_of(*tag),
            },
            RawEvent::End(tag) => RawView::End { name: end_name_of(*tag) },
            RawEvent::Empty(tag) => RawView::Empty {
                name: start_name_of(*tag),
                attrs: start_attributes_of(*tag),
            },
            RawEvent::Text(text) => RawView::Text(unescaped_of(*text)),
            RawEvent::CData(text) => RawView::CData(cdata_of(*text)),
            RawEvent::Comment(text) => RawView::Comment(comment_of(*text)),
            RawEvent::Other => RawView::Other,
            RawEvent::Eof => RawView::Eof,
        }
    }
}

/// `quick_xml::Reader::from_reader`: a tokenizer over `xml` that has read
/// nothing and is set up as a new reader is: it checks the names of end
/// tags and does none of the other three.
#[verifier::external_body]
pub(crate) fn reader_over<'a>(xml: &'a [u8]) -> (r: quick_xml::Reader<&'a [u8]>)
    ensures
        reader_source(r) == xml@,
        reader_setup(r) == (false, true, false, false),
        reader_count(r) == 0,
{
    quick_xml::Reader::from_reader(xml)
}

/// `quick_xml::Reader::trim_text`: whether white space around character
/// data is left out. Like the three that follow, it is for a reader that
/// has read nothing: `raw_token` is about a reader that is set up first.
#[verifier::external_body]
pub(crate) fn set_trim_text<'a>(reader: &mut quick_xml::Reader<&'a [u8]>, value: bool)
    requires
        reader_count(*old(reader)) == 0,
    ensures
        reader_setup(*final(reader)) == (
            value,
            reader_setup(*old(reader)).1,
            reader_setup(*old(reader)).2,
            reader_setup(*old(reader)).3,
        ),
        reader_source(*final(reader)) == reader_source(*old(reader)),
        reader_count(*final(reader)) == reader_count(*old(reader)),
{
    reader.trim_text(value);
}

/// `quick_xml::Reader::check_end_names`: whether an end tag must repeat the
/// name of its start tag.
#[verifier::external_body]
pub(crate) fn set_check_end_names<'a>(reader: &mut quick_xml::Reader<&'a [u8]>, value: bool)
    requires
        reader_count(*old(reader)) == 0,
    ensures
        reader_setup(*final(reader)) == (
            reader_setup(*old(reader)).0,
            value,
            reader_setup(*old(reader)).2,
            reader_setup(*old(reader)).3,
        ),
        reader_source(*final(reader)) == reader_source(*old(reader)),
        reader_count(*final(reader)) == reader_count(*old(reader)),
{
    reader.check_end_names(value);
}

/// `quick_xml::Reader::check_comments`: whether `--` inside a comment is
/// refused.
#[verifier::external_body]
pub(crate) fn set_check_comments<'a>(reader: &mut quick_xml::Reader<&'a [u8]>, value: bool)
    requires
        reader_count(*old(reader)) == 0,
    ensures
        reader_setup(*final(reader)) == (
            reader_setup(*old(reader)).0,
            reader_setup(*old(reader)).1,
            value,
            reader_setup(*old(reader)).3,
        ),
        reader_source(*final(reader)) == reader_source(*old(reader)),
        reader_count(*final(reader)) == reader_count(*old(reader)),
{
    reader.check_comments(value);
}

/// `quick_xml::Reader::expand_empty_elements`: whether a tag that closes
/// itself comes as a start tag and an end tag.
#[verifier::external_body]
pub(crate) fn set_expand_empty_elements<'a>(reader: &mut quick_xml::Reader<&'a [u8]>, value: bool)
    requires
        reader_count(*old(reader)) == 0,
    ensures
        reader_setup(*final(reader)) == (
            reader_setup(*old(reader)).0,
            reader_setup(*old(reader)).1,
            reader_setup(*old(reader)).2,
            value,
        ),
        reader_source(*final(reader)) == reader_source(*old(reader)),
        reader_count(*final(reader)) == reader_count(*old(reader)),
{
    reader.expand_empty_elements(value);
}

/// `quick_xml::Reader::read_event_into`, then `Event::into_owned`: the next
/// event of the input, or why the tokenizer refuses the input. The answer
/// is the one that `raw_token` names for the reader's bytes, its setup and
/// the number of events read before; the reader has then read one event
/// more, and its bytes and setup are as they were.
#[verifier::external_body]
pub(crate) fn read_event<'a>(reader: &mut quick_xml::Reader<&'a [u8]>, buf: &mut Vec<u8>) -> (r:
    Result<quick_xml::events::Event<'static>, quick_xml::Error>)
    ensures
        reader_source(*final(reader)) == reader_source(*old(reader)),
        reader_setup(*final(reader)) == reader_setup(*old(reader)),
        reader_count(*final(reader)) == reader_count(*old(reader)) + 1,
        raw_token(
            reader_source(*old(reader)),
            reader_setup(*old(reader)),
            reader_count(*old(reader)),
        ) == match r {
            Ok(event) => Ok::<RawView, Failure>(event_raw(event)),
            Err(e) => Err::<RawView, Failure>(error_failure(e)),
        },
{
    match reader.read_event_into(buf) {
        Ok(event) => Ok(event.into_owned()),
        Err(e) => Err(e),
    }
}

/// Tells the variants of `quick_xml::events::Event` apart, and hands on
/// what each holds. Declarations, processing instructions and document
/// types count as `Other`. The model of the event is that of its variant
/// and its parts.
#[verifier::external_body]
pub(crate) fn classify(event: quick_xml::events::Event<'static>) -> (r: RawEvent)
    ensures
        r@ == event_raw(event),
{
    match event {
        quick_xml::events::Event::Start(e) => RawEvent::Start(e),
        quick_xml::events::Event::End(e) => RawEvent::End(e),
        quick_xml::events::Event::Empty(e) => RawEvent::Empty(e),
        quick_xml::events::Event::Text(e) => RawEvent::Text(e),
        quick_xml::events::Event::CData(e) => RawEvent::CData(e),
        quick_xml::events::Event::Comment(e) => RawEvent::Comment(e),
        quick_xml::events::Event::Decl(_) => RawEvent::Other,
        quick_xml::events::Event::PI(_) => RawEvent::Other,
        quick_xml::events::Event::DocType(_) => RawEvent::Other,
        quick_xml::events::Event::Eof => RawEvent::Eof,
    }
}

/// `quick_xml::events::BytesStart::name` and `QName::into_inner`, then
/// `std::str::from_utf8`: the name of a start tag as text, or an error
/// where its bytes are no UTF-8.
#[verifier::external_body]
pub(crate) fn start_name(tag: &quick_xml::events::BytesStart<'static>) -> (r: Result<String, quick_xml::Error>)
    ensures
        text_result(r) == start_name_of(*tag),
{
    Ok(std::str::from_utf8(tag.name().into_inner())?.to_owned())
}

/// `quick_xml::events::BytesEnd::name` and `QName::into_inner`, then
/// `std::str::from_utf8`: the name of an end tag as text, or an error where
/// its bytes are no UTF-8.
#[verifier::external_body]
pub(crate) fn end_name(tag: &quick_xml::events::BytesEnd<'static>) -> (r: Result<String, quick_xml::Error>)
    ensures
        text_result(r) == end_name_of(*tag),
{
    Ok(std::str::from_utf8(tag.name().into_inner())?.to_owned())
}

/// `quick_xml::events::BytesStart::attributes`: what yields the attributes
/// of a start tag in order.
#[verifier::external_body]
pub(crate) fn start_attributes<'b>(tag: &'b quick_xml::events::BytesStart<'static>) -> (r:
    quick_xml::events::attributes::Attributes<'b>)
    ensures
        attributes_left(r) == start_attributes_of(*tag),
{
    tag.attributes()
}

/// `Iterator::next` of `quick_xml::events::attributes::Attributes`: the
/// next attribute of a start tag, or why the tag is refused, or `None`
/// after the last attribute.
#[verifier::external_body]
pub(crate) fn next_attribute<'b>(attributes: &mut quick_xml::events::attributes::Attributes<'b>) -> (r:
    Option<Result<quick_xml::events::attributes::Attribute<'b>, quick_xml::Error>>)
    ensures
        match r {
            None => attributes_left(*old(attributes)).len() == 0 && attributes_left(
                *final(attributes),
            ).len() == 0,
            Some(item) => attributes_left(*old(attributes)).len() > 0 && attributes_left(
                *final(attributes),
            ) == attributes_left(*old(attributes)).drop_first() && attributes_left(
                *old(attributes),
            )[0] == match item {
                Ok(attribute) => Ok::<(TextResult, TextResult), Failure>(
                    (attribute_name_of(attribute), attribute_value_of(attribute)),
                ),
                Err(e) => Err::<(TextResult, TextResult), Failure>(error_failure(e)),
            },
        },
{
    match attributes.next() {
        Some(Ok(attribute)) => Some(Ok(attribute)),
        Some(Err(e)) => Some(Err(quick_xml::Error::from(e))),
        None => None,
    }
}

/// `QName::into_inner` on the field `key` of a
/// `quick_xml::events::attributes::Attribute`, then `std::str::from_utf8`:
/// the name of an attribute as text, or an error where its bytes are no
/// UTF-8.
#[verifier::external_body]
pub(crate) fn attribute_name<'b>(attribute: &quick_xml::events::attributes::Attribute<'b>) -> (r: Result<String, quick_xml::Error>)
    ensures
        text_result(r) == attribute_name_of(*attribute),
{
    Ok(std::str::from_utf8(attribute.key.into_inner())?.to_owned())
}

/// `quick_xml::events::attributes::Attribute::unescape_value`: the value of
/// an attribute with entities resolved, or why the value is refused.
#[verifier::external_body]
pub(crate) fn attribute_value<'b>(attribute: &quick_xml::events::attributes::Attribute<'b>) -> (r: Result<String, quick_xml::Error>)
    ensures
        text_result(r) == attribute_value_of(*attribute),
{
    Ok(attribute.unescape_value()?.into_owned())
}

/// `quick_xml::events::BytesText::unescape`: character data with entities
/// resolved, or why the data is refused.
#[verifier::external_body]
pub(crate) fn unescaped_text(text: &quick_xml::events::BytesText<'static>) -> (r: Result<String, quick_xml::Error>)
    ensures
        text_result(r) == unescaped_of(*text),
{
    Ok(text.unescape()?.into_owned())
}

/// The bytes of a `quick_xml::events::BytesText`, then
/// `std::str::from_utf8`: the text of a comment as it is written, or an
/// error where its bytes are no UTF-8.
#[verifier::external_body]
pub(crate) fn comment_text(text: &quick_xml::events::BytesText<'static>) -> (r: Result<String, quick_xml::Error>)
    ensures
        text_result(r) == comment_of(*text),
{
    Ok(std::str::from_utf8(text.as_ref())?.to_owned())
}

/// The bytes of a `quick_xml::events::BytesCData`, then
/// `std::str::from_utf8`: the content of a CDATA section, or an error where
/// its bytes are no UTF-8.
#[verifier::external_body]
pub(crate) fn cdata_text(text: &quick_xml::events::BytesCData<'static>) -> (r: Result<String, quick_xml::Error>)
    ensures
        text_result(r) == cdata_of(*text),
{
    Ok(std::str::from_utf8(text.as_ref())?.to_owned())
}

/// `ToString::to_string` of a `quick_xml::Error`: its message, as its
/// `Display` gives it.
#[verifier::external_body]
pub(crate) fn error_message(error: &quick_xml::Error) -> (r: String)
    ensures
        r@ == error_failure(*error).1,
{
    error.to_string()
}

/// Whether a `quick_xml::Error` is its variant `Io`: a failure of the source
/// of bytes, not of the input.
#[verifier::external_body]
pub(crate) fn is_io_error(error: &quick_xml::Error) -> (r: bool)
    ensures
        r == error_failure(*error).0,
{
    match error {
        quick_xml::Error::Io(_) => true,
        _ => false,
    }
}

} // verus!
