//! The errors of a conversion.

use vstd::prelude::*;

verus! {

/// What a hook reported when it failed.
#[derive(Clone, Debug, PartialEq, Eq)]
pub struct HookError {
    pub message: String,
}

/// A violation of the document's structure.
#[derive(Clone, Copy, Debug, PartialEq, Eq)]
pub enum StructuralError {
    /// An end tag came while no element was open.
    UnexpectedEndTag,
    /// The input ended before any element was complete.
    NoElementFound,
    /// The input ended while an element was open, or it held several roots.
    UnclosedElements,
    /// A full document was asked for of a value that has not exactly one root.
    RootCount,
    /// A preprocessor made elements that nest deeper than the machine can
    /// count.
    TooDeep,
}

/// Why a conversion failed. A failed conversion hands back nothing else.
#[derive(Clone, Debug, PartialEq, Eq)]
pub enum XmlError {
    /// An element name is empty or holds `<` or `>`.
    MalformedName,
    /// The tokenizer rejected the input; the text is its message.
    Tokenizer(String),
    /// The events do not form one document, or the value does not.
    Structure(StructuralError),
    /// The byte source failed; the text is its message.
    Adapter(String),
    /// A hook failed.
    Hook(HookError),
}

/// Mathematical model of an [`XmlError`].
pub enum ErrorView {
    MalformedName,
    Tokenizer(Seq<char>),
    Structure(StructuralError),
    Adapter(Seq<char>),
    Hook(Seq<char>),
}

impl View for XmlError {
    type V = ErrorView;

    open spec fn view(&self) -> ErrorView {
        match self {
            XmlError::MalformedName => ErrorView::MalformedName,
            XmlError::Tokenizer(message) => ErrorView::Tokenizer(message@),
            XmlError::Structure(kind) => ErrorView::Structure(*kind),
            XmlError::Adapter(message) => ErrorView::Adapter(message@),
            XmlError::Hook(e) => ErrorView::Hook(e.message@),
        }
    }
}

/// Whether `name` can be an element name here: not empty, and without `<`
/// and `>`.
pub open spec fn valid_name(name: Seq<char>) -> bool {
    name.len() > 0 && !name.contains('<') && !name.contains('>')
}

/// Accepts the element names that are not empty and hold neither `<` nor `>`.
pub fn validate_element_name(name: &str) -> (r: Result<(), XmlError>)
    ensures
        r is Ok <==> valid_name(name@),
        r matches Err(e) ==> e == XmlError::MalformedName,
{
    let mut seen = false;
    let mut bad = false;
    for c in it: name.chars()
        invariant
            it.seq() == name@,
            seen <==> it.index() > 0,
            bad <==> exists|i: int| 0 <= i < it.index() && (name@[i] == '<' || name@[i] == '>'),
    {
        seen = true;
        if c == '<' || c == '>' {
            bad = true;
        }
    }
    if !seen || bad {
        Err(XmlError::MalformedName)
    } else {
        Ok(())
    }
}

impl StructuralError {
    /// The message that goes with the error.
    pub fn message(&self) -> (r: String)
        ensures
            r@ == match self {
                StructuralError::UnexpectedEndTag => "unexpected closing tag"@,
                StructuralError::NoElementFound => "no element found"@,
                StructuralError::UnclosedElements => "unclosed element(s) found"@,
                StructuralError::RootCount => "Document must have exactly one root"@,
                StructuralError::TooDeep => "document nests too deeply"@,
            },
    {
        match self {
            StructuralError::UnexpectedEndTag => "unexpected closing tag".to_owned(),
            StructuralError::NoElementFound => "no element found".to_owned(),
            StructuralError::UnclosedElements => "unclosed element(s) found".to_owned(),
            StructuralError::RootCount => "Document must have exactly one root".to_owned(),
            StructuralError::TooDeep => "document nests too deeply".to_owned(),
        }
    }
}

} // verus!
