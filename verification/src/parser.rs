//! The builder that turns the events of a document into a tree.

use crate::config::{ParseConfig, ParseOptions};
use crate::error::{valid_name, validate_element_name, StructuralError, XmlError};
use crate::hooks::{
    forced, settle, settle_flag, ForceList, ForceListPredicate, ForcePolicy, Postprocessor,
};
use crate::merge::{answer_of, offer_answer, offered, store_answer};
use crate::namespace::{
    copy_pairs, find_pair, namespace_binding, resolve_name, set_pair, xmlns, Pairs,
};
use crate::state::{
    attribute_key, closed, comment_text, declared_namespaces, declares_unaliased, document, frame_attributes,
    frame_namespaces, frame_value, inherited_namespaces, initial_entries, initial_state,
    lemma_closed_valid, lemma_namespace_entries, lemma_with_answers_unique,
    lemma_with_entry_valid, lemma_with_text_valid, may_close, may_comment, may_open,
    namespace_entries, opened, plain_answers, plain_closed, plain_commented, plain_opened,
    plain_text_answer, valid, with_answers, with_entry, with_text, Answer, FrameView,
    ParserState,
};
use crate::text::{all_whitespace, contains, followed_by, holds_text, join, texts, trim};
use crate::value::{
    entries_view, find_key, items_view, lemma_mapping_view, lemma_position_is, lemma_put_unique,
    lemma_put_well_formed, pairs_view, unique_keys, well_formed, Tree, Value,
};
use vstd::prelude::*;

verus! {

/// The prefix that a namespace declaration binds.
#[derive(Debug, PartialEq, Eq)]
pub enum NamespacePrefix {
    /// The default namespace, which has no prefix.
    Default,
    /// A prefix with a name.
    Named(String),
}

impl View for NamespacePrefix {
    type V = Seq<char>;

    /// The prefix as a string: empty for the default namespace.
    open spec fn view(&self) -> Seq<char> {
        match self {
            NamespacePrefix::Default => Seq::empty(),
            NamespacePrefix::Named(s) => s@,
        }
    }
}

impl NamespacePrefix {
    /// The prefix as a string: empty for the default namespace.
    pub fn as_str(&self) -> (s: &str)
        ensures
            s@ == self@,
    {
        match self {
            NamespacePrefix::Default => {
                proof {
                    reveal_strlit("");
                }
                ""
            },
            NamespacePrefix::Named(s) => s.as_str(),
        }
    }

    /// The prefix of that name: the default namespace for the empty name.
    pub fn from_name(name: String) -> (r: Self)
        ensures
            r@ == name@,
            r == if name@.len() == 0 {
                NamespacePrefix::Default
            } else {
                NamespacePrefix::Named(name)
            },
    {
        if name.as_str().is_empty() {
            NamespacePrefix::Default
        } else {
            NamespacePrefix::Named(name)
        }
    }
}

impl From<String> for NamespacePrefix {
    /// The prefix of that name: the default namespace for the empty name.
    fn from(name: String) -> (r: Self) {
        NamespacePrefix::from_name(name)
    }
}

impl vstd::std_specs::convert::FromSpecImpl<String> for NamespacePrefix {
    open spec fn obeys_from_spec() -> bool {
        true
    }

    open spec fn from_spec(name: String) -> Self {
        if name@.len() == 0 {
            NamespacePrefix::Default
        } else {
            NamespacePrefix::Named(name)
        }
    }
}

impl<'a> From<&'a str> for NamespacePrefix {
    /// The prefix of that name: the default namespace for the empty name.
    fn from(name: &'a str) -> (r: Self)
        ensures
            r@ == name@,
            r is Default <==> name@.len() == 0,
    {
        NamespacePrefix::from_name(name.to_owned())
    }
}

impl<'a> vstd::std_specs::convert::FromSpecImpl<&'a str> for NamespacePrefix {
    /// A name that is not empty is copied, and the copy is not fixed by a
    /// specification: the contract of `from` says what the prefix is.
    open spec fn obeys_from_spec() -> bool {
        false
    }

    open spec fn from_spec(name: &'a str) -> Self {
        NamespacePrefix::Default
    }
}

/// An attribute of a start tag: its name as written, and its value with
/// entities resolved.
#[derive(Debug, PartialEq, Eq)]
pub struct XmlAttribute {
    pub key: String,
    pub value: String,
}

/// The model of a list of attributes.
pub open spec fn attrs_view(attrs: Seq<XmlAttribute>) -> Pairs {
    Seq::new(attrs.len(), |i: int| (attrs[i].key@, attrs[i].value@))
}

/// The entries that hold a namespace mapping.
fn namespace_values(ns: &Vec<(String, String)>) -> (r: Vec<(String, Value)>)
    ensures
        entries_view(r@) == namespace_entries(pairs_view(ns@)),
{
    let mut r: Vec<(String, Value)> = Vec::new();
    let mut i: usize = 0;
    while i < ns.len()
        invariant
            i <= ns@.len(),
            entries_view(r@) == namespace_entries(pairs_view(ns@)).take(i as int),
        decreases ns@.len() - i,
    {
        let ghost before = r@;
        let key = ns[i].0.clone();
        let value = Value::Text(ns[i].1.clone());
        r.push((key, value));
        proof {
            assert(entries_view(before).len() == i);
        }
        i += 1;
    }
    r
}

/// The key under which the attribute named `name` is offered to the
/// postprocessor and stored: the attribute prefix and the name, resolved
/// first where namespaces are processed and the name holds the separator.
pub fn prefixed_key(config: &ParseConfig, ns: &Vec<(String, String)>, name: &str) -> (k: String)
    ensures
        k@ == attribute_key(config@, pairs_view(ns@), name@),
{
    let local = if config.process_namespaces && contains(name, config.namespace_separator.as_str()) {
        resolve_name(config, ns, name)
    } else {
        name.to_owned()
    };
    followed_by(config.attr_prefix.as_str(), local.as_str())
}

/// The text of an element, once it is known whether the text is blank: no
/// text where white space is stripped and the text is blank, else the
/// text.
pub fn kept_text(text: String, strip: bool, blank: bool) -> (r: Option<String>)
    ensures
        r == if strip && blank {
            None
        } else {
            Some(text)
        },
{
    if strip && blank {
        None
    } else {
        Some(text)
    }
}

/// What the builder holds for one open element.
struct Frame {
    entries: Vec<(String, Value)>,
    text: Vec<String>,
    namespaces: Vec<(String, String)>,
}

impl View for Frame {
    type V = FrameView;

    closed spec fn view(&self) -> FrameView {
        FrameView {
            entries: entries_view(self.entries@),
            text: texts(self.text@),
            namespaces: pairs_view(self.namespaces@),
        }
    }
}

/// The model of a stack of frames.
spec fn frames_view(frames: Seq<Frame>) -> Seq<FrameView> {
    Seq::new(frames.len(), |i: int| frames[i]@)
}

/// What became of a postprocessor's answer: the key to store under, and the
/// value where the postprocessor made one. Without a value, the one that was
/// offered is stored.
type Processed = Option<(String, Option<Value>)>;

/// Builds the tree of a document from its events, one event at a time.
pub struct XmlParser<P, F> {
    config: ParseConfig,
    force_list: ForceList<F>,
    postprocessor: Option<P>,
    frames: Vec<Frame>,
    path: Vec<String>,
    roots: Vec<Value>,
}

impl<P, F> View for XmlParser<P, F> {
    type V = ParserState;

    closed spec fn view(&self) -> ParserState {
        ParserState {
            frames: frames_view(self.frames@),
            path: texts(self.path@),
            roots: items_view(self.roots@),
        }
    }
}

impl<P: Postprocessor, F: ForceListPredicate> XmlParser<P, F> {
    /// The options that the builder was made with.
    pub closed spec fn options(&self) -> ParseOptions {
        self.config@
    }

    /// The force-list policy that the builder was made with.
    pub closed spec fn policy(&self) -> ForcePolicy {
        self.force_list@
    }

    /// Whether the builder was made with a postprocessor.
    pub closed spec fn has_postprocessor(&self) -> bool {
        self.postprocessor is Some
    }

    /// Whether the builder asks no hook: what it builds is then a function
    /// of the events alone.
    pub open spec fn is_plain(&self) -> bool {
        !self.has_postprocessor() && !(self.policy() is Predicate)
    }

    /// The builder's invariant. Without a postprocessor, no mapping that it
    /// holds has a key twice; with one, that holds of the mappings that the
    /// builder itself fills, whatever the postprocessor hands in.
    pub open spec fn wf(&self) -> bool {
        valid(self@, !self.has_postprocessor())
    }

    /// Whether `other` was made with the same options and hooks.
    pub open spec fn same_setup(&self, other: &Self) -> bool {
        &&& self.options() == other.options()
        &&& self.policy() == other.policy()
        &&& self.has_postprocessor() == other.has_postprocessor()
    }

    /// A builder that has seen no event.
    pub fn new(config: ParseConfig, force_list: ForceList<F>, postprocessor: Option<P>) -> (r: Self)
        ensures
            r@ == initial_state(),
            r.options() == config@,
            r.policy() == force_list@,
            r.has_postprocessor() == postprocessor is Some,
            r.wf(),
    {
        let r = Self {
            config,
            force_list,
            postprocessor,
            frames: Vec::new(),
            path: Vec::new(),
            roots: Vec::new(),
        };
        assert(r@.frames =~= Seq::empty() && r@.path =~= Seq::empty() && r@.roots =~= Seq::empty());
        r
    }

    /// Asks the force-list policy about a key that is new to a mapping.
    fn should_force_list(force_list: &ForceList<F>, path: &Vec<String>, key: &str, value: &Value) -> (r:
        Result<bool, XmlError>)
        ensures
            !(force_list@ is Predicate) ==> r == Ok::<bool, XmlError>(forced(force_list@, key@)),
            r matches Err(e) ==> e is Hook,
    {
        match force_list {
            ForceList::Absent => Ok(false),
            ForceList::Uniform(b) => Ok(*b),
            ForceList::Keys(keys) => Ok(holds_text(keys, key)),
            ForceList::Predicate(predicate) => settle_flag(predicate.force_list(path, key, value)),
        }
    }

    /// Hands one entry to the postprocessor, where there is one.
    fn apply_postprocessor(postprocessor: &Option<P>, path: &Vec<String>, key: &str, data: &Value) -> (r:
        Result<Processed, XmlError>)
        ensures
            postprocessor is None ==> (r matches Ok(Some((k, None))) && k@ == key@),
            r matches Err(e) ==> (e is Hook && postprocessor is Some),
    {
        match postprocessor {
            None => Ok(Some((key.to_owned(), None))),
            Some(hook) => settle(hook.postprocess(path, key, data)),
        }
    }

    /// Offers `data` under `key` to a mapping: the postprocessor may rename,
    /// replace or drop it, and what is left joins the mapping by the merge
    /// rule. The force-list policy is asked only where the key is new.
    fn push_data(
        postprocessor: &Option<P>,
        force_list: &ForceList<F>,
        path: &Vec<String>,
        entries: &mut Vec<(String, Value)>,
        key: &str,
        data: Value,
    ) -> (r: Result<(), XmlError>)
        ensures
            r is Ok ==> exists|answer: Answer, force: bool|
                {
                    &&& entries_view(final(entries)@) == #[trigger] offered(
                        entries_view(old(entries)@),
                        data@,
                        answer,
                        force,
                    )
                    &&& postprocessor is None ==> answer == Some((key@, data@))
                    &&& !(force_list@ is Predicate) ==> (answer matches Some(a) ==> force == forced(
                        force_list@,
                        a.0,
                    ))
                },
            r matches Err(e) ==> (e is Hook && final(entries)@ == old(entries)@ && (
            postprocessor is Some || force_list@ is Predicate)),
    {
        let processed = match Self::apply_postprocessor(postprocessor, path, key, &data) {
            Ok(p) => p,
            Err(e) => {
                return Err(e);
            },
        };
        let ghost answer = answer_of(processed, data@);
        match processed {
            None => {
                offer_answer(entries, data, None, false);
                Ok(())
            },
            Some((final_key, replaced)) => {
                let vacant = find_key(entries, final_key.as_str()).is_none();
                let force = if vacant {
                    let asked = match &replaced {
                        Some(v) => Self::should_force_list(force_list, path, final_key.as_str(), v),
                        None => Self::should_force_list(
                            force_list,
                            path,
                            final_key.as_str(),
                            &data,
                        ),
                    };
                    match asked {
                        Ok(b) => b,
                        Err(e) => {
                            return Err(e);
                        },
                    }
                } else {
                    false
                };
                let ghost witness = if vacant {
                    force
                } else {
                    forced(force_list@, final_key@)
                };
                proof {
                    let before = entries_view(entries@);
                    if !vacant {
                        let i = choose|i: int|
                            0 <= i < entries@.len() && entries@[i].0@ == final_key@ && forall|j: int|
                                0 <= j < i ==> (#[trigger] entries@[j]).0@ != final_key@;
                        lemma_position_is(before, final_key@, i);
                    }
                }
                offer_answer(entries, data, Some((final_key, replaced)), force);
                assert(entries_view(entries@) == offered(
                    entries_view(old(entries)@),
                    data@,
                    answer,
                    witness,
                ));
                Ok(())
            },
        }
    }

    /// Opens an element with the start tag `name` and the attributes
    /// `attrs`, or refuses a malformed name.
    ///
    /// Where attributes are read and namespaces are processed, the
    /// namespace declarations among the attributes extend the mapping that
    /// the element inherits and become no entries; where one of them
    /// declares a namespace without an alias, the element gets its whole
    /// namespace mapping as a first entry. Each other attribute is offered
    /// to the postprocessor under its prefixed key, and what comes back is
    /// stored. Nothing changes where this fails.
    pub fn start_element(&mut self, name: &str, attrs: &Vec<XmlAttribute>) -> (r: Result<(), XmlError>)
        requires
            old(self).wf(),
        ensures
            final(self).wf(),
            final(self).same_setup(old(self)),
            valid_name(name@) && !old(self).has_postprocessor() ==> r is Ok,
            r is Ok ==> valid_name(name@) && may_open(
                old(self)@,
                old(self).options(),
                old(self).has_postprocessor(),
                name@,
                attrs_view(attrs@),
                final(self)@,
            ) && final(self)@.frames.len() == old(self)@.frames.len() + 1,
            r is Ok && !old(self).has_postprocessor() ==> final(self)@ == plain_opened(
                old(self)@,
                old(self).options(),
                name@,
                attrs_view(attrs@),
            ),
            r matches Err(e) ==> final(self)@ == old(self)@ && (if valid_name(name@) {
                e is Hook && old(self).has_postprocessor()
            } else {
                e == XmlError::MalformedName
            }),
    {
        proof {
            reveal(may_open);
        }
        match validate_element_name(name) {
            Err(e) => {
                return Err(e);
            },
            Ok(()) => {},
        }
        let ghost all = attrs_view(attrs@);
        let ghost inherited = inherited_namespaces(self@);
        let ghost options = self.config@;
        let mut namespaces = if self.frames.len() > 0 {
            copy_pairs(&self.frames[self.frames.len() - 1].namespaces)
        } else {
            Vec::new()
        };
        let mut announce = false;
        if self.config.xml_attribs && self.config.process_namespaces {
            let mut i: usize = 0;
            while i < attrs.len()
                invariant
                    i <= attrs@.len(),
                    all == attrs_view(attrs@),
                    pairs_view(namespaces@) == declared_namespaces(inherited, all.take(i as int)),
                    unique_keys(pairs_view(namespaces@)),
                    announce == declares_unaliased(self.config@.namespaces, all.take(i as int)),
                decreases attrs@.len() - i,
            {
                proof {
                    assert(all.take(i + 1).drop_last() == all.take(i as int));
                }
                match namespace_binding(attrs[i].key.as_str()) {
                    Some(prefix) => {
                        if !announce {
                            announce =
                            match &self.config.namespaces {
                                Some(table) => find_pair(table, attrs[i].value.as_str()).is_none(),
                                None => true,
                            };
                        }
                        proof {
                            lemma_put_unique(
                                pairs_view(namespaces@),
                                prefix@,
                                attrs@[i as int].value@,
                            );
                        }
                        set_pair(&mut namespaces, prefix.as_str(), attrs[i].value.clone());
                    },
                    None => {},
                }
                i += 1;
            }
            assert(all.take(attrs@.len() as int) == all);
        }
        let ghost ns = pairs_view(namespaces@);
        assert(ns == frame_namespaces(options, inherited, all));
        let mut entries: Vec<(String, Value)> = Vec::new();
        if announce {
            proof {
                reveal_strlit("xmlns");
            }
            assert("xmlns"@ == xmlns());
            let key = followed_by(self.config.attr_prefix.as_str(), "xmlns");
            let held = namespace_values(&namespaces);
            proof {
                lemma_mapping_view(held);
                lemma_namespace_entries(ns);
            }
            entries.push((key, Value::Mapping(held)));
        }
        let ghost initial = initial_entries(options, ns, all);
        assert(entries_view(entries@) =~= initial);
        let ghost mut answers: Seq<Answer> = Seq::empty();
        if self.config.xml_attribs {
            let mut i: usize = 0;
            while i < attrs.len()
                invariant
                    i <= attrs@.len(),
                    all == attrs_view(attrs@),
                    options == self.config@,
                    options.xml_attribs,
                    ns == pairs_view(namespaces@),
                    *self == *old(self),
                    old(self).wf(),
                    valid_name(name@),
                    answers.len() == frame_attributes(options, all.take(i as int)).len(),
                    entries_view(entries@) == with_answers(initial, answers),
                    self.postprocessor is None ==> answers == plain_answers(
                        options,
                        ns,
                        frame_attributes(options, all.take(i as int)),
                    ),
                    self.postprocessor is None ==> forall|j: int|
                        0 <= j < entries@.len() ==> well_formed(
                            #[trigger] entries_view(entries@)[j].1,
                        ),
                decreases attrs@.len() - i,
            {
                proof {
                    assert(all.take(i + 1).drop_last() == all.take(i as int));
                }
                let ordinary = !self.config.process_namespaces || namespace_binding(
                    attrs[i].key.as_str(),
                ).is_none();
                if ordinary {
                    let key = attrs[i].key.as_str();
                    let prefixed = prefixed_key(&self.config, &namespaces, key);
                    let value = Value::Text(attrs[i].value.clone());
                    match Self::apply_postprocessor(
                        &self.postprocessor,
                        &self.path,
                        prefixed.as_str(),
                        &value,
                    ) {
                        Err(e) => {
                            return Err(e);
                        },
                        Ok(processed) => {
                            let ghost answer = answer_of(processed, value@);
                            let ghost previous = answers;
                            proof {
                                answers = previous.push(answer);
                                assert(answers.drop_last() == previous);
                            }
                            let ghost before = entries_view(entries@);
                            store_answer(&mut entries, value, processed);
                            proof {
                                if self.postprocessor is None {
                                    match answer {
                                        Some((k, v)) => {
                                            lemma_put_well_formed(before, k, v);
                                        },
                                        None => {},
                                    }
                                }
                            }
                        },
                    }
                }
                i += 1;
            }
            assert(all.take(attrs@.len() as int) == all);
        }
        let element_name = resolve_name(&self.config, &namespaces, name);
        let frame = Frame { entries, text: Vec::new(), namespaces };
        let ghost fresh = frame@;
        assert(fresh.text =~= Seq::empty());
        self.frames.push(frame);
        self.path.push(element_name);
        proof {
            assert(self@.frames =~= old(self)@.frames.push(fresh));
            assert(self@.path =~= old(self)@.path.push(element_name@));
            assert(self@ == opened(old(self)@, options, name@, all, answers));
            lemma_with_answers_unique(initial, answers);
        }
        Ok(())
    }

    /// Adds a piece of character data to the innermost open element. Text
    /// outside any element is left out.
    pub fn characters(&mut self, data: &str)
        requires
            old(self).wf(),
        ensures
            final(self).wf(),
            final(self).same_setup(old(self)),
            final(self)@ == with_text(old(self)@, data@),
    {
        let n = self.frames.len();
        if n > 0 {
            let ghost top = self.frames@[n - 1]@;
            self.frames[n - 1].text.push(data.to_owned());
            proof {
                let after = self.frames@[n - 1]@;
                assert(after.text =~= top.text.push(data@));
                assert(self@.frames =~= old(self)@.frames.update(n - 1, after));
            }
        }
        proof {
            lemma_with_text_valid(old(self)@, data@, !self.has_postprocessor());
        }
    }

    /// The value of a closing element, made of its entries and its text.
    /// The postprocessor is asked about the text where the text goes into a
    /// mapping.
    fn close_frame(
        postprocessor: &Option<P>,
        path: &Vec<String>,
        config: &ParseConfig,
        frame: Frame,
    ) -> (r: Result<Value, XmlError>)
        ensures
            postprocessor is None ==> r is Ok,
            r matches Ok(value) ==> exists|text_answer: Answer|
                {
                    &&& value@ == #[trigger] frame_value(config@, frame@, text_answer)
                    &&& postprocessor is None ==> text_answer == plain_text_answer(
                        config@,
                        frame@,
                    )
                },
            r matches Err(e) ==> e is Hook,
    {
        let ghost top = frame@;
        let ghost options = config@;
        let Frame { entries, text, namespaces: _ } = frame;
        let mut entries = entries;
        let content = if text.len() == 0 {
            None
        } else {
            let all = join(&text, config.cdata_separator.as_str());
            let blank = config.strip_whitespace && all_whitespace(all.as_str());
            kept_text(all, config.strip_whitespace, blank)
        };
        match content {
            None => {
                let value = if entries.len() == 0 {
                    Value::Null
                } else {
                    proof {
                        lemma_mapping_view(entries);
                    }
                    Value::Mapping(entries)
                };
                Ok(value)
            },
            Some(t) => if entries.len() > 0 || config.force_cdata {
                let data = Value::Text(t);
                let processed = match Self::apply_postprocessor(
                    postprocessor,
                    path,
                    config.cdata_key.as_str(),
                    &data,
                ) {
                    Ok(p) => p,
                    Err(e) => {
                        return Err(e);
                    },
                };
                let ghost text_answer = answer_of(processed, data@);
                store_answer(&mut entries, data, processed);
                proof {
                    match text_answer {
                        Some((k, v)) => {
                            assert(top.entries.len() == 0 ==> entries_view(entries@) =~= seq![(k, v)]);
                        },
                        None => {},
                    }
                }
                proof {
                    lemma_mapping_view(entries);
                    assert(top.entries.len() == 0 && processed is None ==> entries_view(entries@)
                        =~= Seq::<(Seq<char>, Tree)>::empty());
                }
                let value = Value::Mapping(entries);
                assert(value@ == frame_value(options, top, text_answer));
                Ok(value)
            } else {
                let value = Value::Text(t);
                assert(value@ == frame_value(options, top, plain_text_answer(options, top)));
                Ok(value)
            },
        }
    }

    /// Closes the innermost open element with the end tag `name`, or
    /// refuses the tag where no element is open.
    ///
    /// The element's value is made of its entries and its text. The
    /// postprocessor is asked about the text where the text goes into a
    /// mapping, and about the element itself. The element is then merged
    /// into the element that encloses it or, where there is none, becomes a
    /// document. Where a hook fails, the element is lost.
    pub fn end_element(&mut self, name: &str) -> (r: Result<(), XmlError>)
        requires
            old(self).wf(),
        ensures
            final(self).wf(),
            final(self).same_setup(old(self)),
            old(self)@.frames.len() == 0 ==> r == Err::<(), XmlError>(
                XmlError::Structure(StructuralError::UnexpectedEndTag),
            ) && final(self)@ == old(self)@,
            old(self)@.frames.len() > 0 && old(self).is_plain() ==> r is Ok && final(self)@
                == plain_closed(old(self)@, old(self).options(), old(self).policy(), name@),
            old(self)@.frames.len() > 0 && r is Ok ==> may_close(
                old(self)@,
                old(self).options(),
                old(self).policy(),
                old(self).has_postprocessor(),
                name@,
                final(self)@,
            ),
            old(self)@.frames.len() > 0 ==> (r matches Err(e) ==> e is Hook && !old(self).is_plain()),
    {
        proof {
            reveal(may_close);
        }
        let n = self.frames.len();
        if n == 0 {
            return Err(XmlError::Structure(StructuralError::UnexpectedEndTag));
        }
        let ghost options = self.config@;
        let ghost deep = !self.has_postprocessor();
        let ghost top = self@.frames.last();
        let element_name = resolve_name(&self.config, &self.frames[n - 1].namespaces, name);
        let frame = match self.frames.pop() {
            Some(frame) => frame,
            None => {
                return Err(XmlError::Structure(StructuralError::UnexpectedEndTag));
            },
        };
        let _ = self.path.pop();
        let ghost rest = ParserState {
            frames: old(self)@.frames.drop_last(),
            path: old(self)@.path.drop_last(),
            roots: old(self)@.roots,
        };
        proof {
            assert(self@.frames =~= rest.frames);
            assert(self@.path =~= rest.path);
        }
        let value = match Self::close_frame(&self.postprocessor, &self.path, &self.config, frame) {
            Ok(value) => value,
            Err(e) => {
                return Err(e);
            },
        };
        let ghost text_answer = choose|text_answer: Answer|
            {
                &&& value@ == #[trigger] frame_value(options, top, text_answer)
                &&& self.postprocessor is None ==> text_answer == plain_text_answer(options, top)
            };
        proof {
            if deep {
                lemma_closed_valid(old(self)@, options, text_answer, None, false, deep);
            }
        }
        if self.frames.len() == 0 {
            let processed = match Self::apply_postprocessor(
                &self.postprocessor,
                &self.path,
                element_name.as_str(),
                &value,
            ) {
                Ok(p) => p,
                Err(e) => {
                    return Err(e);
                },
            };
            let ghost element_answer = answer_of(processed, value@);
            match processed {
                None => {},
                Some((k, replaced)) => {
                    let stored = match replaced {
                        Some(v) => v,
                        None => value,
                    };
                    let mut single: Vec<(String, Value)> = Vec::new();
                    single.push((k, stored));
                    proof {
                        lemma_mapping_view(single);
                        assert(entries_view(single@) =~= seq![(k@, stored@)]);
                    }
                    self.roots.push(Value::Mapping(single));
                },
            }
            proof {
                let force = match element_answer {
                    Some(a) => forced(self.policy(), a.0),
                    None => false,
                };
                let target = closed(old(self)@, options, text_answer, element_answer, force);
                assert(self@.roots =~= target.roots);
            }
            Ok(())
        } else {
            let last = self.frames.len() - 1;
            let ghost parent = self@.frames[last as int];
            let ghost before = self@;
            match Self::push_data(
                &self.postprocessor,
                &self.force_list,
                &self.path,
                &mut self.frames[last].entries,
                element_name.as_str(),
                value,
            ) {
                Err(e) => {
                    proof {
                        assert(self@.frames =~= before.frames);
                    }
                    Err(e)
                },
                Ok(()) => {
                    proof {
                        let (element_answer, force) = choose|answer: Answer, force: bool|
                            {
                                &&& entries_view(self.frames@[last as int].entries@)
                                    == #[trigger] offered(parent.entries, value@, answer, force)
                                &&& self.postprocessor is None ==> answer == Some(
                                    (element_name@, value@),
                                )
                                &&& !(self.force_list@ is Predicate) ==> (answer matches Some(a)
                                    ==> force == forced(self.force_list@, a.0))
                            };
                        let merged_frame = FrameView {
                            entries: offered(parent.entries, value@, element_answer, force),
                            text: parent.text,
                            namespaces: parent.namespaces,
                        };
                        assert(self@.frames =~= before.frames.update(last as int, merged_frame));
                        lemma_closed_valid(
                            old(self)@,
                            options,
                            text_answer,
                            element_answer,
                            force,
                            deep,
                        );
                    }
                    Ok(())
                },
            }
        }
    }

    /// Stores a comment in the innermost open element, under the comment
    /// key and by the merge rule. White space around the comment is left
    /// out where white space is stripped. A comment outside any element
    /// changes nothing.
    pub fn comment(&mut self, comment: &str) -> (r: Result<(), XmlError>)
        requires
            old(self).wf(),
        ensures
            final(self).wf(),
            final(self).same_setup(old(self)),
            old(self).is_plain() ==> r is Ok && final(self)@ == plain_commented(
                old(self)@,
                old(self).options(),
                old(self).policy(),
                comment@,
            ),
            r is Ok ==> may_comment(
                old(self)@,
                old(self).options(),
                old(self).policy(),
                old(self).has_postprocessor(),
                comment@,
                final(self)@,
            ),
            r matches Err(e) ==> e is Hook && !old(self).is_plain() && final(self)@ == old(self)@,
    {
        proof {
            reveal(may_comment);
        }
        let n = self.frames.len();
        let ghost options = self.config@;
        let ghost deep = !self.has_postprocessor();
        let ghost raw = Tree::Text(comment_text(options, comment@));
        if n == 0 {
            proof {
                let answer = Some((options.comment_key, raw));
                let force = forced(self.policy(), options.comment_key);
                assert(self@ == with_entry(old(self)@, raw, answer, force));
            }
            return Ok(());
        }
        let text = if self.config.strip_whitespace {
            trim(comment)
        } else {
            comment.to_owned()
        };
        let value = Value::Text(text);
        let ghost parent = self@.frames[n - 1];
        let ghost before = self@;
        match Self::push_data(
            &self.postprocessor,
            &self.force_list,
            &self.path,
            &mut self.frames[n - 1].entries,
            self.config.comment_key.as_str(),
            value,
        ) {
            Err(e) => {
                proof {
                    assert(self@.frames =~= before.frames);
                }
                Err(e)
            },
            Ok(()) => {
                proof {
                    let (answer, force) = choose|answer: Answer, force: bool|
                        {
                            &&& entries_view(self.frames@[n - 1].entries@) == #[trigger] offered(
                                parent.entries,
                                raw,
                                answer,
                                force,
                            )
                            &&& self.postprocessor is None ==> answer == Some(
                                (options.comment_key, raw),
                            )
                            &&& !(self.force_list@ is Predicate) ==> (answer matches Some(a)
                                ==> force == forced(self.force_list@, a.0))
                        };
                    let merged_frame = FrameView {
                        entries: offered(parent.entries, raw, answer, force),
                        text: parent.text,
                        namespaces: parent.namespaces,
                    };
                    assert(self@.frames =~= before.frames.update(n - 1, merged_frame));
                    lemma_with_entry_valid(before, raw, answer, force, deep);
                }
                Ok(())
            },
        }
    }

    /// The document, once the input has ended: the one complete document
    /// if no element is open and there is exactly one.
    pub fn finish(self) -> (r: Result<Value, XmlError>)
        requires
            self.wf(),
        ensures
            match r {
                Ok(value) => document(self@) == Ok::<Tree, StructuralError>(value@),
                Err(e) => document(self@) matches Err(kind) && e == XmlError::Structure(kind),
            },
            r matches Ok(value) ==> !self.has_postprocessor() ==> well_formed(value@),
    {
        let mut roots = self.roots;
        if self.frames.len() > 0 {
            Err(XmlError::Structure(StructuralError::UnclosedElements))
        } else if roots.len() == 0 {
            Err(XmlError::Structure(StructuralError::NoElementFound))
        } else if roots.len() == 1 {
            match roots.pop() {
                Some(value) => {
                    Ok(value)
                },
                None => Err(XmlError::Structure(StructuralError::NoElementFound)),
            }
        } else {
            Err(XmlError::Structure(StructuralError::UnclosedElements))
        }
    }
}

} // verus!
