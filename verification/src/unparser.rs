//! The writer that turns a tree into markup.

use crate::config::{UnparseConfig, UnparseOptions};
use crate::error::{StructuralError, XmlError};
use crate::escape::{escape_xml, escape_xml_attr, escaped};
use crate::hooks::{settle, Preprocessor};
use crate::markup::{
    all_shaped, attributes_text, bool_text, children_among, children_replies_text, children_text,
    closing_of_empty, deepest_child, deepest_item, depth, element_text, end_tag, extends,
    header_text, indentation, items_text, lemma_children_prefix, lemma_deepest_child,
    lemma_deepest_item, lemma_extends, lemma_extends_twice, lemma_mapping_parts, lemma_no_child,
    lemma_no_child_replies, lemma_no_replies_shaped, lemma_replies_prefix, line_break, mapping_text,
    mapping_with, no_reply, replies_text, reply_text, shaped, text_among, text_element, text_form,
    value_text, wrote, wrote_children, wrote_items, wrote_value, Reply,
};
use crate::text::{followed_by, push_char, starts_with, str_eq, strip_prefix};
use crate::value::{entries_view, items_view, lemma_list_view, lemma_mapping_view, Tree, Value};
use vstd::prelude::*;
use vstd::string::StringExecFns;

verus! {

/// The text that stands for a value in an attribute or as an element's
/// text.
fn scalar_text(value: &Value) -> (r: &str)
    ensures
        r@ == text_form(value@),
{
    match value {
        Value::Text(s) => s.as_str(),
        Value::Bool(true) => {
            proof {
                reveal_strlit("true");
            }
            "true"
        },
        Value::Bool(false) => {
            proof {
                reveal_strlit("false");
            }
            "false"
        },
        _ => {
            proof {
                reveal_strlit("");
            }
            ""
        },
    }
}

/// Writes the markup of a tree into a string, element by element.
pub struct XmlWriter<R> {
    config: UnparseConfig,
    margin: String,
    nesting: Ghost<nat>,
    output: String,
    preprocessor: Option<R>,
}

impl<R: Preprocessor> XmlWriter<R> {
    /// The options that the writer was made with.
    pub closed spec fn options(&self) -> UnparseOptions {
        self.config@
    }

    /// What has been written so far.
    pub closed spec fn written(&self) -> Seq<char> {
        self.output@
    }

    /// The nesting level at which the next element is written.
    pub closed spec fn level(&self) -> nat {
        self.nesting@
    }

    /// Whether the writer holds the indentation of its nesting level.
    pub closed spec fn wf(&self) -> bool {
        self.margin@ == indentation(self.config@, self.nesting@)
    }

    /// How far the writing of an element can go on: with a preprocessor, the
    /// levels that may still be counted; without one, the levels of the
    /// value.
    spec fn steps(&self, levels: nat, fuel: usize) -> nat {
        if self.preprocessor is Some {
            fuel as nat
        } else {
            levels
        }
    }

    /// The nesting level and the indentation that the writer holds.
    spec fn place(&self) -> (nat, Seq<char>) {
        (self.nesting@, self.margin@)
    }

    /// Whether the writer was made with a preprocessor.
    pub closed spec fn has_preprocessor(&self) -> bool {
        self.preprocessor is Some
    }

    /// Whether `other` was made with the same options and hook.
    pub open spec fn same_setup(&self, other: &Self) -> bool {
        self.options() == other.options() && self.has_preprocessor() == other.has_preprocessor()
    }

    /// A writer that has written nothing.
    pub fn new(config: UnparseConfig, preprocessor: Option<R>) -> (r: Self)
        ensures
            r.options() == config@,
            r.written() == Seq::<char>::empty(),
            r.level() == 0,
            r.has_preprocessor() == preprocessor is Some,
            r.wf(),
    {
        Self { config, margin: String::new(), nesting: Ghost(0), output: String::new(), preprocessor }
    }

    /// Appends `s` to the output.
    fn put(&mut self, s: &str)
        ensures
            final(self).written() == old(self).written() + s@,
            final(self).place() == old(self).place(),
            final(self).same_setup(old(self)),
    {
        self.output.append(s);
    }

    /// Appends `c` to the output.
    fn put_char(&mut self, c: char)
        ensures
            final(self).written() == old(self).written() + seq![c],
            final(self).place() == old(self).place(),
            final(self).same_setup(old(self)),
    {
        push_char(&mut self.output, c);
    }

    /// Writes the declaration of a full document; nothing otherwise.
    pub fn write_header(&mut self)
        ensures
            final(self).written() == old(self).written() + header_text(old(self).options()),
            final(self).level() == old(self).level(),
            final(self).wf() == old(self).wf(),
            final(self).same_setup(old(self)),
    {
        if self.config.full_document {
            proof {
                reveal_strlit("<?xml version=\"1.0\" encoding=\"");
                reveal_strlit("\"?>");
            }
            self.output.append("<?xml version=\"1.0\" encoding=\"");
            self.output.append(self.config.encoding.as_str());
            self.output.append("\"?>");
            self.output.append(self.config.newl.as_str());
        }
    }

    /// Writes the indentation of the current nesting level.
    fn write_indent(&mut self)
        requires
            old(self).wf(),
        ensures
            final(self).written() == old(self).written() + indentation(
                old(self).options(),
                old(self).level(),
            ),
            final(self).place() == old(self).place(),
            final(self).same_setup(old(self)),
    {
        self.output.append(self.margin.as_str());
    }

    /// Writes what separates an element from what came before it.
    fn write_break(&mut self, needs_newline: bool)
        requires
            old(self).wf(),
        ensures
            final(self).written() == old(self).written() + line_break(
                old(self).options(),
                needs_newline,
                old(self).level(),
            ),
            final(self).place() == old(self).place(),
            final(self).same_setup(old(self)),
    {
        if self.config.pretty && needs_newline {
            self.output.append(self.config.newl.as_str());
            self.write_indent();
        }
    }

    /// Writes the end tag of `tag`.
    fn write_end_tag(&mut self, tag: &str)
        ensures
            final(self).written() == old(self).written() + end_tag(tag@),
            final(self).place() == old(self).place(),
            final(self).same_setup(old(self)),
    {
        self.put_char('<');
        self.put_char('/');
        self.put(tag);
        self.put_char('>');
    }

    /// Writes what follows the name and the attributes of an element
    /// without content.
    fn write_closing_of_empty(&mut self, tag: &str)
        ensures
            final(self).written() == old(self).written() + closing_of_empty(
                old(self).options(),
                tag@,
            ),
            final(self).place() == old(self).place(),
            final(self).same_setup(old(self)),
    {
        if self.config.short_empty_elements {
            self.put_char('/');
            self.put_char('>');
        } else {
            self.put_char('>');
            self.put_char('<');
            self.put_char('/');
            self.put(tag);
            self.put_char('>');
        }
    }

    /// Writes an element that holds text only. `content` is the text as it
    /// is written.
    fn write_text_element(&mut self, tag: &str, content: &str)
        ensures
            final(self).written() == old(self).written() + text_element(tag@, content@),
            final(self).place() == old(self).place(),
            final(self).same_setup(old(self)),
    {
        self.put_char('<');
        self.put(tag);
        self.put_char('>');
        self.put(content);
        self.write_end_tag(tag);
    }

    /// Hands one element to the preprocessor, where there is one. The
    /// value in the answer is `None` where the value that was offered
    /// stays.
    fn apply_preprocessor(&self, key: &str, data: &Value) -> (r: Result<
        Option<(String, Option<Value>)>,
        XmlError,
    >)
        ensures
            !self.has_preprocessor() ==> (r matches Ok(Some((k, None))) && k@ == key@),
            self.has_preprocessor() ==> (r matches Ok(Some((_, v))) ==> v is Some),
            r matches Err(e) ==> e is Hook && self.has_preprocessor(),
    {
        match &self.preprocessor {
            None => Ok(Some((key.to_owned(), None))),
            Some(hook) => settle(hook.preprocess(key, data)),
        }
    }

    /// Writes the element `tag` with the value `value`.
    ///
    /// The preprocessor is asked about the element first, and about each
    /// element below it in turn: it may rename, replace or leave out any of
    /// them. Without a preprocessor this cannot fail, and what is written
    /// is `element_text`; with one it is `reply_text` of what the
    /// preprocessor made of the element and of those below it, and elements
    /// that the preprocessor makes nest deeper than the machine can count
    /// are refused. Where this fails, what has been written is of no use.
    pub fn write_element(&mut self, tag: &str, value: &Value, needs_newline: bool) -> (r: Result<
        (),
        XmlError,
    >)
        requires
            old(self).wf(),
        ensures
            final(self).same_setup(old(self)),
            extends(final(self).written(), old(self).written()),
            final(self).wf(),
            r is Ok ==> final(self).level() == old(self).level(),
            !old(self).has_preprocessor() ==> r is Ok && final(self).written()
                == old(self).written() + element_text(
                old(self).options(),
                tag@,
                value@,
                needs_newline,
                old(self).level(),
            ),
            r is Ok ==> exists|reply: Reply| #[trigger]
                wrote(
                    old(self).options(),
                    old(self).written(),
                    final(self).written(),
                    reply,
                    needs_newline,
                    old(self).level(),
                ) && (!old(self).has_preprocessor() ==> reply.answer == Some((tag@, value@))),
            r matches Err(e) ==> old(self).has_preprocessor() && (e is Hook || e
                == XmlError::Structure(StructuralError::TooDeep)),
    {
        self.write_node(tag, value, needs_newline, usize::MAX)
    }

    /// Writes an element after asking the preprocessor about it. `fuel`
    /// bounds the levels of nesting where there is a preprocessor.
    fn write_node(&mut self, tag: &str, value: &Value, needs_newline: bool, fuel: usize) -> (r:
        Result<(), XmlError>)
        requires
            old(self).wf(),
        ensures
            final(self).same_setup(old(self)),
            extends(final(self).written(), old(self).written()),
            final(self).wf(),
            r is Ok ==> final(self).place() == old(self).place(),
            !old(self).has_preprocessor() ==> r is Ok && final(self).written()
                == old(self).written() + element_text(
                old(self).options(),
                tag@,
                value@,
                needs_newline,
                old(self).level(),
            ),
            r is Ok ==> exists|reply: Reply| #[trigger]
                wrote(
                    old(self).options(),
                    old(self).written(),
                    final(self).written(),
                    reply,
                    needs_newline,
                    old(self).level(),
                ) && (!old(self).has_preprocessor() ==> reply.answer == Some((tag@, value@))),
            r matches Err(e) ==> old(self).has_preprocessor() && (e is Hook || e
                == XmlError::Structure(StructuralError::TooDeep)),
        decreases old(self).steps(depth(old(self).options(), value@), fuel), 3nat,
    {
        let ghost options = self.options();
        let ghost level = self.level();
        let processed = match self.apply_preprocessor(tag, value) {
            Ok(p) => p,
            Err(e) => {
                assert(self.written().take(self.written().len() as int) == self.written());
                return Err(e);
            },
        };
        match processed {
            None => {
                assert(self.written().take(self.written().len() as int) == self.written());
                proof {
                    assert(self.written() =~= self.written() + reply_text(
                        options,
                        no_reply(),
                        needs_newline,
                        level,
                    ));
                    assert(wrote(
                        options,
                        old(self).written(),
                        self.written(),
                        no_reply(),
                        needs_newline,
                        level,
                    ));
                }
                Ok(())
            },
            Some((final_tag, replaced)) => {
                let ghost offered = match &replaced {
                    Some(v) => v@,
                    None => value@,
                };
                let r = match &replaced {
                    Some(v) => self.write_value(final_tag.as_str(), v, needs_newline, fuel),
                    None => self.write_value(final_tag.as_str(), value, needs_newline, fuel),
                };
                proof {
                    if r is Ok {
                        let below = choose|below: Seq<Reply>| #[trigger]
                            wrote_value(
                                options,
                                old(self).written(),
                                self.written(),
                                final_tag@,
                                offered,
                                below,
                                needs_newline,
                                level,
                            );
                        let reply = Reply { answer: Some((final_tag@, offered)), below };
                        assert(wrote(
                            options,
                            old(self).written(),
                            self.written(),
                            reply,
                            needs_newline,
                            level,
                        ));
                    }
                }
                r
            },
        }
    }

    /// Writes an element as the preprocessor left it. What is written is
    /// `element_text` where there is no preprocessor, and `value_text` of
    /// what the preprocessor made of the elements below where there is one.
    #[verifier::rlimit(60)]
    fn write_value(&mut self, tag: &str, value: &Value, needs_newline: bool, fuel: usize) -> (r:
        Result<(), XmlError>)
        requires
            old(self).wf(),
        ensures
            final(self).same_setup(old(self)),
            extends(final(self).written(), old(self).written()),
            final(self).wf(),
            r is Ok ==> final(self).place() == old(self).place(),
            !old(self).has_preprocessor() ==> r is Ok && final(self).written()
                == old(self).written() + element_text(
                old(self).options(),
                tag@,
                value@,
                needs_newline,
                old(self).level(),
            ),
            r is Ok ==> exists|below: Seq<Reply>| #[trigger]
                wrote_value(
                    old(self).options(),
                    old(self).written(),
                    final(self).written(),
                    tag@,
                    value@,
                    below,
                    needs_newline,
                    old(self).level(),
                ),
            r matches Err(e) ==> old(self).has_preprocessor() && (e is Hook || e
                == XmlError::Structure(StructuralError::TooDeep)),
        decreases old(self).steps(depth(old(self).options(), value@), fuel), 2nat,
    {
        let ghost options = self.options();
        let ghost level = self.level();
        let ghost origin = self.written();
        let ghost none = Seq::<Reply>::empty();
        if self.preprocessor.is_some() && fuel == 0 {
            assert(self.written().take(self.written().len() as int) == self.written());
            return Err(XmlError::Structure(StructuralError::TooDeep));
        }
        self.write_break(needs_newline);
        let ghost start = self.written();
        let ghost gap = line_break(options, needs_newline, level);
        proof {
            lemma_extends(origin, gap);
        }
        match value {
            Value::Null => {
                self.put_char('<');
                self.put(tag);
                self.write_closing_of_empty(tag);
                proof {
                    let whole = element_text(options, tag@, value@, needs_newline, level);
                    assert(self.written() =~= origin + whole);
                    assert(value_text(options, tag@, value@, none, needs_newline, level) == whole);
                    lemma_extends(origin, whole);
                    assert(wrote_value(
                        options,
                        origin,
                        self.written(),
                        tag@,
                        value@,
                        none,
                        needs_newline,
                        level,
                    ));
                }
                Ok(())
            },
            Value::Bool(b) => {
                proof {
                    reveal_strlit("true");
                    reveal_strlit("false");
                }
                let content = if *b {
                    "true"
                } else {
                    "false"
                };
                self.write_text_element(tag, content);
                proof {
                    let whole = element_text(options, tag@, value@, needs_newline, level);
                    assert(content@ =~= bool_text(*b));
                    assert(self.written() =~= origin + whole);
                    assert(value_text(options, tag@, value@, none, needs_newline, level) == whole);
                    lemma_extends(origin, whole);
                    assert(wrote_value(
                        options,
                        origin,
                        self.written(),
                        tag@,
                        value@,
                        none,
                        needs_newline,
                        level,
                    ));
                }
                Ok(())
            },
            Value::Text(s) => {
                let content = escape_xml(s.as_str());
                match &content {
                    std::borrow::Cow::Borrowed(b) => self.write_text_element(tag, b),
                    std::borrow::Cow::Owned(o) => self.write_text_element(tag, o.as_str()),
                }
                proof {
                    let whole = element_text(options, tag@, value@, needs_newline, level);
                    assert(self.written() =~= origin + whole);
                    assert(value_text(options, tag@, value@, none, needs_newline, level) == whole);
                    lemma_extends(origin, whole);
                    assert(wrote_value(
                        options,
                        origin,
                        self.written(),
                        tag@,
                        value@,
                        none,
                        needs_newline,
                        level,
                    ));
                }
                Ok(())
            },
            Value::List(items) => {
                proof {
                    lemma_list_view(*items);
                }
                let r = self.write_items(tag, items, needs_newline, fuel);
                proof {
                    lemma_extends_twice(self.written(), start, origin);
                    if r is Ok {
                        let below = choose|below: Seq<Reply>| #[trigger]
                            wrote_items(
                                options,
                                start,
                                self.written(),
                                items@.len() as nat,
                                below,
                                needs_newline,
                                level,
                            );
                        assert(self.written() =~= origin + value_text(
                            options,
                            tag@,
                            value@,
                            below,
                            needs_newline,
                            level,
                        ));
                        assert(wrote_value(
                            options,
                            origin,
                            self.written(),
                            tag@,
                            value@,
                            below,
                            needs_newline,
                            level,
                        ));
                        if !self.has_preprocessor() {
                            assert(self.written() =~= origin + element_text(
                                options,
                                tag@,
                                value@,
                                needs_newline,
                                level,
                            ));
                        }
                    }
                }
                r
            },
            Value::Mapping(entries) => {
                proof {
                    lemma_mapping_view(*entries);
                }
                let r = self.write_dict_element(tag, entries, fuel);
                proof {
                    lemma_extends_twice(self.written(), start, origin);
                    if r is Ok {
                        let below = choose|below: Seq<Reply>| #[trigger]
                            wrote_value(
                                options,
                                start,
                                self.written(),
                                tag@,
                                value@,
                                below,
                                false,
                                level,
                            );
                        assert(self.written() =~= origin + value_text(
                            options,
                            tag@,
                            value@,
                            below,
                            needs_newline,
                            level,
                        ));
                        assert(wrote_value(
                            options,
                            origin,
                            self.written(),
                            tag@,
                            value@,
                            below,
                            needs_newline,
                            level,
                        ));
                        if !self.has_preprocessor() {
                            assert(self.written() =~= origin + element_text(
                                options,
                                tag@,
                                value@,
                                needs_newline,
                                level,
                            ));
                        }
                    }
                }
                r
            },
        }
    }

    /// Writes the items of a list one after the other, all under the tag
    /// of the list.
    #[verifier::loop_isolation(false)]
    #[verifier::rlimit(60)]
    fn write_items(&mut self, tag: &str, items: &Vec<Value>, needs_newline: bool, fuel: usize) -> (r:
        Result<(), XmlError>)
        requires
            old(self).wf(),
            old(self).has_preprocessor() ==> fuel >= 1,
        ensures
            final(self).same_setup(old(self)),
            extends(final(self).written(), old(self).written()),
            final(self).wf(),
            r is Ok ==> final(self).place() == old(self).place(),
            !old(self).has_preprocessor() ==> r is Ok && final(self).written()
                == old(self).written() + items_text(
                old(self).options(),
                tag@,
                items_view(items@),
                needs_newline,
                old(self).level(),
                items@.len() as nat,
            ),
            r is Ok ==> exists|below: Seq<Reply>| #[trigger]
                wrote_items(
                    old(self).options(),
                    old(self).written(),
                    final(self).written(),
                    items@.len() as nat,
                    below,
                    needs_newline,
                    old(self).level(),
                ),
            r matches Err(e) ==> old(self).has_preprocessor() && (e is Hook || e
                == XmlError::Structure(StructuralError::TooDeep)),
        decreases
                old(self).steps(
                    1 + deepest_item(old(self).options(), items_view(items@), items@.len() as nat),
                    fuel,
                ),
                1nat,
    {
        let ghost options = self.options();
        let ghost level = self.level();
        let ghost all = items_view(items@);
        let ghost start = self.written();
        let ghost exact = !self.has_preprocessor();
        let less = if self.preprocessor.is_some() {
            fuel - 1
        } else {
            fuel
        };
        let ghost mut below: Seq<Reply> = Seq::empty();
        let mut i: usize = 0;
        proof {
            lemma_extends(start, Seq::empty());
            assert(start =~= start + replies_text(options, below, needs_newline, level, 0));
            assert(start =~= start + items_text(options, tag@, all, needs_newline, level, 0));
        }
        while i < items.len()
            invariant
                i <= items@.len(),
                self.same_setup(old(self)),
                self.level() == level,
                extends(self.written(), start),
                below.len() == i,
                all_shaped(below, i as nat),
                self.written() == start + replies_text(options, below, needs_newline, level, i as nat),
                exact ==> self.written() == start + items_text(
                    options,
                    tag@,
                    all,
                    needs_newline,
                    level,
                    i as nat,
                ),
                self.wf(),
                self.place() == old(self).place(),
            decreases items@.len() - i,
        {
            let ghost before = self.written();
            proof {
                lemma_deepest_item(options, all, items@.len() as nat, i as int);
            }
            let r = self.write_node(tag, &items[i], i > 0 || needs_newline, less);
            proof {
                lemma_extends_twice(self.written(), before, start);
            }
            match r {
                Ok(()) => {},
                Err(e) => {
                    return Err(e);
                },
            }
            proof {
                let apart = i > 0 || needs_newline;
                let reply = choose|reply: Reply| #[trigger]
                    wrote(options, before, self.written(), reply, apart, level);
                let longer = below.push(reply);
                lemma_replies_prefix(options, below, longer, needs_newline, level, i as nat);
                assert(longer[i as int] == reply);
                assert(self.written() =~= start + replies_text(
                    options,
                    longer,
                    needs_newline,
                    level,
                    (i + 1) as nat,
                ));
                assert(all_shaped(longer, (i + 1) as nat));
                below = longer;
            }
            i += 1;
        }
        proof {
            assert(wrote_items(
                                options,
                                start,
                                self.written(),
                                items@.len() as nat,
                                below,
                                needs_newline,
                                level,
                            ));
        }
        Ok(())
    }

    /// Writes one attribute of a start tag. `name` is the key without the
    /// attribute prefix.
    fn write_attribute(&mut self, name: &str, value: &Value)
        ensures
            final(self).written() == old(self).written() + seq![' '] + name@ + seq!['=', '"']
                + escaped(text_form(value@), true) + seq!['"'],
            final(self).place() == old(self).place(),
            final(self).same_setup(old(self)),
    {
        self.put_char(' ');
        self.put(name);
        self.put_char('=');
        self.put_char('"');
        let content = escape_xml_attr(scalar_text(value));
        match &content {
            std::borrow::Cow::Borrowed(b) => self.put(b),
            std::borrow::Cow::Owned(o) => self.put(o.as_str()),
        }
        self.put_char('"');
    }

    /// Writes the name and the attributes of a start tag. Hands back where
    /// the element's text stands among the entries, if it has one, and how
    /// many of the entries are child elements.
    fn write_start(&mut self, tag: &str, entries: &Vec<(String, Value)>) -> (r: (Option<usize>, usize))
        ensures
            final(self).same_setup(old(self)),
            final(self).place() == old(self).place(),
            final(self).written() == old(self).written() + seq!['<'] + tag@ + attributes_text(
                old(self).options(),
                entries_view(entries@),
                entries@.len() as nat,
            ),
            r.1 == children_among(
                old(self).options(),
                entries_view(entries@),
                entries@.len() as nat,
            ),
            match r.0 {
                Some(k) => k < entries@.len() && text_among(
                    old(self).options(),
                    entries_view(entries@),
                    entries@.len() as nat,
                ) == Some(text_form(entries@[k as int].1@)),
                None => text_among(
                    old(self).options(),
                    entries_view(entries@),
                    entries@.len() as nat,
                ) is None,
            },
    {
        let ghost options = self.options();
        let ghost all = entries_view(entries@);
        self.put_char('<');
        self.put(tag);
        let ghost start = self.written();
        let mut text_at: Option<usize> = None;
        let mut children: usize = 0;
        let mut i: usize = 0;
        while i < entries.len()
            invariant
                i <= entries@.len(),
                all == entries_view(entries@),
                options == self.options(),
                self.same_setup(old(self)),
                self.place() == old(self).place(),
                self.written() == start + attributes_text(options, all, i as nat),
                children == children_among(options, all, i as nat),
                children <= i,
                match text_at {
                    Some(k) => k < i && text_among(options, all, i as nat) == Some(
                        text_form(entries@[k as int].1@),
                    ),
                    None => text_among(options, all, i as nat) is None,
                },
            decreases entries@.len() - i,
        {
            let key = entries[i].0.as_str();
            match strip_prefix(key, self.config.attr_prefix.as_str()) {
                Some(name) => {
                    self.write_attribute(name.as_str(), &entries[i].1);
                },
                None => {
                    if str_eq(key, self.config.cdata_key.as_str()) {
                        text_at = Some(i);
                    } else {
                        children += 1;
                    }
                },
            }
            i += 1;
        }
        (text_at, children)
    }

    /// Writes the child elements among `entries` one level deeper.
    #[verifier::loop_isolation(false)]
    #[verifier::rlimit(60)]
    fn write_children(&mut self, entries: &Vec<(String, Value)>, fuel: usize) -> (r: Result<
        (),
        XmlError,
    >)
        requires
            old(self).wf(),
            old(self).has_preprocessor() ==> fuel >= 1,
        ensures
            final(self).same_setup(old(self)),
            extends(final(self).written(), old(self).written()),
            final(self).wf(),
            r is Ok ==> final(self).place() == old(self).place(),
            !old(self).has_preprocessor() ==> r is Ok && final(self).written()
                == old(self).written() + children_text(
                old(self).options(),
                entries_view(entries@),
                old(self).level() + 1,
                entries@.len() as nat,
            ),
            r is Ok ==> exists|below: Seq<Reply>| #[trigger]
                wrote_children(
                    old(self).options(),
                    old(self).written(),
                    final(self).written(),
                    entries_view(entries@),
                    below,
                    old(self).level() + 1,
                ),
            r matches Err(e) ==> old(self).has_preprocessor() && (e is Hook || e
                == XmlError::Structure(StructuralError::TooDeep)),
        decreases
                old(self).steps(
                    1 + deepest_child(
                        old(self).options(),
                        entries_view(entries@),
                        entries@.len() as nat,
                    ),
                    fuel,
                ),
                0nat,
    {
        let ghost options = self.options();
        let ghost level = self.level();
        let ghost all = entries_view(entries@);
        let ghost total = entries@.len() as nat;
        let ghost exact = !self.has_preprocessor();
        let ghost body = self.written();
        let less = if self.preprocessor.is_some() {
            fuel - 1
        } else {
            fuel
        };
        let outer = self.margin.clone();
        self.margin = followed_by(outer.as_str(), self.config.indent.as_str());
        self.nesting = Ghost(level + 1);
        let ghost inner = self.place();
        let mut seen: usize = 0;
        let mut j: usize = 0;
        let ghost mut below: Seq<Reply> = Seq::empty();
        proof {
            lemma_extends(body, Seq::empty());
            assert(body =~= body + children_replies_text(options, all, below, level + 1, 0));
        }
        while j < entries.len()
            invariant
                j <= entries@.len(),
                below.len() == j,
                all_shaped(below, j as nat),
                self.written() == body + children_replies_text(
                    options,
                    all,
                    below,
                    level + 1,
                    j as nat,
                ),
                self.same_setup(old(self)),
                self.level() == level + 1,
                seen == children_among(options, all, j as nat),
                seen <= j,
                extends(self.written(), body),
                exact ==> self.written() == body + children_text(options, all, level + 1, j as nat),
                self.wf(),
                self.place() == inner,
                outer@ == old(self).margin@,
            decreases entries@.len() - j,
        {
            let key = entries[j].0.as_str();
            if !starts_with(key, self.config.attr_prefix.as_str()) && !str_eq(
                key,
                self.config.cdata_key.as_str(),
            ) {
                let ghost before = self.written();
                proof {
                    lemma_deepest_child(options, all, total, j as int);
                }
                let r = self.write_node(key, &entries[j].1, seen > 0 || self.config.pretty, less);
                proof {
                    lemma_extends_twice(self.written(), before, body);
                }
                match r {
                    Ok(()) => {},
                    Err(e) => {
                        return Err(e);
                    },
                }
                proof {
                    let apart = seen > 0 || options.pretty;
                    let reply = choose|reply: Reply| #[trigger]
                        wrote(options, before, self.written(), reply, apart, level + 1);
                    let longer = below.push(reply);
                    lemma_children_prefix(options, all, below, longer, level + 1, j as nat);
                    lemma_replies_prefix(options, below, longer, false, level, j as nat);
                    assert(longer[j as int] == reply);
                    assert(self.written() =~= body + children_replies_text(
                        options,
                        all,
                        longer,
                        level + 1,
                        (j + 1) as nat,
                    ));
                    assert(all_shaped(longer, (j + 1) as nat));
                    below = longer;
                }
                seen += 1;
            } else {
                proof {
                    let longer = below.push(no_reply());
                    lemma_children_prefix(options, all, below, longer, level + 1, j as nat);
                    lemma_replies_prefix(options, below, longer, false, level, j as nat);
                    assert(longer[j as int] == no_reply());
                    assert(shaped(no_reply()));
                    assert(self.written() == body + children_replies_text(
                        options,
                        all,
                        longer,
                        level + 1,
                        (j + 1) as nat,
                    ));
                    assert(all_shaped(longer, (j + 1) as nat));
                    below = longer;
                }
            }
            j += 1;
        }
        self.margin = outer;
        self.nesting = Ghost(level);
        proof {
            assert(wrote_children(
                options,
                old(self).written(),
                self.written(),
                all,
                below,
                level + 1,
            ));
        }
        Ok(())
    }

    /// Writes an element whose value is a mapping: the start tag with the
    /// attributes, then the text, then the children one level deeper, then
    /// the end tag.
    #[verifier::rlimit(60)]
    fn write_dict_element(&mut self, tag: &str, entries: &Vec<(String, Value)>, fuel: usize) -> (r:
        Result<(), XmlError>)
        requires
            old(self).wf(),
            old(self).has_preprocessor() ==> fuel >= 1,
        ensures
            final(self).same_setup(old(self)),
            extends(final(self).written(), old(self).written()),
            final(self).wf(),
            r is Ok ==> final(self).place() == old(self).place(),
            !old(self).has_preprocessor() ==> r is Ok && final(self).written()
                == old(self).written() + mapping_text(
                old(self).options(),
                tag@,
                entries_view(entries@),
                old(self).level(),
            ),
            r is Ok ==> exists|below: Seq<Reply>| #[trigger]
                wrote_value(
                    old(self).options(),
                    old(self).written(),
                    final(self).written(),
                    tag@,
                    Tree::Mapping(entries_view(entries@)),
                    below,
                    false,
                    old(self).level(),
                ),
            r matches Err(e) ==> old(self).has_preprocessor() && (e is Hook || e
                == XmlError::Structure(StructuralError::TooDeep)),
        decreases
                old(self).steps(
                    1 + deepest_child(
                        old(self).options(),
                        entries_view(entries@),
                        entries@.len() as nat,
                    ),
                    fuel,
                ),
                1nat,
    {
        let ghost options = self.options();
        let ghost level = self.level();
        let ghost all = entries_view(entries@);
        let ghost total = entries@.len() as nat;
        let ghost exact = !self.has_preprocessor();
        let (text_at, children) = self.write_start(tag, entries);
        let ghost start = self.written();
        proof {
            lemma_extends(
                old(self).written(),
                seq!['<'] + tag@ + attributes_text(options, all, total),
            );
            assert(start =~= old(self).written() + (seq!['<'] + tag@ + attributes_text(
                options,
                all,
                total,
            )));
        }
        if children == 0 && text_at.is_none() {
            self.write_closing_of_empty(tag);
            proof {
                lemma_extends(start, closing_of_empty(options, tag@));
                lemma_extends_twice(self.written(), start, old(self).written());
                lemma_no_child(options, all, total);
                let none = Seq::new(total, |i: int| no_reply());
                lemma_no_replies_shaped(none, total);
                assert(self.written() =~= old(self).written() + value_text(
                    options,
                    tag@,
                    Tree::Mapping(all),
                    none,
                    false,
                    level,
                ));
                assert(wrote_value(
                    options,
                    old(self).written(),
                    self.written(),
                    tag@,
                    Tree::Mapping(all),
                    none,
                    false,
                    level,
                ));
            }
            return Ok(());
        }
        self.put_char('>');
        match text_at {
            Some(k) => {
                let content = escape_xml(scalar_text(&entries[k].1));
                match &content {
                    std::borrow::Cow::Borrowed(b) => self.put(b),
                    std::borrow::Cow::Owned(o) => self.put(o.as_str()),
                }
            },
            None => {},
        }
        let ghost text_part = match text_among(options, all, total) {
            Some(t) => escaped(t, false),
            None => Seq::empty(),
        };
        let ghost body = self.written();
        proof {
            assert(body =~= start + (seq!['>'] + text_part));
            lemma_extends(start, seq!['>'] + text_part);
            lemma_extends_twice(body, start, old(self).written());
        }
        let ghost mut below: Seq<Reply> = Seq::new(total, |i: int| no_reply());
        if children > 0 {
            let r = self.write_children(entries, fuel);
            proof {
                lemma_extends_twice(self.written(), body, old(self).written());
            }
            match r {
                Ok(()) => {},
                Err(e) => {
                    return Err(e);
                },
            }
            proof {
                below = choose|below: Seq<Reply>| #[trigger]
                    wrote_children(options, body, self.written(), all, below, level + 1);
            }
        } else {
            proof {
                lemma_no_child(options, all, total);
                lemma_no_replies_shaped(below, total);
                lemma_no_child_replies(options, all, below, level + 1, total);
                assert(self.written() =~= body + children_replies_text(
                    options,
                    all,
                    below,
                    level + 1,
                    total,
                ));
            }
        }
        let ghost inside = children_replies_text(options, all, below, level + 1, total);
        assert(wrote_children(options, body, self.written(), all, below, level + 1));
        let ghost mid = self.written();
        let ghost closing = if children > 0 {
            line_break(options, true, level)
        } else {
            Seq::empty()
        };
        if children > 0 {
            self.write_break(true);
        }
        let ghost inner = self.written();
        proof {
            lemma_extends(mid, closing);
            lemma_extends_twice(inner, mid, old(self).written());
        }
        self.write_end_tag(tag);
        proof {
            lemma_extends(inner, end_tag(tag@));
            lemma_extends_twice(self.written(), inner, old(self).written());
            if exact {
                lemma_mapping_parts(
                    old(self).written(),
                    seq!['<'] + tag@ + attributes_text(options, all, total),
                    text_part,
                    children_text(options, all, level + 1, total),
                    closing,
                    end_tag(tag@),
                );
            }
            lemma_mapping_parts(
                old(self).written(),
                seq!['<'] + tag@ + attributes_text(options, all, total),
                text_part,
                inside,
                closing,
                end_tag(tag@),
            );
            assert(value_text(options, tag@, Tree::Mapping(all), below, false, level)
                =~= mapping_with(options, tag@, all, level, inside));
            assert(wrote_value(
                options,
                old(self).written(),
                self.written(),
                tag@,
                Tree::Mapping(all),
                below,
                false,
                level,
            ));
        }
        Ok(())
    }

    /// What has been written.
    pub fn finish(self) -> (r: String)
        ensures
            r@ == self.written(),
    {
        self.output
    }
}

} // verus!
